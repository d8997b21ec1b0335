//! The vector-tile geometry: mapping the address points of a tile's
//! geographic window onto the tile's fixed pixel grid.

use vstd::prelude::*;

use crate::geom::Bounds;
use crate::index::Index;

verus! {

/// The tile pixel grid is `TILE_EXTENT` units on each side.
pub const TILE_EXTENT: u32 = 4096;

/// `round(TILE_EXTENT * a / w)`, half away from zero, for `0 <= a <= w`,
/// `w > 0`: where a coordinate `a` into a window of width `w` lands on the
/// pixel grid.
pub open spec fn pixel_frac(a: int, w: int) -> int {
    (2 * 4096 * a + w) / (2 * w)
}

/// Map one coordinate into pixel space: `x` pixels grow with the
/// coordinate.
pub fn pixel_of(v: i64, lo: i64, hi: i64) -> (r: u32)
    requires
        lo < hi,
        lo <= v <= hi,
    ensures
        r == pixel_frac(v - lo, hi - lo),
        r <= 4096,
{
    pixel_div(((v as i128) - (lo as i128)) as i128, ((hi as i128) - (lo as i128)) as i128)
}

/// Map one coordinate into pixel space upside down: `y` pixels grow
/// downwards while the coordinate grows upwards.
pub fn pixel_of_flipped(v: i64, lo: i64, hi: i64) -> (r: u32)
    requires
        lo < hi,
        lo <= v <= hi,
    ensures
        r == pixel_frac(hi - v, hi - lo),
        r <= 4096,
{
    pixel_div(((hi as i128) - (v as i128)) as i128, ((hi as i128) - (lo as i128)) as i128)
}

/// The rounded division behind the pixel mapping.
fn pixel_div(a: i128, w: i128) -> (r: u32)
    requires
        0 < w <= 0x1_0000_0000_0000_0000,
        0 <= a <= w,
    ensures
        r == pixel_frac(a as int, w as int),
        r <= 4096,
{
    let num: i128 = 8192 * a + w;
    let den: i128 = 2 * w;
    let px = num / den;
    proof {
        vstd::arithmetic::div_mod::lemma_fundamental_div_mod(num as int, den as int);
        assert(0 <= num / den <= 4096) by (nonlinear_arith)
            requires
                num == 8192 * (a as int) + w,
                den == 2 * (w as int),
                0 <= a <= w,
                0 < w,
                num == den * (num / den) + num % den,
                0 <= num % den < den,
        ;
    }
    px as u32
}

/// The pixel positions of the indexed address points inside the window
/// `q`, one pair per query record, in query order: `x` from the left edge,
/// `y` down from the top edge.
pub open spec fn spec_tile_points(idx: Index, q: Bounds) -> Seq<(u32, u32)> {
    idx.spec_query(q).map_values(
        |rec: crate::index::RecordSpec|
            (
                (pixel_frac(rec.point.x - q.min_x, q.max_x - q.min_x) as u32),
                (pixel_frac(q.max_y - rec.point.y, q.max_y - q.min_y) as u32),
            ),
    )
}

/// Map every address point of the window onto the tile's pixel grid.
pub fn tile_points(idx: &Index, q: &Bounds) -> (r: Vec<(u32, u32)>)
    requires
        idx.wf(),
        q.min_x < q.max_x,
        q.min_y < q.max_y,
    ensures
        r@ =~= spec_tile_points(*idx, *q),
        forall|t: int| 0 <= t < r@.len() ==> (#[trigger] r@[t]).0 <= 4096 && r@[t].1 <= 4096,
{
    let records = idx.query(q);
    let ghost recs = idx.spec_query(*q);
    let n = records.len();
    let mut r: Vec<(u32, u32)> = Vec::new();
    let mut t: usize = 0;
    while t < n
        invariant
            0 <= t <= n,
            idx.wf(),
            q.min_x < q.max_x,
            q.min_y < q.max_y,
            n == records@.len(),
            records@.map_values(|ap: crate::index::AddressPoint| crate::index::record_view(ap))
                =~= recs,
            recs == idx.spec_query(*q),
            r@.len() == t,
            forall|x: int|
                0 <= x < t ==> (#[trigger] r@[x]) == (
                    (pixel_frac(recs[x].point.x - q.min_x, q.max_x - q.min_x) as u32),
                    (pixel_frac(q.max_y - recs[x].point.y, q.max_y - q.min_y) as u32),
                ),
            forall|x: int| 0 <= x < t ==> (#[trigger] r@[x]).0 <= 4096 && r@[x].1 <= 4096,
        decreases n - t,
    {
        let p = records[t].point;
        proof {
            assert(crate::index::record_view(records@[t as int]).point == recs[t as int].point);
            crate::index::lemma_query_point_in_window(idx, *q, t as int);
        }
        let px = pixel_of(p.x, q.min_x, q.max_x);
        let py = pixel_of_flipped(p.y, q.min_y, q.max_y);
        r.push((px, py));
        t += 1;
    }
    proof {
        assert(r@ =~= spec_tile_points(*idx, *q));
    }
    r
}

#[verifier::external_type_specification]
#[verifier::external_body]
pub struct ExTile(mvt::Tile);

#[verifier::external_type_specification]
#[verifier::external_body]
pub struct ExLayer(mvt::Layer);

#[verifier::external_type_specification]
#[verifier::external_body]
pub struct ExGeomData(mvt::GeomData);

#[verifier::external_type_specification]
#[verifier::external_body]
pub struct ExMvtError(mvt::Error);

/// The single pixel point a point geometry encodes.
pub uninterp spec fn geom_point(g: mvt::GeomData) -> (u32, u32);

/// The pixel points of a layer's features, in insertion order.
pub uninterp spec fn layer_points(l: mvt::Layer) -> Seq<(u32, u32)>;

/// The point layers a tile holds, in insertion order.
pub uninterp spec fn tile_model(t: mvt::Tile) -> Seq<Seq<(u32, u32)>>;

/// The pixel-grid extent a tile was created with.
pub uninterp spec fn tile_grid_extent(t: mvt::Tile) -> u32;

/// The pixel-grid extent a layer carries, checked when it is added back.
pub uninterp spec fn layer_grid_extent(l: mvt::Layer) -> u32;

/// The name a layer was created under.
pub uninterp spec fn layer_name(l: mvt::Layer) -> Seq<char>;

/// The names of the layers a tile holds, in insertion order.
pub uninterp spec fn tile_layer_names(t: mvt::Tile) -> Seq<Seq<char>>;

/// The binary wire form of a tile of the given extent holding the given
/// point layers under the given names, every feature id zero.
pub uninterp spec fn tile_wire(extent: u32, names: Seq<Seq<char>>, layers: Seq<Seq<(u32, u32)>>) -> Seq<u8>;

/// Relies on `Tile::new`: a fresh tile holds no layer.
#[verifier::external_body]
fn mvt_tile_new(extent: u32) -> (t: mvt::Tile)
    ensures
        tile_model(t) == Seq::<Seq<(u32, u32)>>::empty(),
        tile_layer_names(t) == Seq::<Seq<char>>::empty(),
        tile_grid_extent(t) == extent,
{
    mvt::Tile::new(extent)
}

/// Relies on `Tile::create_layer`: an empty layer carrying the tile's own
/// extent, so adding it back to the same tile cannot fail the extent check.
#[verifier::external_body]
fn mvt_create_layer(t: &mvt::Tile, name: &str) -> (l: mvt::Layer)
    ensures
        layer_points(l) == Seq::<(u32, u32)>::empty(),
        layer_grid_extent(l) == tile_grid_extent(*t),
        layer_name(l) == name@,
{
    t.create_layer(name)
}

/// Relies on `GeomEncoder::new`, `point` and `encode` over integer
/// coordinates: for a single point geometry every step returns `Ok`, and
/// the data holds exactly that point.
#[verifier::external_body]
fn mvt_encode_point(x: u32, y: u32) -> (r: Result<mvt::GeomData, mvt::Error>)
    requires
        x <= 4096,
        y <= 4096,
    ensures
        r is Ok,
        (r matches Ok(g) ==> geom_point(g) == (x, y)),
{
    let enc = mvt::GeomEncoder::<i32>::new(mvt::GeomType::Point).point(x as i32, y as i32)?;
    enc.encode()
}

/// Relies on `Layer::into_feature`, `Feature::set_id` and
/// `Feature::into_layer`: appends one single-point feature to the layer.
#[verifier::external_body]
fn mvt_add_point_feature(l: mvt::Layer, g: mvt::GeomData, id: u64) -> (r: mvt::Layer)
    requires
        id == 0,
    ensures
        layer_points(r) == layer_points(l).push(geom_point(g)),
        layer_grid_extent(r) == layer_grid_extent(l),
        layer_name(r) == layer_name(l),
{
    let mut feature = l.into_feature(g);
    feature.set_id(id);
    feature.into_layer()
}

/// Relies on `Tile::add_layer`: a layer that was created from this very
/// tile, added while the tile is still empty, passes both the extent check
/// and the duplicate-name check.
#[verifier::external_body]
fn mvt_add_layer(t: &mut mvt::Tile, l: mvt::Layer) -> (r: Result<(), mvt::Error>)
    requires
        tile_model(*old(t)) == Seq::<Seq<(u32, u32)>>::empty(),
        layer_grid_extent(l) == tile_grid_extent(*old(t)),
    ensures
        r is Ok,
        tile_model(*final(t)) == tile_model(*old(t)).push(layer_points(l)),
        tile_layer_names(*final(t)) == tile_layer_names(*old(t)).push(layer_name(l)),
        tile_grid_extent(*final(t)) == tile_grid_extent(*old(t)),
{
    t.add_layer(l)
}

/// Relies on `Tile::to_bytes`: serializes the tile to its protobuf wire
/// form, a function of the tile's contents alone, and never fails.
#[verifier::external_body]
fn mvt_tile_bytes(t: &mvt::Tile) -> (r: Result<Vec<u8>, mvt::Error>)
    ensures
        r is Ok,
        (r matches Ok(b) ==> b@ == tile_wire(
            tile_grid_extent(*t),
            tile_layer_names(*t),
            tile_model(*t),
        )),
{
    t.to_bytes()
}

/// Why a tile request fails: a zoom past the limit is the caller's error,
/// a geometry-encoding failure the server's.
#[derive(Clone, Copy, PartialEq, Eq, Structural, Debug)]
pub enum TileError {
    /// The zoom level is above the deepest tile level served.
    ZoomTooHigh,
    /// Encoding the tile failed; no partial tile is returned.
    Encode,
}

/// Render the tile for zoom `z` over the geographic window `w`: refused
/// above zoom 17; one layer named after the data either way, holding one
/// single-vertex point feature per indexed address point in the window when
/// `z` is deeper than 10, and nothing otherwise; the result is the tile's
/// binary wire form.
pub fn build_tile(idx: &Index, z: u8, w: &Bounds) -> (r: Result<Vec<u8>, TileError>)
    requires
        idx.wf(),
        w.min_x < w.max_x,
        w.min_y < w.max_y,
    ensures
        z > 17 ==> (r matches Err(e) && e == TileError::ZoomTooHigh),
        z <= 17 ==> (r matches Ok(bytes) && bytes@ == tile_wire(
            4096,
            seq!["data"@],
            seq![
                if z > 10 {
                    spec_tile_points(*idx, *w)
                } else {
                    Seq::<(u32, u32)>::empty()
                },
            ],
        )),
{
    if z > 17 {
        return Err(TileError::ZoomTooHigh);
    }

    let mut tile = mvt_tile_new(TILE_EXTENT);
    let mut layer = mvt_create_layer(&tile, "data");

    if z > 10 {
        let pts = tile_points(idx, w);
        let n = pts.len();
        let mut k: usize = 0;
        while k < n
            invariant
                0 <= k <= n,
                n == pts@.len(),
                pts@ == spec_tile_points(*idx, *w),
                forall|t: int| 0 <= t < n ==> (#[trigger] pts@[t]).0 <= 4096 && pts@[t].1 <= 4096,
                layer_points(layer) =~= pts@.take(k as int),
                layer_grid_extent(layer) == tile_grid_extent(tile),
                layer_name(layer) == "data"@,
                tile_grid_extent(tile) == 4096,
                tile_model(tile) == Seq::<Seq<(u32, u32)>>::empty(),
                tile_layer_names(tile) == Seq::<Seq<char>>::empty(),
            decreases n - k,
        {
            let (px, py) = pts[k];
            match mvt_encode_point(px, py) {
                Ok(g) => {
                    layer = mvt_add_point_feature(layer, g, 0);
                    proof {
                        assert(layer_points(layer) =~= pts@.take(k + 1));
                    }
                },
                Err(_) => {
                    return Err(TileError::Encode);
                },
            }
            k += 1;
        }
        proof {
            assert(pts@.take(n as int) =~= pts@);
        }
    }

    match mvt_add_layer(&mut tile, layer) {
        Ok(_) => {},
        Err(_) => {
            return Err(TileError::Encode);
        },
    }
    match mvt_tile_bytes(&tile) {
        Ok(bytes) => {
            proof {
                assert(tile_layer_names(tile) =~= seq!["data"@]);
                if z > 10 {
                    assert(tile_model(tile) =~= seq![spec_tile_points(*idx, *w)]);
                } else {
                    assert(tile_model(tile) =~= seq![Seq::<(u32, u32)>::empty()]);
                }
            }
            Ok(bytes)
        },
        Err(_) => Err(TileError::Encode),
    }
}

} // verus!
