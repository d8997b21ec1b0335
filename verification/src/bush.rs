//! The static spatial index: bulk-built once from the ordered sequence of
//! cluster bounding boxes, immutable afterwards, answering range queries
//! with the ids of every box that intersects the query window.
//!
//! The packed hierarchical structure itself comes from an outside crate; the
//! library holds it behind a box-contents model and hands the raw candidate
//! set back sorted, under an exact membership contract.

use vstd::prelude::*;

use crate::geom::Bounds;
use crate::rank::{ranked_before, rank_order};

verus! {

/// The packed tree of the outside crate, held whole behind an opaque
/// wrapper: its coordinates are the library's fixed-point integers.
#[verifier::external_body]
pub struct RawBush {
    inner: static_bushes::FlatBush<i64>,
}

/// The outside crate's bulk-load builder, held the same way.
#[verifier::external_body]
pub struct RawBushBuilder {
    inner: static_bushes::FlatBushBuilder<i64>,
}

/// The boxes a builder has taken so far, in insertion order, as
/// `(min_x, min_y, max_x, max_y)` tuples.
pub uninterp spec fn builder_boxes(b: RawBushBuilder) -> Seq<(i64, i64, i64, i64)>;

/// The boxes a finished structure holds, in insertion order; position is
/// the leaf id.
pub uninterp spec fn flatbush_boxes(fb: RawBush) -> Seq<(i64, i64, i64, i64)>;

/// Relies on `FlatBushBuilder::new`: a fresh builder holds no box.
#[verifier::external_body]
fn fb_builder_new() -> (r: RawBushBuilder)
    ensures
        builder_boxes(r) == Seq::<(i64, i64, i64, i64)>::empty(),
{
    RawBushBuilder { inner: static_bushes::FlatBushBuilder::new() }
}

/// Relies on `FlatBushBuilder::add`: appends one box, whose id is its
/// position.
#[verifier::external_body]
fn fb_builder_add(b: &mut RawBushBuilder, bx: (i64, i64, i64, i64))
    ensures
        builder_boxes(*final(b)) == builder_boxes(*old(b)).push(bx),
{
    b.inner.add([bx.0, bx.1, bx.2, bx.3]);
}

/// Relies on `FlatBushBuilder::finish`: bulk-builds the packed tree over
/// exactly the added boxes, keeping their ids.
#[verifier::external_body]
fn fb_builder_finish(b: RawBushBuilder) -> (r: RawBush)
    ensures
        flatbush_boxes(r) == builder_boxes(b),
{
    RawBush { inner: b.inner.finish() }
}

/// Relies on `FlatBush::search_range`: the traversal prunes on node boxes
/// and tests every remaining leaf box exactly, so it yields each id whose
/// box touches the query window — borders included — once, in tree order.
#[verifier::external_body]
fn fb_search(fb: &RawBush, min_x: i64, min_y: i64, max_x: i64, max_y: i64) -> (r: Vec<usize>)
    ensures
        r@.no_duplicates(),
        forall|t: int| 0 <= t < r@.len() ==> (#[trigger] r@[t]) < flatbush_boxes(*fb).len(),
        forall|c: usize|
            c < flatbush_boxes(*fb).len() ==> (#[trigger] r@.contains(c) <==> {
                let bx = flatbush_boxes(*fb)[c as int];
                !(max_x < bx.0 || max_y < bx.1 || min_x > bx.2 || min_y > bx.3)
            }),
{
    fb.inner.search_range(min_x, min_y, max_x, max_y).collect()
}

/// Accumulates the cluster bounding boxes, in insertion order, until the
/// index is built.
pub struct StaticBushBuilder {
    inner: RawBushBuilder,
}

/// The finished index: box number `i` belongs to cluster number `i`.
pub struct StaticBush {
    inner: RawBush,
}

/// A box tuple read back as a rectangle.
pub open spec fn tuple_bounds(t: (i64, i64, i64, i64)) -> Bounds {
    Bounds { min_x: t.0, min_y: t.1, max_x: t.2, max_y: t.3 }
}

impl StaticBushBuilder {
    /// The boxes added so far, in insertion order.
    pub closed spec fn view(&self) -> Seq<Bounds> {
        builder_boxes(self.inner).map_values(|t: (i64, i64, i64, i64)| tuple_bounds(t))
    }

    /// An empty builder.
    pub fn new() -> (r: StaticBushBuilder)
        ensures
            r@ =~= Seq::<Bounds>::empty(),
    {
        StaticBushBuilder { inner: fb_builder_new() }
    }

    /// Add the bounding box of the next cluster; its id is its position.
    pub fn add(&mut self, b: Bounds)
        ensures
            final(self)@ =~= old(self)@.push(b),
    {
        fb_builder_add(&mut self.inner, (b.min_x, b.min_y, b.max_x, b.max_y));
    }

    /// Freeze the builder into the finished index.
    pub fn finish(self) -> (r: StaticBush)
        ensures
            r@ =~= self@,
    {
        StaticBush { inner: fb_builder_finish(self.inner) }
    }
}

impl StaticBush {
    /// The indexed boxes; box `i` is cluster `i`'s bounding box.
    pub closed spec fn view(&self) -> Seq<Bounds> {
        flatbush_boxes(self.inner).map_values(|t: (i64, i64, i64, i64)| tuple_bounds(t))
    }

    /// The ids of exactly those boxes that intersect the query window, in
    /// ascending order.
    pub fn search_range(&self, min_x: i64, min_y: i64, max_x: i64, max_y: i64) -> (r: Vec<usize>)
        ensures
            forall|t: int| 0 <= t < r@.len() ==> (#[trigger] r@[t]) < self@.len(),
            forall|t: int, u: int| 0 <= t < u < r@.len() ==> r@[t] < r@[u],
            forall|c: usize|
                c < self@.len() ==> (#[trigger] r@.contains(c) <==> self@[c as int].spec_intersects(
                    (Bounds { min_x, min_y, max_x, max_y }),
                )),
    {
        let ghost q = Bounds { min_x, min_y, max_x, max_y };
        let raw = fb_search(&self.inner, min_x, min_y, max_x, max_y);
        proof {
            assert forall|c: usize| c < self@.len() implies (#[trigger] raw@.contains(c)
                <==> self@[c as int].spec_intersects(q)) by {
                let bx = flatbush_boxes(self.inner)[c as int];
                assert(self@[c as int] == tuple_bounds(bx));
            }
        }
        // hand the unordered candidate set back in ascending id order
        let n = raw.len();
        let mut keys: Vec<u64> = Vec::new();
        let mut t: usize = 0;
        while t < n
            invariant
                0 <= t <= n,
                n == raw@.len(),
                keys@.len() == t,
                forall|x: int| 0 <= x < t ==> (#[trigger] keys@[x]) == raw@[x] as u64,
            decreases n - t,
        {
            keys.push(raw[t] as u64);
            t += 1;
        }
        let order = rank_order(&keys);
        let mut r: Vec<usize> = Vec::new();
        let mut t: usize = 0;
        while t < n
            invariant
                0 <= t <= n,
                n == raw@.len(),
                order@.len() == n,
                keys@.len() == n,
                forall|x: int| 0 <= x < n ==> (#[trigger] keys@[x]) == raw@[x] as u64,
                forall|x: int| 0 <= x < n ==> (#[trigger] order@[x]) < n,
                r@.len() == t,
                forall|x: int| 0 <= x < t ==> (#[trigger] r@[x]) == raw@[order@[x] as int],
            decreases n - t,
        {
            let idx = order[t];
            r.push(raw[idx]);
            t += 1;
        }
        proof {
            assert forall|t0: int, u0: int| 0 <= t0 < u0 < r@.len() implies r@[t0] < r@[u0] by {
                assert(ranked_before(keys@, order@[t0] as int, order@[u0] as int));
                let a = order@[t0] as int;
                let b = order@[u0] as int;
                assert(keys@[a] <= keys@[b]);
                if keys@[a] == keys@[b] {
                    assert(a < b);
                    assert(raw@.no_duplicates());
                    assert(raw@[a] != raw@[b]);
                    assert((raw@[a] as u64) == (raw@[b] as u64));
                    assert(false);
                }
                assert((raw@[a] as u64) < (raw@[b] as u64));
            }
            assert forall|c: usize| c < self@.len() implies (#[trigger] r@.contains(c)
                <==> self@[c as int].spec_intersects(q)) by {
                if r@.contains(c) {
                    let t0 = choose|t0: int| 0 <= t0 < r@.len() && r@[t0] == c;
                    assert(raw@[order@[t0] as int] == c);
                    assert(raw@.contains(c));
                }
                if raw@.contains(c) {
                    let w = choose|w: int| 0 <= w < raw@.len() && raw@[w] == c;
                    assert(order@.contains(w as usize));
                    let t0 = choose|t0: int| 0 <= t0 < order@.len() && order@[t0] == w as usize;
                    assert(r@[t0] == c);
                    assert(r@.contains(c));
                }
            }
            assert forall|t0: int| 0 <= t0 < r@.len() implies (#[trigger] r@[t0]) < self@.len() by {
                assert(r@[t0] == raw@[order@[t0] as int]);
            }
        }
        r
    }
}

} // verus!
