//! The record decoder: turns one parsed feature into a validated compact
//! cluster and its bounding box, interning names and non-numeric address
//! numbers along the way.

use vstd::prelude::*;

use crate::cache::{
    intern_fold, intern_fold_id, intern_id, intern_insert, lemma_intern_id_in_insert,
    StringCacheBuilder,
};
use crate::geom::{bounds_of, bounds_of_prefix, lemma_bounds_of_prefix_eq, lemma_bounds_enclose, Bounds, Point};
use crate::model::{first_non_null, lookup, FeatureModel, GeoEntry, GeomModel, Json, ParsedLine};
use crate::text::{parse_u32, parse_u32_spec};

verus! {

/// One address number: the numeric fast path, or the id of the interned
/// textual form for numbers that are not plain unsigned 32-bit integers.
#[derive(Clone, Copy, PartialEq, Eq, Structural, Debug)]
pub enum AddressNumber {
    Numeric(u32),
    Interned(u32),
}

/// One address point: a coordinate and its address number.
#[derive(Clone, Copy, PartialEq, Eq, Structural, Debug)]
pub struct CompactAddressPoint {
    pub point: Point,
    pub number: AddressNumber,
}

/// One accepted cluster: its source id (zero when the source has none), its
/// address points in source order, and its interned name ids in source
/// order.
#[derive(Debug)]
pub struct Cluster {
    pub id: u64,
    pub points: Vec<CompactAddressPoint>,
    pub names: Vec<u32>,
}

/// Why one input line was skipped. Every kind is non-fatal to the load: the
/// line is dropped and the next one read.
#[derive(Clone, Copy, PartialEq, Eq, Structural, Debug)]
pub enum DecodeError {
    /// The line is not valid GeoJSON.
    ParseFailure,
    /// The line parsed, but not to a feature.
    NotAFeature,
    /// The feature has no properties.
    NoProperties,
    /// The address-number property is missing, not an array, or holds no
    /// non-null entry.
    NoAddressNumbers,
    /// The chosen address-number entry is not an array.
    AddressEntryNotArray,
    /// The feature's geometry is missing or not a geometry collection.
    NoGeometryCollection,
    /// The geometry paired with the chosen entry is missing or not a
    /// multi-point.
    NotMultiPoint,
    /// The name property is missing or not a string.
    NoNames,
}

/// The smaller of two lengths: how many address points a cluster keeps when
/// the number list and the point list disagree.
pub open spec fn min2(a: int, b: int) -> int {
    if a < b {
        a
    } else {
        b
    }
}

/// The exact unsigned 32-bit reading of one address-number value, when it
/// has one: a string of decimal digits, or a JSON number that is an exact
/// unsigned integer no larger than `u32::MAX`.
pub open spec fn number_numeric(j: Json) -> Option<u32> {
    match j {
        Json::Text(s) => parse_u32_spec(s@),
        Json::Num { uint, text: _ } => match uint {
            Some(u) => if u <= u32::MAX {
                Some(u as u32)
            } else {
                None
            },
            None => None,
        },
        _ => None,
    }
}

/// The number cache contents after one address-number value has been
/// mapped: unchanged on the numeric fast path, else with the value's
/// fallback text interned.
pub open spec fn es_after_number(es: Seq<Seq<char>>, j: Json) -> Seq<Seq<char>> {
    match number_numeric(j) {
        Some(_) => es,
        None => intern_insert(es, j.fallback_text()),
    }
}

/// The number cache contents after the first `k` address-number values have
/// been mapped in order.
pub open spec fn es_after_numbers(es: Seq<Seq<char>>, nums: Seq<Json>, k: int) -> Seq<Seq<char>>
    decreases k,
{
    if k <= 0 {
        es
    } else {
        es_after_number(es_after_numbers(es, nums, k - 1), nums[k - 1])
    }
}

/// Mapping address numbers only appends to the cache: the earlier contents
/// stay where they were.
pub proof fn lemma_es_after_numbers_grows(es: Seq<Seq<char>>, nums: Seq<Json>, k: int)
    requires
        0 <= k,
    ensures
        es.len() <= es_after_numbers(es, nums, k).len(),
        forall|i: int| 0 <= i < es.len() ==> #[trigger] es_after_numbers(es, nums, k)[i] == es[i],
    decreases k,
{
    if k > 0 {
        lemma_es_after_numbers_grows(es, nums, k - 1);
        lemma_intern_id_in_insert(es_after_numbers(es, nums, k - 1), nums[k - 1].fallback_text());
    }
}

/// The address number that `j` maps to against the cache contents `es`:
/// numeric when it reads as a `u32`, else the id of its interned fallback
/// text.
pub open spec fn spec_number(es: Seq<Seq<char>>, j: Json) -> AddressNumber {
    match number_numeric(j) {
        Some(v) => AddressNumber::Numeric(v),
        None => AddressNumber::Interned(((intern_id(es, j.fallback_text()) % 0x1_0000_0000) as u32)),
    }
}

/// What the feature decodes to once every structural check has passed, up to
/// and including the multi-point geometry: the numeric id, the chosen
/// address-number entries, and the multi-point coordinates.
pub ghost struct GeomParts {
    pub id: u64,
    pub nums: Seq<Json>,
    pub mp: Seq<Point>,
}

/// Run the decoder's structural checks, in source order, up to the
/// multi-point geometry: which error the line is skipped with, or the parts
/// a cluster is built from.
pub open spec fn geom_parts(line: ParsedLine) -> Result<GeomParts, DecodeError> {
    match line {
        ParsedLine::ParseFailure => Err(DecodeError::ParseFailure),
        ParsedLine::NotAFeature => Err(DecodeError::NotAFeature),
        ParsedLine::Feature(f) => match f.properties {
            None => Err(DecodeError::NoProperties),
            Some(props) => match lookup(props@, "carmen:addressnumber"@) {
                Some(Json::Array { items, text: _ }) => {
                    let idx = first_non_null(items@);
                    if idx >= items@.len() {
                        Err(DecodeError::NoAddressNumbers)
                    } else {
                        match items@[idx] {
                            Json::Array { items: nums, text: _ } => match f.geometry {
                                Some(GeomModel::Collection(entries)) => if idx < entries@.len() {
                                    match entries@[idx] {
                                        GeoEntry::MultiPoint(mp) => Ok(
                                            GeomParts {
                                                id: match f.id {
                                                    Some(u) => u,
                                                    None => 0,
                                                },
                                                nums: nums@,
                                                mp: mp@,
                                            },
                                        ),
                                        GeoEntry::Other => Err(DecodeError::NotMultiPoint),
                                    }
                                } else {
                                    Err(DecodeError::NotMultiPoint)
                                },
                                _ => Err(DecodeError::NoGeometryCollection),
                            },
                            _ => Err(DecodeError::AddressEntryNotArray),
                        }
                    }
                },
                _ => Err(DecodeError::NoAddressNumbers),
            },
        },
    }
}

/// The feature's name list, when it has one: the string value of the name
/// property.
pub open spec fn names_text(line: ParsedLine) -> Option<Seq<char>> {
    match line {
        ParsedLine::Feature(f) => match f.properties {
            Some(props) => match lookup(props@, "carmen:text"@) {
                Some(Json::Text(t)) => Some(t@),
                _ => None,
            },
            None => None,
        },
        _ => None,
    }
}

/// Everything that holds of an accepted cluster and its bounding box, given
/// the decoded parts `gp`, the name string `t`, the cache contents before
/// (`ns0`, `es0`) and after (`ns1`, `es1`) the row: the points pair the
/// multi-point coordinates with the mapped address numbers, truncated to the
/// shorter side; the box is their running bounding box and encloses each of
/// them; and the names are the comma-split pieces of `t`, interned in order.
pub open spec fn cluster_decoded(
    gp: GeomParts,
    t: Seq<char>,
    ns0: Seq<Seq<char>>,
    es0: Seq<Seq<char>>,
    cluster: Cluster,
    bounds: Bounds,
    ns1: Seq<Seq<char>>,
    es1: Seq<Seq<char>>,
) -> bool {
    let m = min2(gp.nums.len() as int, gp.mp.len() as int);
    let pieces = crate::text::split_commas(t);
    &&& cluster.id == gp.id
    &&& cluster.points@.len() == m
    &&& (forall|k: int| 0 <= k < m ==> (#[trigger] cluster.points@[k]).point == gp.mp[k])
    &&& (forall|k: int|
        0 <= k < m ==> (#[trigger] cluster.points@[k]).number == spec_number(
            es_after_numbers(es0, gp.nums, k),
            gp.nums[k],
        ))
    &&& (forall|k: int|
        0 <= k < m ==> ((#[trigger] cluster.points@[k]).number matches AddressNumber::Interned(id)
            ==> (id as int) < es1.len()))
    &&& bounds == bounds_of(cluster.points@.map_values(|c: CompactAddressPoint| c.point))
    &&& (forall|k: int| 0 <= k < m ==> bounds.spec_contains((#[trigger] cluster.points@[k]).point))
    &&& cluster.names@.len() == pieces.len()
    &&& (forall|k: int|
        0 <= k < pieces.len() ==> (#[trigger] cluster.names@[k]) as int == intern_fold_id(
            ns0,
            pieces,
            k,
        ) % 0x1_0000_0000)
    &&& (forall|k: int|
        0 <= k < pieces.len() ==> ((#[trigger] cluster.names@[k]) as int) < ns1.len())
    &&& ns1 == intern_fold(ns0, pieces, pieces.len() as int)
}

/// Map one address-number value, interning its textual form when it has no
/// exact unsigned 32-bit reading.
fn convert_number(j: &Json, cache: &mut StringCacheBuilder) -> (r: AddressNumber)
    requires
        old(cache).wf(),
    ensures
        final(cache).wf(),
        final(cache)@ == es_after_number(old(cache)@, *j),
        r == spec_number(old(cache)@, *j),
        (r matches AddressNumber::Interned(id) ==> (id as int) < final(cache)@.len()),
{
    match j {
        Json::Text(s) => match parse_u32(s.as_str()) {
            Some(v) => AddressNumber::Numeric(v),
            None => AddressNumber::Interned(cache.get_id(s.clone())),
        },
        Json::Num { uint, text } => match uint {
            Some(u) => {
                if *u <= 0xFFFF_FFFFu64 {
                    AddressNumber::Numeric(*u as u32)
                } else {
                    AddressNumber::Interned(cache.get_id(text.clone()))
                }
            },
            None => AddressNumber::Interned(cache.get_id(text.clone())),
        },
        Json::Null => AddressNumber::Interned(cache.get_id(String::from_str("null"))),
        Json::Array { items: _, text } => AddressNumber::Interned(cache.get_id(text.clone())),
        Json::Other { text } => AddressNumber::Interned(cache.get_id(text.clone())),
    }
}

/// Decode one parsed line into a cluster and its bounding box.
///
/// The checks run in source order: structure first, then the address
/// numbers are paired positionally with the multi-point coordinates — the
/// longer side silently truncated to the shorter — and last the names. A
/// missing name list is an error, but the address-number texts interned
/// before it was looked at stay interned, exactly as the one-pass load has
/// it.
pub fn process_row(
    line: &ParsedLine,
    name_cache: &mut StringCacheBuilder,
    number_cache: &mut StringCacheBuilder,
) -> (r: Result<(Cluster, Bounds), DecodeError>)
    requires
        old(name_cache).wf(),
        old(number_cache).wf(),
    ensures
        final(name_cache).wf(),
        final(number_cache).wf(),
        match geom_parts(*line) {
            Err(e) => r matches Err(e2) && e2 == e && final(name_cache)@ == old(name_cache)@
                && final(number_cache)@ == old(number_cache)@,
            Ok(gp) => {
                let m = min2(gp.nums.len() as int, gp.mp.len() as int);
                &&& final(number_cache)@ == es_after_numbers(old(number_cache)@, gp.nums, m)
                &&& match names_text(*line) {
                    None => r matches Err(e2) && e2 == DecodeError::NoNames && final(name_cache)@
                        == old(name_cache)@,
                    Some(t) => {
                        &&& r is Ok
                        &&& cluster_decoded(
                            gp,
                            t,
                            old(name_cache)@,
                            old(number_cache)@,
                            r->Ok_0.0,
                            r->Ok_0.1,
                            final(name_cache)@,
                            final(number_cache)@,
                        )
                    },
                }
            },
        },
{
    let feat = match line {
        ParsedLine::ParseFailure => {
            return Err(DecodeError::ParseFailure);
        },
        ParsedLine::NotAFeature => {
            return Err(DecodeError::NotAFeature);
        },
        ParsedLine::Feature(f) => f,
    };

    let id: u64 = match feat.id {
        Some(u) => u,
        None => 0,
    };

    let props = match &feat.properties {
        Some(p) => p,
        None => {
            return Err(DecodeError::NoProperties);
        },
    };

    let an_key = String::from_str("carmen:addressnumber");
    let items = match crate::model::get_prop(props, &an_key) {
        Some(Json::Array { items, text: _ }) => items,
        _ => {
            return Err(DecodeError::NoAddressNumbers);
        },
    };

    let idx = match crate::model::find_first_non_null(items) {
        Some(i) => i,
        None => {
            return Err(DecodeError::NoAddressNumbers);
        },
    };

    let nums = match &items[idx] {
        Json::Array { items: nums, text: _ } => nums,
        _ => {
            return Err(DecodeError::AddressEntryNotArray);
        },
    };

    let entries = match &feat.geometry {
        Some(GeomModel::Collection(entries)) => entries,
        _ => {
            return Err(DecodeError::NoGeometryCollection);
        },
    };

    if idx >= entries.len() {
        return Err(DecodeError::NotMultiPoint);
    }
    let mp = match &entries[idx] {
        GeoEntry::MultiPoint(ps) => ps,
        GeoEntry::Other => {
            return Err(DecodeError::NotMultiPoint);
        },
    };

    let ghost gp = geom_parts(*line)->Ok_0;
    proof {
        assert(gp.nums == nums@ && gp.mp == mp@ && gp.id == id);
    }

    let m = if nums.len() < mp.len() {
        nums.len()
    } else {
        mp.len()
    };
    let ghost es0 = number_cache@;

    let mut points: Vec<CompactAddressPoint> = Vec::new();
    let mut bounds = Bounds::empty();
    let mut k: usize = 0;
    while k < m
        invariant
            0 <= k <= m,
            m == min2(nums@.len() as int, mp@.len() as int),
            m <= nums@.len() && m <= mp@.len(),
            points@.len() == k,
            number_cache.wf(),
            name_cache.wf(),
            number_cache@ == es_after_numbers(es0, nums@, k as int),
            forall|j: int| 0 <= j < k ==> points@[j].point == mp@[j],
            forall|j: int|
                0 <= j < k ==> points@[j].number == spec_number(
                    es_after_numbers(es0, nums@, j),
                    nums@[j],
                ),
            forall|j: int|
                0 <= j < k ==> ((#[trigger] points@[j].number) matches AddressNumber::Interned(id)
                    ==> (id as int) < number_cache@.len()),
            bounds == bounds_of_prefix(
                points@.map_values(|c: CompactAddressPoint| c.point),
                k as int,
            ),
        decreases m - k,
    {
        let ghost es_k = number_cache@;
        let ghost old_pts = points@.map_values(|c: CompactAddressPoint| c.point);
        let number = convert_number(&nums[k], number_cache);
        let p = mp[k];
        bounds.extend(&p);
        points.push(CompactAddressPoint { point: p, number });
        proof {
            let new_pts = points@.map_values(|c: CompactAddressPoint| c.point);
            assert(new_pts.len() == k + 1 && new_pts[k as int] == p);
            lemma_bounds_of_prefix_eq(old_pts, new_pts, k as int);
            lemma_cache_len_grows(es_k, nums@[k as int].fallback_text());
            assert forall|j: int|
                0 <= j < k + 1 implies ((#[trigger] points@[j].number) matches
            AddressNumber::Interned(id) ==> (id as int) < number_cache@.len()) by {}
        }
        k += 1;
    }
    proof {
        assert(points@.map_values(|c: CompactAddressPoint| c.point).len() == m);
        assert forall|j: int| 0 <= j < m implies bounds.spec_contains(points@[j].point) by {
            lemma_bounds_enclose(points@.map_values(|c: CompactAddressPoint| c.point), j);
        }
    }

    let text_key = String::from_str("carmen:text");
    let text = match crate::model::get_prop(props, &text_key) {
        Some(Json::Text(t)) => t,
        _ => {
            return Err(DecodeError::NoNames);
        },
    };

    let pieces = crate::text::split_commas_exec(text.as_str());
    let ghost pieces_v = crate::text::split_commas(text@);
    proof {
        assert(pieces@.map_values(|t: String| t@) == pieces_v);
    }
    let ghost ns0 = name_cache@;
    let npieces = pieces.len();
    let mut names: Vec<u32> = Vec::new();
    let mut k: usize = 0;
    while k < npieces
        invariant
            0 <= k <= npieces,
            npieces == pieces@.len(),
            pieces@.map_values(|t: String| t@) == pieces_v,
            pieces_v.len() == npieces,
            names@.len() == k,
            name_cache.wf(),
            number_cache.wf(),
            number_cache@ == es_after_numbers(es0, gp.nums, min2(gp.nums.len() as int, gp.mp.len() as int)),
            name_cache@ == intern_fold(ns0, pieces_v, k as int),
            forall|j: int|
                0 <= j < k ==> names@[j] as int == intern_fold_id(ns0, pieces_v, j)
                    % 0x1_0000_0000,
            forall|j: int| 0 <= j < k ==> (names@[j] as int) < name_cache@.len(),
        decreases npieces - k,
    {
        let ghost ns_k = name_cache@;
        let piece = pieces[k].clone();
        proof {
            assert(piece@ == pieces_v[k as int]);
        }
        let nid = name_cache.get_id(piece);
        names.push(nid);
        proof {
            lemma_cache_len_grows(ns_k, pieces_v[k as int]);
        }
        k += 1;
    }

    Ok((Cluster { id, points, names }, bounds))
}

/// Interning can only grow the cache.
proof fn lemma_cache_len_grows(es: Seq<Seq<char>>, s: Seq<char>)
    ensures
        es.len() <= intern_insert(es, s).len(),
{
    lemma_intern_id_in_insert(es, s);
}

} // verus!
