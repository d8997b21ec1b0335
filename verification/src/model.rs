//! The plain-value model of one input line.
//!
//! A line of the input file is one GeoJSON feature. The reading side parses
//! the text and hands the library this model, which holds as plain values
//! everything the record decoder looks at: the numeric feature id when there
//! is one, the property values, and the geometry shape with its coordinates
//! already in fixed-point degrees.

use vstd::prelude::*;

use crate::geom::Point;

verus! {

/// A property value. A number carries both its exact unsigned value, when it
/// has one, and its decimal text; an array carries its items and, like every
/// other value, the compact serialized text that the fallback path of the
/// address-number mapping interns.
pub enum Json {
    Null,
    Text(String),
    Num { uint: Option<u64>, text: String },
    Array { items: Vec<Json>, text: String },
    Other { text: String },
}

/// One entry of a geometry collection: a multi-point with its coordinates,
/// or any other geometry kind, which the decoder refuses.
pub enum GeoEntry {
    MultiPoint(Vec<Point>),
    Other,
}

/// The feature's geometry: a geometry collection, or anything else.
pub enum GeomModel {
    Collection(Vec<GeoEntry>),
    NotCollection,
}

/// One parsed feature: the numeric id when the source gave one that fits an
/// unsigned 64-bit integer, the property map in source order, and the
/// geometry.
pub struct FeatureModel {
    pub id: Option<u64>,
    pub properties: Option<Vec<(String, Json)>>,
    pub geometry: Option<GeomModel>,
}

/// What became of one input line before it reached the decoder: the text did
/// not parse, it parsed to something that is not a feature, or it is a
/// feature.
pub enum ParsedLine {
    ParseFailure,
    NotAFeature,
    Feature(FeatureModel),
}

impl Json {
    /// Whether this value is JSON null.
    pub open spec fn is_null(&self) -> bool {
        matches!(self, Json::Null)
    }

    /// The text that stands for this value where the decoder falls back to
    /// interning it: a number's decimal text, the serialized form of
    /// anything that is neither a string nor a number, and a string's own
    /// characters.
    pub open spec fn fallback_text(&self) -> Seq<char> {
        match self {
            Json::Null => "null"@,
            Json::Text(s) => s@,
            Json::Num { uint: _, text } => text@,
            Json::Array { items: _, text } => text@,
            Json::Other { text } => text@,
        }
    }
}

/// The value of the first property named `key`, if any.
pub open spec fn lookup(props: Seq<(String, Json)>, key: Seq<char>) -> Option<Json>
    decreases props.len(),
{
    if props.len() == 0 {
        None
    } else if props[0].0@ == key {
        Some(props[0].1)
    } else {
        lookup(props.skip(1), key)
    }
}

/// Find the first property named `key`.
pub fn get_prop<'a>(props: &'a Vec<(String, Json)>, key: &String) -> (r: Option<&'a Json>)
    ensures
        match r {
            Some(j) => lookup(props@, key@) == Some(*j),
            None => lookup(props@, key@) is None,
        },
{
    let n = props.len();
    let mut i: usize = 0;
    proof {
        assert(props@.skip(0) =~= props@);
    }
    while i < n
        invariant
            0 <= i <= n,
            n == props@.len(),
            lookup(props@, key@) == lookup(props@.skip(i as int), key@),
        decreases n - i,
    {
        proof {
            assert(props@.skip(i as int)[0] == props@[i as int]);
            assert(props@.skip(i as int).skip(1) =~= props@.skip(i + 1));
        }
        if props[i].0.eq(key) {
            return Some(&props[i].1);
        }
        i += 1;
    }
    proof {
        assert(props@.skip(n as int).len() == 0);
    }
    None
}

/// The position of the first non-null entry of `items`.
pub open spec fn first_non_null(items: Seq<Json>) -> int
    decreases items.len(),
{
    if items.len() == 0 {
        0
    } else if !items[0].is_null() {
        0
    } else {
        1 + first_non_null(items.skip(1))
    }
}

/// `first_non_null` points at the first non-null entry when there is one,
/// and past the end when every entry is null.
pub proof fn lemma_first_non_null(items: Seq<Json>)
    ensures
        0 <= first_non_null(items) <= items.len(),
        (exists|i: int| 0 <= i < items.len() && !items[i].is_null()) <==> first_non_null(items)
            < items.len(),
        first_non_null(items) < items.len() ==> !items[first_non_null(items)].is_null(),
        forall|j: int| 0 <= j < first_non_null(items) && j < items.len() ==> items[j].is_null(),
    decreases items.len(),
{
    if items.len() > 0 && items[0].is_null() {
        lemma_first_non_null(items.skip(1));
        let f = first_non_null(items);
        assert forall|j: int| 0 <= j < f && j < items.len() implies items[j].is_null() by {
            if j > 0 {
                assert(items.skip(1)[j - 1] == items[j]);
            }
        }
        if exists|i: int| 0 <= i < items.len() && !items[i].is_null() {
            let i = choose|i: int| 0 <= i < items.len() && !items[i].is_null();
            assert(items.skip(1)[i - 1] == items[i]);
        }
        if first_non_null(items.skip(1)) < items.skip(1).len() {
            assert(items[f] == items.skip(1)[f - 1]);
        }
    }
}

/// Find the first non-null entry of `items`, as the decoder picks the
/// address-number source.
pub fn find_first_non_null(items: &Vec<Json>) -> (r: Option<usize>)
    ensures
        match r {
            Some(i) => i == first_non_null(items@) && i < items@.len(),
            None => first_non_null(items@) >= items@.len(),
        },
{
    proof {
        lemma_first_non_null(items@);
    }
    let n = items.len();
    let mut i: usize = 0;
    while i < n
        invariant
            0 <= i <= n,
            n == items@.len(),
            first_non_null(items@) >= i,
        decreases n - i,
    {
        let null_here = matches!(&items[i], Json::Null);
        if !null_here {
            proof {
                lemma_first_non_null(items@);
            }
            return Some(i);
        }
        proof {
            lemma_first_non_null_step(items@, i as int);
        }
        i += 1;
    }
    None
}

/// While every entry up to `i` is null, the first non-null entry stands
/// past `i`.
proof fn lemma_first_non_null_step(items: Seq<Json>, i: int)
    requires
        0 <= i < items.len(),
        items[i].is_null(),
        first_non_null(items) >= i,
    ensures
        first_non_null(items) >= i + 1,
{
    lemma_first_non_null(items);
    if first_non_null(items) == i {
        assert(!items[i].is_null());
    }
}

} // verus!
