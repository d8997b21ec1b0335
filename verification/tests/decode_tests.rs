use address_index::cache::StringCacheBuilder;
use address_index::decode::{process_row, AddressNumber, DecodeError};
use address_index::geom::Point;
use address_index::model::{FeatureModel, GeoEntry, GeomModel, Json, ParsedLine};

fn pt(x: i64, y: i64) -> Point {
    Point { x, y }
}

fn num_json(v: u64) -> Json {
    Json::Num { uint: Some(v), text: v.to_string() }
}

fn feature(id: Option<u64>, nums: Vec<Json>, points: Vec<Point>, text: &str) -> ParsedLine {
    ParsedLine::Feature(FeatureModel {
        id,
        properties: Some(vec![
            (
                "carmen:addressnumber".to_string(),
                Json::Array {
                    items: vec![Json::Array { items: nums, text: String::new() }],
                    text: String::new(),
                },
            ),
            ("carmen:text".to_string(), Json::Text(text.to_string())),
        ]),
        geometry: Some(GeomModel::Collection(vec![GeoEntry::MultiPoint(points)])),
    })
}

#[test]
fn accepted_cluster_bounds_enclose_points() {
    let mut names = StringCacheBuilder::new();
    let mut numbers = StringCacheBuilder::new();
    let line = feature(
        Some(7),
        vec![num_json(1), num_json(2), num_json(3)],
        vec![pt(100, -50), pt(-30, 200), pt(5, 5)],
        "Main St",
    );
    let (cluster, bounds) = process_row(&line, &mut names, &mut numbers).unwrap();
    assert_eq!(cluster.id, 7);
    assert_eq!(bounds.min_x, -30);
    assert_eq!(bounds.min_y, -50);
    assert_eq!(bounds.max_x, 100);
    assert_eq!(bounds.max_y, 200);
    for p in &cluster.points {
        assert!(bounds.min_x <= p.point.x && p.point.x <= bounds.max_x);
        assert!(bounds.min_y <= p.point.y && p.point.y <= bounds.max_y);
    }
}

#[test]
fn length_mismatch_truncates_to_shorter() {
    let mut names = StringCacheBuilder::new();
    let mut numbers = StringCacheBuilder::new();
    // three numbers, two points: the extra number is dropped
    let line = feature(
        None,
        vec![num_json(1), num_json(2), num_json(3)],
        vec![pt(0, 0), pt(1, 1)],
        "A",
    );
    let (cluster, _) = process_row(&line, &mut names, &mut numbers).unwrap();
    assert_eq!(cluster.points.len(), 2);

    // two numbers, three points: the extra point is dropped
    let line = feature(None, vec![num_json(1), num_json(2)], vec![pt(0, 0), pt(1, 1), pt(2, 2)], "A");
    let (cluster, _) = process_row(&line, &mut names, &mut numbers).unwrap();
    assert_eq!(cluster.points.len(), 2);
}

#[test]
fn no_address_numbers_is_skipped() {
    let mut names = StringCacheBuilder::new();
    let mut numbers = StringCacheBuilder::new();
    // a feature with properties but no address-number key
    let line = ParsedLine::Feature(FeatureModel { id: None, properties: Some(vec![]), geometry: None });
    let err = process_row(&line, &mut names, &mut numbers).unwrap_err();
    assert_eq!(err, DecodeError::NoAddressNumbers);
    assert_eq!(names.len(), 0);
    assert_eq!(numbers.len(), 0);
}

#[test]
fn decode_error_kinds() {
    let mut names = StringCacheBuilder::new();
    let mut numbers = StringCacheBuilder::new();

    let err = process_row(&ParsedLine::ParseFailure, &mut names, &mut numbers).unwrap_err();
    assert_eq!(err, DecodeError::ParseFailure);

    let err = process_row(&ParsedLine::NotAFeature, &mut names, &mut numbers).unwrap_err();
    assert_eq!(err, DecodeError::NotAFeature);

    let no_props = ParsedLine::Feature(FeatureModel { id: None, properties: None, geometry: None });
    let err = process_row(&no_props, &mut names, &mut numbers).unwrap_err();
    assert_eq!(err, DecodeError::NoProperties);

    // every entry of the address-number array is null
    let all_null = ParsedLine::Feature(FeatureModel {
        id: None,
        properties: Some(vec![(
            "carmen:addressnumber".to_string(),
            Json::Array { items: vec![Json::Null, Json::Null], text: String::new() },
        )]),
        geometry: None,
    });
    let err = process_row(&all_null, &mut names, &mut numbers).unwrap_err();
    assert_eq!(err, DecodeError::NoAddressNumbers);

    // the chosen entry is not an array
    let not_array = ParsedLine::Feature(FeatureModel {
        id: None,
        properties: Some(vec![(
            "carmen:addressnumber".to_string(),
            Json::Array { items: vec![Json::Text("1".to_string())], text: String::new() },
        )]),
        geometry: None,
    });
    let err = process_row(&not_array, &mut names, &mut numbers).unwrap_err();
    assert_eq!(err, DecodeError::AddressEntryNotArray);

    // no geometry at all
    let no_geom = ParsedLine::Feature(FeatureModel {
        id: None,
        properties: Some(vec![(
            "carmen:addressnumber".to_string(),
            Json::Array {
                items: vec![Json::Array { items: vec![num_json(1)], text: String::new() }],
                text: String::new(),
            },
        )]),
        geometry: None,
    });
    let err = process_row(&no_geom, &mut names, &mut numbers).unwrap_err();
    assert_eq!(err, DecodeError::NoGeometryCollection);

    // a collection whose chosen entry is not a multi-point
    let not_mp = ParsedLine::Feature(FeatureModel {
        id: None,
        properties: Some(vec![(
            "carmen:addressnumber".to_string(),
            Json::Array {
                items: vec![Json::Array { items: vec![num_json(1)], text: String::new() }],
                text: String::new(),
            },
        )]),
        geometry: Some(GeomModel::Collection(vec![GeoEntry::Other])),
    });
    let err = process_row(&not_mp, &mut names, &mut numbers).unwrap_err();
    assert_eq!(err, DecodeError::NotMultiPoint);

    // everything but the name string
    let no_names = ParsedLine::Feature(FeatureModel {
        id: None,
        properties: Some(vec![(
            "carmen:addressnumber".to_string(),
            Json::Array {
                items: vec![Json::Array { items: vec![num_json(1)], text: String::new() }],
                text: String::new(),
            },
        )]),
        geometry: Some(GeomModel::Collection(vec![GeoEntry::MultiPoint(vec![pt(0, 0)])])),
    });
    let err = process_row(&no_names, &mut names, &mut numbers).unwrap_err();
    assert_eq!(err, DecodeError::NoNames);
}

#[test]
fn address_number_mapping() {
    let mut names = StringCacheBuilder::new();
    let mut numbers = StringCacheBuilder::new();
    let line = feature(
        None,
        vec![
            Json::Text("42".to_string()),                                  // numeric string
            Json::Text("221B".to_string()),                                // alphanumeric: interned
            num_json(17),                                                  // exact number
            Json::Num { uint: Some(4294967296), text: "4294967296".to_string() }, // too big for u32
            Json::Num { uint: None, text: "1.5".to_string() },             // fractional: interned text
            Json::Null,                                                    // stringified null
        ],
        vec![pt(0, 0), pt(1, 0), pt(2, 0), pt(3, 0), pt(4, 0), pt(5, 0)],
        "A",
    );
    let (cluster, _) = process_row(&line, &mut names, &mut numbers).unwrap();
    assert_eq!(cluster.points[0].number, AddressNumber::Numeric(42));
    assert_eq!(cluster.points[1].number, AddressNumber::Interned(0));
    assert_eq!(cluster.points[2].number, AddressNumber::Numeric(17));
    assert_eq!(cluster.points[3].number, AddressNumber::Interned(1));
    assert_eq!(cluster.points[4].number, AddressNumber::Interned(2));
    assert_eq!(cluster.points[5].number, AddressNumber::Interned(3));
    let frozen = numbers.finish();
    assert_eq!(frozen, vec!["221B", "4294967296", "1.5", "null"]);
}

#[test]
fn names_split_on_commas() {
    let mut names = StringCacheBuilder::new();
    let mut numbers = StringCacheBuilder::new();
    let line = feature(None, vec![num_json(1)], vec![pt(0, 0)], "Main St,Elm Ave,Main St");
    let (cluster, _) = process_row(&line, &mut names, &mut numbers).unwrap();
    assert_eq!(cluster.names, vec![0, 1, 0]);
    assert_eq!(names.finish(), vec!["Main St", "Elm Ave"]);
}

#[test]
fn interning_same_name_from_two_clusters_gives_same_id() {
    let mut names = StringCacheBuilder::new();
    let mut numbers = StringCacheBuilder::new();
    let first = feature(None, vec![num_json(1)], vec![pt(0, 0)], "Shared Rd");
    let second = feature(None, vec![num_json(2)], vec![pt(9, 9)], "Other St,Shared Rd");
    let (c1, _) = process_row(&first, &mut names, &mut numbers).unwrap();
    let (c2, _) = process_row(&second, &mut names, &mut numbers).unwrap();
    assert_eq!(c1.names, vec![0]);
    assert_eq!(c2.names, vec![1, 0]);
    assert_eq!(c1.names[0], c2.names[1]);
}

#[test]
fn missing_or_non_numeric_id_becomes_zero() {
    let mut names = StringCacheBuilder::new();
    let mut numbers = StringCacheBuilder::new();
    let line = feature(None, vec![num_json(1)], vec![pt(0, 0)], "A");
    let (cluster, _) = process_row(&line, &mut names, &mut numbers).unwrap();
    assert_eq!(cluster.id, 0);
}

#[test]
fn empty_pairing_gives_empty_cluster_with_inverted_bounds() {
    let mut names = StringCacheBuilder::new();
    let mut numbers = StringCacheBuilder::new();
    // numbers present, but no points to pair them with
    let line = feature(Some(5), vec![num_json(1), num_json(2)], vec![], "A");
    let (cluster, bounds) = process_row(&line, &mut names, &mut numbers).unwrap();
    assert_eq!(cluster.points.len(), 0);
    // the running bounding box of nothing is inverted and intersects nothing
    assert!(bounds.min_x > bounds.max_x);
    assert!(bounds.min_y > bounds.max_y);
}

#[test]
fn skip_while_null_picks_first_non_null_entry() {
    let mut names = StringCacheBuilder::new();
    let mut numbers = StringCacheBuilder::new();
    // the first entry is null, so index 1 is chosen, paired with geometry 1
    let line = ParsedLine::Feature(FeatureModel {
        id: None,
        properties: Some(vec![
            (
                "carmen:addressnumber".to_string(),
                Json::Array {
                    items: vec![
                        Json::Null,
                        Json::Array { items: vec![num_json(8)], text: String::new() },
                    ],
                    text: String::new(),
                },
            ),
            ("carmen:text".to_string(), Json::Text("B".to_string())),
        ]),
        geometry: Some(GeomModel::Collection(vec![
            GeoEntry::Other,
            GeoEntry::MultiPoint(vec![pt(3, 4)]),
        ])),
    });
    let (cluster, _) = process_row(&line, &mut names, &mut numbers).unwrap();
    assert_eq!(cluster.points.len(), 1);
    assert_eq!(cluster.points[0].point, pt(3, 4));
    assert_eq!(cluster.points[0].number, AddressNumber::Numeric(8));
}
