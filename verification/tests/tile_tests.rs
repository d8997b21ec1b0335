use address_index::decode::DecodeError;
use address_index::geom::{Bounds, Point};
use address_index::index::IndexBuilder;
use address_index::model::{FeatureModel, GeoEntry, GeomModel, Json, ParsedLine};
use address_index::text::{parse_u32, split_commas_exec, u32_to_string};
use address_index::tile::{build_tile, pixel_of, pixel_of_flipped, tile_points, TileError};
use address_index::util::calculate_hash;

fn pt(x: i64, y: i64) -> Point {
    Point { x, y }
}

fn feature(id: Option<u64>, v: u64, points: Vec<Point>, text: &str) -> ParsedLine {
    let nums = (0..points.len())
        .map(|k| Json::Num { uint: Some(v + k as u64), text: (v + k as u64).to_string() })
        .collect();
    ParsedLine::Feature(FeatureModel {
        id,
        properties: Some(vec![
            (
                "carmen:addressnumber".to_string(),
                Json::Array {
                    items: vec![Json::Array { items: nums, text: String::new() }],
                    text: String::new(),
                },
            ),
            ("carmen:text".to_string(), Json::Text(text.to_string())),
        ]),
        geometry: Some(GeomModel::Collection(vec![GeoEntry::MultiPoint(points)])),
    })
}

fn window(min_x: i64, min_y: i64, max_x: i64, max_y: i64) -> Bounds {
    Bounds { min_x, min_y, max_x, max_y }
}

#[test]
fn zoom_past_limit_is_a_client_error() {
    let b = IndexBuilder::new();
    let idx = b.finish();
    let err = build_tile(&idx, 18, &window(0, 0, 100, 100)).unwrap_err();
    assert_eq!(err, TileError::ZoomTooHigh);
    let err = build_tile(&idx, 255, &window(0, 0, 100, 100)).unwrap_err();
    assert_eq!(err, TileError::ZoomTooHigh);
}

#[test]
fn deep_zoom_over_points_renders_features() {
    let mut b = IndexBuilder::new();
    b.add_line(&feature(Some(1), 10, vec![pt(50, 50), pt(75, 25)], "A")).unwrap();
    let idx = b.finish();
    let w = window(0, 0, 100, 100);

    let pts = tile_points(&idx, &w);
    assert!(pts.len() >= 1);
    assert_eq!(pts.len(), 2);
    // x: 4096 * 50/100 rounded; y flips: 4096 * (100-50)/100
    assert_eq!(pts[0], (2048, 2048));
    assert_eq!(pts[1], (3072, 3072));

    let bytes = build_tile(&idx, 11, &w).unwrap();
    assert!(bytes.len() > 0);

    // the shallow tile holds an empty layer: its wire form is shorter
    let empty_bytes = build_tile(&idx, 10, &w).unwrap();
    assert!(empty_bytes.len() < bytes.len());
}

#[test]
fn shallow_zoom_gives_empty_layer() {
    let mut b = IndexBuilder::new();
    b.add_line(&feature(Some(1), 10, vec![pt(50, 50)], "A")).unwrap();
    let idx = b.finish();
    let w = window(0, 0, 100, 100);
    let a = build_tile(&idx, 10, &w).unwrap();
    let b2 = build_tile(&idx, 0, &w).unwrap();
    assert_eq!(a, b2);
}

#[test]
fn pixel_mapping_rounds_half_away() {
    // 4096 * 1 / 8192 = 0.5 -> rounds up to 1
    assert_eq!(pixel_of(1, 0, 8192), 1);
    assert_eq!(pixel_of(0, 0, 8192), 0);
    assert_eq!(pixel_of(8192, 0, 8192), 4096);
    // the flipped axis grows downward
    assert_eq!(pixel_of_flipped(8192, 0, 8192), 0);
    assert_eq!(pixel_of_flipped(0, 0, 8192), 4096);
}

#[test]
fn parse_u32_grammar() {
    assert_eq!(parse_u32("42"), Some(42));
    assert_eq!(parse_u32("+7"), Some(7));
    assert_eq!(parse_u32("0042"), Some(42));
    assert_eq!(parse_u32("4294967295"), Some(4294967295));
    assert_eq!(parse_u32("4294967296"), None);
    assert_eq!(parse_u32(""), None);
    assert_eq!(parse_u32("+"), None);
    assert_eq!(parse_u32("-1"), None);
    assert_eq!(parse_u32("1.5"), None);
    assert_eq!(parse_u32("221B"), None);
}

#[test]
fn split_commas_keeps_empty_pieces() {
    assert_eq!(split_commas_exec("a,b"), vec!["a", "b"]);
    assert_eq!(split_commas_exec("a,,b"), vec!["a", "", "b"]);
    assert_eq!(split_commas_exec(""), vec![""]);
    assert_eq!(split_commas_exec("solo"), vec!["solo"]);
    assert_eq!(split_commas_exec("trailing,"), vec!["trailing", ""]);
}

#[test]
fn decimal_rendering() {
    assert_eq!(u32_to_string(0), "0");
    assert_eq!(u32_to_string(7), "7");
    assert_eq!(u32_to_string(42), "42");
    assert_eq!(u32_to_string(4294967295), "4294967295");
}

#[test]
fn record_hash_is_deterministic() {
    let a = calculate_hash(&(3, 1));
    let b = calculate_hash(&(3, 1));
    assert_eq!(a, b);
    let c = calculate_hash(&(3, 2));
    assert_ne!(a, c);
}

#[test]
fn tile_of_empty_index_still_serializes() {
    let idx = IndexBuilder::new().finish();
    let bytes = build_tile(&idx, 12, &window(0, 0, 100, 100)).unwrap();
    assert!(bytes.len() > 0);
}

#[test]
fn builder_reports_skip_kind() {
    let mut b = IndexBuilder::new();
    let err = b.add_line(&ParsedLine::ParseFailure).unwrap_err();
    assert_eq!(err, DecodeError::ParseFailure);
}
