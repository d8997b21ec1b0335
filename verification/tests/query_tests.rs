use address_index::decode::AddressNumber;
use address_index::geom::{Bounds, Point};
use address_index::index::IndexBuilder;
use address_index::model::{FeatureModel, GeoEntry, GeomModel, Json, ParsedLine};
use address_index::rank::{plan_query, rank_by_distance, QueryParamsError, QueryPlan};

fn pt(x: i64, y: i64) -> Point {
    Point { x, y }
}

fn num_json(v: u64) -> Json {
    Json::Num { uint: Some(v), text: v.to_string() }
}

fn feature(id: Option<u64>, nums: Vec<Json>, points: Vec<Point>, text: &str) -> ParsedLine {
    ParsedLine::Feature(FeatureModel {
        id,
        properties: Some(vec![
            (
                "carmen:addressnumber".to_string(),
                Json::Array {
                    items: vec![Json::Array { items: nums, text: String::new() }],
                    text: String::new(),
                },
            ),
            ("carmen:text".to_string(), Json::Text(text.to_string())),
        ]),
        geometry: Some(GeomModel::Collection(vec![GeoEntry::MultiPoint(points)])),
    })
}

fn window(min_x: i64, min_y: i64, max_x: i64, max_y: i64) -> Bounds {
    Bounds { min_x, min_y, max_x, max_y }
}

#[test]
fn bbox_returns_exactly_contained_points() {
    let mut b = IndexBuilder::new();
    b.add_line(&feature(
        Some(1),
        vec![num_json(10), num_json(11), num_json(12)],
        vec![pt(0, 0), pt(5, 5), pt(9, 9)],
        "A",
    ))
    .unwrap();
    let idx = b.finish();
    let res = idx.query(&window(1, 1, 6, 6));
    assert_eq!(res.len(), 1);
    assert_eq!(res[0].point, pt(5, 5));
    assert_eq!(res[0].number, "11");
    assert_eq!(res[0].address_position, 1);
}

#[test]
fn bbox_point_level_refilter() {
    let mut b = IndexBuilder::new();
    // one cluster whose box spans (0,0)..(100,100) but holds only corner points
    b.add_line(&feature(Some(1), vec![num_json(10), num_json(11)], vec![pt(0, 0), pt(100, 100)], "A"))
        .unwrap();
    // a second cluster entirely outside the query window
    b.add_line(&feature(Some(2), vec![num_json(20)], vec![pt(500, 500)], "B")).unwrap();
    let idx = b.finish();

    // the window intersects the first cluster's box but holds none of its points
    let res = idx.query(&window(40, 40, 60, 60));
    assert_eq!(res.len(), 0);

    // borders are included
    let res = idx.query(&window(-10, -10, 0, 0));
    assert_eq!(res.len(), 1);
    assert_eq!(res[0].point, pt(0, 0));
    assert_eq!(res[0].cluster_id, 1);
    assert_eq!(res[0].address_position, 0);
    assert_eq!(res[0].number, "10");
    assert_eq!(res[0].cluster_names, vec!["A".to_string()]);

    // a window holding both corner points of cluster 1, but not cluster 2
    let res = idx.query(&window(0, 0, 100, 100));
    assert_eq!(res.len(), 2);
    assert_eq!(res[0].address_position, 0);
    assert_eq!(res[1].address_position, 1);
    assert_eq!(res[1].number, "11");
}

#[test]
fn full_window_returns_every_accepted_point() {
    let mut b = IndexBuilder::new();
    b.add_line(&feature(Some(1), vec![num_json(1), num_json(2)], vec![pt(0, 0), pt(10, 10)], "A"))
        .unwrap();
    // a skipped line: no address numbers
    let bad = ParsedLine::Feature(FeatureModel { id: None, properties: Some(vec![]), geometry: None });
    assert!(b.add_line(&bad).is_err());
    b.add_line(&feature(Some(2), vec![num_json(3)], vec![pt(-5, 7)], "B")).unwrap();
    b.add_line(&feature(Some(3), vec![num_json(4), num_json(5), num_json(6)], vec![pt(1, 1), pt(2, 2), pt(3, 3)], "C"))
        .unwrap();
    let idx = b.finish();

    let res = idx.query(&window(-1000, -1000, 1000, 1000));
    // 2 + 1 + 3 accepted points; the skipped line contributes nothing
    assert_eq!(res.len(), 6);
}

#[test]
fn skipped_line_never_appears_in_results() {
    let mut b = IndexBuilder::new();
    let bad = ParsedLine::Feature(FeatureModel { id: None, properties: Some(vec![]), geometry: None });
    assert!(b.add_line(&bad).is_err());
    let idx = b.finish();
    let res = idx.query(&window(i64::MIN, i64::MIN, i64::MAX, i64::MAX));
    assert_eq!(res.len(), 0);
}

#[test]
fn interned_number_resolved_in_query() {
    let mut b = IndexBuilder::new();
    b.add_line(&feature(Some(1), vec![Json::Text("221B".to_string())], vec![pt(0, 0)], "Baker St"))
        .unwrap();
    let idx = b.finish();
    let res = idx.query(&window(-1, -1, 1, 1));
    assert_eq!(res.len(), 1);
    assert_eq!(res[0].number, "221B");
    assert_eq!(res[0].cluster_names, vec!["Baker St".to_string()]);
}

#[test]
fn plan_query_rejects_bad_parameters() {
    let e = plan_query(&Some(vec![0, 0, 1, 1]), &Some(vec![0, 0])).unwrap_err();
    assert_eq!(e, QueryParamsError::BothBboxAndPoint);

    let e = plan_query(&Some(vec![0, 0, 1]), &None).unwrap_err();
    assert_eq!(e, QueryParamsError::BboxTooFewCoords);

    let e = plan_query(&None, &Some(vec![3])).unwrap_err();
    assert_eq!(e, QueryParamsError::PointTooFewCoords);

    let e = plan_query(&None, &None).unwrap_err();
    assert_eq!(e, QueryParamsError::MissingParams);

    let p = plan_query(&Some(vec![1, 2, 3, 4, 9]), &None).unwrap();
    assert_eq!(p, QueryPlan::Window(window(1, 2, 3, 4)));

    let p = plan_query(&None, &Some(vec![5, 6])).unwrap();
    assert_eq!(p, QueryPlan::Near(pt(5, 6)));
}

#[test]
fn empty_cluster_is_invisible_to_queries() {
    let mut b = IndexBuilder::new();
    // a cluster whose pairing is empty: accepted, but holds no point
    b.add_line(&feature(Some(1), vec![num_json(1)], vec![], "A")).unwrap();
    b.add_line(&feature(Some(2), vec![num_json(2)], vec![pt(3, 3)], "B")).unwrap();
    let idx = b.finish();
    let res = idx.query(&window(i64::MIN, i64::MIN, i64::MAX, i64::MAX));
    assert_eq!(res.len(), 1);
    assert_eq!(res[0].cluster_id, 2);
}

#[test]
fn ranking_sorts_by_key_and_keeps_tie_order() {
    let mut b = IndexBuilder::new();
    b.add_line(&feature(
        Some(1),
        vec![num_json(1), num_json(2), num_json(3), num_json(4)],
        vec![pt(0, 0), pt(1, 0), pt(2, 0), pt(3, 0)],
        "A",
    ))
    .unwrap();
    let idx = b.finish();
    let items = idx.query(&window(-10, -10, 10, 10));
    assert_eq!(items.len(), 4);
    // keys: two ties at 5, then 2, then 9
    let keys = vec![5u64, 5, 2, 9];
    let ranked = rank_by_distance(items, &keys);
    assert_eq!(ranked.len(), 4);
    assert_eq!(ranked[0].number, "3"); // key 2
    assert_eq!(ranked[1].number, "1"); // first of the tied pair
    assert_eq!(ranked[2].number, "2"); // second of the tied pair
    assert_eq!(ranked[3].number, "4"); // key 9
}
