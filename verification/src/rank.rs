//! The query engine's parameter checks and proximity ranking: a request
//! names a window or a point, never both, and proximity results are ordered
//! by their projected squared distance, ties keeping encounter order.

use vstd::prelude::*;
use vstd::pervasive::VecAdditionalExecFns;

use crate::geom::{Bounds, Point};
use crate::index::{clone_strings, record_view, AddressPoint};

verus! {

/// Why a query request is refused before the index is touched.
#[derive(Clone, Copy, PartialEq, Eq, Structural, Debug)]
pub enum QueryParamsError {
    /// A window and a point were both supplied.
    BothBboxAndPoint,
    /// The window has fewer than four coordinates.
    BboxTooFewCoords,
    /// The point has fewer than two coordinates.
    PointTooFewCoords,
    /// Neither a window nor a point was supplied.
    MissingParams,
}

/// What a well-formed request asks for: a window query, or a proximity
/// query around a center.
#[derive(Clone, Copy, PartialEq, Eq, Structural, Debug)]
pub enum QueryPlan {
    Window(Bounds),
    Near(Point),
}

/// Check the query parameters and decide what to run, before any index
/// access: a window needs at least four coordinates (the first four are
/// taken), a point at least two, and the two forms exclude each other.
pub fn plan_query(bbox: &Option<Vec<i64>>, point: &Option<Vec<i64>>) -> (r: Result<
    QueryPlan,
    QueryParamsError,
>)
    ensures
        match (bbox, point) {
            (Some(_), Some(_)) => r matches Err(e) && e == QueryParamsError::BothBboxAndPoint,
            (Some(b), None) => if b@.len() >= 4 {
                r matches Ok(p) && p == QueryPlan::Window(
                    (Bounds { min_x: b@[0], min_y: b@[1], max_x: b@[2], max_y: b@[3] }),
                )
            } else {
                r matches Err(e) && e == QueryParamsError::BboxTooFewCoords
            },
            (None, Some(p)) => if p@.len() >= 2 {
                r matches Ok(pl) && pl == QueryPlan::Near((Point { x: p@[0], y: p@[1] }))
            } else {
                r matches Err(e) && e == QueryParamsError::PointTooFewCoords
            },
            (None, None) => r matches Err(e) && e == QueryParamsError::MissingParams,
        },
{
    match (bbox, point) {
        (Some(_), Some(_)) => Err(QueryParamsError::BothBboxAndPoint),
        (Some(b), None) => {
            if b.len() >= 4 {
                Ok(QueryPlan::Window(Bounds { min_x: b[0], min_y: b[1], max_x: b[2], max_y: b[3] }))
            } else {
                Err(QueryParamsError::BboxTooFewCoords)
            }
        },
        (None, Some(p)) => {
            if p.len() >= 2 {
                Ok(QueryPlan::Near(Point { x: p[0], y: p[1] }))
            } else {
                Err(QueryParamsError::PointTooFewCoords)
            }
        },
        (None, None) => Err(QueryParamsError::MissingParams),
    }
}

/// The ranking order: entry `a` goes before entry `b` when its key is
/// smaller, and on equal keys when it was encountered first.
pub open spec fn ranked_before(keys: Seq<u64>, a: int, b: int) -> bool {
    keys[a] < keys[b] || (keys[a] == keys[b] && a < b)
}

/// The order that sorts entries by non-decreasing key, ties keeping
/// encounter order: position `t` of the result names the entry ranked
/// `t`-th. The three clauses pin the order completely.
pub fn rank_order(keys: &Vec<u64>) -> (r: Vec<usize>)
    ensures
        r@.len() == keys@.len(),
        forall|t: int| 0 <= t < r@.len() ==> (#[trigger] r@[t]) < keys@.len(),
        forall|t: int, u: int|
            0 <= t < u < r@.len() ==> ranked_before(keys@, r@[t] as int, r@[u] as int),
        forall|v: usize| v < keys@.len() ==> r@.contains(v),
{
    let n = keys.len();
    let mut order: Vec<usize> = Vec::new();
    let mut i: usize = 0;
    while i < n
        invariant
            0 <= i <= n,
            order@.len() == i,
            forall|t: int| 0 <= t < i ==> (#[trigger] order@[t]) == t,
        decreases n - i,
    {
        order.push(i);
        i += 1;
    }
    proof {
        assert forall|v: usize| v < n implies order@.contains(v) by {
            assert(order@[v as int] == v);
        }
    }
    let mut i: usize = 1;
    while i < n
        invariant
            1 <= i <= n || (n == 0 && i == 1),
            n == keys@.len(),
            order@.len() == n,
            order@.no_duplicates(),
            forall|t: int| 0 <= t < n ==> (#[trigger] order@[t]) < n,
            forall|v: usize| v < n ==> order@.contains(v),
            forall|t: int, u: int|
                0 <= t < u < i <= n ==> ranked_before(keys@, order@[t] as int, order@[u] as int),
        decreases n - i,
    {
        let mut j: usize = i;
        while j > 0
            invariant
                0 <= j <= i < n,
                n == keys@.len(),
                order@.len() == n,
                order@.no_duplicates(),
                forall|t: int| 0 <= t < n ==> (#[trigger] order@[t]) < n,
                forall|v: usize| v < n ==> order@.contains(v),
                forall|t: int, u: int|
                    0 <= t < u <= i && u != j ==> ranked_before(
                        keys@,
                        order@[t] as int,
                        order@[u] as int,
                    ),
                forall|u: int|
                    j < u <= i ==> ranked_before(keys@, order@[j as int] as int, order@[u] as int),
            ensures
                0 <= j <= i < n,
                order@.len() == n,
                order@.no_duplicates(),
                forall|t: int| 0 <= t < n ==> (#[trigger] order@[t]) < n,
                forall|v: usize| v < n ==> order@.contains(v),
                forall|t: int, u: int|
                    0 <= t < u <= i && u != j ==> ranked_before(
                        keys@,
                        order@[t] as int,
                        order@[u] as int,
                    ),
                forall|u: int|
                    j < u <= i ==> ranked_before(keys@, order@[j as int] as int, order@[u] as int),
                j > 0 ==> !ranked_before(keys@, order@[j as int] as int, order@[j - 1] as int),
            decreases j,
        {
            let a = order[j];
            let b = order[j - 1];
            if !(keys[a] < keys[b] || (keys[a] == keys[b] && a < b)) {
                break;
            }
            let ghost before = order@;
            order.set(j - 1, a);
            order.set(j, b);
            proof {
                assert(order@ =~= before.update(j - 1, before[j as int]).update(
                    j as int,
                    before[j - 1],
                ));
                assert forall|v: usize| v < n implies order@.contains(v) by {
                    assert(before.contains(v));
                    let t = choose|t: int| 0 <= t < before.len() && before[t] == v;
                    if t == j {
                        assert(order@[j - 1] == v);
                    } else if t == j - 1 {
                        assert(order@[j as int] == v);
                    } else {
                        assert(order@[t] == v);
                    }
                }
                assert(order@.no_duplicates()) by {
                    assert forall|t: int, u: int|
                        0 <= t < u < order@.len() implies order@[t] != order@[u] by {
                        let tt: int = if t == j { j - 1 } else if t == j - 1 { j as int } else { t };
                        let uu: int = if u == j { j - 1 } else if u == j - 1 { j as int } else { u };
                        assert(order@[t] == before[tt] && order@[u] == before[uu]);
                        assert(before[tt] != before[uu]);
                    }
                }
            }
            j -= 1;
        }
        proof {
            if j > 0 {
                assert(ranked_before(keys@, order@[j - 1] as int, order@[j as int] as int)) by {
                    let a = order@[j as int] as int;
                    let b = order@[j - 1] as int;
                    assert(!ranked_before(keys@, a, b));
                    assert(order@[j as int] != order@[j - 1]);
                }
            }
            assert forall|t: int, u: int|
                0 <= t < u <= i implies ranked_before(keys@, order@[t] as int, order@[u] as int) by {
                if u == j {
                    assert(t <= j - 1);
                    if t < j - 1 {
                        assert(ranked_before(keys@, order@[t] as int, order@[j - 1] as int));
                    }
                    assert(ranked_before(keys@, order@[j - 1] as int, order@[j as int] as int));
                }
            }
        }
        i += 1;
    }
    order
}

/// Rank records by their keys: the result holds the same records, ordered
/// by non-decreasing key; records with equal keys keep their encounter
/// order. The order witness names, for each output position, the input
/// position it came from.
pub fn rank_by_distance(items: Vec<AddressPoint>, keys: &Vec<u64>) -> (r: Vec<AddressPoint>)
    requires
        items@.len() == keys@.len(),
    ensures
        r@.len() == items@.len(),
        exists|ord: Seq<usize>|
            {
                &&& (#[trigger] ord.len()) == items@.len()
                &&& (forall|t: int| 0 <= t < ord.len() ==> (#[trigger] ord[t]) < items@.len())
                &&& (forall|t: int, u: int|
                    0 <= t < u < ord.len() ==> ranked_before(keys@, ord[t] as int, ord[u] as int))
                &&& (forall|v: usize| v < items@.len() ==> ord.contains(v))
                &&& (forall|t: int|
                    0 <= t < ord.len() ==> record_view(r@[t]) == record_view(
                        items@[#[trigger] ord[t] as int],
                    ))
            },
{
    let order = rank_order(keys);
    let mut r: Vec<AddressPoint> = Vec::new();
    let n = order.len();
    let mut t: usize = 0;
    while t < n
        invariant
            0 <= t <= n,
            n == order@.len(),
            order@.len() == items@.len(),
            forall|x: int| 0 <= x < n ==> (#[trigger] order@[x]) < items@.len(),
            r@.len() == t,
            forall|x: int|
                0 <= x < t ==> record_view(r@[x]) == record_view(
                    items@[#[trigger] order@[x] as int],
                ),
        decreases n - t,
    {
        let idx = order[t];
        r.push(clone_record(&items, idx));
        t += 1;
    }
    proof {
        let ord = order@;
        assert(ord.len() == items@.len() && (forall|x: int|
            0 <= x < ord.len() ==> (#[trigger] ord[x]) < items@.len()) && (forall|x: int, u: int|
            0 <= x < u < ord.len() ==> ranked_before(keys@, ord[x] as int, ord[u] as int)) && (
        forall|v: usize| v < items@.len() ==> ord.contains(v)) && (forall|x: int|
            0 <= x < ord.len() ==> record_view(r@[x]) == record_view(
                items@[#[trigger] ord[x] as int],
            )));
    }
    r
}

/// Copy one record out of the unranked result list.
fn clone_record(items: &Vec<AddressPoint>, idx: usize) -> (r: AddressPoint)
    requires
        idx < items@.len(),
    ensures
        record_view(r) == record_view(items@[idx as int]),
{
    let it = &items[idx];
    AddressPoint {
        point: it.point,
        number: it.number.clone(),
        cluster_id: it.cluster_id,
        address_position: it.address_position,
        cluster_names: clone_strings(&it.cluster_names),
    }
}

} // verus!
