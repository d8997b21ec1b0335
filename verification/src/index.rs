//! The finished index and its window query, and the builder that
//! accumulates decoded clusters into it.

use vstd::prelude::*;

use crate::bush::{StaticBush, StaticBushBuilder};
use crate::cache::StringCacheBuilder;
use crate::decode::{
    cluster_decoded, es_after_numbers, geom_parts, min2, names_text, process_row, AddressNumber,
    Cluster, DecodeError,
};
use crate::geom::Bounds;
use crate::geom::Point;
use crate::model::ParsedLine;
use crate::text::{u32_dec, u32_to_string};

verus! {

/// One query result: a point, its address number resolved back to text, the
/// cluster it came from, its position inside that cluster, and the cluster's
/// resolved name strings.
pub struct AddressPoint {
    pub point: Point,
    pub number: String,
    pub cluster_id: u64,
    pub address_position: u64,
    pub cluster_names: Vec<String>,
}

/// The mathematical shape of one query result.
pub ghost struct RecordSpec {
    pub point: Point,
    pub number: Seq<char>,
    pub cluster_id: u64,
    pub address_position: u64,
    pub cluster_names: Seq<Seq<char>>,
}

/// What an executable record states.
pub open spec fn record_view(ap: AddressPoint) -> RecordSpec {
    RecordSpec {
        point: ap.point,
        number: ap.number@,
        cluster_id: ap.cluster_id,
        address_position: ap.address_position,
        cluster_names: ap.cluster_names@.map_values(|s: String| s@),
    }
}

/// The finished, immutable index: the accepted clusters (cluster id = leaf
/// id = position), the two frozen string caches, and the spatial index over
/// the clusters' bounding boxes.
pub struct Index {
    clusters: Vec<Cluster>,
    name_cache: Vec<String>,
    number_cache: Vec<String>,
    bush: StaticBush,
}

impl Index {
    /// The accepted clusters, in load order.
    pub closed spec fn spec_clusters(&self) -> Seq<Cluster> {
        self.clusters@
    }

    /// The frozen name cache: name id to string.
    pub closed spec fn spec_names(&self) -> Seq<Seq<char>> {
        self.name_cache@.map_values(|s: String| s@)
    }

    /// The frozen address-number cache: interned number id to string.
    pub closed spec fn spec_numbers(&self) -> Seq<Seq<char>> {
        self.number_cache@.map_values(|s: String| s@)
    }

    /// The indexed bounding boxes, one per cluster.
    pub closed spec fn spec_boxes(&self) -> Seq<Bounds> {
        self.bush@
    }

    /// The index is sound: every cluster has its box, each box encloses the
    /// cluster's points, and every interned id points into its cache.
    pub open spec fn wf(&self) -> bool {
        &&& self.spec_boxes().len() == self.spec_clusters().len()
        &&& (forall|c: int, k: int|
            0 <= c < self.spec_clusters().len() && 0 <= k
                < self.spec_clusters()[c].points@.len() ==> self.spec_boxes()[c].spec_contains(
                (#[trigger] self.spec_clusters()[c].points@[k]).point,
            ))
        &&& (forall|c: int, k: int|
            0 <= c < self.spec_clusters().len() && 0 <= k
                < self.spec_clusters()[c].points@.len() ==> ((#[trigger] self.spec_clusters(
            )[c].points@[k]).number matches AddressNumber::Interned(id) ==> (id as int)
                < self.spec_numbers().len()))
        &&& (forall|c: int, k: int|
            0 <= c < self.spec_clusters().len() && 0 <= k
                < self.spec_clusters()[c].names@.len() ==> ((#[trigger] self.spec_clusters(
            )[c].names@[k]) as int) < self.spec_names().len())
    }

    /// The record that position `k` of cluster `c` answers a query with.
    pub open spec fn spec_record(&self, c: int, k: int) -> RecordSpec {
        let cl = self.spec_clusters()[c];
        RecordSpec {
            point: cl.points@[k].point,
            number: match cl.points@[k].number {
                AddressNumber::Numeric(n) => u32_dec(n as int),
                AddressNumber::Interned(id) => self.spec_numbers()[id as int],
            },
            cluster_id: cl.id,
            address_position: k as u64,
            cluster_names: cl.names@.map_values(|id: u32| self.spec_names()[id as int]),
        }
    }

    /// The records of the first `k` points of cluster `c` that lie in `q`,
    /// in position order.
    pub open spec fn cluster_hits_prefix(&self, c: int, q: Bounds, k: int) -> Seq<RecordSpec>
        decreases k,
    {
        if k <= 0 {
            Seq::empty()
        } else {
            let rest = self.cluster_hits_prefix(c, q, k - 1);
            if q.spec_contains(self.spec_clusters()[c].points@[k - 1].point) {
                rest.push(self.spec_record(c, k - 1))
            } else {
                rest
            }
        }
    }

    /// The records of cluster `c` that lie in `q`.
    pub open spec fn cluster_hits(&self, c: int, q: Bounds) -> Seq<RecordSpec> {
        self.cluster_hits_prefix(c, q, self.spec_clusters()[c].points@.len() as int)
    }

    /// The records of the first `c` clusters that lie in `q`, cluster by
    /// cluster in load order.
    pub open spec fn query_prefix(&self, q: Bounds, c: int) -> Seq<RecordSpec>
        decreases c,
    {
        if c <= 0 {
            Seq::empty()
        } else {
            self.query_prefix(q, c - 1) + self.cluster_hits(c - 1, q)
        }
    }

    /// Exactly the indexed address points that lie in `q`, with their
    /// records: every point of every cluster is taken iff the window
    /// contains it, whatever the coarse candidate filter did.
    pub open spec fn spec_query(&self, q: Bounds) -> Seq<RecordSpec> {
        self.query_prefix(q, self.spec_clusters().len() as int)
    }

    /// How many address points the first `c` clusters hold together.
    pub open spec fn total_points(&self, c: int) -> int
        decreases c,
    {
        if c <= 0 {
            0
        } else {
            self.total_points(c - 1) + self.spec_clusters()[c - 1].points@.len()
        }
    }

    /// A window that holds a cluster's every point gets one record per
    /// point from it.
    proof fn lemma_cluster_hits_full(&self, c: int, q: Bounds, k: int)
        requires
            0 <= c < self.spec_clusters().len(),
            0 <= k <= self.spec_clusters()[c].points@.len(),
            forall|x: int|
                0 <= x < self.spec_clusters()[c].points@.len() ==> q.spec_contains(
                    (#[trigger] self.spec_clusters()[c].points@[x]).point,
                ),
        ensures
            self.cluster_hits_prefix(c, q, k).len() == k,
        decreases k,
    {
        if k > 0 {
            self.lemma_cluster_hits_full(c, q, k - 1);
        }
    }

    /// Querying a window that holds every indexed point returns exactly one
    /// record per accepted address point: the query's length is the sum of
    /// the accepted clusters' point counts.
    pub proof fn lemma_full_window_count(&self, q: Bounds)
        requires
            self.wf(),
            forall|c: int, k: int|
                0 <= c < self.spec_clusters().len() && 0 <= k
                    < self.spec_clusters()[c].points@.len() ==> q.spec_contains(
                    (#[trigger] self.spec_clusters()[c].points@[k]).point,
                ),
        ensures
            self.spec_query(q).len() == self.total_points(self.spec_clusters().len() as int),
    {
        self.lemma_query_prefix_full(q, self.spec_clusters().len() as int);
    }

    /// The per-prefix form of the full-window count.
    proof fn lemma_query_prefix_full(&self, q: Bounds, c: int)
        requires
            self.wf(),
            0 <= c <= self.spec_clusters().len(),
            forall|cc: int, k: int|
                0 <= cc < self.spec_clusters().len() && 0 <= k
                    < self.spec_clusters()[cc].points@.len() ==> q.spec_contains(
                    (#[trigger] self.spec_clusters()[cc].points@[k]).point,
                ),
        ensures
            self.query_prefix(q, c).len() == self.total_points(c),
        decreases c,
    {
        if c > 0 {
            self.lemma_query_prefix_full(q, c - 1);
            self.lemma_cluster_hits_full(
                c - 1,
                q,
                self.spec_clusters()[c - 1].points@.len() as int,
            );
        }
    }

    /// A cluster whose box misses the window contributes nothing: its points
    /// all sit inside its box.
    proof fn lemma_cluster_hits_empty(&self, c: int, q: Bounds, k: int)
        requires
            self.wf(),
            0 <= c < self.spec_clusters().len(),
            0 <= k <= self.spec_clusters()[c].points@.len(),
            !q.spec_intersects(self.spec_boxes()[c]),
        ensures
            self.cluster_hits_prefix(c, q, k) =~= Seq::<RecordSpec>::empty(),
        decreases k,
    {
        if k > 0 {
            self.lemma_cluster_hits_empty(c, q, k - 1);
            assert(self.spec_boxes()[c].spec_contains(self.spec_clusters()[c].points@[k - 1].point));
        }
    }

    /// Skipping clusters whose boxes miss the window loses no record.
    proof fn lemma_query_prefix_skip(&self, q: Bounds, a: int, b: int)
        requires
            self.wf(),
            0 <= a <= b <= self.spec_clusters().len(),
            forall|c: int| a <= c < b ==> !q.spec_intersects(#[trigger] self.spec_boxes()[c]),
        ensures
            self.query_prefix(q, b) =~= self.query_prefix(q, a),
        decreases b - a,
    {
        if b > a {
            self.lemma_query_prefix_skip(q, a, b - 1);
            self.lemma_cluster_hits_empty(b - 1, q, self.spec_clusters()[b - 1].points@.len() as int);
            assert(self.query_prefix(q, b) =~= self.query_prefix(q, b - 1) + self.cluster_hits(
                b - 1,
                q,
            ));
        }
    }

    /// Answer a window query: every address point of the index that lies in
    /// the window, borders included, with its resolved record — no point
    /// outside, none missing, in cluster order and position order.
    pub fn query(&self, query_bounds: &Bounds) -> (r: Vec<AddressPoint>)
        requires
            self.wf(),
        ensures
            r@.map_values(|ap: AddressPoint| record_view(ap)) =~= self.spec_query(*query_bounds),
    {
        let q = *query_bounds;
        let ids = self.bush.search_range(q.min_x, q.min_y, q.max_x, q.max_y);
        let n = self.clusters.len();
        let mut out: Vec<AddressPoint> = Vec::new();
        let mut t: usize = 0;
        let ghost mut prog: int = 0;
        proof {
            assert(out@.map_values(|ap: AddressPoint| record_view(ap)) =~= self.query_prefix(
                q,
                0,
            ));
        }
        while t < ids.len()
            invariant
                self.wf(),
                0 <= t <= ids@.len(),
                n == self.spec_clusters().len(),
                q == *query_bounds,
                0 <= prog <= n,
                forall|u: int| 0 <= u < ids@.len() ==> (#[trigger] ids@[u]) < n,
                forall|u: int, v: int| 0 <= u < v < ids@.len() ==> ids@[u] < ids@[v],
                forall|c: usize|
                    c < n ==> (#[trigger] ids@.contains(c) <==> self.spec_boxes()[c as int].spec_intersects(
                        q,
                    )),
                forall|u: int| 0 <= u < t ==> (#[trigger] ids@[u]) < prog,
                forall|u: int| t <= u < ids@.len() ==> prog <= (#[trigger] ids@[u]),
                out@.map_values(|ap: AddressPoint| record_view(ap)) =~= self.query_prefix(q, prog),
            decreases ids@.len() - t,
        {
            let c = ids[t];
            proof {
                assert forall|cc: int| prog <= cc < c implies !q.spec_intersects(
                    #[trigger] self.spec_boxes()[cc],
                ) by {
                    if ids@.contains(cc as usize) {
                        let u = choose|u: int| 0 <= u < ids@.len() && ids@[u] == cc as usize;
                        if u < t {
                            assert(ids@[u] < prog);
                        } else {
                            assert(prog <= ids@[u]);
                            assert(ids@[u] <= ids@[t as int] || u == t);
                        }
                        assert(false);
                    }
                    assert(self.spec_boxes()[cc].spec_intersects(q) ==> q.spec_intersects(
                        self.spec_boxes()[cc],
                    ));
                }
                self.lemma_query_prefix_skip(q, prog, c as int);
                prog = c as int;
            }
            let cluster = &self.clusters[c];
            // resolve the cluster's names once
            let mut names_res: Vec<String> = Vec::new();
            let mut j: usize = 0;
            let nn = cluster.names.len();
            while j < nn
                invariant
                    self.wf(),
                    0 <= j <= nn,
                    c < self.spec_clusters().len(),
                    cluster == self.spec_clusters()[c as int],
                    nn == cluster.names@.len(),
                    q == *query_bounds,
                    names_res@.len() == j,
                    forall|x: int|
                        0 <= x < j ==> (#[trigger] names_res@[x])@ == self.spec_names()[cluster.names@[x] as int],
                decreases nn - j,
            {
                let id = cluster.names[j];
                names_res.push(self.name_cache[id as usize].clone());
                j += 1;
            }
            proof {
                assert(names_res@.map_values(|s: String| s@) =~= cluster.names@.map_values(
                    |id: u32| self.spec_names()[id as int],
                ));
            }
            // expand the cluster's points, re-filtering each against the window
            let np = cluster.points.len();
            let mut k: usize = 0;
            while k < np
                invariant
                    self.wf(),
                    0 <= k <= np,
                    c < self.spec_clusters().len(),
                    cluster == self.spec_clusters()[c as int],
                    np == cluster.points@.len(),
                    q == *query_bounds,
                    names_res@.map_values(|s: String| s@) =~= cluster.names@.map_values(
                        |id: u32| self.spec_names()[id as int],
                    ),
                    out@.map_values(|ap: AddressPoint| record_view(ap)) =~= self.query_prefix(
                        q,
                        c as int,
                    ) + self.cluster_hits_prefix(c as int, q, k as int),
                decreases np - k,
            {
                let p = cluster.points[k];
                if query_bounds.contains(&p.point) {
                    let number = match p.number {
                        AddressNumber::Numeric(v) => u32_to_string(v),
                        AddressNumber::Interned(id) => self.number_cache[id as usize].clone(),
                    };
                    proof {
                        match p.number {
                            AddressNumber::Numeric(v) => {},
                            AddressNumber::Interned(id) => {
                                assert(self.spec_numbers()[id as int] == self.number_cache@[id as int]@);
                            },
                        }
                    }
                    let rec = AddressPoint {
                        point: p.point,
                        number,
                        cluster_id: cluster.id,
                        address_position: k as u64,
                        cluster_names: clone_strings(&names_res),
                    };
                    let ghost oldmap = out@.map_values(|ap: AddressPoint| record_view(ap));
                    let ghost oldout = out@;
                    proof {
                        assert(rec.cluster_names@.map_values(|s: String| s@) =~= cluster.names@.map_values(
                            |id: u32| self.spec_names()[id as int],
                        ));
                        assert(record_view(rec) == self.spec_record(c as int, k as int));
                    }
                    out.push(rec);
                    proof {
                        assert(q.spec_contains(self.spec_clusters()[c as int].points@[k as int].point));
                        assert(out@ =~= oldout.push(rec));
                        assert(out@.map_values(|ap: AddressPoint| record_view(ap)) =~= oldmap.push(
                            record_view(rec),
                        ));
                        assert(self.cluster_hits_prefix(c as int, q, k + 1) == self.cluster_hits_prefix(
                            c as int,
                            q,
                            k as int,
                        ).push(self.spec_record(c as int, k as int)));
                    }
                }
                k += 1;
            }
            proof {
                assert(out@.map_values(|ap: AddressPoint| record_view(ap)) =~= self.query_prefix(
                    q,
                    c as int + 1,
                ));
                prog = c as int + 1;
            }
            t += 1;
        }
        proof {
            assert forall|cc: int| prog <= cc < n implies !q.spec_intersects(
                #[trigger] self.spec_boxes()[cc],
            ) by {
                if ids@.contains(cc as usize) {
                    let u = choose|u: int| 0 <= u < ids@.len() && ids@[u] == cc as usize;
                    assert(ids@[u] < prog);
                    assert(false);
                }
                assert(self.spec_boxes()[cc].spec_intersects(q) ==> q.spec_intersects(
                    self.spec_boxes()[cc],
                ));
            }
            self.lemma_query_prefix_skip(q, prog, n as int);
        }
        out
    }
}


/// Every record a window query answers with lies inside the window.
pub proof fn lemma_query_point_in_window(idx: &Index, q: Bounds, t: int)
    requires
        0 <= t < idx.spec_query(q).len(),
    ensures
        q.spec_contains(idx.spec_query(q)[t].point),
{
    lemma_query_prefix_in_window(idx, q, idx.spec_clusters().len() as int, t);
}

/// The per-prefix form: every collected record's point was filtered by the
/// window.
proof fn lemma_query_prefix_in_window(idx: &Index, q: Bounds, c: int, t: int)
    requires
        0 <= t < idx.query_prefix(q, c).len(),
    ensures
        q.spec_contains(idx.query_prefix(q, c)[t].point),
    decreases c,
{
    if c > 0 {
        let pre = idx.query_prefix(q, c - 1);
        if t < pre.len() {
            lemma_query_prefix_in_window(idx, q, c - 1, t);
        } else {
            lemma_cluster_hits_in_window(
                idx,
                q,
                c - 1,
                idx.spec_clusters()[c - 1].points@.len() as int,
                t - pre.len(),
            );
        }
    }
}

/// Every record a cluster contributes lies inside the window.
proof fn lemma_cluster_hits_in_window(idx: &Index, q: Bounds, c: int, k: int, t: int)
    requires
        0 <= t < idx.cluster_hits_prefix(c, q, k).len(),
    ensures
        q.spec_contains(idx.cluster_hits_prefix(c, q, k)[t].point),
    decreases k,
{
    if k > 0 {
        let rest = idx.cluster_hits_prefix(c, q, k - 1);
        if t < rest.len() {
            lemma_cluster_hits_in_window(idx, q, c, k - 1, t);
        }
    }
}

/// A window's record set is exact: the record of cluster `c`, position `k`,
/// is answered exactly when the window holds that point — the coarse
/// candidate filter loses nothing and the point-level re-filter admits
/// nothing.
pub proof fn lemma_query_exact(idx: &Index, q: Bounds, c: int, k: int)
    requires
        idx.wf(),
        0 <= c < idx.spec_clusters().len(),
        0 <= k < idx.spec_clusters()[c].points@.len(),
    ensures
        idx.spec_query(q).contains(idx.spec_record(c, k)) <==> q.spec_contains(
            idx.spec_clusters()[c].points@[k].point,
        ),
{
    let rec = idx.spec_record(c, k);
    if idx.spec_query(q).contains(rec) {
        let t = choose|t: int| 0 <= t < idx.spec_query(q).len() && idx.spec_query(q)[t] == rec;
        lemma_query_point_in_window(idx, q, t);
    }
    if q.spec_contains(idx.spec_clusters()[c].points@[k].point) {
        lemma_hits_prefix_holds(idx, q, c, k, idx.spec_clusters()[c].points@.len() as int);
        lemma_query_prefix_holds(idx, q, c, rec, idx.spec_clusters().len() as int);
    }
}

/// Once a contained point's record enters a cluster's hit list, it stays
/// through every longer prefix.
proof fn lemma_hits_prefix_holds(idx: &Index, q: Bounds, c: int, k: int, m: int)
    requires
        0 <= k < m <= idx.spec_clusters()[c].points@.len(),
        q.spec_contains(idx.spec_clusters()[c].points@[k].point),
    ensures
        idx.cluster_hits_prefix(c, q, m).contains(idx.spec_record(c, k)),
    decreases m,
{
    let rec = idx.spec_record(c, k);
    if m == k + 1 {
        let whole = idx.cluster_hits_prefix(c, q, m);
        assert(whole[whole.len() - 1] == rec);
    } else {
        lemma_hits_prefix_holds(idx, q, c, k, m - 1);
        let rest = idx.cluster_hits_prefix(c, q, m - 1);
        let t = choose|t: int| 0 <= t < rest.len() && rest[t] == rec;
        assert(idx.cluster_hits_prefix(c, q, m)[t] == rec);
    }
}

/// A record one cluster contributes stays in every longer query prefix.
proof fn lemma_query_prefix_holds(idx: &Index, q: Bounds, c: int, rec: RecordSpec, b: int)
    requires
        0 <= c < b <= idx.spec_clusters().len(),
        idx.cluster_hits(c, q).contains(rec),
    ensures
        idx.query_prefix(q, b).contains(rec),
    decreases b,
{
    if b == c + 1 {
        let pre = idx.query_prefix(q, c);
        let hits = idx.cluster_hits(c, q);
        let t = choose|t: int| 0 <= t < hits.len() && hits[t] == rec;
        assert(idx.query_prefix(q, b)[pre.len() + t] == rec);
    } else {
        lemma_query_prefix_holds(idx, q, c, rec, b - 1);
        let pre = idx.query_prefix(q, b - 1);
        let t = choose|t: int| 0 <= t < pre.len() && pre[t] == rec;
        assert(idx.query_prefix(q, b)[t] == rec);
    }
}

/// Copy a resolved name list for one more record.
pub(crate) fn clone_strings(v: &Vec<String>) -> (r: Vec<String>)
    ensures
        r@.map_values(|s: String| s@) =~= v@.map_values(|s: String| s@),
        r@.len() == v@.len(),
{
    let mut r: Vec<String> = Vec::new();
    let n = v.len();
    let mut i: usize = 0;
    while i < n
        invariant
            0 <= i <= n,
            n == v@.len(),
            r@.len() == i,
            forall|x: int| 0 <= x < i ==> (#[trigger] r@[x])@ == v@[x]@,
        decreases n - i,
    {
        r.push(v[i].clone());
        i += 1;
    }
    proof {
        assert(r@.map_values(|s: String| s@) =~= v@.map_values(|s: String| s@));
    }
    r
}

/// Accumulates decoded clusters, their boxes and the growing string caches
/// during the one-pass load, until the index is built.
pub struct IndexBuilder {
    clusters: Vec<Cluster>,
    bush: StaticBushBuilder,
    name_cache: StringCacheBuilder,
    number_cache: StringCacheBuilder,
}

impl IndexBuilder {
    /// The clusters accepted so far.
    pub closed spec fn spec_clusters(&self) -> Seq<Cluster> {
        self.clusters@
    }

    /// The boxes added so far, one per accepted cluster.
    pub closed spec fn spec_boxes(&self) -> Seq<Bounds> {
        self.bush@
    }

    /// The name cache contents so far.
    pub closed spec fn names_es(&self) -> Seq<Seq<char>> {
        self.name_cache@
    }

    /// The address-number cache contents so far.
    pub closed spec fn numbers_es(&self) -> Seq<Seq<char>> {
        self.number_cache@
    }

    /// Everything `finish` needs to hand over a sound index.
    pub closed spec fn wf(&self) -> bool {
        &&& self.name_cache.wf()
        &&& self.number_cache.wf()
        &&& self.spec_boxes().len() == self.spec_clusters().len()
        &&& (forall|c: int, k: int|
            0 <= c < self.spec_clusters().len() && 0 <= k
                < self.spec_clusters()[c].points@.len() ==> self.spec_boxes()[c].spec_contains(
                (#[trigger] self.spec_clusters()[c].points@[k]).point,
            ))
        &&& (forall|c: int, k: int|
            0 <= c < self.spec_clusters().len() && 0 <= k
                < self.spec_clusters()[c].points@.len() ==> ((#[trigger] self.spec_clusters(
            )[c].points@[k]).number matches AddressNumber::Interned(id) ==> (id as int)
                < self.numbers_es().len()))
        &&& (forall|c: int, k: int|
            0 <= c < self.spec_clusters().len() && 0 <= k
                < self.spec_clusters()[c].names@.len() ==> ((#[trigger] self.spec_clusters(
            )[c].names@[k]) as int) < self.names_es().len())
    }

    /// An empty builder: no clusters, no boxes, empty caches.
    pub fn new() -> (r: IndexBuilder)
        ensures
            r.wf(),
            r.spec_clusters() =~= Seq::<Cluster>::empty(),
            r.spec_boxes() =~= Seq::<Bounds>::empty(),
            r.names_es() =~= Seq::<Seq<char>>::empty(),
            r.numbers_es() =~= Seq::<Seq<char>>::empty(),
    {
        IndexBuilder {
            clusters: Vec::new(),
            bush: StaticBushBuilder::new(),
            name_cache: StringCacheBuilder::new(),
            number_cache: StringCacheBuilder::new(),
        }
    }

    /// Decode one parsed line and, when it is accepted, keep its cluster and
    /// add its bounding box to the index under the next leaf id. A skipped
    /// line changes no cluster and no box, though a line refused only at the
    /// name check keeps its address-number texts interned.
    pub fn add_line(&mut self, line: &ParsedLine) -> (r: Result<(), DecodeError>)
        requires
            old(self).wf(),
        ensures
            final(self).wf(),
            match geom_parts(*line) {
                Err(e) => r matches Err(e2) && e2 == e && final(self).spec_clusters() == old(self).spec_clusters() && final(self).spec_boxes() == old(self).spec_boxes() && final(self).names_es() == old(self).names_es() && final(self).numbers_es() == old(self).numbers_es(),
                Ok(gp) => {
                    &&& final(self).numbers_es() == es_after_numbers(
                        old(self).numbers_es(),
                        gp.nums,
                        min2(gp.nums.len() as int, gp.mp.len() as int),
                    )
                    &&& match names_text(*line) {
                        None => r matches Err(e2) && e2 == DecodeError::NoNames && final(self).spec_clusters() == old(self).spec_clusters() && final(self).spec_boxes()
                            == old(self).spec_boxes() && final(self).names_es() == old(self).names_es(),
                        Some(t) => {
                            &&& r is Ok
                            &&& final(self).spec_clusters().len() == old(self).spec_clusters().len() + 1
                            &&& final(self).spec_boxes().len() == old(self).spec_boxes().len() + 1
                            &&& final(self).spec_clusters() =~= old(self).spec_clusters().push(
                                final(self).spec_clusters().last(),
                            )
                            &&& final(self).spec_boxes() =~= old(self).spec_boxes().push(
                                final(self).spec_boxes().last(),
                            )
                            &&& cluster_decoded(
                                gp,
                                t,
                                old(self).names_es(),
                                old(self).numbers_es(),
                                final(self).spec_clusters().last(),
                                final(self).spec_boxes().last(),
                                final(self).names_es(),
                                final(self).numbers_es(),
                            )
                        },
                    }
                },
            },
    {
        let ghost ns0 = self.name_cache@;
        let ghost es0 = self.number_cache@;
        let ghost old_clusters = self.clusters@;
        let r = process_row(line, &mut self.name_cache, &mut self.number_cache);
        proof {
            if geom_parts(*line) is Ok {
                let gp = geom_parts(*line)->Ok_0;
                crate::decode::lemma_es_after_numbers_grows(
                    es0,
                    gp.nums,
                    min2(gp.nums.len() as int, gp.mp.len() as int),
                );
                if names_text(*line) is Some {
                    let pieces = crate::text::split_commas(names_text(*line)->0);
                    crate::cache::lemma_intern_fold_prefix(ns0, pieces, pieces.len() as int);
                }
            }
            assert(self.name_cache@.len() >= ns0.len());
            assert(self.number_cache@.len() >= es0.len());
        }
        match r {
            Ok((cluster, bounds)) => {
                self.clusters.push(cluster);
                self.bush.add(bounds);
                proof {
                    assert(self.clusters@ =~= old_clusters.push(self.clusters@.last()));
                    assert forall|c: int, k: int|
                        0 <= c < self.clusters@.len() && 0 <= k
                            < self.clusters@[c].points@.len() implies self.bush@[c].spec_contains(
                        (#[trigger] self.clusters@[c].points@[k]).point,
                    ) by {
                        if c < old_clusters.len() {
                            assert(self.clusters@[c] == old_clusters[c]);
                        }
                    }
                    assert forall|c: int, k: int|
                        0 <= c < self.clusters@.len() && 0 <= k
                            < self.clusters@[c].points@.len() implies ((
                    #[trigger] self.clusters@[c].points@[k]).number matches
                    AddressNumber::Interned(id) ==> (id as int) < self.number_cache@.len()) by {
                        if c < old_clusters.len() {
                            assert(self.clusters@[c] == old_clusters[c]);
                        }
                    }
                    assert forall|c: int, k: int|
                        0 <= c < self.clusters@.len() && 0 <= k
                            < self.clusters@[c].names@.len() implies ((
                    #[trigger] self.clusters@[c].names@[k]) as int) < self.name_cache@.len() by {
                        if c < old_clusters.len() {
                            assert(self.clusters@[c] == old_clusters[c]);
                        }
                    }
                }
                Ok(())
            },
            Err(e) => Err(e),
        }
    }

    /// Bulk-build the finished index from everything accepted so far.
    pub fn finish(self) -> (r: Index)
        requires
            self.wf(),
        ensures
            r.wf(),
            r.spec_clusters() == self.spec_clusters(),
            r.spec_boxes() == self.spec_boxes(),
            r.spec_names() =~= self.names_es(),
            r.spec_numbers() =~= self.numbers_es(),
    {
        Index {
            clusters: self.clusters,
            name_cache: self.name_cache.finish(),
            number_cache: self.number_cache.finish(),
            bush: self.bush.finish(),
        }
    }
}

} // verus!
