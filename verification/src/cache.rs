//! String interning: a write-once, insertion-ordered mapping from strings to
//! dense 32-bit ids, built during the load and frozen into a plain array.

use vstd::prelude::*;

verus! {

/// The id that interning `s` into the cache contents `es` yields: the
/// position of the first occurrence of `s`, or, for a new string, the
/// position it is appended at.
pub open spec fn intern_id(es: Seq<Seq<char>>, s: Seq<char>) -> int
    decreases es.len(),
{
    if es.len() == 0 {
        0
    } else if es[0] == s {
        0
    } else {
        1 + intern_id(es.skip(1), s)
    }
}

/// The cache contents after interning `s`: unchanged if `s` is already
/// present, else with `s` appended.
pub open spec fn intern_insert(es: Seq<Seq<char>>, s: Seq<char>) -> Seq<Seq<char>> {
    if es.contains(s) {
        es
    } else {
        es.push(s)
    }
}

/// `intern_id` points at `s` when present, and at the end when not.
pub proof fn lemma_intern_id(es: Seq<Seq<char>>, s: Seq<char>)
    ensures
        0 <= intern_id(es, s) <= es.len(),
        es.contains(s) ==> intern_id(es, s) < es.len() && es[intern_id(es, s)] == s,
        !es.contains(s) ==> intern_id(es, s) == es.len(),
        intern_insert(es, s)[intern_id(es, s)] == s,
    decreases es.len(),
{
    if es.len() > 0 && es[0] != s {
        lemma_intern_id(es.skip(1), s);
        assert(es.contains(s) ==> es.skip(1).contains(s)) by {
            if es.contains(s) {
                let i = choose|i: int| 0 <= i < es.len() && es[i] == s;
                assert(es.skip(1)[i - 1] == s);
            }
        }
        assert(es.skip(1).contains(s) ==> es.contains(s)) by {
            if es.skip(1).contains(s) {
                let i = choose|i: int| 0 <= i < es.skip(1).len() && es.skip(1)[i] == s;
                assert(es[i + 1] == s);
            }
        }
        if !es.contains(s) {
            assert(intern_insert(es, s)[intern_id(es, s)] == s);
        }
    }
}

/// Interning a string twice, from any two later states of the same cache,
/// yields the same id both times: once a string has its id, no later insert
/// moves it.
pub proof fn lemma_intern_stable(es: Seq<Seq<char>>, s: Seq<char>, t: Seq<char>)
    ensures
        intern_id(intern_insert(es, s), s) == intern_id(es, s),
        intern_id(intern_insert(intern_insert(es, s), t), s) == intern_id(es, s),
    decreases es.len(),
{
    lemma_intern_id(es, s);
    lemma_intern_prefix(es, intern_insert(es, s), s);
    lemma_intern_prefix(es, intern_insert(intern_insert(es, s), t), s);
}

/// Interning looks only at the prefix up to the first occurrence: any
/// extension of a cache that already holds `s` (or is extended to hold it at
/// the same spot) assigns `s` the same id.
pub proof fn lemma_intern_prefix(es: Seq<Seq<char>>, fs: Seq<Seq<char>>, s: Seq<char>)
    requires
        es.len() <= fs.len(),
        forall|i: int| 0 <= i < es.len() ==> fs[i] == es[i],
        fs.len() > es.len() ==> es.contains(s) || fs[es.len() as int] == s,
    ensures
        es.contains(s) || fs.len() > es.len() ==> intern_id(fs, s) == intern_id(es, s),
    decreases es.len(),
{
    if es.len() == 0 {
        if fs.len() > 0 {
            assert(fs[0] == s);
        }
    } else if es[0] == s {
    } else {
        assert(es.contains(s) ==> es.skip(1).contains(s)) by {
            if es.contains(s) {
                let i = choose|i: int| 0 <= i < es.len() && es[i] == s;
                assert(i != 0);
                assert(es.skip(1)[i - 1] == s);
            }
        }
        lemma_intern_prefix(es.skip(1), fs.skip(1), s);
    }
}

/// The id of an interned string points into the cache it was interned into.
pub proof fn lemma_intern_id_in_insert(es: Seq<Seq<char>>, s: Seq<char>)
    ensures
        0 <= intern_id(es, s) < intern_insert(es, s).len(),
        es.len() <= intern_insert(es, s).len(),
        forall|i: int| 0 <= i < es.len() ==> intern_insert(es, s)[i] == es[i],
{
    lemma_intern_id(es, s);
}

/// The cache contents after interning the first `k` strings of `xs`, in
/// order, into `es`.
pub open spec fn intern_fold(es: Seq<Seq<char>>, xs: Seq<Seq<char>>, k: int) -> Seq<Seq<char>>
    decreases k,
{
    if k <= 0 {
        es
    } else {
        intern_insert(intern_fold(es, xs, k - 1), xs[k - 1])
    }
}

/// The id handed to the `k`-th string of `xs` when the strings are interned
/// in order into `es`.
pub open spec fn intern_fold_id(es: Seq<Seq<char>>, xs: Seq<Seq<char>>, k: int) -> int {
    intern_id(intern_fold(es, xs, k), xs[k])
}

/// Interning a string sequence only appends: the earlier contents stay where
/// they were, and each id handed out points into every later state.
pub proof fn lemma_intern_fold_prefix(es: Seq<Seq<char>>, xs: Seq<Seq<char>>, k: int)
    requires
        0 <= k,
    ensures
        es.len() <= intern_fold(es, xs, k).len(),
        forall|i: int| 0 <= i < es.len() ==> intern_fold(es, xs, k)[i] == es[i],
    decreases k,
{
    if k > 0 {
        lemma_intern_fold_prefix(es, xs, k - 1);
        lemma_intern_id_in_insert(intern_fold(es, xs, k - 1), xs[k - 1]);
    }
}

/// The outside index map that backs the cache, held whole behind an
/// opaque wrapper: its keys are the interned strings, in insertion order.
#[verifier::external_body]
pub struct RawCache {
    inner: indexmap::IndexMap<String, usize>,
}

/// The keys the backing map holds, in insertion order.
pub uninterp spec fn cache_entries(m: RawCache) -> Seq<Seq<char>>;

/// Relies on `IndexMap::new`: a fresh map holds no key.
#[verifier::external_body]
fn raw_new() -> (r: RawCache)
    ensures
        cache_entries(r) == Seq::<Seq<char>>::empty(),
{
    RawCache { inner: indexmap::IndexMap::new() }
}

/// Relies on `IndexMap::len`: how many keys the map holds.
#[verifier::external_body]
fn raw_len(m: &RawCache) -> (r: usize)
    ensures
        r == cache_entries(*m).len(),
{
    m.inner.len()
}

/// Relies on `IndexMap::get_index_of`: the position of an equivalent key,
/// or nothing when the map holds none.
#[verifier::external_body]
fn raw_get_index_of(m: &RawCache, s: &String) -> (r: Option<usize>)
    ensures
        match r {
            Some(i) => i < cache_entries(*m).len() && cache_entries(*m)[i as int] == s@,
            None => !cache_entries(*m).contains(s@),
        },
{
    m.inner.get_index_of(s)
}

/// Relies on `IndexMap::insert`: a key the map does not hold yet is
/// inserted last in order.
#[verifier::external_body]
fn raw_insert(m: &mut RawCache, s: String, v: usize)
    requires
        !cache_entries(*old(m)).contains(s@),
    ensures
        cache_entries(*final(m)) == cache_entries(*old(m)).push(s@),
{
    m.inner.insert(s, v);
}

/// Relies on `IndexMap::into_iter`: the keys come out in insertion order.
#[verifier::external_body]
fn raw_keys(m: RawCache) -> (r: Vec<String>)
    ensures
        r@.len() == cache_entries(m).len(),
        forall|i: int| 0 <= i < r@.len() ==> (#[trigger] r@[i])@ == cache_entries(m)[i],
{
    m.inner.into_iter().map(|(k, _v)| k).collect()
}

/// An append-only string cache under construction. Equal strings get equal
/// ids; ids count up densely from zero in insertion order.
pub struct StringCacheBuilder {
    map: RawCache,
}

impl StringCacheBuilder {
    /// The strings interned so far, in insertion order; the id of a string
    /// is its position here.
    pub closed spec fn view(&self) -> Seq<Seq<char>> {
        cache_entries(self.map)
    }

    /// The cache never holds the same string twice.
    pub closed spec fn wf(&self) -> bool {
        self@.no_duplicates()
    }

    /// A fresh, empty cache.
    pub fn new() -> (r: StringCacheBuilder)
        ensures
            r@ =~= Seq::<Seq<char>>::empty(),
            r.wf(),
    {
        StringCacheBuilder { map: raw_new() }
    }

    /// How many distinct strings the cache holds.
    pub fn len(&self) -> (r: usize)
        ensures
            r == self@.len(),
    {
        raw_len(&self.map)
    }

    /// The id of `s`, interning it first if it is new.
    ///
    /// The returned id is the position of `s` in the cache, narrowed to 32
    /// bits as the compact representation asks; it is exact while the cache
    /// holds fewer than 2^32 strings.
    pub fn get_id(&mut self, s: String) -> (r: u32)
        requires
            old(self).wf(),
        ensures
            final(self).wf(),
            final(self)@ =~= intern_insert(old(self)@, s@),
            r as int == intern_id(old(self)@, s@) % 0x1_0000_0000,
            intern_id(old(self)@, s@) < 0x1_0000_0000 ==> r == intern_id(old(self)@, s@),
            (r as int) < final(self)@.len(),
    {
        let ghost es = self@;
        proof {
            lemma_intern_id(es, s@);
        }
        match raw_get_index_of(&self.map, &s) {
            Some(i) => {
                proof {
                    // the cache holds no duplicate, so the found position is
                    // the first occurrence, which is the id interning hands out
                    assert(es.contains(s@)) by {
                        assert(es[i as int] == s@);
                    }
                    assert(i as int == intern_id(es, s@)) by {
                        let j = intern_id(es, s@);
                        if i as int != j {
                            assert(es[i as int] == es[j]);
                        }
                    }
                }
                (((i as u64) % 0x1_0000_0000) as u32)
            },
            None => {
                let ghost sv = s@;
                let n = raw_len(&self.map);
                raw_insert(&mut self.map, s, n);
                proof {
                    assert(self@ =~= es.push(sv));
                    assert(self@.no_duplicates()) by {
                        assert forall|a: int, b: int|
                            0 <= a < b < self@.len() implies self@[a] != self@[b] by {
                            if b == es.len() {
                                assert(self@[b] == sv);
                                if self@[a] == sv {
                                    assert(es.contains(sv));
                                }
                            }
                        }
                    }
                }
                (((n as u64) % 0x1_0000_0000) as u32)
            },
        }
    }

    /// Freeze the cache into its final array: the interned strings, in
    /// insertion order, indexed by id.
    pub fn finish(self) -> (r: Vec<String>)
        ensures
            r@.map_values(|e: String| e@) =~= self@,
    {
        raw_keys(self.map)
    }
}

} // verus!
