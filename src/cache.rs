//! The render cache: a bounded least-recently-used map (the `lru` crate) from a
//! document's fingerprint to its rendered HTML.

use vstd::prelude::*;
use lru::LruCache;
use std::num::NonZeroUsize;
use crate::sanitize::same_text;

verus! {

broadcast use vstd::seq_lib::group_seq_properties;

/// What identifies one rendering: the file, its size and modification time
/// when it was read, and the theme.
#[derive(Clone, PartialEq, Eq, Hash)]
pub struct Fingerprint {
    pub path: String,
    pub size: u64,
    pub modified: u64,
    pub theme: String,
}

/// The value of a `Fingerprint`.
pub struct FingerprintView {
    pub path: Seq<char>,
    pub size: u64,
    pub modified: u64,
    pub theme: Seq<char>,
}

impl View for Fingerprint {
    type V = FingerprintView;

    open spec fn view(&self) -> FingerprintView {
        FingerprintView { path: self.path@, size: self.size, modified: self.modified, theme: self.theme@ }
    }
}

impl Fingerprint {
    pub fn new(path: &str, size: u64, modified: u64, theme: &str) -> (r: Fingerprint)
        ensures
            r@ == (FingerprintView { path: path@, size, modified, theme: theme@ }),
    {
        Fingerprint { path: String::from_str(path), size, modified, theme: String::from_str(theme) }
    }

    /// A copy of this fingerprint.
    pub fn copy(&self) -> (r: Fingerprint)
        ensures
            r@ == self@,
    {
        Fingerprint { path: self.path.clone(), size: self.size, modified: self.modified, theme: self.theme.clone() }
    }
}

/// One cache entry: a fingerprint and its HTML.
pub type Entry = (FingerprintView, Seq<char>);

#[verifier::external_type_specification]
#[verifier::external_body]
#[verifier::reject_recursive_types(K)]
#[verifier::reject_recursive_types(V)]
#[verifier::reject_recursive_types(S)]
pub struct ExLruCache<K, V, S>(LruCache<K, V, S>);

#[verifier::external_type_specification]
#[verifier::external_body]
pub struct ExDefaultHasher(lru::DefaultHasher);

/// The entries of an LRU cache, most recently used first.
pub uninterp spec fn lru_entries(c: LruCache<Fingerprint, String>) -> Seq<Entry>;

/// The capacity an LRU cache was made with.
pub uninterp spec fn lru_capacity(c: LruCache<Fingerprint, String>) -> nat;

/// Whether some entry of `s` has key `k`.
pub open spec fn has_key(s: Seq<Entry>, k: FingerprintView) -> bool {
    exists|i: int| 0 <= i < s.len() && s[i].0 == k
}

/// No two entries of `s` have the same key.
pub open spec fn unique_keys(s: Seq<Entry>) -> bool {
    forall|i: int, j: int| 0 <= i < s.len() && 0 <= j < s.len() && s[i].0 == s[j].0 ==> i == j
}

/// The value stored under `k` in `s` (meaningful when `has_key(s, k)`).
pub open spec fn value_of(s: Seq<Entry>, k: FingerprintView) -> Seq<char> {
    s[choose|i: int| 0 <= i < s.len() && s[i].0 == k].1
}

/// Entries whose key is not `k`.
pub open spec fn other_key(k: FingerprintView) -> spec_fn(Entry) -> bool {
    |e: Entry| e.0 != k
}

/// Entries whose fingerprint's path is not `p`.
pub open spec fn other_path(p: Seq<char>) -> spec_fn(Entry) -> bool {
    |e: Entry| e.0.path != p
}

/// `s` without the entry of key `k`.
pub open spec fn without_key(s: Seq<Entry>, k: FingerprintView) -> Seq<Entry> {
    s.filter(other_key(k))
}

/// `s` without the entries whose fingerprint's path is `p`.
pub open spec fn without_path(s: Seq<Entry>, p: Seq<char>) -> Seq<Entry> {
    s.filter(other_path(p))
}

/// The entries after storing `v` under `k` with capacity `cap`: the entry
/// becomes the most recent; a new key in a full cache evicts the least recent.
pub open spec fn put_spec(s: Seq<Entry>, cap: nat, k: FingerprintView, v: Seq<char>) -> Seq<Entry> {
    if has_key(s, k) {
        seq![(k, v)] + without_key(s, k)
    } else if s.len() >= cap {
        seq![(k, v)] + s.take(cap - 1)
    } else {
        seq![(k, v)] + s
    }
}

/// The result of looking up `k`.
pub open spec fn get_result(s: Seq<Entry>, k: FingerprintView) -> Option<Seq<char>> {
    if has_key(s, k) {
        Some(value_of(s, k))
    } else {
        None
    }
}

/// The entries after looking up `k`: a hit becomes the most recent.
pub open spec fn get_spec(s: Seq<Entry>, k: FingerprintView) -> Seq<Entry> {
    if has_key(s, k) {
        seq![(k, value_of(s, k))] + without_key(s, k)
    } else {
        s
    }
}

/// A well-formed cache state: keys are unique and there are at most `cap`
/// entries.
pub open spec fn cache_wf(s: Seq<Entry>, cap: nat) -> bool {
    unique_keys(s) && s.len() <= cap && cap > 0
}

/// Relies on `LruCache::new`: an empty cache of this capacity.
#[verifier::external_body]
fn lru_new(cap: usize) -> (r: LruCache<Fingerprint, String>)
    requires
        cap > 0,
    ensures
        lru_entries(r) == Seq::<Entry>::empty(),
        lru_capacity(r) == cap,
{
    LruCache::new(NonZeroUsize::new(cap).unwrap())
}

/// Relies on `LruCache::get`: the value under `k`, which becomes most recent.
#[verifier::external_body]
fn lru_get(c: &mut LruCache<Fingerprint, String>, k: &Fingerprint) -> (r: Option<String>)
    ensures
        lru_capacity(*final(c)) == lru_capacity(*old(c)),
        lru_entries(*final(c)) == get_spec(lru_entries(*old(c)), k@),
        match r {
            Some(v) => get_result(lru_entries(*old(c)), k@) == Some(v@),
            None => get_result(lru_entries(*old(c)), k@) is None,
        },
        cache_wf(lru_entries(*final(c)), lru_capacity(*final(c))),
{
    c.get(k).cloned()
}

/// Relies on `LruCache::put`: stores `v` under `k` as the most recent entry,
/// evicting the least recent one when a new key finds the cache full.
#[verifier::external_body]
fn lru_put(c: &mut LruCache<Fingerprint, String>, k: Fingerprint, v: String)
    ensures
        lru_capacity(*final(c)) == lru_capacity(*old(c)),
        lru_entries(*final(c)) == put_spec(lru_entries(*old(c)), lru_capacity(*old(c)), k@, v@),
        cache_wf(lru_entries(*final(c)), lru_capacity(*final(c))),
{
    c.put(k, v);
}

/// Relies on `LruCache::pop`: removes the entry of key `k`, if any.
#[verifier::external_body]
fn lru_pop(c: &mut LruCache<Fingerprint, String>, k: &Fingerprint)
    ensures
        lru_capacity(*final(c)) == lru_capacity(*old(c)),
        lru_entries(*final(c)) == without_key(lru_entries(*old(c)), k@),
        cache_wf(lru_entries(*final(c)), lru_capacity(*final(c))),
{
    c.pop(k);
}

/// Relies on `LruCache::iter`: the keys, most recently used first.
#[verifier::external_body]
fn lru_keys(c: &LruCache<Fingerprint, String>) -> (r: Vec<Fingerprint>)
    ensures
        r@.map_values(|k: Fingerprint| k@) == lru_entries(*c).map_values(|e: Entry| e.0),
{
    c.iter().map(|(k, _)| k.clone()).collect()
}

/// Relies on `LruCache::len`: the number of entries.
#[verifier::external_body]
fn lru_len(c: &LruCache<Fingerprint, String>) -> (r: usize)
    ensures
        r == lru_entries(*c).len(),
{
    c.len()
}

/// Everything in `s.filter(f)` is in `s`.
pub proof fn lemma_filter_from<A>(s: Seq<A>, f: spec_fn(A) -> bool, j: int)
    requires
        0 <= j < s.filter(f).len(),
    ensures
        s.contains(s.filter(f)[j]),
    decreases s.len(),
{
    reveal(Seq::filter);
    if s.len() > 0 {
        let sub = s.drop_last().filter(f);
        if j < sub.len() {
            lemma_filter_from(s.drop_last(), f, j);
            let k = choose|k: int| 0 <= k < s.drop_last().len() && s.drop_last()[k] == sub[j];
            assert(s[k] == s.filter(f)[j]);
        } else {
            assert(s.filter(f)[j] == s[s.len() - 1]);
        }
    }
}

/// A filter that keeps everything changes nothing.
pub proof fn lemma_filter_all<A>(s: Seq<A>, f: spec_fn(A) -> bool)
    requires
        forall|i: int| 0 <= i < s.len() ==> f(#[trigger] s[i]),
    ensures
        s.filter(f) == s,
    decreases s.len(),
{
    reveal(Seq::filter);
    if s.len() > 0 {
        lemma_filter_all(s.drop_last(), f);
        assert(s.drop_last().push(s.last()) =~= s);
    }
}

/// The render cache: at most `capacity` renderings, least recently used
/// evicted first.
pub struct RenderCache {
    inner: LruCache<Fingerprint, String>,
}

impl RenderCache {
    /// The entries, most recently used first.
    pub closed spec fn entries(&self) -> Seq<Entry> {
        lru_entries(self.inner)
    }

    /// The capacity.
    pub closed spec fn capacity(&self) -> nat {
        lru_capacity(self.inner)
    }

    pub open spec fn wf(&self) -> bool {
        cache_wf(self.entries(), self.capacity())
    }

    /// An empty cache holding at most `capacity` renderings.
    pub fn new(capacity: usize) -> (r: RenderCache)
        requires
            capacity > 0,
        ensures
            r.wf(),
            r.entries() == Seq::<Entry>::empty(),
            r.capacity() == capacity,
    {
        RenderCache { inner: lru_new(capacity) }
    }

    /// The HTML stored for `f`, if any; a hit becomes the most recent entry.
    pub fn get(&mut self, f: &Fingerprint) -> (r: Option<String>)
        requires
            old(self).wf(),
        ensures
            final(self).wf(),
            final(self).capacity() == old(self).capacity(),
            final(self).entries() == get_spec(old(self).entries(), f@),
            match r {
                Some(h) => get_result(old(self).entries(), f@) == Some(h@),
                None => get_result(old(self).entries(), f@) is None,
            },
    {
        lru_get(&mut self.inner, f)
    }

    /// Stores `html` for `f` as the most recent entry; when a new fingerprint
    /// finds the cache full, the least recent entry is evicted.
    pub fn put(&mut self, f: Fingerprint, html: String)
        requires
            old(self).wf(),
        ensures
            final(self).wf(),
            final(self).capacity() == old(self).capacity(),
            final(self).entries() == put_spec(old(self).entries(), old(self).capacity(), f@, html@),
    {
        lru_put(&mut self.inner, f, html)
    }

    /// The number of entries.
    pub fn len(&self) -> (r: usize)
        ensures
            r == self.entries().len(),
    {
        lru_len(&self.inner)
    }

    /// Removes every entry whose fingerprint has path `path`, whatever its
    /// theme, size or time; the other entries stay, in the same order.
    pub fn invalidate_path(&mut self, path: &str)
        requires
            old(self).wf(),
        ensures
            final(self).wf(),
            final(self).capacity() == old(self).capacity(),
            final(self).entries() == without_path(old(self).entries(), path@),
    {
        let ghost orig = self.entries();
        let ghost p = path@;
        let keys = lru_keys(&self.inner);
        proof {
            assert(keys@.len() == orig.len()) by {
                assert(keys@.map_values(|k: Fingerprint| k@).len() == orig.map_values(|e: Entry| e.0).len());
            }
            assert(orig.take(0).filter(other_path(p)) =~= Seq::<Entry>::empty()) by {
                reveal(Seq::filter);
            }
            assert(orig.skip(0) =~= orig);
        }
        let mut i: usize = 0;
        while i < keys.len()
            invariant
                self.wf(),
                self.capacity() == old(self).capacity(),
                orig == old(self).entries(),
                unique_keys(orig),
                p == path@,
                i <= keys@.len(),
                keys@.len() == orig.len(),
                keys@.map_values(|k: Fingerprint| k@) == orig.map_values(|e: Entry| e.0),
                self.entries() == without_path(orig.take(i as int), p) + orig.skip(i as int),
            decreases keys@.len() - i,
        {
            let ghost a = without_path(orig.take(i as int), p);
            let ghost k = orig[i as int].0;
            proof {
                assert(keys@[i as int]@ == keys@.map_values(|k: Fingerprint| k@)[i as int]);
                assert(keys@[i as int]@ == k);
                assert(orig.take(i + 1 as int) =~= orig.take(i as int).push(orig[i as int]));
                orig.take(i as int).lemma_filter_push(orig[i as int], other_path(p));
                assert(orig.skip(i as int) =~= seq![orig[i as int]] + orig.skip(i + 1 as int));
            }
            if same_text(keys[i].path.as_str(), path) {
                lru_pop(&mut self.inner, &keys[i]);
                proof {
                    let f = other_key(k);
                    Seq::filter_distributes_over_add(a, orig.skip(i as int), f);
                    assert forall|j: int| 0 <= j < a.len() implies f(#[trigger] a[j]) by {
                        lemma_filter_from(orig.take(i as int), other_path(p), j);
                        let m = choose|m: int| 0 <= m < orig.take(i as int).len() && orig.take(i as int)[m] == a[j];
                        assert(orig[m] == a[j]);
                    }
                    lemma_filter_all(a, f);
                    orig.skip(i + 1 as int).lemma_filter_prepend(orig[i as int], f);
                    assert forall|j: int| 0 <= j < orig.skip(i + 1 as int).len() implies f(
                        #[trigger] orig.skip(i + 1 as int)[j],
                    ) by {
                        assert(orig.skip(i + 1 as int)[j] == orig[i + 1 + j]);
                    }
                    lemma_filter_all(orig.skip(i + 1 as int), f);
                    assert(self.entries() == a + orig.skip(i + 1 as int));
                }
            } else {
                proof {
                    assert(self.entries() =~= a.push(orig[i as int]) + orig.skip(i + 1 as int));
                }
            }
            i = i + 1;
        }
        proof {
            assert(orig.take(orig.len() as int) =~= orig);
            assert(orig.skip(orig.len() as int) =~= Seq::<Entry>::empty());
            assert(self.entries() =~= without_path(orig, p));
        }
    }
}

} // verus!
