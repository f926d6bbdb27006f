//! Properties that relate several operations of the cache and the watch
//! multiplexer, proved over the models the operations are specified by.

use vstd::prelude::*;
use crate::cache::{
    cache_wf, get_result, get_spec, has_key, lemma_filter_from, other_key,
    other_path, put_spec, unique_keys, value_of, without_key, without_path, Entry, FingerprintView,
};
use crate::highlight::syntax_known;
use crate::markdown::{fold, MdEmitView, MdTokenView};
use crate::sanitize::{attribute_value, has_scheme, href_allowed, is_scheme_stop, is_word, scheme_end, scheme_of, stop_from};
use crate::watch::{
    consumer_path, elapse_notified, elapse_spec, other_than, signal_spec, subscribe_spec,
    unsubscribe_spec, without, Watch,
};

verus! {

broadcast use vstd::seq_lib::group_seq_properties;

/// An operation on the render cache.
pub enum CacheOp {
    Put(FingerprintView, Seq<char>),
    Get(FingerprintView),
    Invalidate(Seq<char>),
}

/// The entries after `op`.
pub open spec fn apply_op(s: Seq<Entry>, cap: nat, op: CacheOp) -> Seq<Entry> {
    match op {
        CacheOp::Put(k, v) => put_spec(s, cap, k, v),
        CacheOp::Get(k) => get_spec(s, k),
        CacheOp::Invalidate(p) => without_path(s, p),
    }
}

/// The entries after `ops`, in order.
pub open spec fn apply_ops(s: Seq<Entry>, cap: nat, ops: Seq<CacheOp>) -> Seq<Entry>
    decreases ops.len(),
{
    if ops.len() == 0 {
        s
    } else {
        apply_op(apply_ops(s, cap, ops.drop_last()), cap, ops.last())
    }
}

/// `op` neither stores under `f` nor invalidates `f`'s path.
pub open spec fn spares(op: CacheOp, f: FingerprintView) -> bool {
    match op {
        CacheOp::Put(k, _) => k != f,
        CacheOp::Get(_) => true,
        CacheOp::Invalidate(p) => p != f.path,
    }
}

proof fn lemma_filter_unique(s: Seq<Entry>, f: spec_fn(Entry) -> bool)
    requires
        unique_keys(s),
    ensures
        unique_keys(s.filter(f)),
        s.filter(f).len() <= s.len(),
    decreases s.len(),
{
    reveal(Seq::filter);
    s.lemma_filter_len(f);
    if s.len() > 0 {
        let d = s.drop_last();
        lemma_filter_unique(d, f);
        let sub = d.filter(f);
        if f(s.last()) {
            assert forall|j: int| 0 <= j < sub.len() implies sub[j].0 != s.last().0 by {
                lemma_filter_from(d, f, j);
                let m = choose|m: int| 0 <= m < d.len() && d[m] == sub[j];
                assert(s[m] == sub[j]);
            }
        }
    }
}

proof fn lemma_filter_index(s: Seq<Entry>, f: spec_fn(Entry) -> bool, i: int)
    requires
        0 <= i < s.len(),
        f(s[i]),
    ensures
        exists|j: int| 0 <= j <= i && j < s.filter(f).len() && s.filter(f)[j] == s[i],
    decreases s.len(),
{
    reveal(Seq::filter);
    let d = s.drop_last();
    if i == s.len() - 1 {
        d.lemma_filter_len(f);
        assert(s.filter(f)[d.filter(f).len() as int] == s[i]);
    } else {
        lemma_filter_index(d, f, i);
        let j = choose|j: int| 0 <= j <= i && j < d.filter(f).len() && d.filter(f)[j] == d[i];
        assert(s.filter(f)[j] == s[i]);
    }
}

proof fn lemma_value_at(s: Seq<Entry>, i: int)
    requires
        unique_keys(s),
        0 <= i < s.len(),
    ensures
        has_key(s, s[i].0),
        value_of(s, s[i].0) == s[i].1,
        get_result(s, s[i].0) == Some(s[i].1),
{
    let k = choose|k: int| 0 <= k < s.len() && s[k].0 == s[i].0;
    assert(k == i);
}

proof fn lemma_put_wf(s: Seq<Entry>, cap: nat, k: FingerprintView, v: Seq<char>)
    requires
        cache_wf(s, cap),
    ensures
        cache_wf(put_spec(s, cap, k, v), cap),
{
    let r = put_spec(s, cap, k, v);
    if has_key(s, k) {
        lemma_filter_unique(s, other_key(k));
        let x = without_key(s, k);
        let i0 = choose|i: int| 0 <= i < s.len() && s[i].0 == k;
        assert(!(other_key(k))(s[i0]));
        lemma_filter_pred_all(s, other_key(k));
        assert(x.len() < s.len()) by {
            assert(s =~= s.take(i0) + (seq![s[i0]] + s.skip(i0 + 1)));
            Seq::filter_distributes_over_add(s.take(i0), seq![s[i0]] + s.skip(i0 + 1), other_key(k));
            s.skip(i0 + 1).lemma_filter_prepend(s[i0], other_key(k));
            s.take(i0).lemma_filter_len(other_key(k));
            s.skip(i0 + 1).lemma_filter_len(other_key(k));
        }
        assert forall|a: int, b: int| 0 <= a < r.len() && 0 <= b < r.len() && r[a].0 == r[b].0 implies a == b by {
            if a > 0 && b > 0 {
                assert(r[a] == x[a - 1] && r[b] == x[b - 1]);
            } else if a == 0 && b > 0 {
                assert(r[b] == x[b - 1]);
                assert((other_key(k))(x[b - 1]));
            } else if a > 0 && b == 0 {
                assert(r[a] == x[a - 1]);
                assert((other_key(k))(x[a - 1]));
            }
        }
    } else {
        let x = if s.len() >= cap { s.take(cap - 1) } else { s };
        assert forall|a: int, b: int| 0 <= a < r.len() && 0 <= b < r.len() && r[a].0 == r[b].0 implies a == b by {
            if a > 0 && b > 0 {
                assert(r[a] == s[a - 1] && r[b] == s[b - 1]);
            } else if a == 0 && b > 0 {
                assert(r[b] == s[b - 1]);
            } else if a > 0 && b == 0 {
                assert(r[a] == s[a - 1]);
            }
        }
    }
}

proof fn lemma_filter_pred_all(s: Seq<Entry>, f: spec_fn(Entry) -> bool)
    ensures
        forall|j: int| 0 <= j < s.filter(f).len() ==> f(#[trigger] s.filter(f)[j]),
{
    assert forall|j: int| 0 <= j < s.filter(f).len() implies f(#[trigger] s.filter(f)[j]) by {
        s.lemma_filter_pred(f, j);
    }
}

proof fn lemma_get_wf(s: Seq<Entry>, cap: nat, k: FingerprintView)
    requires
        cache_wf(s, cap),
    ensures
        cache_wf(get_spec(s, k), cap),
{
    if has_key(s, k) {
        lemma_put_wf(s, cap, k, value_of(s, k));
        assert(get_spec(s, k) == put_spec(s, cap, k, value_of(s, k)));
    }
}

/// Storing `h` under `f` and then looking `f` up gives `h`.
pub proof fn lemma_put_then_get(s: Seq<Entry>, cap: nat, f: FingerprintView, h: Seq<char>)
    requires
        cache_wf(s, cap),
    ensures
        get_result(put_spec(s, cap, f, h), f) == Some(h),
{
    lemma_put_wf(s, cap, f, h);
    lemma_value_at(put_spec(s, cap, f, h), 0);
}

proof fn lemma_op_keeps(s: Seq<Entry>, cap: nat, op: CacheOp, f: FingerprintView, h: Seq<char>, i: int)
    requires
        cache_wf(s, cap),
        0 <= i < s.len(),
        s[i] == (f, h),
        i + 1 < cap,
        spares(op, f),
    ensures
        cache_wf(apply_op(s, cap, op), cap),
        exists|j: int| 0 <= j <= i + 1 && j < apply_op(s, cap, op).len() && apply_op(s, cap, op)[j] == (f, h),
{
    let r = apply_op(s, cap, op);
    match op {
        CacheOp::Put(k, v) => {
            lemma_put_wf(s, cap, k, v);
            if has_key(s, k) {
                lemma_filter_index(s, other_key(k), i);
                let j = choose|j: int| 0 <= j <= i && j < s.filter(other_key(k)).len() && s.filter(other_key(k))[j] == s[i];
                assert(r[j + 1] == (f, h));
            } else {
                assert(r[i + 1] == (f, h));
            }
        },
        CacheOp::Get(k) => {
            lemma_get_wf(s, cap, k);
            if k == f {
                lemma_value_at(s, i);
                assert(r[0] == (f, h));
            } else if has_key(s, k) {
                lemma_filter_index(s, other_key(k), i);
                let j = choose|j: int| 0 <= j <= i && j < s.filter(other_key(k)).len() && s.filter(other_key(k))[j] == s[i];
                assert(r[j + 1] == (f, h));
            } else {
                assert(r[i] == (f, h));
            }
        },
        CacheOp::Invalidate(p) => {
            lemma_filter_unique(s, other_path(p));
            lemma_filter_index(s, other_path(p), i);
        },
    }
}

proof fn lemma_ops_keep(s: Seq<Entry>, cap: nat, ops: Seq<CacheOp>, f: FingerprintView, h: Seq<char>)
    requires
        cache_wf(s, cap),
        s.len() > 0,
        s[0] == (f, h),
        ops.len() < cap,
        forall|i: int| 0 <= i < ops.len() ==> spares(#[trigger] ops[i], f),
    ensures
        cache_wf(apply_ops(s, cap, ops), cap),
        exists|j: int| 0 <= j <= ops.len() && j < apply_ops(s, cap, ops).len() && apply_ops(s, cap, ops)[j] == (f, h),
    decreases ops.len(),
{
    if ops.len() == 0 {
        assert(apply_ops(s, cap, ops)[0] == (f, h));
    } else {
        let d = ops.drop_last();
        assert forall|i: int| 0 <= i < d.len() implies spares(#[trigger] d[i], f) by {
            assert(d[i] == ops[i]);
        }
        lemma_ops_keep(s, cap, d, f, h);
        let prev = apply_ops(s, cap, d);
        let j = choose|j: int| 0 <= j <= d.len() && j < prev.len() && prev[j] == (f, h);
        assert(spares(ops[ops.len() - 1], f));
        lemma_op_keeps(prev, cap, ops.last(), f, h, j);
    }
}

/// After `h` is stored under `f`, looking `f` up gives `h` for as long as
/// fewer than `cap` further operations have run, none of which stores under
/// `f` or invalidates `f`'s path: a stored rendering leaves only by eviction
/// or by invalidation of its path.
pub proof fn lemma_cache_keeps(
    s: Seq<Entry>,
    cap: nat,
    f: FingerprintView,
    h: Seq<char>,
    ops: Seq<CacheOp>,
)
    requires
        cache_wf(s, cap),
        ops.len() < cap,
        forall|i: int| 0 <= i < ops.len() ==> spares(#[trigger] ops[i], f),
    ensures
        get_result(apply_ops(put_spec(s, cap, f, h), cap, ops), f) == Some(h),
{
    lemma_put_wf(s, cap, f, h);
    lemma_ops_keep(put_spec(s, cap, f, h), cap, ops, f, h);
    let r = apply_ops(put_spec(s, cap, f, h), cap, ops);
    let j = choose|j: int| 0 <= j <= ops.len() && j < r.len() && r[j] == (f, h);
    lemma_value_at(r, j);
}

/// Invalidating path `p` removes every rendering of `p`, whatever its theme,
/// size or time, and leaves what is stored for every other path.
pub proof fn lemma_invalidation_scope(s: Seq<Entry>, cap: nat, p: Seq<char>, f: FingerprintView)
    requires
        cache_wf(s, cap),
    ensures
        f.path == p ==> get_result(without_path(s, p), f) is None,
        f.path != p ==> get_result(without_path(s, p), f) == get_result(s, f),
{
    let r = without_path(s, p);
    lemma_filter_unique(s, other_path(p));
    lemma_filter_pred_all(s, other_path(p));
    if f.path == p {
        if has_key(r, f) {
            let i = choose|i: int| 0 <= i < r.len() && r[i].0 == f;
            assert((other_path(p))(r[i]));
        }
    } else {
        if has_key(s, f) {
            let i = choose|i: int| 0 <= i < s.len() && s[i].0 == f;
            lemma_value_at(s, i);
            lemma_filter_index(s, other_path(p), i);
            let j = choose|j: int| 0 <= j <= i && j < r.len() && r[j] == s[i];
            lemma_value_at(r, j);
        } else if has_key(r, f) {
            let i = choose|i: int| 0 <= i < r.len() && r[i].0 == f;
            lemma_filter_from(s, other_path(p), i);
        }
    }
}

/// The table after raw change signals for `p` started timers `ts`, in order.
pub open spec fn signal_all(m: Map<Seq<char>, Watch>, p: Seq<char>, ts: Seq<u64>) -> Map<Seq<char>, Watch>
    decreases ts.len(),
{
    if ts.len() == 0 {
        m
    } else {
        signal_spec(signal_all(m, p, ts.drop_last()), p, ts.last())
    }
}

/// The table after timers `ts` for `p` elapse, in order, and everyone
/// notified along the way.
pub open spec fn elapse_all(m: Map<Seq<char>, Watch>, p: Seq<char>, ts: Seq<u64>) -> (Map<Seq<char>, Watch>, Seq<Seq<char>>)
    decreases ts.len(),
{
    if ts.len() == 0 {
        (m, Seq::empty())
    } else {
        let prev = elapse_all(m, p, ts.drop_last());
        (elapse_spec(prev.0, p, ts.last()), prev.1 + elapse_notified(prev.0, p, ts.last()))
    }
}

proof fn lemma_signal_all(m: Map<Seq<char>, Watch>, p: Seq<char>, ts: Seq<u64>)
    requires
        m.contains_key(p),
        ts.len() > 0,
    ensures
        signal_all(m, p, ts) == m.insert(p, Watch { subscribers: m[p].subscribers, pending: Some(ts.last()) }),
    decreases ts.len(),
{
    let d = ts.drop_last();
    if d.len() > 0 {
        lemma_signal_all(m, p, d);
        let prev = signal_all(m, p, d);
        assert(prev.contains_key(p));
        assert(prev[p].subscribers == m[p].subscribers);
        assert(signal_all(m, p, ts) == signal_spec(prev, p, ts.last()));
        let w = Watch { subscribers: m[p].subscribers, pending: Some(ts.last()) };
        assert(signal_spec(prev, p, ts.last()) == prev.insert(p, w));
        assert(prev.insert(p, w) =~= m.insert(p, w));
        assert(signal_all(m, p, ts) == m.insert(p, w));
    } else {
        assert(signal_all(m, p, d) == m);
        assert(signal_all(m, p, ts) == signal_spec(m, p, ts.last()));
    }
}

proof fn lemma_stale_timers(m: Map<Seq<char>, Watch>, p: Seq<char>, us: Seq<u64>, t: u64)
    requires
        m.contains_key(p),
        m[p].pending == Some(t),
        forall|i: int| 0 <= i < us.len() ==> us[i] != t,
    ensures
        elapse_all(m, p, us) == (m, Seq::<Seq<char>>::empty()),
    decreases us.len(),
{
    if us.len() > 0 {
        let d = us.drop_last();
        assert forall|i: int| 0 <= i < d.len() implies d[i] != t by {
            assert(d[i] == us[i]);
        }
        lemma_stale_timers(m, p, d, t);
        assert(us.last() != t);
        assert(elapse_all(m, p, us).1 =~= Seq::<Seq<char>>::empty());
    }
}

/// A burst of raw change signals for a watched path, whose debounce timers
/// then elapse in the order they were started, notifies every subscriber of
/// the path exactly once: every timer but the last was replaced and notifies
/// nobody.
pub proof fn lemma_debounce_collapses(m: Map<Seq<char>, Watch>, p: Seq<char>, ts: Seq<u64>)
    requires
        m.contains_key(p),
        ts.len() > 0,
        ts.no_duplicates(),
    ensures
        elapse_all(signal_all(m, p, ts), p, ts).1 == m[p].subscribers,
        elapse_all(signal_all(m, p, ts), p, ts).0[p].pending is None,
{
    lemma_signal_all(m, p, ts);
    let sm = signal_all(m, p, ts);
    let t = ts.last();
    let d = ts.drop_last();
    assert forall|i: int| 0 <= i < d.len() implies d[i] != t by {
        assert(d[i] == ts[i]);
        assert(ts[ts.len() - 1] == t);
    }
    lemma_stale_timers(sm, p, d, t);
    assert(elapse_all(sm, p, ts).1 =~= m[p].subscribers);
}

proof fn lemma_without_first(a: Seq<char>, b: Seq<char>)
    requires
        a != b,
    ensures
        without(seq![a, b], a) == seq![b],
        without(seq![b], b) == Seq::<Seq<char>>::empty(),
{
    reveal(Seq::filter);
    let e = Seq::<Seq<char>>::empty();
    assert(seq![b].drop_last() =~= e);
    assert(seq![a, b].drop_last() =~= seq![a]);
    assert(seq![a].drop_last() =~= e);
    assert(e.filter(other_than(a)) =~= e);
    assert(e.filter(other_than(b)) =~= e);
    assert(seq![a].filter(other_than(a)) =~= e);
    assert(without(seq![a, b], a) =~= seq![b]);
    assert(without(seq![b], b) =~= e);
}

/// Two consumers subscribing to an unwatched path install one OS watch (only
/// the first subscription finds the path unwatched); the watch stays when one
/// of them leaves and is torn down when the second leaves.
pub proof fn lemma_watch_lifecycle(m: Map<Seq<char>, Watch>, p: Seq<char>, a: Seq<char>, b: Seq<char>)
    requires
        !m.contains_key(p),
        a != b,
        consumer_path(m, a) is None,
        consumer_path(m, b) is None,
    ensures
        ({
            let s1 = subscribe_spec(m, p, a);
            let s2 = subscribe_spec(s1.0, p, b);
            let u1 = unsubscribe_spec(s2.0, a);
            let u2 = unsubscribe_spec(u1.0, b);
            &&& s1.0.contains_key(p) && s1.1 is None
            &&& s2.0.contains_key(p) && s2.1 is None
            &&& u1.0.contains_key(p) && u1.1 is None
            &&& !u2.0.contains_key(p) && u2.1 == Some(p)
        }),
{
    let s1 = subscribe_spec(m, p, a);
    assert(s1.0 == m.insert(p, Watch { subscribers: seq![a], pending: None }));
    let m1 = s1.0;
    assert(!(m1[p].subscribers.contains(b))) by {
        if m1[p].subscribers.contains(b) {
            let k = choose|k: int| 0 <= k < m1[p].subscribers.len() && m1[p].subscribers[k] == b;
            assert(k == 0);
        }
    }
    assert(consumer_path(m1, b) is None) by {
        if exists|q: Seq<char>| m1.contains_key(q) && m1[q].subscribers.contains(b) {
            let q = choose|q: Seq<char>| m1.contains_key(q) && m1[q].subscribers.contains(b);
            if q != p {
                assert(m.contains_key(q) && m[q].subscribers.contains(b));
            }
        }
    }
    let s2 = subscribe_spec(m1, p, b);
    assert(seq![a].push(b) =~= seq![a, b]);
    assert(s2.0 == m1.insert(p, Watch { subscribers: seq![a, b], pending: None }));
    let m2 = s2.0;
    assert(m2[p].subscribers[0] == a);
    assert(m2[p].subscribers.contains(a));
    assert(m2.contains_key(p) && m2[p].subscribers.contains(a));
    assert(consumer_path(m2, a) == Some(p)) by {
        let q = choose|q: Seq<char>| m2.contains_key(q) && m2[q].subscribers.contains(a);
        if q != p {
            assert(m1.contains_key(q));
            assert(m2[q] == m1[q]);
            assert(m1[q] == m[q]);
            assert(m.contains_key(q) && m[q].subscribers.contains(a));
        }
    }
    lemma_without_first(a, b);
    let u1 = unsubscribe_spec(m2, a);
    assert(u1.0 == m2.insert(p, Watch { subscribers: seq![b], pending: None }));
    let m3 = u1.0;
    assert(m3[p].subscribers[0] == b);
    assert(m3.contains_key(p) && m3[p].subscribers.contains(b));
    assert(consumer_path(m3, b) == Some(p)) by {
        let q = choose|q: Seq<char>| m3.contains_key(q) && m3[q].subscribers.contains(b);
        if q != p {
            assert(m2.contains_key(q));
            assert(m1.contains_key(q));
            assert(m3[q] == m2[q]);
            assert(m2[q] == m1[q]);
            assert(m1[q] == m[q]);
            assert(m.contains_key(q) && m[q].subscribers.contains(b));
        }
    }
}

proof fn lemma_stop_skips(v: Seq<char>, i: int, j: int)
    requires
        0 <= i <= j <= v.len(),
        forall|k: int| i <= k < j ==> !is_scheme_stop(#[trigger] v[k]),
    ensures
        stop_from(v, i) == stop_from(v, j),
    decreases j - i,
{
    if i < j {
        lemma_stop_skips(v, i + 1, j);
    }
}

/// The word `javascript:` in lower case.
pub open spec fn javascript_prefix() -> Seq<char> {
    seq!['j', 'a', 'v', 'a', 's', 'c', 'r', 'i', 'p', 't', ':']
}

/// A link target that starts with `javascript:`, in any ASCII case, is
/// replaced by `#`.
pub proof fn lemma_javascript_href_neutralized(v: Seq<char>)
    requires
        v.len() >= 11,
        is_word(v.take(11), javascript_prefix()),
    ensures
        attribute_value(seq!['h', 'r', 'e', 'f'], v) == seq!['#'],
{
    let w = javascript_prefix();
    assert forall|k: int| 0 <= k < 11 implies v[k] == w[k] || (v[k] as u32) + 32 == (w[k] as u32) by {
        assert(v.take(11)[k] == v[k]);
    }
    assert forall|k: int| 0 <= k < 10 implies !is_scheme_stop(#[trigger] v[k]) by {
        assert(v.take(11)[k] == v[k]);
        assert('a' <= w[k] <= 'z');
    }
    lemma_stop_skips(v, 0, 10);
    assert(v.take(11)[10] == v[10]);
    assert(v[10] == ':');
    assert(scheme_end(v) == 10);
    assert(has_scheme(v));
    assert(scheme_of(v).len() == 10);
    assert(!href_allowed(v));
}

/// A code block whose language tag is absent or has no grammar comes out of
/// the rewriting as the same unhighlighted block with its text intact, after
/// whatever the tokens before it gave.
pub proof fn lemma_unknown_block_kept(prefix: Seq<MdTokenView>, lang: Seq<char>, text: Seq<char>)
    requires
        !(lang.len() > 0 && syntax_known(lang)),
    ensures
        fold(prefix + seq![MdTokenView::CodeStart(lang), MdTokenView::Text(text), MdTokenView::CodeEnd]).out
            == fold(prefix).out + seq![MdEmitView::CodeStart(lang), MdEmitView::Text(text), MdEmitView::CodeEnd],
{
    let t1 = prefix + seq![MdTokenView::CodeStart(lang)];
    let t2 = t1 + seq![MdTokenView::Text(text)];
    let t3 = t2 + seq![MdTokenView::CodeEnd];
    assert(t1.drop_last() =~= prefix);
    assert(t2.drop_last() =~= t1);
    assert(t3.drop_last() =~= t2);
    assert(prefix + seq![MdTokenView::CodeStart(lang), MdTokenView::Text(text), MdTokenView::CodeEnd] =~= t3);
    assert(fold(t1).code =~= Seq::<char>::empty());
    assert(fold(t2).code =~= text);
}

} // verus!
