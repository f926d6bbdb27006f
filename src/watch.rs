//! The file-watch multiplexer: one OS watch per watched path however many
//! consumers observe it, debounced change signals, and one notification per
//! subscriber when a burst settles.
//!
//! This is the decision part: the host installs and drops OS watches, runs the
//! debounce timers and delivers notifications as the results here direct.

use vstd::prelude::*;
use crate::cache::lemma_filter_all;
use crate::sanitize::same_text;

verus! {

broadcast use vstd::seq_lib::group_seq_properties;

/// The state of one watched path.
pub struct Watch {
    /// The consumers subscribed to the path, in the order they subscribed.
    pub subscribers: Seq<Seq<char>>,
    /// The debounce timer in flight, if any.
    pub pending: Option<u64>,
}

/// One watched path, as stored.
pub struct PathWatch {
    path: String,
    subscribers: Vec<String>,
    pending: Option<u64>,
}

/// The value of a `PathWatch`.
pub struct PathWatchView {
    pub path: Seq<char>,
    pub watch: Watch,
}

impl View for PathWatch {
    type V = PathWatchView;

    closed spec fn view(&self) -> PathWatchView {
        PathWatchView {
            path: self.path@,
            watch: Watch { subscribers: self.subscribers@.map_values(|s: String| s@), pending: self.pending },
        }
    }
}

/// Values other than `c`.
pub open spec fn other_than<A>(c: A) -> spec_fn(A) -> bool {
    |x: A| x != c
}

/// `s` without `c`.
pub open spec fn without<A>(s: Seq<A>, c: A) -> Seq<A> {
    s.filter(other_than(c))
}

/// The table of watched paths as a map.
pub open spec fn table_map(ws: Seq<PathWatchView>) -> Map<Seq<char>, Watch> {
    Map::new(
        |p: Seq<char>| exists|i: int| 0 <= i < ws.len() && ws[i].path == p,
        |p: Seq<char>| ws[choose|i: int| 0 <= i < ws.len() && ws[i].path == p].watch,
    )
}

/// Paths are stored once; every stored path has a subscriber; a consumer is
/// subscribed to at most one path, once.
pub open spec fn table_wf(ws: Seq<PathWatchView>) -> bool {
    &&& forall|i: int, j: int| 0 <= i < ws.len() && 0 <= j < ws.len() && ws[i].path == ws[j].path ==> i == j
    &&& forall|i: int| 0 <= i < ws.len() ==> (#[trigger] ws[i]).watch.subscribers.len() > 0
    &&& forall|i: int, j: int, a: int, b: int|
        0 <= i < ws.len() && 0 <= j < ws.len() && 0 <= a < ws[i].watch.subscribers.len()
            && 0 <= b < ws[j].watch.subscribers.len()
            && #[trigger] ws[i].watch.subscribers[a] == #[trigger] ws[j].watch.subscribers[b]
            ==> i == j && a == b
}

/// Every watched path has at least one subscriber, none listed twice, and no
/// consumer is subscribed to two paths.
pub open spec fn watches_wf(m: Map<Seq<char>, Watch>) -> bool {
    &&& forall|p: Seq<char>| #[trigger] m.contains_key(p) ==> m[p].subscribers.len() > 0 && m[p].subscribers.no_duplicates()
    &&& forall|p: Seq<char>, q: Seq<char>, c: Seq<char>|
        m.contains_key(p) && m.contains_key(q) && #[trigger] m[p].subscribers.contains(c)
            && #[trigger] m[q].subscribers.contains(c) ==> p == q
}

/// The path that consumer `c` is subscribed to, if any.
pub open spec fn consumer_path(m: Map<Seq<char>, Watch>, c: Seq<char>) -> Option<Seq<char>> {
    if exists|p: Seq<char>| m.contains_key(p) && m[p].subscribers.contains(c) {
        Some(choose|p: Seq<char>| m.contains_key(p) && m[p].subscribers.contains(c))
    } else {
        None
    }
}

/// The table after consumer `c` leaves, and the path whose watch is to be torn
/// down because its last subscriber left (its pending timer goes with it).
pub open spec fn unsubscribe_spec(m: Map<Seq<char>, Watch>, c: Seq<char>) -> (Map<Seq<char>, Watch>, Option<Seq<char>>) {
    match consumer_path(m, c) {
        Some(q) => {
            let subs = without(m[q].subscribers, c);
            if subs.len() == 0 {
                (m.remove(q), Some(q))
            } else {
                (m.insert(q, Watch { subscribers: subs, pending: m[q].pending }), None)
            }
        },
        None => (m, None),
    }
}

/// The table after consumer `c` subscribes to path `p` (leaving any other path
/// first), and the path whose watch is to be torn down as a result. Nothing
/// changes when `c` already observes `p`.
pub open spec fn subscribe_spec(m: Map<Seq<char>, Watch>, p: Seq<char>, c: Seq<char>) -> (Map<Seq<char>, Watch>, Option<Seq<char>>) {
    if m.contains_key(p) && m[p].subscribers.contains(c) {
        (m, None)
    } else {
        let left = unsubscribe_spec(m, c);
        let w = if left.0.contains_key(p) {
            Watch { subscribers: left.0[p].subscribers.push(c), pending: left.0[p].pending }
        } else {
            Watch { subscribers: seq![c], pending: None }
        };
        (left.0.insert(p, w), left.1)
    }
}

/// The table after a raw change signal for `p` starts timer `t`, replacing
/// any timer in flight for `p`; signals for paths not watched change nothing.
pub open spec fn signal_spec(m: Map<Seq<char>, Watch>, p: Seq<char>, t: u64) -> Map<Seq<char>, Watch> {
    if m.contains_key(p) {
        m.insert(p, Watch { subscribers: m[p].subscribers, pending: Some(t) })
    } else {
        m
    }
}

/// The timer number that follows `t`.
pub open spec fn next_after(t: u64) -> u64 {
    if t == u64::MAX {
        0
    } else {
        (t + 1) as u64
    }
}

/// Whether timer `t` for `p` is the one in flight.
pub open spec fn timer_current(m: Map<Seq<char>, Watch>, p: Seq<char>, t: u64) -> bool {
    m.contains_key(p) && m[p].pending == Some(t)
}

/// The table after timer `t` for `p` elapses: a current timer is spent.
pub open spec fn elapse_spec(m: Map<Seq<char>, Watch>, p: Seq<char>, t: u64) -> Map<Seq<char>, Watch> {
    if timer_current(m, p, t) {
        m.insert(p, Watch { subscribers: m[p].subscribers, pending: None })
    } else {
        m
    }
}

/// Who is notified when timer `t` for `p` elapses: every subscriber once if the
/// timer is current, else nobody.
pub open spec fn elapse_notified(m: Map<Seq<char>, Watch>, p: Seq<char>, t: u64) -> Seq<Seq<char>> {
    if timer_current(m, p, t) {
        m[p].subscribers
    } else {
        Seq::empty()
    }
}

proof fn lemma_table_lookup(ws: Seq<PathWatchView>, i: int)
    requires
        table_wf(ws),
        0 <= i < ws.len(),
    ensures
        table_map(ws).contains_key(ws[i].path),
        table_map(ws)[ws[i].path] == ws[i].watch,
{
    let p = ws[i].path;
    let k = choose|k: int| 0 <= k < ws.len() && ws[k].path == p;
    assert(k == i);
}

proof fn lemma_table_update(ws: Seq<PathWatchView>, i: int, w: PathWatchView)
    requires
        table_wf(ws),
        0 <= i < ws.len(),
        w.path == ws[i].path,
    ensures
        table_map(ws.update(i, w)) == table_map(ws).insert(w.path, w.watch),
{
    let n = ws.update(i, w);
    assert forall|p: Seq<char>| #[trigger] table_map(n).contains_key(p) == table_map(ws).insert(w.path, w.watch).contains_key(p) by {
        if table_map(n).contains_key(p) {
            let k = choose|k: int| 0 <= k < n.len() && n[k].path == p;
            assert(ws[k].path == p);
        }
        if table_map(ws).contains_key(p) {
            let k = choose|k: int| 0 <= k < ws.len() && ws[k].path == p;
            assert(n[k].path == p);
        }
    }
    assert forall|p: Seq<char>| #[trigger] table_map(n).contains_key(p) implies table_map(n)[p] == table_map(ws).insert(w.path, w.watch)[p] by {
        let k = choose|k: int| 0 <= k < n.len() && n[k].path == p;
        assert(ws[k].path == p);
        let k2 = choose|k2: int| 0 <= k2 < n.len() && n[k2].path == p;
        assert(ws[k2].path == p);
        assert(k == k2);
        if k != i {
            let k3 = choose|k3: int| 0 <= k3 < ws.len() && ws[k3].path == p;
            assert(k3 == k);
        }
    }
    assert(table_map(n) =~= table_map(ws).insert(w.path, w.watch));
}

proof fn lemma_table_remove(ws: Seq<PathWatchView>, i: int)
    requires
        table_wf(ws),
        0 <= i < ws.len(),
    ensures
        table_map(ws.remove(i)) == table_map(ws).remove(ws[i].path),
{
    let n = ws.remove(i);
    let q = ws[i].path;
    assert forall|p: Seq<char>| #[trigger] table_map(n).contains_key(p) == table_map(ws).remove(q).contains_key(p) by {
        if table_map(n).contains_key(p) {
            let k = choose|k: int| 0 <= k < n.len() && n[k].path == p;
            if k < i {
                assert(ws[k].path == p);
            } else {
                assert(ws[k + 1].path == p);
            }
        }
        if table_map(ws).remove(q).contains_key(p) {
            let k = choose|k: int| 0 <= k < ws.len() && ws[k].path == p;
            assert(k != i);
            if k < i {
                assert(n[k].path == p);
            } else {
                assert(n[k - 1].path == p);
            }
        }
    }
    assert forall|p: Seq<char>| #[trigger] table_map(n).contains_key(p) implies table_map(n)[p] == table_map(ws).remove(q)[p] by {
        let k = choose|k: int| 0 <= k < n.len() && n[k].path == p;
        let k2 = choose|k2: int| 0 <= k2 < ws.len() && ws[k2].path == p;
        if k < i {
            assert(ws[k].path == p);
            assert(k2 == k);
        } else {
            assert(ws[k + 1].path == p);
            assert(k2 == k + 1);
        }
    }
    assert(table_map(n) =~= table_map(ws).remove(q));
}

proof fn lemma_table_push(ws: Seq<PathWatchView>, w: PathWatchView)
    requires
        table_wf(ws),
        forall|i: int| 0 <= i < ws.len() ==> ws[i].path != w.path,
    ensures
        table_map(ws.push(w)) == table_map(ws).insert(w.path, w.watch),
{
    let n = ws.push(w);
    assert forall|p: Seq<char>| #[trigger] table_map(n).contains_key(p) == table_map(ws).insert(w.path, w.watch).contains_key(p) by {
        if table_map(n).contains_key(p) {
            let k = choose|k: int| 0 <= k < n.len() && n[k].path == p;
            if k < ws.len() {
                assert(ws[k].path == p);
            }
        }
        if table_map(ws).contains_key(p) {
            let k = choose|k: int| 0 <= k < ws.len() && ws[k].path == p;
            assert(n[k].path == p);
        }
        if p == w.path {
            assert(n[ws.len() as int].path == p);
        }
    }
    assert forall|p: Seq<char>| #[trigger] table_map(n).contains_key(p) implies table_map(n)[p] == table_map(ws).insert(w.path, w.watch)[p] by {
        let k = choose|k: int| 0 <= k < n.len() && n[k].path == p;
        if p == w.path {
            assert(k == ws.len());
        } else {
            assert(k < ws.len());
            let k2 = choose|k2: int| 0 <= k2 < ws.len() && ws[k2].path == p;
            assert(n[k2].path == p);
        }
    }
    assert(table_map(n) =~= table_map(ws).insert(w.path, w.watch));
}

/// Removing the only occurrence of a value is filtering it out.
proof fn lemma_remove_only<A>(s: Seq<A>, j: int)
    requires
        0 <= j < s.len(),
        forall|a: int, b: int| 0 <= a < s.len() && 0 <= b < s.len() && s[a] == s[b] ==> a == b,
    ensures
        s.remove(j) == without(s, s[j]),
{
    let c = s[j];
    let f = other_than(c);
    assert(s =~= s.take(j) + (seq![c] + s.skip(j + 1)));
    Seq::filter_distributes_over_add(s.take(j), seq![c] + s.skip(j + 1), f);
    s.skip(j + 1).lemma_filter_prepend(c, f);
    assert forall|k: int| 0 <= k < s.take(j).len() implies f(#[trigger] s.take(j)[k]) by {
        assert(s.take(j)[k] == s[k]);
    }
    assert forall|k: int| 0 <= k < s.skip(j + 1).len() implies f(#[trigger] s.skip(j + 1)[k]) by {
        assert(s.skip(j + 1)[k] == s[j + 1 + k]);
    }
    lemma_filter_all(s.take(j), f);
    lemma_filter_all(s.skip(j + 1), f);
    assert(s.remove(j) =~= s.take(j) + s.skip(j + 1));
}

proof fn lemma_wf_update(ws: Seq<PathWatchView>, i: int, w: PathWatchView)
    requires
        table_wf(ws),
        0 <= i < ws.len(),
        w.path == ws[i].path,
        w.watch.subscribers.len() > 0,
        forall|a: int, b: int|
            0 <= a < w.watch.subscribers.len() && 0 <= b < w.watch.subscribers.len()
                && w.watch.subscribers[a] == w.watch.subscribers[b] ==> a == b,
        forall|k: int, a: int, b: int|
            0 <= k < ws.len() && k != i && 0 <= a < ws[k].watch.subscribers.len()
                && 0 <= b < w.watch.subscribers.len() ==> ws[k].watch.subscribers[a] != w.watch.subscribers[b],
    ensures
        table_wf(ws.update(i, w)),
{
    let n = ws.update(i, w);
    assert forall|x: int, y: int, a: int, b: int|
        0 <= x < n.len() && 0 <= y < n.len() && 0 <= a < n[x].watch.subscribers.len()
            && 0 <= b < n[y].watch.subscribers.len()
            && #[trigger] n[x].watch.subscribers[a] == #[trigger] n[y].watch.subscribers[b]
        implies x == y && a == b by {
        if x == i && y != i {
            assert(ws[y].watch.subscribers[b] != w.watch.subscribers[a]);
        } else if x != i && y == i {
            assert(ws[x].watch.subscribers[a] != w.watch.subscribers[b]);
        }
    }
}

proof fn lemma_wf_remove(ws: Seq<PathWatchView>, i: int)
    requires
        table_wf(ws),
        0 <= i < ws.len(),
    ensures
        table_wf(ws.remove(i)),
{
    let n = ws.remove(i);
    assert forall|x: int| 0 <= x < n.len() implies n[x] == ws[if x < i { x } else { x + 1 }] by {}
    assert forall|x: int, y: int| 0 <= x < n.len() && 0 <= y < n.len() && n[x].path == n[y].path implies x == y by {
        assert(n[x] == ws[if x < i { x } else { x + 1 }]);
        assert(n[y] == ws[if y < i { y } else { y + 1 }]);
    }
    assert forall|x: int| 0 <= x < n.len() implies (#[trigger] n[x]).watch.subscribers.len() > 0 by {
        assert(n[x] == ws[if x < i { x } else { x + 1 }]);
    }
    assert forall|x: int, y: int, a: int, b: int|
        0 <= x < n.len() && 0 <= y < n.len() && 0 <= a < n[x].watch.subscribers.len()
            && 0 <= b < n[y].watch.subscribers.len()
            && #[trigger] n[x].watch.subscribers[a] == #[trigger] n[y].watch.subscribers[b]
        implies x == y && a == b by {
        let x2 = if x < i { x } else { x + 1 };
        let y2 = if y < i { y } else { y + 1 };
        assert(n[x] == ws[x2]);
        assert(n[y] == ws[y2]);
        assert(ws[x2].watch.subscribers[a] == ws[y2].watch.subscribers[b]);
    }
}

proof fn lemma_wf_push(ws: Seq<PathWatchView>, w: PathWatchView)
    requires
        table_wf(ws),
        forall|k: int| 0 <= k < ws.len() ==> ws[k].path != w.path,
        w.watch.subscribers.len() == 1,
        forall|k: int, a: int|
            0 <= k < ws.len() && 0 <= a < ws[k].watch.subscribers.len() ==> ws[k].watch.subscribers[a] != w.watch.subscribers[0],
    ensures
        table_wf(ws.push(w)),
{
    let n = ws.push(w);
    assert forall|x: int, y: int, a: int, b: int|
        0 <= x < n.len() && 0 <= y < n.len() && 0 <= a < n[x].watch.subscribers.len()
            && 0 <= b < n[y].watch.subscribers.len()
            && #[trigger] n[x].watch.subscribers[a] == #[trigger] n[y].watch.subscribers[b]
        implies x == y && a == b by {
        if x == ws.len() && y < ws.len() {
            assert(ws[y].watch.subscribers[b] != w.watch.subscribers[0]);
        } else if x < ws.len() && y == ws.len() {
            assert(ws[x].watch.subscribers[a] != w.watch.subscribers[0]);
        }
    }
}

proof fn lemma_consumer_at(ws: Seq<PathWatchView>, i: int, j: int, c: Seq<char>)
    requires
        table_wf(ws),
        0 <= i < ws.len(),
        0 <= j < ws[i].watch.subscribers.len(),
        ws[i].watch.subscribers[j] == c,
    ensures
        consumer_path(table_map(ws), c) == Some(ws[i].path),
{
    let m = table_map(ws);
    lemma_table_lookup(ws, i);
    assert(m[ws[i].path].subscribers.contains(c));
    let p = choose|p: Seq<char>| m.contains_key(p) && m[p].subscribers.contains(c);
    let k = choose|k: int| 0 <= k < ws.len() && ws[k].path == p;
    lemma_table_lookup(ws, k);
    let b = choose|b: int| 0 <= b < m[p].subscribers.len() && m[p].subscribers[b] == c;
    assert(ws[k].watch.subscribers[b] == ws[i].watch.subscribers[j]);
}

proof fn lemma_consumer_absent(ws: Seq<PathWatchView>, c: Seq<char>)
    requires
        table_wf(ws),
        forall|i: int, a: int| 0 <= i < ws.len() && 0 <= a < ws[i].watch.subscribers.len() ==> ws[i].watch.subscribers[a] != c,
    ensures
        consumer_path(table_map(ws), c) is None,
{
    let m = table_map(ws);
    if exists|p: Seq<char>| m.contains_key(p) && m[p].subscribers.contains(c) {
        let p = choose|p: Seq<char>| m.contains_key(p) && m[p].subscribers.contains(c);
        let k = choose|k: int| 0 <= k < ws.len() && ws[k].path == p;
        lemma_table_lookup(ws, k);
        let b = choose|b: int| 0 <= b < m[p].subscribers.len() && m[p].subscribers[b] == c;
        assert(ws[k].watch.subscribers[b] == c);
    }
}

proof fn lemma_table_watches_wf(ws: Seq<PathWatchView>)
    requires
        table_wf(ws),
    ensures
        watches_wf(table_map(ws)),
{
    let m = table_map(ws);
    assert forall|p: Seq<char>| #[trigger] m.contains_key(p) implies m[p].subscribers.len() > 0
        && m[p].subscribers.no_duplicates() by {
        let k = choose|k: int| 0 <= k < ws.len() && ws[k].path == p;
        lemma_table_lookup(ws, k);
        assert(ws[k].watch.subscribers.len() > 0);
    }
    assert forall|p: Seq<char>, q: Seq<char>, c: Seq<char>|
        m.contains_key(p) && m.contains_key(q) && #[trigger] m[p].subscribers.contains(c)
            && #[trigger] m[q].subscribers.contains(c) implies p == q by {
        let k1 = choose|k: int| 0 <= k < ws.len() && ws[k].path == p;
        let k2 = choose|k: int| 0 <= k < ws.len() && ws[k].path == q;
        lemma_table_lookup(ws, k1);
        lemma_table_lookup(ws, k2);
        let a = choose|a: int| 0 <= a < m[p].subscribers.len() && m[p].subscribers[a] == c;
        let b = choose|b: int| 0 <= b < m[q].subscribers.len() && m[q].subscribers[b] == c;
        assert(ws[k1].watch.subscribers[a] == ws[k2].watch.subscribers[b]);
    }
}

/// A copy of each string of `v`, in order.
pub fn copy_strings(v: &Vec<String>) -> (r: Vec<String>)
    ensures
        r@.map_values(|s: String| s@) == v@.map_values(|s: String| s@),
{
    let mut out: Vec<String> = Vec::new();
    let mut k: usize = 0;
    while k < v.len()
        invariant
            k <= v@.len(),
            out@.len() == k,
            forall|j: int| 0 <= j < k ==> out@[j]@ == v@[j]@,
        decreases v@.len() - k,
    {
        out.push(v[k].clone());
        k = k + 1;
    }
    assert(out@.map_values(|s: String| s@) =~= v@.map_values(|s: String| s@));
    out
}

/// The watched paths with their subscribers and pending timers.
pub struct WatchMultiplexer {
    watches: Vec<PathWatch>,
    next_timer: u64,
}

impl WatchMultiplexer {
    pub closed spec fn rows(&self) -> Seq<PathWatchView> {
        self.watches@.map_values(|w: PathWatch| w@)
    }

    /// Each watched path (one that has an OS watch) and its state.
    pub closed spec fn watches(&self) -> Map<Seq<char>, Watch> {
        table_map(self.rows())
    }

    /// The number the next debounce timer gets.
    pub closed spec fn next_timer(&self) -> u64 {
        self.next_timer
    }

    pub closed spec fn wf(&self) -> bool {
        table_wf(self.rows())
    }

    /// A well-formed multiplexer's table: see `watches_wf`.
    pub proof fn lemma_wf(&self)
        requires
            self.wf(),
        ensures
            watches_wf(self.watches()),
    {
        lemma_table_watches_wf(self.rows());
    }

    /// A multiplexer that watches nothing.
    pub fn new() -> (r: WatchMultiplexer)
        ensures
            r.wf(),
            r.watches() == Map::<Seq<char>, Watch>::empty(),
    {
        let r = WatchMultiplexer { watches: Vec::new(), next_timer: 0 };
        assert(r.watches() =~= Map::<Seq<char>, Watch>::empty());
        r
    }

    fn find_path(&self, path: &str) -> (r: Option<usize>)
        ensures
            match r {
                Some(i) => i < self.rows().len() && self.rows()[i as int].path == path@,
                None => forall|i: int| 0 <= i < self.rows().len() ==> self.rows()[i].path != path@,
            },
    {
        let mut i: usize = 0;
        while i < self.watches.len()
            invariant
                i <= self.rows().len(),
                self.rows().len() == self.watches@.len(),
                forall|k: int| 0 <= k < i ==> self.rows()[k].path != path@,
            decreases self.watches@.len() - i,
        {
            assert(self.rows()[i as int].path == self.watches@[i as int].path@);
            if same_text(self.watches[i].path.as_str(), path) {
                return Some(i);
            }
            i = i + 1;
        }
        None
    }

    fn find_consumer(&self, consumer: &str) -> (r: Option<(usize, usize)>)
        ensures
            match r {
                Some((i, j)) => i < self.rows().len() && j < self.rows()[i as int].watch.subscribers.len()
                    && self.rows()[i as int].watch.subscribers[j as int] == consumer@,
                None => forall|i: int, a: int|
                    0 <= i < self.rows().len() && 0 <= a < self.rows()[i].watch.subscribers.len()
                        ==> self.rows()[i].watch.subscribers[a] != consumer@,
            },
    {
        let mut i: usize = 0;
        while i < self.watches.len()
            invariant
                i <= self.rows().len(),
                self.rows().len() == self.watches@.len(),
                forall|k: int, a: int|
                    0 <= k < i && 0 <= a < self.rows()[k].watch.subscribers.len()
                        ==> self.rows()[k].watch.subscribers[a] != consumer@,
            decreases self.watches@.len() - i,
        {
            let subs = &self.watches[i].subscribers;
            assert(self.rows()[i as int].watch.subscribers == subs@.map_values(|s: String| s@));
            let mut j: usize = 0;
            while j < subs.len()
                invariant
                    j <= subs@.len(),
                    i < self.rows().len(),
                    self.rows().len() == self.watches@.len(),
                    forall|k: int, a: int|
                        0 <= k < i && 0 <= a < self.rows()[k].watch.subscribers.len()
                            ==> self.rows()[k].watch.subscribers[a] != consumer@,
                    self.rows()[i as int].watch.subscribers == subs@.map_values(|s: String| s@),
                    forall|a: int| 0 <= a < j ==> self.rows()[i as int].watch.subscribers[a] != consumer@,
                decreases subs@.len() - j,
            {
                assert(self.rows()[i as int].watch.subscribers[j as int] == subs@[j as int]@);
                if same_text(subs[j].as_str(), consumer) {
                    return Some((i, j));
                }
                j = j + 1;
            }
            i = i + 1;
        }
        None
    }

    /// Consumer `consumer` stops observing; when its path is left without
    /// subscribers, that path is returned: its OS watch and any timer in flight
    /// are to be dropped. Nothing changes for a consumer that observes nothing.
    pub fn unsubscribe(&mut self, consumer: &str) -> (r: Option<String>)
        requires
            old(self).wf(),
        ensures
            final(self).wf(),
            final(self).next_timer() == old(self).next_timer(),
            final(self).watches() == unsubscribe_spec(old(self).watches(), consumer@).0,
            match r {
                Some(p) => unsubscribe_spec(old(self).watches(), consumer@).1 == Some(p@),
                None => unsubscribe_spec(old(self).watches(), consumer@).1 is None,
            },
            forall|i: int, a: int|
                0 <= i < final(self).rows().len() && 0 <= a < final(self).rows()[i].watch.subscribers.len()
                    ==> final(self).rows()[i].watch.subscribers[a] != consumer@,
            consumer_path(final(self).watches(), consumer@) is None,
    {
        let ghost ws = self.rows();
        match self.find_consumer(consumer) {
            None => {
                proof {
                    lemma_consumer_absent(ws, consumer@);
                }
                None
            },
            Some((i, j)) => {
                proof {
                    lemma_consumer_at(ws, i as int, j as int, consumer@);
                    lemma_table_lookup(ws, i as int);
                    lemma_remove_only(ws[i as int].watch.subscribers, j as int);
                }
                let mut w = self.watches.remove(i);
                let ghost old_subs = w.subscribers@;
                w.subscribers.remove(j);
                proof {
                    assert(w.subscribers@.map_values(|s: String| s@) =~= ws[i as int].watch.subscribers.remove(j as int));
                }
                if w.subscribers.len() == 0 {
                    proof {
                        assert(self.rows() =~= ws.remove(i as int));
                        lemma_table_remove(ws, i as int);
                        lemma_wf_remove(ws, i as int);
                        assert forall|x: int, a: int|
                            0 <= x < self.rows().len() && 0 <= a < self.rows()[x].watch.subscribers.len()
                            implies self.rows()[x].watch.subscribers[a] != consumer@ by {
                            let x2 = if x < i { x } else { x + 1 };
                            assert(self.rows()[x] == ws[x2]);
                            assert(ws[x2].watch.subscribers[a] != ws[i as int].watch.subscribers[j as int]);
                        }
                    }
                    proof {
                        lemma_consumer_absent(self.rows(), consumer@);
                    }
                    Some(w.path)
                } else {
                    self.watches.insert(i, w);
                    proof {
                        let nw = self.rows()[i as int];
                        assert(self.rows() =~= ws.update(i as int, nw));
                        let os = ws[i as int].watch.subscribers;
                        let ns = nw.watch.subscribers;
                        assert forall|a: int| 0 <= a < ns.len() implies ns[a] == os[if a < j { a } else { a + 1 }] by {}
                        assert forall|k: int, a: int, b: int|
                            0 <= k < ws.len() && k != i && 0 <= a < ws[k].watch.subscribers.len()
                                && 0 <= b < ns.len()
                            implies ws[k].watch.subscribers[a] != ns[b] by {
                            let b2 = if b < j { b } else { b + 1 };
                            assert(ns[b] == os[b2]);
                        }
                        assert forall|a: int, b: int| 0 <= a < ns.len() && 0 <= b < ns.len() && ns[a] == ns[b] implies a == b by {
                            let a2 = if a < j { a } else { a + 1 };
                            let b2 = if b < j { b } else { b + 1 };
                            assert(ns[a] == os[a2]);
                            assert(ns[b] == os[b2]);
                        }
                        lemma_wf_update(ws, i as int, nw);
                        lemma_table_update(ws, i as int, nw);
                        assert(nw.watch == Watch { subscribers: without(os, consumer@), pending: ws[i as int].watch.pending });
                        assert forall|x: int, a: int|
                            0 <= x < self.rows().len() && 0 <= a < self.rows()[x].watch.subscribers.len()
                            implies self.rows()[x].watch.subscribers[a] != consumer@ by {
                            if x == i {
                                let a2 = if a < j { a } else { a + 1 };
                                assert(ns[a] == os[a2]);
                            } else {
                                assert(ws[x].watch.subscribers[a] != ws[i as int].watch.subscribers[j as int]);
                            }
                        }
                    }
                    proof {
                        lemma_consumer_absent(self.rows(), consumer@);
                    }
                    None
                }
            },
        }
    }

    fn has_subscriber(&self, i: usize, consumer: &str) -> (r: bool)
        requires
            i < self.rows().len(),
        ensures
            r == self.rows()[i as int].watch.subscribers.contains(consumer@),
    {
        let subs = &self.watches[i].subscribers;
        assert(self.rows()[i as int].watch.subscribers == subs@.map_values(|s: String| s@));
        let mut j: usize = 0;
        while j < subs.len()
            invariant
                j <= subs@.len(),
                i < self.rows().len(),
                self.rows()[i as int].watch.subscribers == subs@.map_values(|s: String| s@),
                forall|a: int| 0 <= a < j ==> self.rows()[i as int].watch.subscribers[a] != consumer@,
            decreases subs@.len() - j,
        {
            assert(self.rows()[i as int].watch.subscribers[j as int] == subs@[j as int]@);
            if same_text(subs[j].as_str(), consumer) {
                return true;
            }
            j = j + 1;
        }
        false
    }

    /// Consumer `consumer` starts observing `path`, leaving any other path it
    /// observed; the path left without subscribers, if any, is returned. The
    /// host installs the OS watch for `path` before this call when
    /// `is_watched(path)` is false, and calls nothing when installing fails.
    pub fn subscribe(&mut self, path: &str, consumer: &str) -> (r: Option<String>)
        requires
            old(self).wf(),
        ensures
            final(self).wf(),
            final(self).next_timer() == old(self).next_timer(),
            final(self).watches() == subscribe_spec(old(self).watches(), path@, consumer@).0,
            match r {
                Some(p) => subscribe_spec(old(self).watches(), path@, consumer@).1 == Some(p@),
                None => subscribe_spec(old(self).watches(), path@, consumer@).1 is None,
            },
    {
        let ghost m0 = self.watches();
        match self.find_path(path) {
            Some(i) => {
                proof { lemma_table_lookup(self.rows(), i as int); }
                if self.has_subscriber(i, consumer) {
                    return None;
                }
            },
            None => {},
        }
        assert(!(m0.contains_key(path@) && m0[path@].subscribers.contains(consumer@)));
        let released = self.unsubscribe(consumer);
        let ghost ws = self.rows();
        let ghost m1 = self.watches();
        match self.find_path(path) {
            Some(i) => {
                proof { lemma_table_lookup(ws, i as int); }
                let mut w = self.watches.remove(i);
                w.subscribers.push(String::from_str(consumer));
                self.watches.insert(i, w);
                proof {
                    let nw = self.rows()[i as int];
                    assert(self.rows() =~= ws.update(i as int, nw));
                    let os = ws[i as int].watch.subscribers;
                    assert(nw.watch.subscribers =~= os.push(consumer@));
                    assert forall|a: int, b: int|
                        0 <= a < nw.watch.subscribers.len() && 0 <= b < nw.watch.subscribers.len()
                            && nw.watch.subscribers[a] == nw.watch.subscribers[b]
                        implies a == b by {
                        if a < os.len() && b == os.len() {
                            assert(ws[i as int].watch.subscribers[a] != consumer@);
                        } else if a == os.len() && b < os.len() {
                            assert(ws[i as int].watch.subscribers[b] != consumer@);
                        }
                    }
                    assert forall|k: int, a: int, b: int|
                        0 <= k < ws.len() && k != i && 0 <= a < ws[k].watch.subscribers.len()
                            && 0 <= b < nw.watch.subscribers.len()
                        implies ws[k].watch.subscribers[a] != nw.watch.subscribers[b] by {
                        if b == os.len() {
                            assert(ws[k].watch.subscribers[a] != consumer@);
                        }
                    }
                    lemma_wf_update(ws, i as int, nw);
                    lemma_table_update(ws, i as int, nw);
                }
            },
            None => {
                let mut subs: Vec<String> = Vec::new();
                subs.push(String::from_str(consumer));
                let w = PathWatch { path: String::from_str(path), subscribers: subs, pending: None };
                self.watches.push(w);
                proof {
                    assert(self.rows() =~= ws.push(w@));
                    assert(w@.watch.subscribers =~= seq![consumer@]);
                    lemma_wf_push(ws, w@);
                    lemma_table_push(ws, w@);
                }
            },
        }
        released
    }

    /// A raw change signal for `path`: when the path is watched, a new debounce
    /// timer is started and its number returned (the host cancels the previous
    /// one); otherwise nothing changes.
    pub fn signal(&mut self, path: &str) -> (r: Option<u64>)
        requires
            old(self).wf(),
        ensures
            final(self).wf(),
            match r {
                Some(t) => old(self).watches().contains_key(path@) && t == old(self).next_timer()
                    && final(self).watches() == signal_spec(old(self).watches(), path@, t)
                    && final(self).next_timer() == next_after(t),
                None => !old(self).watches().contains_key(path@) && final(self).watches() == old(self).watches()
                    && final(self).next_timer() == old(self).next_timer(),
            },
    {
        let ghost ws = self.rows();
        match self.find_path(path) {
            Some(i) => {
                proof { lemma_table_lookup(ws, i as int); }
                let t = self.next_timer;
                let mut w = self.watches.remove(i);
                w.pending = Some(t);
                self.watches.insert(i, w);
                self.next_timer = if t == u64::MAX { 0 } else { t + 1 };
                proof {
                    let nw = self.rows()[i as int];
                    assert(self.rows() =~= ws.update(i as int, nw));
                    assert(nw.watch.subscribers == ws[i as int].watch.subscribers);
                    lemma_wf_update(ws, i as int, nw);
                    lemma_table_update(ws, i as int, nw);
                }
                Some(t)
            },
            None => None,
        }
    }

    /// Debounce timer `timer` for `path` has elapsed. When it is the timer in
    /// flight, it is spent and every subscriber is returned, once each, to be
    /// notified (after the cache is invalidated); a replaced or cancelled
    /// timer returns nobody.
    pub fn timer_elapsed(&mut self, path: &str, timer: u64) -> (r: Vec<String>)
        requires
            old(self).wf(),
        ensures
            final(self).wf(),
            final(self).next_timer() == old(self).next_timer(),
            final(self).watches() == elapse_spec(old(self).watches(), path@, timer),
            r@.map_values(|s: String| s@) == elapse_notified(old(self).watches(), path@, timer),
            timer_current(old(self).watches(), path@, timer) <==> r@.len() > 0,
    {
        let ghost ws = self.rows();
        match self.find_path(path) {
            Some(i) => {
                proof {
                    lemma_table_lookup(ws, i as int);
                    assert(ws[i as int].watch.subscribers.len() > 0);
                }
                let current = match self.watches[i].pending {
                    Some(p) => p == timer,
                    None => false,
                };
                if !current {
                    return Vec::new();
                }
                let out = copy_strings(&self.watches[i].subscribers);
                let mut w = self.watches.remove(i);
                w.pending = None;
                self.watches.insert(i, w);
                proof {
                    let nw = self.rows()[i as int];
                    assert(self.rows() =~= ws.update(i as int, nw));
                    assert(nw.watch.subscribers == ws[i as int].watch.subscribers);
                    lemma_wf_update(ws, i as int, nw);
                    lemma_table_update(ws, i as int, nw);
                }
                out
            },
            None => {
                let out: Vec<String> = Vec::new();
                assert(out@.map_values(|s: String| s@) =~= Seq::<Seq<char>>::empty());
                out
            },
        }
    }

    /// Whether `path` has an OS watch, that is, at least one subscriber.
    pub fn is_watched(&self, path: &str) -> (r: bool)
        requires
            self.wf(),
        ensures
            r == self.watches().contains_key(path@),
    {
        match self.find_path(path) {
            Some(i) => {
                proof { lemma_table_lookup(self.rows(), i as int); }
                true
            },
            None => false,
        }
    }

    /// The subscribers of `path`, in the order they subscribed (empty when the
    /// path is not watched).
    pub fn subscribers(&self, path: &str) -> (r: Vec<String>)
        requires
            self.wf(),
        ensures
            self.watches().contains_key(path@) ==> r@.map_values(|s: String| s@) == self.watches()[path@].subscribers,
            !self.watches().contains_key(path@) ==> r@.len() == 0,
    {
        match self.find_path(path) {
            Some(i) => {
                proof { lemma_table_lookup(self.rows(), i as int); }
                copy_strings(&self.watches[i].subscribers)
            },
            None => Vec::new(),
        }
    }
}

} // verus!
