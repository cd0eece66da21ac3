use std::collections::VecDeque;

use vstd::prelude::*;

use crate::address::IpAddr;
use crate::text::str_eq;

verus! {

/// An idle connection held by the pool, with the time (in milliseconds) at
/// which it was handed back.
pub struct PooledConn<S> {
    pub stream: S,
    pub last_used_ms: u64,
}

/// How long ago `then_ms` was at `now_ms`; a clock that went backwards reads as no time.
pub open spec fn elapsed_ms(now_ms: u64, then_ms: u64) -> int {
    if now_ms >= then_ms {
        now_ms - then_ms
    } else {
        0
    }
}

/// A connection is still usable while it has been idle for less than the timeout.
pub open spec fn is_fresh<S>(c: PooledConn<S>, now_ms: u64, timeout_secs: u64) -> bool {
    elapsed_ms(now_ms, c.last_used_ms) < timeout_secs * 1000
}

/// The position of the first usable connection of a queue (its length if there is none).
pub open spec fn first_fresh<S>(q: Seq<PooledConn<S>>, now_ms: u64, timeout_secs: u64) -> int
    decreases q.len(),
{
    if q.len() == 0 {
        0
    } else if is_fresh(q[0], now_ms, timeout_secs) {
        0
    } else {
        1 + first_fresh(q.skip(1), now_ms, timeout_secs)
    }
}

/// The usable connections of a queue, in their order.
pub open spec fn fresh_only<S>(q: Seq<PooledConn<S>>, now_ms: u64, timeout_secs: u64) -> Seq<PooledConn<S>>
    decreases q.len(),
{
    if q.len() == 0 {
        q
    } else {
        let s = fresh_only(q.drop_last(), now_ms, timeout_secs);
        if is_fresh(q.last(), now_ms, timeout_secs) {
            s.push(q.last())
        } else {
            s
        }
    }
}

/// The position of the entry for `key` (the number of entries if there is none).
pub open spec fn key_index<S>(es: Seq<(Seq<char>, Seq<PooledConn<S>>)>, key: Seq<char>) -> int
    decreases es.len(),
{
    if es.len() == 0 {
        0
    } else if es[0].0 == key {
        0
    } else {
        1 + key_index(es.skip(1), key)
    }
}

/// The number of idle connections over all targets.
pub open spec fn total_len<S>(es: Seq<(Seq<char>, Seq<PooledConn<S>>)>) -> int
    decreases es.len(),
{
    if es.len() == 0 {
        0
    } else {
        total_len(es.drop_last()) + es.last().1.len()
    }
}

/// The entries that survive a sweep at `now_ms`: each queue keeps its usable
/// connections, and a target left with none is dropped.
pub open spec fn cleaned<S>(es: Seq<(Seq<char>, Seq<PooledConn<S>>)>, now_ms: u64, timeout_secs: u64) -> Seq<(Seq<char>, Seq<PooledConn<S>>)>
    decreases es.len(),
{
    if es.len() == 0 {
        es
    } else {
        let s = cleaned(es.drop_last(), now_ms, timeout_secs);
        let f = fresh_only(es.last().1, now_ms, timeout_secs);
        if f.len() > 0 {
            s.push((es.last().0, f))
        } else {
            s
        }
    }
}

/// What a lookup hands out of a queue: its first usable connection.
pub open spec fn got<S>(q: Seq<PooledConn<S>>, now_ms: u64, timeout_secs: u64) -> Option<S> {
    let k = first_fresh(q, now_ms, timeout_secs);
    if k < q.len() {
        Some(q[k].stream)
    } else {
        None
    }
}

/// What a lookup leaves of a queue: the connections after the one handed out;
/// the stale ones before it are dropped.
pub open spec fn rest_after_get<S>(q: Seq<PooledConn<S>>, now_ms: u64, timeout_secs: u64) -> Seq<PooledConn<S>> {
    let k = first_fresh(q, now_ms, timeout_secs);
    if k < q.len() {
        q.skip(k + 1)
    } else {
        Seq::empty()
    }
}

/// The entries after entry `i` was left with `rest`: it goes when `rest` is empty.
pub open spec fn entries_after_get<S>(es: Seq<(Seq<char>, Seq<PooledConn<S>>)>, i: int, rest: Seq<PooledConn<S>>) -> Seq<(Seq<char>, Seq<PooledConn<S>>)> {
    if rest.len() == 0 {
        es.remove(i)
    } else {
        es.update(i, (es[i].0, rest))
    }
}

/// A queue after `c` joined it: at the limit, the oldest connection leaves first.
pub open spec fn queue_after_put<S>(q: Seq<PooledConn<S>>, c: PooledConn<S>, max: nat) -> Seq<PooledConn<S>> {
    (if q.len() >= max {
        q.drop_first()
    } else {
        q
    }).push(c)
}

/// The entries after `c` was handed back for `key`.
pub open spec fn entries_after_put<S>(es: Seq<(Seq<char>, Seq<PooledConn<S>>)>, key: Seq<char>, c: PooledConn<S>, max: nat) -> Seq<(Seq<char>, Seq<PooledConn<S>>)> {
    let i = key_index(es, key);
    if i < es.len() {
        es.update(i, (key, queue_after_put(es[i].1, c, max)))
    } else {
        es.push((key, seq![c]))
    }
}

/// The target names and queues held in a vector of entries.
pub open spec fn view_entries<S>(v: Seq<(String, VecDeque<PooledConn<S>>)>) -> Seq<(Seq<char>, Seq<PooledConn<S>>)> {
    Seq::new(v.len(), |i: int| (v[i].0@, v[i].1@))
}

/// No target occurs twice, no queue is empty and none is over `max`.
pub open spec fn entries_ok<S>(es: Seq<(Seq<char>, Seq<PooledConn<S>>)>, max: nat) -> bool {
    &&& forall|a: int, b: int| 0 <= a < b < es.len() ==> es[a].0 != es[b].0
    &&& forall|a: int| 0 <= a < es.len() ==> 0 < #[trigger] es[a].1.len() <= max
}

proof fn lemma_total_concat<S>(a: Seq<(Seq<char>, Seq<PooledConn<S>>)>, b: Seq<(Seq<char>, Seq<PooledConn<S>>)>)
    ensures
        total_len(a + b) == total_len(a) + total_len(b),
    decreases b.len(),
{
    if b.len() > 0 {
        lemma_total_concat(a, b.drop_last());
        assert((a + b).drop_last() =~= a + b.drop_last());
    } else {
        assert(a + b =~= a);
    }
}

proof fn lemma_total_nonneg<S>(es: Seq<(Seq<char>, Seq<PooledConn<S>>)>)
    ensures
        total_len(es) >= 0,
    decreases es.len(),
{
    if es.len() > 0 {
        lemma_total_nonneg(es.drop_last());
    }
}

proof fn lemma_total_single<S>(e: (Seq<char>, Seq<PooledConn<S>>))
    ensures
        total_len(seq![e]) == e.1.len(),
{
    let z = Seq::<(Seq<char>, Seq<PooledConn<S>>)>::empty();
    assert(seq![e].drop_last() =~= z);
    assert(total_len(z) == 0);
}

proof fn lemma_total_split<S>(es: Seq<(Seq<char>, Seq<PooledConn<S>>)>, i: int)
    requires
        0 <= i < es.len(),
    ensures
        total_len(es) == total_len(es.take(i)) + es[i].1.len() + total_len(es.skip(i + 1)),
        total_len(es.remove(i)) == total_len(es.take(i)) + total_len(es.skip(i + 1)),
{
    let a = es.take(i);
    let b = es.skip(i + 1);
    assert(es =~= a + seq![es[i]] + b);
    assert(es.remove(i) =~= a + b);
    lemma_total_concat(a + seq![es[i]], b);
    lemma_total_concat(a, seq![es[i]]);
    lemma_total_concat(a, b);
    lemma_total_single(es[i]);
}

proof fn lemma_total_update<S>(es: Seq<(Seq<char>, Seq<PooledConn<S>>)>, i: int, e: (Seq<char>, Seq<PooledConn<S>>))
    requires
        0 <= i < es.len(),
    ensures
        total_len(es.update(i, e)) == total_len(es) - es[i].1.len() + e.1.len(),
        total_len(es.remove(i)) == total_len(es) - es[i].1.len(),
        total_len(es) >= es[i].1.len(),
{
    lemma_total_split(es, i);
    lemma_total_split(es.update(i, e), i);
    assert(es.update(i, e).take(i) =~= es.take(i));
    assert(es.update(i, e).skip(i + 1) =~= es.skip(i + 1));
    lemma_total_nonneg(es.take(i));
    lemma_total_nonneg(es.skip(i + 1));
}

proof fn lemma_total_push<S>(es: Seq<(Seq<char>, Seq<PooledConn<S>>)>, e: (Seq<char>, Seq<PooledConn<S>>))
    ensures
        total_len(es.push(e)) == total_len(es) + e.1.len(),
{
    assert(es.push(e).drop_last() =~= es);
}

proof fn lemma_total_prefix<S>(es: Seq<(Seq<char>, Seq<PooledConn<S>>)>, i: int)
    requires
        0 <= i <= es.len(),
    ensures
        total_len(es.take(i)) <= total_len(es),
{
    assert(es =~= es.take(i) + es.skip(i));
    lemma_total_concat(es.take(i), es.skip(i));
    lemma_total_nonneg(es.skip(i));
}

proof fn lemma_fresh_only_len<S>(q: Seq<PooledConn<S>>, now_ms: u64, timeout_secs: u64)
    ensures
        fresh_only(q, now_ms, timeout_secs).len() <= q.len(),
    decreases q.len(),
{
    if q.len() > 0 {
        lemma_fresh_only_len(q.drop_last(), now_ms, timeout_secs);
    }
}

proof fn lemma_first_fresh_bound<S>(q: Seq<PooledConn<S>>, now_ms: u64, timeout_secs: u64)
    ensures
        0 <= first_fresh(q, now_ms, timeout_secs) <= q.len(),
    decreases q.len(),
{
    if q.len() > 0 && !is_fresh(q[0], now_ms, timeout_secs) {
        lemma_first_fresh_bound(q.skip(1), now_ms, timeout_secs);
    }
}

proof fn lemma_key_index_at<S>(es: Seq<(Seq<char>, Seq<PooledConn<S>>)>, key: Seq<char>, i: int)
    requires
        0 <= i <= es.len(),
        forall|j: int| 0 <= j < i ==> es[j].0 != key,
        i == es.len() || es[i].0 == key,
    ensures
        key_index(es, key) == i,
    decreases i,
{
    if i > 0 {
        let t = es.skip(1);
        assert forall|j: int| 0 <= j < i - 1 implies t[j].0 != key by {
            assert(t[j] == es[j + 1]);
        }
        if i < es.len() {
            assert(t[i - 1] == es[i]);
        }
        lemma_key_index_at(t, key, i - 1);
    }
}

proof fn lemma_key_index_found<S>(es: Seq<(Seq<char>, Seq<PooledConn<S>>)>, key: Seq<char>)
    ensures
        0 <= key_index(es, key) <= es.len(),
        key_index(es, key) < es.len() ==> es[key_index(es, key)].0 == key,
        forall|j: int| 0 <= j < key_index(es, key) ==> es[j].0 != key,
    decreases es.len(),
{
    if es.len() > 0 && es[0].0 != key {
        let t = es.skip(1);
        lemma_key_index_found(t, key);
        if key_index(es, key) < es.len() {
            assert(t[key_index(es, key) - 1] == es[key_index(es, key)]);
        }
        assert forall|j: int| 0 <= j < key_index(es, key) implies es[j].0 != key by {
            if j > 0 {
                assert(t[j - 1] == es[j]);
            }
        }
    }
}

proof fn lemma_cleaned_ok<S>(es: Seq<(Seq<char>, Seq<PooledConn<S>>)>, now_ms: u64, timeout_secs: u64, max: nat)
    requires
        entries_ok(es, max),
    ensures
        entries_ok(cleaned(es, now_ms, timeout_secs), max),
        forall|a: int| 0 <= a < cleaned(es, now_ms, timeout_secs).len() ==>
            exists|m: int| 0 <= m < es.len() && #[trigger] es[m].0 == (#[trigger] cleaned(es, now_ms, timeout_secs)[a]).0,
    decreases es.len(),
{
    if es.len() > 0 {
        let d = es.drop_last();
        assert(entries_ok(d, max)) by {
            assert forall|a: int| 0 <= a < d.len() implies 0 < #[trigger] d[a].1.len() <= max by {
                assert(d[a] == es[a]);
            }
        }
        lemma_cleaned_ok(d, now_ms, timeout_secs, max);
        let s = cleaned(d, now_ms, timeout_secs);
        let last = es.last();
        let f = fresh_only(last.1, now_ms, timeout_secs);
        lemma_fresh_only_len(last.1, now_ms, timeout_secs);
        assert(last == es[es.len() - 1]);
        if f.len() > 0 {
            let c = s.push((last.0, f));
            assert forall|a: int| 0 <= a < c.len() implies exists|m: int|
                0 <= m < es.len() && #[trigger] es[m].0 == (#[trigger] c[a]).0 by {
                if a < s.len() {
                    let m = choose|m: int| 0 <= m < d.len() && #[trigger] d[m].0 == s[a].0;
                    assert(es[m] == d[m]);
                } else {
                    assert(es[es.len() - 1].0 == c[a].0);
                }
            }
            assert forall|a: int, b: int| 0 <= a < b < c.len() implies c[a].0 != c[b].0 by {
                if b == s.len() {
                    let m = choose|m: int| 0 <= m < d.len() && #[trigger] d[m].0 == s[a].0;
                    assert(es[m] == d[m]);
                    assert(es[m].0 != es[es.len() - 1].0);
                }
            }
        }
    }
}

proof fn lemma_first_fresh_at_most<S>(q: Seq<PooledConn<S>>, now_ms: u64, timeout_secs: u64, j: int)
    requires
        0 <= j < q.len(),
        is_fresh(q[j], now_ms, timeout_secs),
    ensures
        first_fresh(q, now_ms, timeout_secs) <= j,
    decreases j,
{
    if j > 0 && !is_fresh(q[0], now_ms, timeout_secs) {
        assert(q.skip(1)[j - 1] == q[j]);
        lemma_first_fresh_at_most(q.skip(1), now_ms, timeout_secs, j - 1);
    }
}

/// A connection handed back for a target at `now_ms` can be taken for that target
/// at the same instant, whenever the timeout is not zero: the target is then
/// present and a lookup hands out some connection.
pub proof fn lemma_put_then_get<S>(
    es: Seq<(Seq<char>, Seq<PooledConn<S>>)>,
    key: Seq<char>,
    stream: S,
    now_ms: u64,
    max: nat,
    timeout_secs: u64,
)
    requires
        max >= 1,
        timeout_secs > 0,
        entries_ok(es, max),
    ensures
        ({
            let es2 = entries_after_put(es, key, PooledConn { stream, last_used_ms: now_ms }, max);
            let i = key_index(es2, key);
            &&& i < es2.len()
            &&& got(es2[i].1, now_ms, timeout_secs) is Some
        }),
{
    let c = PooledConn { stream, last_used_ms: now_ms };
    let es2 = entries_after_put(es, key, c, max);
    lemma_key_index_found(es, key);
    let i = key_index(es, key);
    if i < es.len() {
        assert forall|j: int| 0 <= j < i implies es2[j].0 != key by {
            assert(es2[j] == es[j]);
        }
        lemma_key_index_at(es2, key, i);
    } else {
        assert forall|j: int| 0 <= j < i implies es2[j].0 != key by {
            assert(es2[j] == es[j]);
        }
        lemma_key_index_at(es2, key, i);
    }
    let q2 = es2[i].1;
    assert(q2.last() == c);
    assert(is_fresh(q2[q2.len() - 1], now_ms, timeout_secs));
    lemma_first_fresh_at_most(q2, now_ms, timeout_secs, q2.len() - 1);
    lemma_first_fresh_bound(q2, now_ms, timeout_secs);
}

/// An outbound connection pool: per target, the idle connections in the order
/// they were handed back, at most `max_idle_per_host` of them, each usable for
/// `idle_timeout_secs` after it was handed back. The clock is read by the
/// caller and passed in as milliseconds.
pub struct ConnectionPool<S> {
    pools: Vec<(String, VecDeque<PooledConn<S>>)>,
    total_idle: usize,
    max_idle_per_host: usize,
    idle_timeout_secs: u64,
}

impl<S> ConnectionPool<S> {
    /// The targets and their idle connections, oldest first.
    pub closed spec fn entries(&self) -> Seq<(Seq<char>, Seq<PooledConn<S>>)> {
        view_entries(self.pools@)
    }

    /// The most idle connections kept per target.
    pub closed spec fn max_idle(&self) -> nat {
        self.max_idle_per_host as nat
    }

    /// How long, in seconds, an idle connection stays usable.
    pub closed spec fn timeout_secs(&self) -> u64 {
        self.idle_timeout_secs
    }

    /// The pool's invariant: targets are distinct, queues are non-empty and
    /// within the limit, and the idle counter is the number of connections held.
    pub closed spec fn wf(&self) -> bool {
        &&& self.max_idle_per_host >= 1
        &&& entries_ok(self.entries(), self.max_idle_per_host as nat)
        &&& self.total_idle == total_len(self.entries())
    }

    /// An empty pool; a limit of zero is raised to one.
    pub fn new(max_idle_per_host: usize, idle_timeout_secs: u64) -> (p: Self)
        ensures
            p.wf(),
            p.entries() == Seq::<(Seq<char>, Seq<PooledConn<S>>)>::empty(),
            p.max_idle() == (if max_idle_per_host >= 1 { max_idle_per_host as nat } else { 1 }),
            p.timeout_secs() == idle_timeout_secs,
    {
        let max = if max_idle_per_host >= 1 { max_idle_per_host } else { 1 };
        let p = ConnectionPool { pools: Vec::new(), total_idle: 0, max_idle_per_host: max, idle_timeout_secs };
        proof {
            assert(p.entries() =~= Seq::<(Seq<char>, Seq<PooledConn<S>>)>::empty());
        }
        p
    }

    /// An empty pool keeping ten connections per target for sixty seconds.
    pub fn with_defaults() -> (p: Self)
        ensures
            p.wf(),
            p.entries() == Seq::<(Seq<char>, Seq<PooledConn<S>>)>::empty(),
            p.max_idle() == 10,
            p.timeout_secs() == 60,
    {
        Self::new(10, 60)
    }

    /// The number of idle connections held.
    pub fn idle_count(&self) -> (r: usize)
        requires
            self.wf(),
        ensures
            r == total_len(self.entries()),
    {
        self.total_idle
    }

    /// The number of targets with idle connections.
    pub fn target_count(&self) -> (r: usize)
        ensures
            r == self.entries().len(),
    {
        self.pools.len()
    }

    fn find(&self, target: &str) -> (i: usize)
        ensures
            i == key_index(self.entries(), target@),
            i <= self.entries().len(),
    {
        let mut i: usize = 0;
        while i < self.pools.len()
            invariant
                i <= self.pools@.len(),
                forall|j: int| 0 <= j < i ==> self.entries()[j].0 != target@,
            decreases self.pools@.len() - i,
        {
            if str_eq(self.pools[i].0.as_str(), target) {
                proof {
                    lemma_key_index_at(self.entries(), target@, i as int);
                }
                return i;
            }
            i = i + 1;
        }
        proof {
            lemma_key_index_at(self.entries(), target@, i as int);
        }
        i
    }

    /// Takes an idle connection for `target`: the first one still usable at
    /// `now_ms`. The stale ones before it are dropped, and a target left with
    /// no connections is forgotten.
    pub fn get(&mut self, target: &str, now_ms: u64) -> (r: Option<S>)
        requires
            old(self).wf(),
        ensures
            final(self).wf(),
            final(self).max_idle() == old(self).max_idle(),
            final(self).timeout_secs() == old(self).timeout_secs(),
            ({
                let es = old(self).entries();
                let i = key_index(es, target@);
                let t = old(self).timeout_secs();
                if i < es.len() {
                    &&& r == got(es[i].1, now_ms, t)
                    &&& final(self).entries() == entries_after_get(es, i, rest_after_get(es[i].1, now_ms, t))
                } else {
                    &&& r is None
                    &&& final(self).entries() == es
                }
            }),
    {
        let ghost es = self.entries();
        let i = self.find(target);
        if i >= self.pools.len() {
            return None;
        }
        let t = self.idle_timeout_secs;
        let (key, mut queue) = self.pools.remove(i);
        let ghost q0 = queue@;
        proof {
            assert(q0 == es[i as int].1);
            lemma_first_fresh_bound(q0, now_ms, t);
        }
        let qlen = queue.len();
        let mut taken: usize = 0;
        let mut result: Option<S> = None;
        while result.is_none() && queue.len() > 0
            invariant
                q0.len() == qlen,
                taken <= q0.len(),
                queue@ == q0.skip(taken as int),
                result is None ==> first_fresh(q0, now_ms, t) == taken + first_fresh(queue@, now_ms, t),
                result is Some ==> taken >= 1 && first_fresh(q0, now_ms, t) == taken - 1
                    && result == Some(q0[taken - 1].stream),
            decreases queue@.len(),
        {
            let ghost before = queue@;
            let c = queue.pop_front().unwrap();
            proof {
                assert(queue@ =~= q0.skip(taken + 1));
                assert(before.skip(1) =~= queue@);
                assert(c == q0[taken as int]);
            }
            taken = taken + 1;
            let elapsed: u64 = if now_ms >= c.last_used_ms { now_ms - c.last_used_ms } else { 0 };
            if (elapsed as u128) < (t as u128) * 1000 {
                result = Some(c.stream);
            }
        }
        proof {
            lemma_total_update(es, i as int, (key@, queue@));
            if result is None {
                assert(queue@.len() == 0);
                assert(taken == q0.len());
            }
            lemma_first_fresh_bound(q0, now_ms, t);
        }
        self.total_idle = self.total_idle - taken;
        if queue.len() > 0 {
            self.pools.insert(i, (key, queue));
            proof {
                assert(self.entries() =~= es.update(i as int, (es[i as int].0, queue@)));
                assert(queue@ == rest_after_get(q0, now_ms, t));
            }
        } else {
            proof {
                assert(self.entries() =~= es.remove(i as int));
                assert(rest_after_get(q0, now_ms, t).len() == 0);
            }
        }
        result
    }

    /// Hands `stream` back for `target` at `now_ms`. When the target already
    /// holds the limit, its oldest connection is dropped first.
    pub fn put(&mut self, target: &str, stream: S, now_ms: u64)
        requires
            old(self).wf(),
            total_len(old(self).entries()) < usize::MAX,
        ensures
            final(self).wf(),
            final(self).max_idle() == old(self).max_idle(),
            final(self).timeout_secs() == old(self).timeout_secs(),
            final(self).entries() == entries_after_put(
                old(self).entries(),
                target@,
                PooledConn { stream, last_used_ms: now_ms },
                old(self).max_idle(),
            ),
    {
        let ghost es = self.entries();
        let ghost c0 = PooledConn { stream, last_used_ms: now_ms };
        let i = self.find(target);
        proof {
            lemma_key_index_found(es, target@);
        }
        let c = PooledConn { stream, last_used_ms: now_ms };
        if i < self.pools.len() {
            let (key, mut queue) = self.pools.remove(i);
            let ghost q0 = queue@;
            proof {
                assert(q0 == es[i as int].1);
                assert(key@ == target@);
                lemma_total_update(es, i as int, (target@, queue_after_put(q0, c0, self.max_idle_per_host as nat)));
            }
            if queue.len() >= self.max_idle_per_host {
                let _ = queue.pop_front();
                self.total_idle = self.total_idle - 1;
            }
            proof {
                assert(queue@ =~= (if q0.len() >= self.max_idle_per_host { q0.drop_first() } else { q0 }));
            }
            queue.push_back(c);
            self.total_idle = self.total_idle + 1;
            self.pools.insert(i, (key, queue));
            proof {
                assert(self.entries() =~= es.update(i as int, (target@, queue_after_put(q0, c0, self.max_idle_per_host as nat))));
            }
        } else {
            let mut queue: VecDeque<PooledConn<S>> = VecDeque::new();
            queue.push_back(c);
            self.pools.push((target.to_owned(), queue));
            self.total_idle = self.total_idle + 1;
            proof {
                assert(self.entries() =~= es.push((target@, seq![c0])));
                lemma_total_push(es, (target@, seq![c0]));
            }
        }
    }

    /// Drops every connection idle for the timeout or longer at `now_ms`, and
    /// every target left with none; returns how many connections were dropped.
    pub fn cleanup(&mut self, now_ms: u64) -> (r: usize)
        requires
            old(self).wf(),
        ensures
            final(self).wf(),
            final(self).max_idle() == old(self).max_idle(),
            final(self).timeout_secs() == old(self).timeout_secs(),
            final(self).entries() == cleaned(old(self).entries(), now_ms, old(self).timeout_secs()),
            r == total_len(old(self).entries()) - total_len(final(self).entries()),
    {
        let ghost es = self.entries();
        let t = self.idle_timeout_secs;
        let max = self.max_idle_per_host;
        let mut rem: Vec<(String, VecDeque<PooledConn<S>>)> = Vec::new();
        std::mem::swap(&mut rem, &mut self.pools);
        let mut res: Vec<(String, VecDeque<PooledConn<S>>)> = Vec::new();
        let mut count: usize = 0;
        let ghost mut n: int = 0;
        proof {
            assert(view_entries(rem@) =~= es.skip(0));
            assert(es.take(0) =~= Seq::<(Seq<char>, Seq<PooledConn<S>>)>::empty());
            assert(view_entries(res@) =~= Seq::<(Seq<char>, Seq<PooledConn<S>>)>::empty());
        }
        while rem.len() > 0
            invariant
                0 <= n <= es.len(),
                view_entries(rem@) == es.skip(n),
                view_entries(res@) == cleaned(es.take(n), now_ms, t),
                count == total_len(es.take(n)) - total_len(view_entries(res@)),
                total_len(es) <= usize::MAX,
                self.total_idle == total_len(es),
            decreases rem@.len(),
        {
            let ghost r0 = rem@;
            proof {
                assert(view_entries(r0).len() == es.len() - n);
            }
            let (key, mut q) = rem.remove(0);
            let ghost q0 = q@;
            proof {
                assert(view_entries(r0)[0] == es.skip(n)[0]);
                assert forall|k: int| 0 <= k < es.len() - n - 1 implies view_entries(rem@)[k] == es.skip(n + 1)[k] by {
                    assert(rem@[k] == r0[k + 1]);
                    assert(view_entries(r0)[k + 1] == es.skip(n)[k + 1]);
                }
                assert(view_entries(rem@) =~= es.skip(n + 1));
                assert(q0 == es[n].1);
                assert(key@ == es[n].0);
            }
            let before = q.len();
            let mut kept: VecDeque<PooledConn<S>> = VecDeque::new();
            let ghost mut j: int = 0;
            proof {
                assert(q0.take(0) =~= Seq::<PooledConn<S>>::empty());
            }
            while q.len() > 0
                invariant
                    0 <= j <= q0.len(),
                    q@ == q0.skip(j),
                    kept@ == fresh_only(q0.take(j), now_ms, t),
                decreases q@.len(),
            {
                let c = q.pop_front().unwrap();
                proof {
                    assert(q@ =~= q0.skip(j + 1));
                    assert(c == q0[j]);
                    assert(q0.take(j + 1).drop_last() =~= q0.take(j));
                }
                let elapsed: u64 = if now_ms >= c.last_used_ms { now_ms - c.last_used_ms } else { 0 };
                if (elapsed as u128) < (t as u128) * 1000 {
                    kept.push_back(c);
                }
                proof {
                    j = j + 1;
                }
            }
            proof {
                assert(q0.take(j) =~= q0);
                lemma_fresh_only_len(q0, now_ms, t);
                assert(es.take(n + 1).drop_last() =~= es.take(n));
                assert(es.take(n + 1).last() == es[n]);
                lemma_total_push(es.take(n), es[n]);
                assert(es.take(n + 1) =~= es.take(n).push(es[n]));
                lemma_total_prefix(es, n + 1);
                lemma_total_nonneg(view_entries(res@));
            }
            let removed = before - kept.len();
            count = count + removed;
            if kept.len() > 0 {
                let ghost old_res = view_entries(res@);
                res.push((key, kept));
                proof {
                    assert(view_entries(res@) =~= old_res.push((es[n].0, fresh_only(q0, now_ms, t))));
                    lemma_total_push(old_res, (es[n].0, fresh_only(q0, now_ms, t)));
                }
            }
            proof {
                n = n + 1;
            }
        }
        proof {
            assert(es.take(n) =~= es);
            lemma_cleaned_ok(es, now_ms, t, max as nat);
            lemma_total_nonneg(view_entries(res@));
        }
        self.pools = res;
        self.total_idle = self.total_idle - count;
        count
    }

    /// Drops every idle connection.
    pub fn clear(&mut self)
        requires
            old(self).wf(),
        ensures
            final(self).wf(),
            final(self).max_idle() == old(self).max_idle(),
            final(self).timeout_secs() == old(self).timeout_secs(),
            final(self).entries() == Seq::<(Seq<char>, Seq<PooledConn<S>>)>::empty(),
    {
        self.pools = Vec::new();
        self.total_idle = 0;
        proof {
            assert(self.entries() =~= Seq::<(Seq<char>, Seq<PooledConn<S>>)>::empty());
        }
    }
}

/// Where an outbound connection is bound: an interface, a local address, a
/// routing mark, or none of these.
#[derive(Debug, Clone)]
pub struct BindInterface {
    pub interface_name: Option<String>,
    pub bind_addr: Option<IpAddr>,
    pub routing_mark: Option<u32>,
}

impl BindInterface {
    /// No binding at all.
    pub fn none() -> (b: Self)
        ensures
            b.interface_name is None,
            b.bind_addr is None,
            b.routing_mark is None,
    {
        BindInterface { interface_name: None, bind_addr: None, routing_mark: None }
    }

    /// Bound to the interface called `name`.
    pub fn with_interface(name: &str) -> (b: Self)
        ensures
            b.interface_name matches Some(s) && s@ == name@,
            b.bind_addr is None,
            b.routing_mark is None,
    {
        BindInterface { interface_name: Some(name.to_owned()), bind_addr: None, routing_mark: None }
    }

    /// Bound to the local address `addr`.
    pub fn with_bind_addr(addr: IpAddr) -> (b: Self)
        ensures
            b.interface_name is None,
            b.bind_addr == Some(addr),
            b.routing_mark is None,
    {
        BindInterface { interface_name: None, bind_addr: Some(addr), routing_mark: None }
    }

    /// Whether any binding is set.
    pub fn has_binding(&self) -> (r: bool)
        ensures
            r == (self.interface_name is Some || self.bind_addr is Some || self.routing_mark is Some),
    {
        self.interface_name.is_some() || self.bind_addr.is_some() || self.routing_mark.is_some()
    }
}

} // verus!
