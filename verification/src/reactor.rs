//! Reactor bookkeeping: the timer queue ordered by deadline and the table of
//! wakers waiting for I/O readiness, keyed by token.

use dashmap::DashMap;
use std::task::Waker;
use vstd::multiset::Multiset;
use vstd::prelude::*;

verus! {

broadcast use vstd::seq_lib::group_to_multiset_ensures;

/// `std::task::Waker`, carried through the timer queue and the waker table.
#[verifier::external_type_specification]
#[verifier::external_body]
pub struct ExWaker(Waker);

/// A timer: wake `waker` once the clock reaches `deadline`.
/// Times are nanoseconds on the runtime's monotonic clock.
pub struct TimerEntry {
    pub deadline: u64,
    pub waker: Waker,
}

/// Index of the parent of heap slot `i` (for `i > 0`).
pub open spec fn parent(i: int) -> int {
    (i - 1) / 2
}

/// Every slot's deadline is at least that of its parent.
pub open spec fn heap_ordered(s: Seq<TimerEntry>) -> bool {
    forall|i: int| 0 < i < s.len() ==> s[parent(i)].deadline <= #[trigger] s[i].deadline
}

/// Heap order everywhere, except possibly between slot `k` and its parent;
/// the parent of `k` is no later than `k`'s children.
spec fn ordered_except_up(s: Seq<TimerEntry>, k: int) -> bool {
    &&& forall|i: int| 0 < i < s.len() && i != k ==> s[parent(i)].deadline <= #[trigger] s[i].deadline
    &&& forall|i: int| 0 < i < s.len() && parent(i) == k && k > 0 ==>
            s[parent(k)].deadline <= #[trigger] s[i].deadline
}

/// Heap order everywhere, except possibly between slot `k` and its
/// children; the parent of `k` is no later than `k`'s children.
spec fn ordered_except_down(s: Seq<TimerEntry>, k: int) -> bool {
    &&& forall|i: int| 0 < i < s.len() && parent(i) != k ==> s[parent(i)].deadline <= #[trigger] s[i].deadline
    &&& forall|i: int| 0 < i < s.len() && parent(i) == k && k > 0 ==>
            s[parent(k)].deadline <= #[trigger] s[i].deadline
}

/// `s` with the entries at `i` and `j` exchanged.
pub open spec fn swapped<T>(s: Seq<T>, i: int, j: int) -> Seq<T> {
    s.update(i, s[j]).update(j, s[i])
}

/// `<[T]>::swap`: exchanges the elements at `a` and `b` (documented to panic
/// when either index is out of bounds, which `requires` rules out).
#[verifier::external_body]
fn vec_swap<T>(v: &mut Vec<T>, a: usize, b: usize)
    requires
        a < old(v).len(),
        b < old(v).len(),
    ensures
        final(v)@ == swapped(old(v)@, a as int, b as int),
{
    v.swap(a, b);
}

proof fn lemma_swapped_multiset<T>(s: Seq<T>, i: int, j: int)
    requires
        0 <= i < s.len(),
        0 <= j < s.len(),
    ensures
        swapped(s, i, j).to_multiset() == s.to_multiset(),
        swapped(s, i, j).len() == s.len(),
{
    broadcast use vstd::seq_lib::to_multiset_update;
    let s1 = s.update(i, s[j]);
    assert(s1.to_multiset() == s.to_multiset().insert(s[j]).remove(s[i]));
    assert(swapped(s, i, j).to_multiset() == s1.to_multiset().insert(s[i]).remove(s1[j]));
    if i == j {
        assert(s1 =~= s);
        assert(swapped(s, i, j) =~= s);
    } else {
        assert(s1[j] == s[j]);
        assert(swapped(s, i, j).to_multiset() =~= s.to_multiset());
    }
}

/// In a heap-ordered sequence the first entry has the earliest deadline.
proof fn lemma_root_is_earliest(s: Seq<TimerEntry>, i: int)
    requires
        heap_ordered(s),
        0 <= i < s.len(),
    ensures
        s[0].deadline <= s[i].deadline,
    decreases i,
{
    if i > 0 {
        lemma_root_is_earliest(s, parent(i));
    }
}

/// The timer queue: a binary min-heap of timer entries ordered by deadline,
/// so the earliest deadline is always at the front.
pub struct TimerHeap {
    entries: Vec<TimerEntry>,
}

impl TimerHeap {
    /// The entries held, in heap order.
    pub closed spec fn entries(&self) -> Seq<TimerEntry> {
        self.entries@
    }

    /// The entries held, as a multiset.
    pub open spec fn contents(&self) -> Multiset<TimerEntry> {
        self.entries().to_multiset()
    }

    /// The entries are always heap-ordered by deadline.
    #[verifier::type_invariant]
    spec fn heap_inv(self) -> bool {
        heap_ordered(self.entries@)
    }

    /// An empty timer queue.
    pub fn new() -> (h: Self)
        ensures
            h.contents() =~= Multiset::empty(),
    {
        TimerHeap { entries: Vec::new() }
    }

    /// Number of pending timers.
    pub fn len(&self) -> (n: usize)
        ensures
            n == self.contents().len(),
    {
        self.entries.len()
    }

    /// Adds a timer.
    pub fn push(&mut self, entry: TimerEntry)
        ensures
            final(self).contents() =~= old(self).contents().insert(entry),
    {
        proof {
            use_type_invariant(&*self);
        }
        let mut entries: Vec<TimerEntry> = Vec::new();
        std::mem::swap(&mut entries, &mut self.entries);
        sift_up_push(&mut entries, entry);
        self.entries = entries;
    }

    /// Removes and returns a timer with the earliest deadline (which of
    /// several timers with that deadline is left open), or `None` when the
    /// queue is empty.
    pub fn pop(&mut self) -> (r: Option<TimerEntry>)
        ensures
            old(self).contents().len() == 0 ==> r is None && final(self).contents() == old(
                self,
            ).contents(),
            old(self).contents().len() > 0 ==> (r matches Some(e) && old(self).contents().count(e)
                > 0 && earliest(old(self).contents(), e.deadline) && final(self).contents()
                == old(self).contents().remove(e)),
    {
        proof {
            use_type_invariant(&*self);
        }
        if self.entries.len() == 0 {
            return None;
        }
        proof {
            lemma_front_is_earliest(self.entries@);
        }
        let mut entries: Vec<TimerEntry> = Vec::new();
        std::mem::swap(&mut entries, &mut self.entries);
        let top = sift_down_pop(&mut entries);
        self.entries = entries;
        Some(top)
    }

    /// The earliest deadline among the pending timers, if any.
    pub fn peek_deadline(&self) -> (d: Option<u64>)
        ensures
            d is None <==> self.contents().len() == 0,
            d matches Some(t) ==> earliest(self.contents(), t),
    {
        proof {
            use_type_invariant(self);
        }
        if self.entries.len() == 0 {
            None
        } else {
            proof {
                lemma_front_is_earliest(self.entries@);
            }
            Some(self.entries[0].deadline)
        }
    }
}

/// The first entry of a non-empty heap-ordered sequence has the earliest
/// deadline of all its entries.
proof fn lemma_front_is_earliest(s: Seq<TimerEntry>)
    requires
        heap_ordered(s),
        s.len() > 0,
    ensures
        s.to_multiset().count(s[0]) > 0,
        earliest(s.to_multiset(), s[0].deadline),
{
    assert forall|x: TimerEntry| s.to_multiset().count(x) > 0 implies t_le(s[0].deadline, x) by {
        let i = choose|i: int| 0 <= i < s.len() && s[i] == x;
        lemma_root_is_earliest(s, i);
    }
    assert(s.to_multiset().count(s[0]) > 0);
}

/// Appends `entry` to a heap-ordered vector and sifts it up to its place.
fn sift_up_push(v: &mut Vec<TimerEntry>, entry: TimerEntry)
    requires
        heap_ordered(old(v)@),
    ensures
        heap_ordered(final(v)@),
        final(v)@.to_multiset() =~= old(v)@.to_multiset().insert(entry),
{
    let ghost e = entry;
    v.push(entry);
    let mut k: usize = v.len() - 1;
    proof {
        assert(ordered_except_up(v@, k as int));
    }
    while k > 0
        invariant
            0 <= k < v@.len(),
            ordered_except_up(v@, k as int),
            v@.to_multiset() =~= old(v)@.to_multiset().insert(e),
        ensures
            heap_ordered(v@),
            v@.to_multiset() =~= old(v)@.to_multiset().insert(e),
        decreases k,
    {
        let p: usize = (k - 1) / 2;
        if v[k].deadline < v[p].deadline {
            let ghost s = v@;
            vec_swap(v, k, p);
            proof {
                lemma_swapped_multiset(s, k as int, p as int);
                let t = v@;
                assert forall|i: int| 0 < i < t.len() && i != p implies t[parent(i)].deadline
                    <= #[trigger] t[i].deadline by {
                    if i == k {
                    } else if parent(i) == k {
                    } else if parent(i) == p {
                    } else {
                    }
                }
                assert forall|i: int| 0 < i < t.len() && parent(i) == p && p > 0 implies
                    t[parent(p as int)].deadline <= #[trigger] t[i].deadline by {
                    assert(s[parent(p as int)].deadline <= s[p as int].deadline);
                    if i != k {
                        assert(s[parent(i)].deadline <= s[i].deadline);
                    }
                }
            }
            k = p;
        } else {
            break;
        }
    }
}

/// Removes the front entry of a non-empty heap-ordered vector, moves the
/// last entry to the front and sifts it down to its place.
fn sift_down_pop(v: &mut Vec<TimerEntry>) -> (top: TimerEntry)
    requires
        heap_ordered(old(v)@),
        old(v)@.len() > 0,
    ensures
        top == old(v)@[0],
        heap_ordered(final(v)@),
        final(v)@.to_multiset() =~= old(v)@.to_multiset().remove(old(v)@[0]),
{
    let ghost s0 = v@;
    let top = v.swap_remove(0);
    proof {
        broadcast use vstd::seq_lib::to_multiset_update;
        let u = s0.update(0, s0.last());
        assert(u.to_multiset() == s0.to_multiset().insert(s0.last()).remove(s0[0]));
        assert(u.drop_last() =~= u.remove(u.len() - 1));
        assert(v@.to_multiset() == u.to_multiset().remove(s0.last()));
        assert(v@.to_multiset() =~= s0.to_multiset().remove(s0[0]));
        assert(ordered_except_down(v@, 0));
    }
    let n: usize = v.len();
    let mut k: usize = 0;
    loop
        invariant
            n == v@.len(),
            n == 0 || k < n,
            ordered_except_down(v@, k as int),
            v@.to_multiset() =~= s0.to_multiset().remove(s0[0]),
        ensures
            heap_ordered(v@),
            v@.to_multiset() =~= s0.to_multiset().remove(s0[0]),
        decreases n - k,
    {
        if k >= n / 2 {
            proof {
                assert forall|i: int| 0 < i < v@.len() implies v@[parent(i)].deadline
                    <= #[trigger] v@[i].deadline by {
                    if parent(i) == k {
                        assert(false);
                    }
                }
            }
            break;
        }
        let l: usize = 2 * k + 1;
        let c: usize = if l + 1 < n && v[l + 1].deadline < v[l].deadline {
            l + 1
        } else {
            l
        };
        assert(c < n && parent(c as int) == k);
        assert(forall|i: int|
            0 < i < n && parent(i) == k ==> v@[c as int].deadline <= #[trigger] v@[i].deadline);
        if v[c].deadline < v[k].deadline {
            let ghost s = v@;
            vec_swap(v, k, c);
            proof {
                lemma_swapped_multiset(s, k as int, c as int);
                let t = v@;
                assert forall|i: int| 0 < i < t.len() && parent(i) != c implies t[parent(i)].deadline
                    <= #[trigger] t[i].deadline by {
                    if i == c {
                    } else if i == k {
                        assert(s[parent(k as int)].deadline <= s[c as int].deadline);
                    } else if parent(i) == k {
                    } else {
                    }
                }
                assert forall|i: int| 0 < i < t.len() && parent(i) == c && c > 0 implies t[parent(
                    c as int,
                )].deadline <= #[trigger] t[i].deadline by {
                    assert(s[c as int].deadline <= s[i].deadline);
                }
            }
            k = c;
        } else {
            proof {
                assert forall|i: int| 0 < i < v@.len() implies v@[parent(i)].deadline
                    <= #[trigger] v@[i].deadline by {
                    if parent(i) == k {
                    }
                }
            }
            break;
        }
    }
    top
}

/// `t` is no later than the deadline of `x`.
pub open spec fn t_le(t: u64, x: TimerEntry) -> bool {
    t <= x.deadline
}

/// `t` is the earliest deadline of the timers in `m`.
pub open spec fn earliest(m: Multiset<TimerEntry>, t: u64) -> bool {
    &&& exists|x: TimerEntry| m.count(x) > 0 && x.deadline == t
    &&& forall|x: TimerEntry| m.count(x) > 0 ==> t_le(t, x)
}


/// `dashmap::DashMap`, the concurrent table of wakers waiting for readiness.
#[verifier::external_type_specification]
#[verifier::external_body]
#[verifier::reject_recursive_types(K)]
#[verifier::reject_recursive_types(V)]
#[verifier::reject_recursive_types(S)]
pub struct ExDashMap<K, V, S>(DashMap<K, V, S>);

/// The key/value pairs that a waker table holds.
pub uninterp spec fn table_entries(m: DashMap<usize, Waker>) -> Map<usize, Waker>;

/// `DashMap::new`: a map with no entries.
#[verifier::external_body]
fn table_new() -> (m: DashMap<usize, Waker>)
    ensures
        table_entries(m).is_empty(),
{
    DashMap::new()
}

/// `DashMap::insert`: maps `key` to `value`, returning the value that `key`
/// was mapped to before, if any.
#[verifier::external_body]
fn table_insert(m: &mut DashMap<usize, Waker>, key: usize, value: Waker) -> (prev: Option<Waker>)
    ensures
        table_entries(*final(m)) == table_entries(*old(m)).insert(key, value),
        prev == (if table_entries(*old(m)).dom().contains(key) {
            Some(table_entries(*old(m))[key])
        } else {
            None
        }),
{
    m.insert(key, value)
}

/// `DashMap::remove`: removes `key`, returning the value it was mapped to
/// (the returned key, equal to `key`, is dropped).
#[verifier::external_body]
fn table_remove(m: &mut DashMap<usize, Waker>, key: usize) -> (prev: Option<Waker>)
    ensures
        table_entries(*final(m)) == table_entries(*old(m)).remove(key),
        prev == (if table_entries(*old(m)).dom().contains(key) {
            Some(table_entries(*old(m))[key])
        } else {
            None
        }),
{
    m.remove(&key).map(|(_, w)| w)
}

/// The waker table left after taking the wakers of `tokens`, in order.
pub open spec fn without_tokens(w: Map<usize, Waker>, tokens: Seq<usize>) -> Map<usize, Waker>
    decreases tokens.len(),
{
    if tokens.len() == 0 {
        w
    } else {
        without_tokens(w, tokens.drop_last()).remove(tokens.last())
    }
}

/// The tokens whose wakers are taken when the wakers of `tokens` are taken
/// in order: those that still have a stored waker when their turn comes.
pub open spec fn taken_tokens(w: Map<usize, Waker>, tokens: Seq<usize>) -> Seq<usize>
    decreases tokens.len(),
{
    if tokens.len() == 0 {
        Seq::empty()
    } else {
        let prev = taken_tokens(w, tokens.drop_last());
        if without_tokens(w, tokens.drop_last()).dom().contains(tokens.last()) {
            prev.push(tokens.last())
        } else {
            prev
        }
    }
}

/// A token keeps its waker through a batch exactly when it is not among
/// the batch's tokens, and keeps it unchanged.
proof fn lemma_without_tokens(w: Map<usize, Waker>, tokens: Seq<usize>, t: usize)
    ensures
        without_tokens(w, tokens).dom().contains(t) <==> (w.dom().contains(t) && !tokens.contains(
            t,
        )),
        without_tokens(w, tokens).dom().contains(t) ==> without_tokens(w, tokens)[t] == w[t],
    decreases tokens.len(),
{
    if tokens.len() > 0 {
        let front = tokens.drop_last();
        lemma_without_tokens(w, front, t);
        assert(tokens =~= front.push(tokens.last()));
        if front.contains(t) {
            let j = choose|j: int| 0 <= j < front.len() && front[j] == t;
            assert(tokens[j] == t);
        }
        if tokens.contains(t) && tokens.last() != t {
            let j = choose|j: int| 0 <= j < tokens.len() && tokens[j] == t;
            assert(front[j] == t);
        }
        if tokens.last() == t {
            assert(tokens[tokens.len() - 1] == t);
        }
    }
}

/// A token's waker is taken by a batch exactly when the token has a stored
/// waker and occurs in the batch.
proof fn lemma_taken_tokens(w: Map<usize, Waker>, tokens: Seq<usize>)
    ensures
        taken_tokens(w, tokens).no_duplicates(),
        forall|t: usize| #[trigger] taken_tokens(w, tokens).contains(t) <==> (w.dom().contains(t)
            && tokens.contains(t)),
    decreases tokens.len(),
{
    if tokens.len() > 0 {
        let front = tokens.drop_last();
        let last = tokens.last();
        lemma_taken_tokens(w, front);
        lemma_without_tokens(w, front, last);
        assert(tokens =~= front.push(last));
        let prev = taken_tokens(w, front);
        assert forall|t: usize| #[trigger] taken_tokens(w, tokens).contains(t) <==> (w.dom().contains(
            t,
        ) && tokens.contains(t)) by {
            if front.contains(t) {
                let j = choose|j: int| 0 <= j < front.len() && front[j] == t;
                assert(tokens[j] == t);
            }
            if tokens.contains(t) && last != t {
                let j = choose|j: int| 0 <= j < tokens.len() && tokens[j] == t;
                assert(front[j] == t);
            }
            if last == t {
                assert(tokens[tokens.len() - 1] == t);
            }
            if without_tokens(w, front).dom().contains(last) {
                assert(prev.push(last)[prev.len() as int] == last);
                if prev.push(last).contains(t) && t != last {
                    let j = choose|j: int| 0 <= j < prev.len() + 1 && prev.push(last)[j] == t;
                    assert(prev[j] == t);
                }
                if prev.contains(t) {
                    let j = choose|j: int| 0 <= j < prev.len() && prev[j] == t;
                    assert(prev.push(last)[j] == t);
                }
            }
        }
        if without_tokens(w, front).dom().contains(last) {
            assert(!prev.contains(last));
            let s = prev.push(last);
            assert forall|i: int, j: int| 0 <= i < s.len() && 0 <= j < s.len() && i != j implies s[i]
                != s[j] by {
                if i == prev.len() {
                    assert(!prev.contains(s[j]) || s[j] != last);
                    if s[j] == last {
                        assert(prev[j] == last);
                    }
                } else if j == prev.len() {
                    if s[i] == last {
                        assert(prev[i] == last);
                    }
                }
            }
        }
    }
}

/// Time left until `deadline` as seen at `now`, zero once it has passed.
pub open spec fn time_until(deadline: u64, now: u64) -> u64 {
    if deadline > now {
        (deadline - now) as u64
    } else {
        0
    }
}

/// The timers of `m` whose deadline has passed at `now`.
pub open spec fn due(m: Multiset<TimerEntry>, now: u64) -> Multiset<TimerEntry> {
    m.filter(|x: TimerEntry| x.deadline <= now)
}

/// The timers of `m` whose deadline lies after `now`.
pub open spec fn not_due(m: Multiset<TimerEntry>, now: u64) -> Multiset<TimerEntry> {
    m.filter(|x: TimerEntry| x.deadline > now)
}

/// Deadlines along `s` never decrease.
pub open spec fn by_deadline(s: Seq<TimerEntry>) -> bool {
    forall|i: int, j: int| 0 <= i <= j < s.len() ==> s[i].deadline <= s[j].deadline
}

/// The reactor's bookkeeping: pending timers ordered by deadline and, per
/// I/O token, the waker of the task waiting for that source.
pub struct Reactor {
    wakers: DashMap<usize, Waker>,
    timers: TimerHeap,
}

impl Reactor {
    /// The pending timers.
    pub closed spec fn timers(&self) -> Multiset<TimerEntry> {
        self.timers.contents()
    }

    /// The waker registered for each token.
    pub closed spec fn wakers(&self) -> Map<usize, Waker> {
        table_entries(self.wakers)
    }

    /// A reactor with no timers and no registered wakers.
    pub fn new() -> (r: Self)
        ensures
            r.timers() =~= Multiset::empty(),
            r.wakers() == Map::<usize, Waker>::empty(),
    {
        Reactor { wakers: table_new(), timers: TimerHeap::new() }
    }

    /// Records `waker` as the one to wake when the source with `token` is
    /// ready, replacing any waker stored for it before.
    pub fn set_waker(&mut self, token: usize, waker: Waker)
        ensures
            final(self).wakers() == old(self).wakers().insert(token, waker),
            final(self).timers() == old(self).timers(),
    {
        let _ = table_insert(&mut self.wakers, token, waker);
    }

    /// Removes and returns the waker stored for `token`, if any.
    pub fn take_waker(&mut self, token: usize) -> (w: Option<Waker>)
        ensures
            final(self).wakers() == old(self).wakers().remove(token),
            final(self).timers() == old(self).timers(),
            w == (if old(self).wakers().dom().contains(token) {
                Some(old(self).wakers()[token])
            } else {
                None
            }),
    {
        table_remove(&mut self.wakers, token)
    }

    /// Takes, in order, the wakers stored for the tokens of a batch of
    /// readiness events: each stored waker is taken once, at its token's
    /// first occurrence, and tokens without a stored waker give nothing.
    pub fn take_wakers(&mut self, tokens: &Vec<usize>) -> (woken: Vec<Waker>)
        ensures
            final(self).wakers() == without_tokens(old(self).wakers(), tokens@),
            woken@ == taken_tokens(old(self).wakers(), tokens@).map_values(
                |t: usize| old(self).wakers()[t],
            ),
            final(self).timers() == old(self).timers(),
    {
        let ghost w0 = self.wakers();
        let mut woken: Vec<Waker> = Vec::new();
        let mut i: usize = 0;
        while i < tokens.len()
            invariant
                i <= tokens@.len(),
                w0 == old(self).wakers(),
                self.timers() == old(self).timers(),
                self.wakers() == without_tokens(w0, tokens@.take(i as int)),
                woken@ == taken_tokens(w0, tokens@.take(i as int)).map_values(|t: usize| w0[t]),
            decreases tokens@.len() - i,
        {
            let t = tokens[i];
            let ghost before = tokens@.take(i as int);
            proof {
                assert(tokens@.take(i + 1).drop_last() =~= before);
                assert(tokens@.take(i + 1).last() == t);
                lemma_without_tokens(w0, before, t);
            }
            let taken = self.take_waker(t);
            match taken {
                Some(w) => {
                    woken.push(w);
                },
                None => {},
            }
            proof {
                assert(woken@ =~= taken_tokens(w0, tokens@.take(i + 1)).map_values(
                    |t: usize| w0[t],
                ));
            }
            i = i + 1;
        }
        proof {
            assert(tokens@.take(tokens@.len() as int) =~= tokens@);
        }
        woken
    }

    /// Adds a timer that wakes `waker` once the clock reaches `deadline`.
    pub fn register_timer(&mut self, deadline: u64, waker: Waker)
        ensures
            final(self).timers() =~= old(self).timers().insert(TimerEntry { deadline, waker }),
            final(self).wakers() == old(self).wakers(),
    {
        self.timers.push(TimerEntry { deadline, waker });
    }

    /// How long the event loop may block at `now`: until the earliest
    /// deadline (zero if it has passed), or without limit (`None`) when no
    /// timer is pending.
    pub fn next_timeout(&self, now: u64) -> (t: Option<u64>)
        ensures
            t is None <==> self.timers().len() == 0,
            t matches Some(d) ==> exists|e: u64| earliest(self.timers(), e) && d == time_until(e, now),
    {
        match self.timers.peek_deadline() {
            None => None,
            Some(d) => {
                let t = d.saturating_sub(now);
                assert(earliest(self.timers(), d) && t == time_until(d, now));
                Some(t)
            },
        }
    }

    /// Removes every timer whose deadline has passed at `now` and returns
    /// them, earliest deadline first.
    pub fn expire_timers(&mut self, now: u64) -> (fired: Vec<TimerEntry>)
        ensures
            fired@.to_multiset() =~= due(old(self).timers(), now),
            final(self).timers() =~= not_due(old(self).timers(), now),
            by_deadline(fired@),
            final(self).wakers() == old(self).wakers(),
    {
        let mut fired: Vec<TimerEntry> = Vec::new();
        loop
            invariant
                    self.wakers() == old(self).wakers(),
                old(self).timers() =~= self.timers().add(fired@.to_multiset()),
                forall|i: int| 0 <= i < fired@.len() ==> #[trigger] fired@[i].deadline <= now,
                forall|i: int, x: TimerEntry|
                    0 <= i < fired@.len() && self.timers().count(x) > 0 ==> #[trigger] t_le(
                        fired@[i].deadline,
                        x,
                    ),
                by_deadline(fired@),
            ensures
                    self.wakers() == old(self).wakers(),
                old(self).timers() =~= self.timers().add(fired@.to_multiset()),
                forall|i: int| 0 <= i < fired@.len() ==> #[trigger] fired@[i].deadline <= now,
                forall|x: TimerEntry| self.timers().count(x) > 0 ==> x.deadline > now,
                by_deadline(fired@),
            decreases self.timers().len(),
        {
            match self.timers.peek_deadline() {
                None => {
                    break;
                },
                Some(d) => {
                    if d > now {
                        assert forall|x: TimerEntry| self.timers().count(x) > 0 implies x.deadline
                            > now by {
                            assert(t_le(d, x));
                        }
                        break;
                    }
                    let ghost before = self.timers();
                    let entry = self.timers.pop().unwrap();
                    let ghost f0 = fired@;
                    fired.push(entry);
                    proof {
                        let w = choose|x: TimerEntry| before.count(x) > 0 && x.deadline == d;
                        assert(t_le(entry.deadline, w));
                        assert(t_le(d, entry));
                        assert(fired@.to_multiset() =~= f0.to_multiset().insert(entry));
                        assert forall|i: int, x: TimerEntry|
                            0 <= i < fired@.len() && self.timers().count(x) > 0 implies #[trigger] t_le(
                            fired@[i].deadline,
                            x,
                        ) by {
                            assert(before.count(x) > 0);
                            if i < f0.len() {
                                assert(fired@[i] == f0[i]);
                            }
                        }
                        assert forall|i: int, j: int| 0 <= i <= j < fired@.len() implies fired@[i].deadline
                            <= fired@[j].deadline by {
                            if j == f0.len() && i < j {
                                assert(fired@[i] == f0[i]);
                                assert(before.count(entry) > 0);
                                assert(t_le(f0[i].deadline, entry));
                            } else if j < f0.len() {
                                assert(fired@[i] == f0[i]);
                                assert(fired@[j] == f0[j]);
                            }
                        }
                    }
                },
            }
        }
        proof {
            let m = old(self).timers();
            let f = fired@.to_multiset();
            assert forall|x: TimerEntry| #[trigger] f.count(x) > 0 implies x.deadline <= now by {
                let i = choose|i: int| 0 <= i < fired@.len() && fired@[i] == x;
            }
            assert(f =~= due(m, now));
            assert(self.timers() =~= not_due(m, now));
        }
        fired
    }
}

/// Every pending timer is either due at `now` or not: expiring at `now`
/// splits the timers without losing or duplicating any.
pub proof fn law_expiry_partitions(m: Multiset<TimerEntry>, now: u64)
    ensures
        due(m, now).add(not_due(m, now)) =~= m,
{
    assert forall|x: TimerEntry| #[trigger] due(m, now).add(not_due(m, now)).count(x) == m.count(x) by {
    }
}

/// Expiring at `t1` and then at a later `t2` fires, in all, the timers that
/// expiring once at `t2` fires, and leaves the same timers pending.
pub proof fn law_expiry_in_steps(m: Multiset<TimerEntry>, t1: u64, t2: u64)
    requires
        t1 <= t2,
    ensures
        due(m, t1).add(due(not_due(m, t1), t2)) =~= due(m, t2),
        not_due(not_due(m, t1), t2) =~= not_due(m, t2),
{
    assert forall|x: TimerEntry| #[trigger] due(m, t1).add(due(not_due(m, t1), t2)).count(x)
        == due(m, t2).count(x) by {
    }
    assert forall|x: TimerEntry| #[trigger] not_due(not_due(m, t1), t2).count(x) == not_due(
        m,
        t2,
    ).count(x) by {
    }
}

/// Once the due timers have been expired at `now`, the event loop is told to
/// block for a positive time (or without limit): no pending timer is late.
pub proof fn law_no_late_timer_after_expiry(m: Multiset<TimerEntry>, now: u64, e: u64)
    requires
        earliest(not_due(m, now), e),
    ensures
        time_until(e, now) > 0,
{
    let x = choose|x: TimerEntry| not_due(m, now).count(x) > 0 && x.deadline == e;
    assert(not_due(m, now).count(x) == if x.deadline > now { m.count(x) } else { 0 });
}

/// The waker stored for a token is the one that taking it returns, and
/// taking it leaves no waker for that token, so a second readiness event
/// for the same registration finds none.
pub proof fn law_take_returns_set(m: Map<usize, Waker>, token: usize, w: Waker)
    ensures
        m.insert(token, w).dom().contains(token),
        m.insert(token, w)[token] == w,
        !m.insert(token, w).remove(token).dom().contains(token),
{
}

/// Storing or taking the waker of one token leaves the waker of every other
/// token as it was.
pub proof fn law_tokens_independent(m: Map<usize, Waker>, token: usize, other: usize, w: Waker)
    requires
        token != other,
    ensures
        m.insert(token, w).dom().contains(other) == m.dom().contains(other),
        m.dom().contains(other) ==> m.insert(token, w)[other] == m[other],
        m.remove(token).dom().contains(other) == m.dom().contains(other),
        m.dom().contains(other) ==> m.remove(token)[other] == m[other],
{
}

/// A registered timer is fired by the first expiry at or after its
/// deadline, and not by any earlier one.
pub proof fn law_registered_timer_fires(m: Multiset<TimerEntry>, e: TimerEntry, now: u64)
    ensures
        e.deadline <= now ==> due(m.insert(e), now).count(e) == m.count(e) + 1,
        e.deadline > now ==> due(m.insert(e), now).count(e) == 0,
        e.deadline > now ==> not_due(m.insert(e), now).count(e) == m.count(e) + 1,
{
}

/// A multiset of timers has one earliest deadline: what `peek_deadline`
/// reports is the deadline of the timer that `pop` removes.
pub proof fn law_earliest_unique(m: Multiset<TimerEntry>, a: u64, b: u64)
    requires
        earliest(m, a),
        earliest(m, b),
    ensures
        a == b,
{
    let x = choose|x: TimerEntry| m.count(x) > 0 && x.deadline == a;
    let y = choose|y: TimerEntry| m.count(y) > 0 && y.deadline == b;
    assert(t_le(a, y));
    assert(t_le(b, x));
}

/// Successive pops come out in deadline order: after removing a timer with
/// the earliest deadline `a`, the earliest deadline left is no earlier.
pub proof fn law_pops_in_deadline_order(m: Multiset<TimerEntry>, x: TimerEntry, a: u64, b: u64)
    requires
        m.count(x) > 0,
        x.deadline == a,
        earliest(m, a),
        earliest(m.remove(x), b),
    ensures
        a <= b,
{
    let y = choose|y: TimerEntry| m.remove(x).count(y) > 0 && y.deadline == b;
    assert(m.count(y) > 0);
    assert(t_le(a, y));
}

/// Dispatching a batch of readiness events takes exactly the wakers of
/// the batch's tokens that have one, each once even if its token occurs
/// several times; the wakers of the other tokens stay stored, unchanged;
/// and a token with no stored waker (such as the reactor's own wake-up
/// token) wakes nothing.
pub proof fn law_batch_dispatch(w: Map<usize, Waker>, tokens: Seq<usize>, t: usize)
    ensures
        taken_tokens(w, tokens).no_duplicates(),
        taken_tokens(w, tokens).contains(t) <==> (w.dom().contains(t) && tokens.contains(t)),
        without_tokens(w, tokens) == w.remove_keys(tokens.to_set()),
        !w.dom().contains(t) ==> !taken_tokens(w, tokens).contains(t),
{
    lemma_taken_tokens(w, tokens);
    assert forall|k: usize| #[trigger] without_tokens(w, tokens).dom().contains(k) <==> w.remove_keys(
        tokens.to_set(),
    ).dom().contains(k) by {
        lemma_without_tokens(w, tokens, k);
    }
    assert forall|k: usize| #[trigger] without_tokens(w, tokens).dom().contains(k) implies without_tokens(
        w,
        tokens,
    )[k] == w.remove_keys(tokens.to_set())[k] by {
        lemma_without_tokens(w, tokens, k);
    }
    assert(without_tokens(w, tokens) =~= w.remove_keys(tokens.to_set()));
}

/// The timeout the event loop is given is exactly the time left until the
/// deadline: added to `now` it gives the deadline back while the deadline
/// lies ahead, and it is zero once the deadline has passed.
pub proof fn law_timeout_is_time_left(deadline: u64, now: u64)
    ensures
        deadline > now ==> time_until(deadline, now) + now == deadline,
        deadline <= now ==> time_until(deadline, now) == 0,
        time_until(deadline, now) <= deadline,
{
}

/// The event loop blocks exactly until the earliest pending deadline:
/// whatever `next_timeout(now)` reports, added to `now`, is that deadline
/// while it lies ahead, and it is zero once it has passed.
pub proof fn law_next_timeout_reaches_deadline(m: Multiset<TimerEntry>, e: u64, now: u64)
    requires
        earliest(m, e),
    ensures
        e > now ==> time_until(e, now) + now == e,
        e <= now ==> time_until(e, now) == 0,
{
}

} // verus!
