//! Background read-side hydration queue.
//!
//! Filesystem calls must not wait for the network. Cache misses enqueue a
//! refresh here and return immediately; the queue is in memory and safe to lose
//! on restart.

use crate::table::{Key, Mark, Row, Table};
use crate::clock::Monotonic;
use crate::text::{copy_text, same_text};
use std::collections::VecDeque;
use vstd::prelude::*;

verus! {

/// How many documents are hydrated at a time.
pub const HYDRATION_CONCURRENCY: usize = 4;

/// How long a finished key is not taken again, in nanoseconds.
pub const NEGATIVE_TTL_NANOS: u128 = 2_000_000_000;

#[derive(Debug, Clone, PartialEq, Eq, Hash)]
pub enum HydrationKey {
    Exact(String),
    /// Must end with `/`.
    Prefix(String),
}

/// A [`HydrationKey`] with its path as a character sequence.
pub enum HydrationKeyView {
    Exact(Seq<char>),
    Prefix(Seq<char>),
}

impl View for HydrationKey {
    type V = HydrationKeyView;

    open spec fn view(&self) -> HydrationKeyView {
        match *self {
            HydrationKey::Exact(p) => HydrationKeyView::Exact(p@),
            HydrationKey::Prefix(p) => HydrationKeyView::Prefix(p@),
        }
    }
}

/// The path of a key.
pub open spec fn key_path(k: HydrationKeyView) -> Seq<char> {
    match k {
        HydrationKeyView::Exact(p) => p,
        HydrationKeyView::Prefix(p) => p,
    }
}

impl HydrationKey {
    pub fn path(&self) -> (r: &str)
        ensures
            r@ == key_path(self@),
    {
        match self {
            HydrationKey::Exact(p) => p.as_str(),
            HydrationKey::Prefix(p) => p.as_str(),
        }
    }

    fn dup(&self) -> (r: Self)
        ensures
            r@ == self@,
    {
        match self {
            HydrationKey::Exact(p) => HydrationKey::Exact(copy_text(p.as_str())),
            HydrationKey::Prefix(p) => HydrationKey::Prefix(copy_text(p.as_str())),
        }
    }
}

impl Key for HydrationKey {
    type Model = HydrationKeyView;

    open spec fn value(&self) -> HydrationKeyView {
        self@
    }

    fn same(&self, other: &Self) -> (r: bool) {
        match (self, other) {
            (HydrationKey::Exact(a), HydrationKey::Exact(b)) => same_text(a.as_str(), b.as_str()),
            (HydrationKey::Prefix(a), HydrationKey::Prefix(b)) => same_text(a.as_str(), b.as_str()),
            _ => false,
        }
    }
}

/// A reading of the monotonic clock, in nanoseconds.
#[derive(Debug, Clone, Copy)]
pub struct Tick {
    pub nanos: u128,
}

impl Row for Tick {
    type Model = u128;

    open spec fn row(&self) -> u128 {
        self.nanos
    }

    open spec fn ok(&self) -> bool {
        true
    }
}

/// The keys of a queue.
pub open spec fn key_views(s: Seq<HydrationKey>) -> Seq<HydrationKeyView> {
    s.map_values(|k: HydrationKey| k@)
}

/// The state of a [`HydrationScheduler`].
pub struct SchedulerView {
    /// Keys that wait, first come first.
    pub queue: Seq<HydrationKeyView>,
    /// Keys that are being hydrated.
    pub inflight: Set<HydrationKeyView>,
    /// Keys that finished, with when they did.
    pub recent: Map<HydrationKeyView, u128>,
    /// How long a finished key is not taken again.
    pub ttl: u128,
}

/// How long ago `then` was; nothing if it is still to come.
pub open spec fn age(then: u128, now: u128) -> int {
    if then <= now {
        now - then
    } else {
        0
    }
}

/// The finished keys that still count at `now`.
pub open spec fn fresh_keys(s: SchedulerView, now: u128) -> Map<HydrationKeyView, u128> {
    Map::new(
        |k: HydrationKeyView| s.recent.contains_key(k) && age(s.recent[k], now) < s.ttl,
        |k: HydrationKeyView| s.recent[k],
    )
}

/// A key is taken at `now`: it did not just finish, does not wait already and
/// is not being hydrated.
pub open spec fn accepts(s: SchedulerView, key: HydrationKeyView, now: u128) -> bool {
    !fresh_keys(s, now).contains_key(key) && !s.queue.contains(key) && !s.inflight.contains(key)
}

/// The state after `key` was offered at `now`.
pub open spec fn after_enqueue(
    s: SchedulerView,
    key: HydrationKeyView,
    now: u128,
) -> SchedulerView {
    SchedulerView {
        queue: if accepts(s, key, now) {
            s.queue.push(key)
        } else {
            s.queue
        },
        recent: fresh_keys(s, now),
        ..s
    }
}

/// The state after the first waiting key, if any, was claimed.
pub open spec fn after_claim(s: SchedulerView) -> SchedulerView {
    if s.queue.len() == 0 {
        s
    } else {
        SchedulerView {
            queue: s.queue.skip(1),
            inflight: s.inflight.insert(s.queue[0]),
            ..s
        }
    }
}

/// The state after `key` finished at `now`.
pub open spec fn after_complete(
    s: SchedulerView,
    key: HydrationKeyView,
    now: u128,
) -> SchedulerView {
    SchedulerView {
        inflight: s.inflight.remove(key),
        recent: s.recent.insert(key, now),
        ..s
    }
}

/// The key that is hydrated next while `running` hydrations are under way.
pub open spec fn next_key(s: SchedulerView, running: int, shutdown: bool) -> Option<
    HydrationKeyView,
> {
    if shutdown || running >= HYDRATION_CONCURRENCY || s.queue.len() == 0 {
        None
    } else {
        Some(s.queue[0])
    }
}

/// What the hydration worker does next.
#[derive(Debug, PartialEq, Eq)]
pub enum HydrationStep {
    /// Shut down.
    Stop,
    /// Wait for a key or for a running hydration to finish.
    Wait,
    /// Hydrate a key.
    Run(HydrationKey),
}

#[derive(Debug)]
pub struct HydrationScheduler {
    queue: VecDeque<HydrationKey>,
    inflight: Table<HydrationKey, Mark>,
    recent: Table<HydrationKey, Tick>,
    negative_ttl: u128,
    clock: Monotonic,
}

impl View for HydrationScheduler {
    type V = SchedulerView;

    closed spec fn view(&self) -> SchedulerView {
        SchedulerView {
            queue: key_views(self.queue@),
            inflight: self.inflight@.dom(),
            recent: self.recent@,
            ttl: self.negative_ttl,
        }
    }
}

impl HydrationScheduler {
    /// No key waits twice, and no key waits while it is being hydrated.
    pub closed spec fn wf(&self) -> bool {
        &&& self.inflight.wf()
        &&& self.recent.wf()
        &&& self@.queue.no_duplicates()
        &&& forall|k: HydrationKeyView| #[trigger]
            self@.queue.contains(k) ==> !self@.inflight.contains(k)
    }

    /// A well-formed scheduler holds a key in one place at most.
    pub proof fn lemma_wf(&self)
        requires
            self.wf(),
        ensures
            self@.queue.no_duplicates(),
            forall|k: HydrationKeyView| #[trigger]
                self@.queue.contains(k) ==> !self@.inflight.contains(k),
    {
    }

    pub fn new() -> (r: Self)
        ensures
            r.wf(),
            r@ == (SchedulerView {
                queue: Seq::empty(),
                inflight: Set::empty(),
                recent: Map::empty(),
                ttl: NEGATIVE_TTL_NANOS,
            }),
    {
        Self::with_ttl(NEGATIVE_TTL_NANOS)
    }

    /// An empty scheduler that does not take a finished key again for
    /// `negative_ttl` nanoseconds.
    pub fn with_ttl(negative_ttl: u128) -> (r: Self)
        ensures
            r.wf(),
            r@ == (SchedulerView {
                queue: Seq::empty(),
                inflight: Set::empty(),
                recent: Map::empty(),
                ttl: negative_ttl,
            }),
    {
        let r = HydrationScheduler {
            queue: VecDeque::new(),
            inflight: Table::new(),
            recent: Table::new(),
            negative_ttl,
            clock: Monotonic::new(),
        };
        assert(r@.queue =~= Seq::empty());
        r
    }

    /// Offers a key when the clock reads `now`. Returns whether it was taken.
    pub fn enqueue_at(&mut self, key: HydrationKey, now: u128) -> (r: bool)
        requires
            old(self).wf(),
        ensures
            final(self).wf(),
            final(self)@ == after_enqueue(old(self)@, key@, now),
            r == accepts(old(self)@, key@, now),
    {
        let ghost s = self@;
        self.forget_stale(now);
        if self.recent.find(&key).is_some() {
            return false;
        }
        if self.waits(&key) || self.inflight.find(&key).is_some() {
            return false;
        }
        let ghost before = self.queue@;
        self.queue.push_back(key);
        proof {
            assert(key_views(self.queue@) =~= key_views(before).push(key@));
            assert forall|k: HydrationKeyView| #[trigger] self@.queue.contains(
                k,
            ) implies !self@.inflight.contains(k) by {
                let i = self@.queue.index_of(k);
                if i < before.len() {
                    assert(key_views(before)[i] == k);
                    assert(s.queue.contains(k));
                }
            }
        }
        true
    }

    /// Offers a key. Returns whether it was taken, so that the worker is to be
    /// woken.
    pub fn enqueue(&mut self, key: HydrationKey) -> (r: bool)
        requires
            old(self).wf(),
        ensures
            final(self).wf(),
            exists|now: u128|
                final(self)@ == #[trigger] after_enqueue(old(self)@, key@, now) && r == accepts(
                    old(self)@,
                    key@,
                    now,
                ),
    {
        let now: u128 = self.clock.nanos();
        self.enqueue_at(key, now)
    }

    fn forget_stale(&mut self, now: u128)
        requires
            old(self).wf(),
        ensures
            final(self).wf(),
            final(self)@ == (SchedulerView { recent: fresh_keys(old(self)@, now), ..old(self)@ }),
            final(self).queue@ == old(self).queue@,
    {
        let ghost s = self@;
        let ghost m = self.recent@;
        let ttl: u128 = self.negative_ttl;
        let mut i: usize = 0;
        while i < self.recent.rows.len()
            invariant
                i <= self.recent.rows@.len(),
                self.recent.wf(),
                s == old(self)@,
                m == old(self).recent@,
                ttl == s.ttl,
                *self == (HydrationScheduler { recent: self.recent, ..*old(self) }),
                fresh_keys(SchedulerView { recent: self.recent@, ..s }, now) == fresh_keys(s, now),
                forall|j: int|
                    0 <= j < i ==> age((#[trigger] self.recent.rows@[j]).1.nanos, now) < ttl,
            decreases self.recent.rows@.len() - i,
        {
            proof {
                crate::table::lemma_rows_map(self.recent.rows@);
            }
            let then: u128 = self.recent.rows[i].1.nanos;
            let old_enough = if then <= now {
                now - then >= ttl
            } else {
                ttl == 0
            };
            if old_enough {
                let ghost rows = self.recent.rows@;
                let ghost at = self.recent@;
                let ghost k = rows[i as int].0@;
                assert(at.contains_key(rows[i as int].0.value()) && at[k] == then);
                self.recent.remove_at(i);
                assert(fresh_keys(SchedulerView { recent: at.remove(k), ..s }, now) =~= fresh_keys(
                    SchedulerView { recent: at, ..s },
                    now,
                ));
                assert forall|j: int| 0 <= j < i implies age(
                    (#[trigger] self.recent.rows@[j]).1.nanos,
                    now,
                ) < ttl by {
                    assert(self.recent.rows@[j] == rows[j]);
                }
            } else {
                i += 1;
            }
        }
        proof {
            crate::table::lemma_rows_map(self.recent.rows@);
            assert forall|k: HydrationKeyView| self.recent@.contains_key(k) implies age(
                self.recent@[k],
                now,
            ) < ttl by {
                let j = choose|j: int| crate::table::row_has_key(self.recent.rows@, j, k);
                assert(age(self.recent.rows@[j].1.nanos, now) < ttl);
            }
            assert(self.recent@ =~= fresh_keys(SchedulerView { recent: self.recent@, ..s }, now));
        }
    }

    /// Whether `key` waits.
    fn waits(&self, key: &HydrationKey) -> (r: bool)
        ensures
            r == self@.queue.contains(key@),
    {
        let mut i: usize = 0;
        while i < self.queue.len()
            invariant
                i <= self.queue@.len(),
                forall|j: int| 0 <= j < i ==> (#[trigger] self.queue@[j])@ != key@,
            decreases self.queue@.len() - i,
        {
            if self.queue[i].same(key) {
                assert(self@.queue[i as int] == key@);
                return true;
            }
            i += 1;
        }
        proof {
            if self@.queue.contains(key@) {
                let j = self@.queue.index_of(key@);
                assert(self.queue@[j]@ == key@);
            }
        }
        false
    }

    /// Claims the key that waited longest.
    pub fn claim_next(&mut self) -> (r: Option<HydrationKey>)
        requires
            old(self).wf(),
        ensures
            final(self).wf(),
            final(self)@ == after_claim(old(self)@),
            match r {
                Some(k) => old(self)@.queue.len() > 0 && k@ == old(self)@.queue[0],
                None => old(self)@.queue.len() == 0,
            },
    {
        let ghost before = self.queue@;
        let ghost s = self@;
        match self.queue.pop_front() {
            Some(key) => {
                let copy = key.dup();
                self.inflight.put(key, Mark);
                proof {
                    assert(key_views(before)[0] == key@);
                    assert(key_views(self.queue@) =~= key_views(before).skip(1));
                    assert(self@.inflight =~= s.inflight.insert(key@));
                    assert forall|k: HydrationKeyView| #[trigger] self@.queue.contains(
                        k,
                    ) implies !self@.inflight.contains(k) by {
                        let i = self@.queue.index_of(k);
                        assert(s.queue[i + 1] == k);
                        assert(s.queue.contains(k));
                        assert(s.queue[0] == key@);
                    }
                }
                Some(copy)
            },
            None => None,
        }
    }

    /// Marks `key` as finished when the clock reads `now`.
    pub fn complete_at(&mut self, key: HydrationKey, now: u128)
        requires
            old(self).wf(),
        ensures
            final(self).wf(),
            final(self)@ == after_complete(old(self)@, key@, now),
    {
        let ghost s = self@;
        self.inflight.remove(&key);
        assert(self.inflight@.dom() =~= s.inflight.remove(key@));
        self.recent.put(key, Tick { nanos: now });
    }

    /// Marks `key` as finished.
    pub fn complete(&mut self, key: HydrationKey)
        requires
            old(self).wf(),
        ensures
            final(self).wf(),
            exists|now: u128| final(self)@ == #[trigger] after_complete(old(self)@, key@, now),
    {
        let now: u128 = self.clock.nanos();
        self.complete_at(key, now)
    }

    /// How many keys wait.
    pub fn pending_len(&self) -> (r: usize)
        ensures
            r == self@.queue.len(),
    {
        self.queue.len()
    }

    /// How many keys are being hydrated.
    pub fn inflight_len(&self) -> (r: usize)
        requires
            self.wf(),
        ensures
            r == self@.inflight.len(),
    {
        self.inflight.len()
    }

    /// What the worker does next, with `running` hydrations under way: it stops
    /// when asked to, and otherwise takes the next key while there is room.
    pub fn next_step(&mut self, running: usize, shutdown: bool) -> (r: HydrationStep)
        requires
            old(self).wf(),
        ensures
            final(self).wf(),
            match r {
                HydrationStep::Stop => shutdown && *final(self) == *old(self),
                HydrationStep::Wait => !shutdown && (running >= HYDRATION_CONCURRENCY || old(
                    self,
                )@.queue.len() == 0) && final(self)@ == old(self)@,
                HydrationStep::Run(k) => !shutdown && running < HYDRATION_CONCURRENCY && old(
                    self,
                )@.queue.len() > 0 && k@ == old(self)@.queue[0] && final(self)@ == after_claim(
                    old(self)@,
                ),
            },
            r is Stop <==> shutdown,
            (match r {
                HydrationStep::Run(k) => Some(k@),
                _ => None,
            }) == next_key(old(self)@, running as int, shutdown),
    {
        if shutdown {
            return HydrationStep::Stop;
        }
        if running >= HYDRATION_CONCURRENCY {
            return HydrationStep::Wait;
        }
        match self.claim_next() {
            Some(key) => HydrationStep::Run(key),
            None => HydrationStep::Wait,
        }
    }
}

// ── Laws ────────────────────────────────────────────────────────────────────

/// Offering a key again while it waits changes nothing but what is forgotten.
pub proof fn law_enqueue_dedupes(s: SchedulerView, key: HydrationKeyView, now: u128, later: u128)
    ensures
        after_enqueue(after_enqueue(s, key, now), key, later).queue == after_enqueue(
            s,
            key,
            now,
        ).queue || !accepts(s, key, now),
        s.queue.contains(key) ==> after_enqueue(s, key, later).queue == s.queue,
        s.inflight.contains(key) ==> after_enqueue(s, key, later).queue == s.queue,
{
    if accepts(s, key, now) {
        let q = s.queue.push(key);
        assert(q[q.len() - 1] == key);
        assert(q.contains(key));
    }
}

/// Keys are claimed in the order in which they were taken.
pub proof fn law_claims_are_fifo(s: SchedulerView, key: HydrationKeyView, now: u128)
    requires
        accepts(s, key, now),
        s.queue.len() > 0,
    ensures
        after_claim(after_enqueue(s, key, now)).queue == after_claim(s).queue.push(key),
        after_enqueue(s, key, now).queue[0] == s.queue[0],
{
    assert(s.queue.push(key).skip(1) =~= s.queue.skip(1).push(key));
}

/// A key that finished is not taken again until its time is up, and is taken
/// once it is, unless it waits or is being hydrated.
pub proof fn law_finished_key_rests(
    s: SchedulerView,
    key: HydrationKeyView,
    done: u128,
    now: u128,
)
    ensures
        age(done, now) < s.ttl ==> !accepts(after_complete(s, key, done), key, now),
        age(done, now) >= s.ttl && !s.queue.contains(key) ==> accepts(
            after_complete(s, key, done),
            key,
            now,
        ),
{
}

/// A key that is taken waits behind those that wait already. One that is not taken
/// changes nothing of what waits or is being hydrated.
pub proof fn law_taken_key_waits_last(s: SchedulerView, key: HydrationKeyView, now: u128)
    ensures
        accepts(s, key, now) ==> {
            let q = after_enqueue(s, key, now).queue;
            &&& q.len() == s.queue.len() + 1
            &&& q.last() == key
            &&& forall|i: int| 0 <= i < s.queue.len() ==> #[trigger] q[i] == s.queue[i]
        },
        !accepts(s, key, now) ==> after_enqueue(s, key, now).queue == s.queue,
        after_enqueue(s, key, now).inflight == s.inflight,
        after_enqueue(s, key, now).ttl == s.ttl,
        !s.recent.contains_key(key) && !s.queue.contains(key) && !s.inflight.contains(key)
            ==> accepts(s, key, now),
{
}

/// The key that waited longest is the one that is claimed. It no longer waits but
/// is being hydrated, and the others wait on in their order.
pub proof fn law_longest_wait_is_claimed(s: SchedulerView, i: int)
    requires
        s.queue.len() > 0,
        s.queue.no_duplicates(),
    ensures
        after_claim(s).inflight.contains(s.queue[0]),
        !after_claim(s).queue.contains(s.queue[0]),
        after_claim(s).queue.len() == s.queue.len() - 1,
        0 <= i < s.queue.len() - 1 ==> after_claim(s).queue[i] == s.queue[i + 1],
        forall|k: HydrationKeyView|
            k != s.queue[0] ==> (#[trigger] after_claim(s).inflight.contains(k)
                == s.inflight.contains(k)),
        after_claim(s).recent == s.recent,
        after_claim(s).ttl == s.ttl,
{
    if s.queue.skip(1).contains(s.queue[0]) {
        let j = choose|j: int| 0 <= j < s.queue.skip(1).len() && s.queue.skip(1)[j] == s.queue[0];
        assert(s.queue[j + 1] == s.queue[0]);
    }
}

/// A key that finished is no longer being hydrated and rests from then on. Nothing
/// else changes.
pub proof fn law_finished_key_is_noted(
    s: SchedulerView,
    key: HydrationKeyView,
    now: u128,
    other: HydrationKeyView,
)
    ensures
        !after_complete(s, key, now).inflight.contains(key),
        after_complete(s, key, now).recent.get(key) == Some(now),
        other != key ==> after_complete(s, key, now).inflight.contains(other)
            == s.inflight.contains(other),
        other != key ==> after_complete(s, key, now).recent.get(other) == s.recent.get(other),
        after_complete(s, key, now).queue == s.queue,
        after_complete(s, key, now).ttl == s.ttl,
{
}

/// Forgetting keys whose rest is over makes no difference: another key is taken
/// later on just as if nothing had been offered before.
pub proof fn law_forgetting_makes_no_difference(
    s: SchedulerView,
    key: HydrationKeyView,
    now: u128,
    other: HydrationKeyView,
    later: u128,
)
    requires
        key != other,
        now <= later,
    ensures
        accepts(after_enqueue(s, key, now), other, later) == accepts(s, other, later),
{
    let q = after_enqueue(s, key, now).queue;
    if q.contains(other) {
        let i = choose|i: int| 0 <= i < q.len() && q[i] == other;
        assert(s.queue[i] == other);
    }
    if s.queue.contains(other) {
        let i = choose|i: int| 0 <= i < s.queue.len() && s.queue[i] == other;
        assert(q[i] == other);
    }
}

/// Four documents are hydrated at a time, first come first, until the shutdown.
pub proof fn law_hydration_goes_on(s: SchedulerView, running: int)
    ensures
        s.queue.len() > 0 && running < 4 ==> next_key(s, running, false) == Some(s.queue[0]),
        running >= 4 ==> next_key(s, running, false) is None,
        s.queue.len() == 0 ==> next_key(s, running, false) is None,
        next_key(s, running, true) is None,
{
}

} // verus!
