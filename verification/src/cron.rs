use std::collections::HashSet;
use vstd::prelude::*;
use vstd::std_specs::hash::group_hash_axioms;
use vstd::arithmetic::div_mod::{lemma_mod_mod, lemma_add_mod_noop, lemma_small_mod, lemma_mod_self_0};

verus! {

broadcast use group_hash_axioms;

/// The longest the timer thread sleeps before looking at its queue again, in ms.
pub const MAX_SLEEP_MS: i64 = 60000;

/// A task that runs every `interval` ms until it is unregistered.
pub struct PeriodicTask<P> {
    pub id: u32,
    pub func: P,
    pub interval: u32,
}

/// What a queued event runs.
pub enum Task<O, D, P> {
    /// Runs once.
    OneShot(O),
    /// Runs, and is queued again after the number of ms it returns, unless that is 0.
    Dynamic(D),
    /// Runs, and is queued again after its interval while it stays registered.
    Periodical(PeriodicTask<P>),
}

/// A task due at `time` (ms on the monotonic clock).
pub struct EventEntry<O, D, P> {
    pub time: u64,
    pub task: Task<O, D, P>,
}

/// The position of the first of the earliest events in `s` (0 when `s` is empty).
pub open spec fn earliest_index<O, D, P>(s: Seq<EventEntry<O, D, P>>) -> int
    decreases s.len(),
{
    if s.len() <= 1 {
        0
    } else {
        let j = earliest_index(s.drop_last());
        if s.last().time < s[j].time {
            s.len() - 1
        } else {
            j
        }
    }
}

/// How long the timer thread sleeps with `s` queued at time `now`: -1 (until
/// woken) with nothing queued, else until the earliest event is due, at most
/// `MAX_SLEEP_MS` and not at all when it is already due.
pub open spec fn sleep_for<O, D, P>(s: Seq<EventEntry<O, D, P>>, now: u64) -> int {
    if s.len() == 0 {
        -1
    } else {
        let t = s[earliest_index(s)].time;
        if t <= now {
            0
        } else if t - now > MAX_SLEEP_MS {
            MAX_SLEEP_MS as int
        } else {
            t - now
        }
    }
}

/// An event that runs a periodic task whose id is no longer registered: it
/// is dropped, never run.
pub open spec fn is_stale<O, D, P>(e: EventEntry<O, D, P>, ids: Set<u32>) -> bool {
    match e.task {
        Task::Periodical(p) => !ids.contains(p.id),
        _ => false,
    }
}

/// The events of `s` that are not stale, in their order.
pub open spec fn live_events<O, D, P>(s: Seq<EventEntry<O, D, P>>, ids: Set<u32>) -> Seq<EventEntry<O, D, P>>
    decreases s.len(),
{
    if s.len() == 0 {
        s
    } else if is_stale(s[0], ids) {
        live_events(s.drop_first(), ids)
    } else {
        seq![s[0]] + live_events(s.drop_first(), ids)
    }
}

/// `new` is `old` with one more event at the end, which runs `task` `interval`
/// ms after some reading of the clock.
pub open spec fn queued_once_more<O, D, P>(
    old: Seq<EventEntry<O, D, P>>,
    new: Seq<EventEntry<O, D, P>>,
    interval: u32,
    task: Task<O, D, P>,
) -> bool {
    &&& new.len() == old.len() + 1
    &&& new.take(old.len() as int) == old
    &&& new.last().task == task
    &&& interval <= new.last().time <= interval + u64::MAX / 1_000_000
}

/// The nanoseconds on a monotonic clock.
///
/// Calls `time::precise_time_ns`. Nothing is claimed of the result: it is
/// the time.
#[verifier::external_body]
fn precise_time_ns() -> u64 {
    time::precise_time_ns()
}

/// The milliseconds on a monotonic clock.
pub fn now_ms() -> (ms: u64)
    ensures
        ms <= u64::MAX / 1_000_000,
{
    precise_time_ns() / 1_000_000
}

/// The timer queue and the registry of periodic tasks: tasks run once, run
/// again after a delay they return, or run periodically until unregistered.
/// The tasks themselves are opaque values (`O`, `D`, `P`) that the caller runs.
pub struct Cron<O, D, P> {
    events: Vec<EventEntry<O, D, P>>,
    periodic: HashSet<u32>,
    periodic_task_seq: usize,
    registrations: Ghost<nat>,
}

/// The id that the `n`-th registration of a periodic task (counting from 0)
/// returns: `n` modulo 2^32.
pub open spec fn nth_periodic_id(n: nat) -> u32 {
    (n % 0x1_0000_0000) as u32
}

impl<O, D, P> Cron<O, D, P> {
    /// The id counter follows the number of registrations, and only ids
    /// already handed out are registered.
    #[verifier::type_invariant]
    pub closed spec fn ids_follow_registrations(self) -> bool {
        &&& self.periodic_task_seq as int == (self.registrations@ as int) % (usize::MAX as int + 1)
        &&& forall|id: u32|
            #[trigger] self.periodic@.contains(id) ==> self.registrations@ >= 0x1_0000_0000
                || id < self.registrations@
    }

    /// How many periodic tasks have been registered so far.
    pub closed spec fn registrations(&self) -> nat {
        self.registrations@
    }

    /// The queued events, in the order they were queued.
    pub closed spec fn events(&self) -> Seq<EventEntry<O, D, P>> {
        self.events@
    }

    /// The ids of the periodic tasks that are registered.
    pub closed spec fn periodic_ids(&self) -> Set<u32> {
        self.periodic@
    }

    /// The count from which the next periodic task's id is taken.
    pub closed spec fn next_seq(&self) -> usize {
        self.periodic_task_seq
    }

    /// An empty queue and registry.
    pub fn new() -> (c: Cron<O, D, P>)
        ensures
            c.events() == Seq::<EventEntry<O, D, P>>::empty(),
            c.periodic_ids() == Set::<u32>::empty(),
            c.next_seq() == 0,
            c.registrations() == 0,
    {
        let periodic: HashSet<u32> = HashSet::new();
        assert(0 == 0int % (usize::MAX as int + 1));
        Cron { events: Vec::new(), periodic, periodic_task_seq: 0, registrations: Ghost(0) }
    }

    /// Queues `task` to run `interval` ms after `now`.
    pub fn enqueue_at(&mut self, now: u64, interval: u32, task: Task<O, D, P>)
        requires
            now + interval <= u64::MAX,
        ensures
            final(self).events() == old(self).events().push(EventEntry { time: (now + interval) as u64, task }),
            final(self).periodic_ids() == old(self).periodic_ids(),
            final(self).next_seq() == old(self).next_seq(),
            final(self).registrations() == old(self).registrations(),
    {
        proof {
            use_type_invariant(&*self);
        }
        let mut events = Vec::new();
        std::mem::swap(&mut events, &mut self.events);
        events.push(EventEntry { time: now + interval as u64, task });
        self.events = events;
    }

    /// Queues `task` to run `interval` ms from now.
    fn enqueue(&mut self, interval: u32, task: Task<O, D, P>)
        ensures
            queued_once_more(old(self).events(), final(self).events(), interval, task),
            final(self).periodic_ids() == old(self).periodic_ids(),
            final(self).next_seq() == old(self).next_seq(),
            final(self).registrations() == old(self).registrations(),
    {
        let now = now_ms();
        self.enqueue_at(now, interval, task);
        assert(self.events@.take(old(self).events@.len() as int) =~= old(self).events@);
    }

    /// Queues `func` to run once, `interval` ms from now.
    pub fn enqueue_oneshot(&mut self, interval: u32, func: O)
        ensures
            queued_once_more(old(self).events(), final(self).events(), interval, Task::OneShot(func)),
            final(self).periodic_ids() == old(self).periodic_ids(),
            final(self).next_seq() == old(self).next_seq(),
            final(self).registrations() == old(self).registrations(),
    {
        self.enqueue(interval, Task::OneShot(func));
    }

    /// Queues `func` to run `interval` ms from now; each run returns the delay
    /// before the next one, and a delay of 0 ends it.
    pub fn enqueue_dynamic_periodic_task(&mut self, interval: u32, func: D)
        ensures
            queued_once_more(old(self).events(), final(self).events(), interval, Task::Dynamic(func)),
            final(self).periodic_ids() == old(self).periodic_ids(),
            final(self).next_seq() == old(self).next_seq(),
            final(self).registrations() == old(self).registrations(),
    {
        self.enqueue(interval, Task::Dynamic(func));
    }

    /// Registers `func` to run every `interval` ms, the first time `interval`
    /// ms from now; returns the id that unregisters it, taken from a counter
    /// that wraps around.
    pub fn register_periodic_task(&mut self, interval: u32, func: P) -> (id: u32)
        ensures
            id == old(self).next_seq() as u32,
            id == nth_periodic_id(old(self).registrations()),
            final(self).registrations() == old(self).registrations() + 1,
            final(self).next_seq() == old(self).next_seq().wrapping_add(1),
            final(self).periodic_ids() == old(self).periodic_ids().insert(id),
            queued_once_more(
                old(self).events(),
                final(self).events(),
                interval,
                Task::Periodical(PeriodicTask { id, func, interval }),
            ),
    {
        let now = now_ms();
        let id = self.register_periodic_task_at(now, interval, func);
        assert(self.events@.take(old(self).events@.len() as int) =~= old(self).events@);
        id
    }

    /// Registers `func` to run every `interval` ms, the first time at
    /// `now + interval`; returns the id that unregisters it, taken from a
    /// counter that wraps around.
    pub fn register_periodic_task_at(&mut self, now: u64, interval: u32, func: P) -> (id: u32)
        requires
            now + interval <= u64::MAX,
        ensures
            id == old(self).next_seq() as u32,
            id == nth_periodic_id(old(self).registrations()),
            final(self).registrations() == old(self).registrations() + 1,
            final(self).next_seq() == old(self).next_seq().wrapping_add(1),
            final(self).periodic_ids() == old(self).periodic_ids().insert(id),
            final(self).events() == old(self).events().push(
                EventEntry { time: (now + interval) as u64, task: Task::Periodical(PeriodicTask { id, func, interval }) },
            ),
    {
        proof {
            use_type_invariant(&*self);
        }
        let id = self.periodic_task_seq as u32;
        proof {
            lemma_id_of_counter(self.periodic_task_seq, self.registrations@);
        }
        self.enqueue_at(now, interval, Task::Periodical(PeriodicTask { id, func, interval }));
        let next = self.periodic_task_seq.wrapping_add(1);
        let ghost count = self.registrations@ + 1;
        proof {
            lemma_counter_step(self.periodic_task_seq, self.registrations@);
        }
        let mut events = Vec::new();
        std::mem::swap(&mut events, &mut self.events);
        let mut periodic = HashSet::new();
        std::mem::swap(&mut periodic, &mut self.periodic);
        periodic.insert(id);
        *self = Cron { events, periodic, periodic_task_seq: next, registrations: Ghost(count) };
        id
    }

    /// Unregisters periodic task `id`; returns whether it was registered.
    /// From then on the task does not run: a run of it that is already queued
    /// is dropped by `pop_due` instead of being handed out.
    pub fn unregister_periodic_task(&mut self, id: u32) -> (found: bool)
        ensures
            found == old(self).periodic_ids().contains(id),
            found ==> old(self).registrations() >= 0x1_0000_0000 || id < old(self).registrations(),
            final(self).periodic_ids() == old(self).periodic_ids().remove(id),
            final(self).events() == old(self).events(),
            final(self).next_seq() == old(self).next_seq(),
            final(self).registrations() == old(self).registrations(),
    {
        proof {
            use_type_invariant(&*self);
        }
        let mut periodic = HashSet::new();
        std::mem::swap(&mut periodic, &mut self.periodic);
        let found = periodic.remove(&id);
        self.periodic = periodic;
        found
    }

    /// The position of the first of the earliest events.
    fn earliest(&self) -> (k: usize)
        requires
            self.events().len() > 0,
        ensures
            k == earliest_index(self.events()),
            k < self.events().len(),
    {
        let ghost s = self.events@;
        let mut best: usize = 0;
        let mut i: usize = 1;
        proof {
            lemma_earliest_index_bounds(s.take(1));
            assert(s.take(1).len() == 1);
        }
        while i < self.events.len()
            invariant
                s == self.events@,
                1 <= i <= s.len(),
                best == earliest_index(s.take(i as int)),
                best < i,
            decreases s.len() - i,
        {
            assert(s.take(i + 1).drop_last() =~= s.take(i as int));
            if self.events[i].time < self.events[best].time {
                best = i;
            }
            i = i + 1;
        }
        assert(s.take(s.len() as int) =~= s);
        best
    }

    /// How long the timer thread sleeps at time `now`: -1 (until woken) when
    /// nothing is queued, else until the earliest event is due, capped at
    /// `MAX_SLEEP_MS`.
    pub fn sleep_ms(&self, now: u64) -> (ms: i64)
        ensures
            ms == sleep_for(self.events(), now),
    {
        if self.events.len() == 0 {
            return -1;
        }
        let k = self.earliest();
        let t = self.events[k].time;
        if t <= now {
            0
        } else if t - now > 60000 {
            MAX_SLEEP_MS
        } else {
            (t - now) as i64
        }
    }

    /// Drops the queued runs of periodic tasks that are no longer registered.
    fn drop_stale(&mut self)
        ensures
            final(self).events() == live_events(old(self).events(), old(self).periodic_ids()),
            final(self).periodic_ids() == old(self).periodic_ids(),
            final(self).next_seq() == old(self).next_seq(),
            final(self).registrations() == old(self).registrations(),
    {
        proof {
            use_type_invariant(&*self);
        }
        let ghost ids = self.periodic@;
        let ghost s = self.events@;
        let mut events = Vec::new();
        std::mem::swap(&mut events, &mut self.events);
        let mut kept: Vec<EventEntry<O, D, P>> = Vec::new();
        while events.len() > 0
            invariant
                ids == self.periodic@,
                kept@ + live_events(events@, ids) == live_events(s, ids),
            decreases events@.len(),
        {
            let ghost before = events@;
            let e = events.remove(0);
            assert(before.drop_first() =~= events@);
            let stale = match &e.task {
                Task::Periodical(p) => !self.periodic.contains(&p.id),
                _ => false,
            };
            if !stale {
                kept.push(e);
                assert(kept@ + live_events(events@, ids) =~= live_events(s, ids));
            }
        }
        assert(kept@ =~= kept@ + live_events(events@, ids));
        self.events = kept;
    }

    /// Drops the queued runs of periodic tasks that are no longer registered,
    /// then takes out the first of the earliest remaining events if it is due
    /// at `now`, and returns its task; returns `None` when none is due. A
    /// periodic task whose id is not registered is never returned.
    pub fn pop_due(&mut self, now: u64) -> (task: Option<Task<O, D, P>>)
        ensures
            task matches Some(Task::Periodical(p)) ==> old(self).periodic_ids().contains(p.id),
            ({
                let s = live_events(old(self).events(), old(self).periodic_ids());
                let k = earliest_index(s);
                &&& final(self).periodic_ids() == old(self).periodic_ids()
                &&& final(self).next_seq() == old(self).next_seq()
                &&& final(self).registrations() == old(self).registrations()
                &&& if s.len() > 0 && s[k].time <= now {
                    &&& task == Some(s[k].task)
                    &&& final(self).events() == s.remove(k)
                } else {
                    &&& task is None
                    &&& final(self).events() == s
                }
            }),
    {
        self.drop_stale();
        proof {
            lemma_live_events_are_live(old(self).events(), old(self).periodic_ids());
            lemma_earliest_index_bounds(self.events@);
        }
        if self.events.len() == 0 {
            return None;
        }
        let k = self.earliest();
        if self.events[k].time <= now {
            proof {
                use_type_invariant(&*self);
            }
            let mut events = Vec::new();
            std::mem::swap(&mut events, &mut self.events);
            let e = events.remove(k);
            self.events = events;
            Some(e.task)
        } else {
            None
        }
    }

    /// After a dynamic task ran and returned `next_interval`: queues it again
    /// that many ms from now, unless it returned 0.
    pub fn reschedule_dynamic(&mut self, func: D, next_interval: u32)
        ensures
            next_interval == 0 ==> final(self).events() == old(self).events(),
            next_interval > 0 ==> queued_once_more(
                old(self).events(),
                final(self).events(),
                next_interval,
                Task::Dynamic(func),
            ),
            final(self).periodic_ids() == old(self).periodic_ids(),
            final(self).next_seq() == old(self).next_seq(),
            final(self).registrations() == old(self).registrations(),
    {
        let now = now_ms();
        self.reschedule_dynamic_at(now, func, next_interval);
        assert(self.events@.take(old(self).events@.len() as int) =~= old(self).events@);
    }

    /// After a dynamic task ran at `now` and returned `next_interval`: queues
    /// it again to run at `now + next_interval`, unless it returned 0.
    pub fn reschedule_dynamic_at(&mut self, now: u64, func: D, next_interval: u32)
        requires
            now + next_interval <= u64::MAX,
        ensures
            next_interval == 0 ==> final(self).events() == old(self).events(),
            next_interval > 0 ==> final(self).events() == old(self).events().push(
                EventEntry { time: (now + next_interval) as u64, task: Task::Dynamic(func) },
            ),
            final(self).periodic_ids() == old(self).periodic_ids(),
            final(self).next_seq() == old(self).next_seq(),
            final(self).registrations() == old(self).registrations(),
    {
        if next_interval > 0 {
            self.enqueue_at(now, next_interval, Task::Dynamic(func));
        }
    }

    /// After a periodic task ran: queues it again one interval from now while
    /// it is registered.
    pub fn reschedule_periodic(&mut self, task: PeriodicTask<P>)
        ensures
            !old(self).periodic_ids().contains(task.id) ==> final(self).events() == old(self).events(),
            old(self).periodic_ids().contains(task.id) ==> queued_once_more(
                old(self).events(),
                final(self).events(),
                task.interval,
                Task::Periodical(task),
            ),
            final(self).periodic_ids() == old(self).periodic_ids(),
            final(self).next_seq() == old(self).next_seq(),
            final(self).registrations() == old(self).registrations(),
    {
        let now = now_ms();
        self.reschedule_periodic_at(now, task);
        assert(self.events@.take(old(self).events@.len() as int) =~= old(self).events@);
    }

    /// After a periodic task ran at `now`: queues it again to run at
    /// `now` plus its interval while it is registered.
    pub fn reschedule_periodic_at(&mut self, now: u64, task: PeriodicTask<P>)
        requires
            now + task.interval <= u64::MAX,
        ensures
            !old(self).periodic_ids().contains(task.id) ==> final(self).events() == old(self).events(),
            old(self).periodic_ids().contains(task.id) ==> final(self).events() == old(self).events().push(
                EventEntry { time: (now + task.interval) as u64, task: Task::Periodical(task) },
            ),
            final(self).periodic_ids() == old(self).periodic_ids(),
            final(self).next_seq() == old(self).next_seq(),
            final(self).registrations() == old(self).registrations(),
    {
        if self.periodic.contains(&task.id) {
            let interval = task.interval;
            self.enqueue_at(now, interval, Task::Periodical(task));
        }
    }

    /// Drops every queued event.
    pub fn clear(&mut self)
        ensures
            final(self).events() == Seq::<EventEntry<O, D, P>>::empty(),
            final(self).periodic_ids() == old(self).periodic_ids(),
            final(self).next_seq() == old(self).next_seq(),
            final(self).registrations() == old(self).registrations(),
    {
        proof {
            use_type_invariant(&*self);
        }
        let mut events = Vec::new();
        std::mem::swap(&mut events, &mut self.events);
        events.clear();
        self.events = events;
    }
}

/// The id taken from the counter is the number of registrations so far,
/// modulo 2^32.
proof fn lemma_id_of_counter(seq: usize, count: nat)
    requires
        seq as int == (count as int) % (usize::MAX as int + 1),
    ensures
        seq as u32 == nth_periodic_id(count),
{
    assert((seq as u32) as int == seq as int % 0x1_0000_0000) by (bit_vector);
    if usize::MAX == u32::MAX {
        assert(seq as int == count % 0x1_0000_0000);
    } else {
        assert(usize::MAX as int + 1 == 0x1_0000_0000 * 0x1_0000_0000);
        lemma_mod_mod(count as int, 0x1_0000_0000, 0x1_0000_0000);
    }
}

/// Counting one more registration steps the wrapping counter by one.
proof fn lemma_counter_step(seq: usize, count: nat)
    requires
        seq as int == (count as int) % (usize::MAX as int + 1),
    ensures
        seq.wrapping_add(1) as int == (count as int + 1) % (usize::MAX as int + 1),
{
    let m = usize::MAX as int + 1;
    lemma_add_mod_noop(count as int, 1, m);
    lemma_small_mod(1, m as nat);
    if seq == usize::MAX {
        lemma_mod_self_0(m);
    } else {
        lemma_small_mod((seq + 1) as nat, m as nat);
    }
}

/// The law of periodic-task ids: the registrations of a `Cron` return
/// 0, 1, 2, ... in call order (modulo 2^32), and an id that no registration
/// has returned yet is not registered, so unregistering it finds nothing.
pub proof fn lemma_periodic_ids_in_call_order<O, D, P>(c: Cron<O, D, P>, id: u32)
    requires
        c.ids_follow_registrations(),
    ensures
        c.next_seq() as u32 == nth_periodic_id(c.registrations()),
        c.registrations() < 0x1_0000_0000 && id >= c.registrations() ==> !c.periodic_ids().contains(id),
{
    lemma_id_of_counter(c.periodic_task_seq, c.registrations@);
}

/// No event kept by `live_events` is stale.
pub proof fn lemma_live_events_are_live<O, D, P>(s: Seq<EventEntry<O, D, P>>, ids: Set<u32>)
    ensures
        forall|i: int| 0 <= i < live_events(s, ids).len() ==> !is_stale(#[trigger] live_events(s, ids)[i], ids),
    decreases s.len(),
{
    if s.len() > 0 {
        lemma_live_events_are_live(s.drop_first(), ids);
        let r = live_events(s.drop_first(), ids);
        if !is_stale(s[0], ids) {
            assert forall|i: int| 0 <= i < live_events(s, ids).len() implies !is_stale(
                #[trigger] live_events(s, ids)[i],
                ids,
            ) by {
                if i > 0 {
                    assert(live_events(s, ids)[i] == r[i - 1]);
                }
            }
        }
    }
}

/// The event chosen to run next is due no later than any other queued event,
/// and it is the first queued of those due at that time.
pub proof fn lemma_earliest_index_bounds<O, D, P>(s: Seq<EventEntry<O, D, P>>)
    ensures
        s.len() > 0 ==> 0 <= earliest_index(s) < s.len(),
        forall|i: int| 0 <= i < s.len() ==> s[earliest_index(s)].time <= #[trigger] s[i].time,
        forall|i: int| 0 <= i < earliest_index(s) ==> s[earliest_index(s)].time < #[trigger] s[i].time,
    decreases s.len(),
{
    if s.len() > 1 {
        let t = s.drop_last();
        lemma_earliest_index_bounds(t);
        assert(forall|i: int| 0 <= i < t.len() ==> t[i] == s[i]);
    }
}

/// The timer thread sleeps until the earliest queued event is due, and no
/// longer: with `first` an event due no later than any other, the sleep is
/// its due time minus `now` (0 if it is already due), capped at 60 s.
pub proof fn lemma_sleep_until_earliest<O, D, P>(s: Seq<EventEntry<O, D, P>>, now: u64, first: int)
    requires
        0 <= first < s.len(),
        forall|i: int| 0 <= i < s.len() ==> s[first].time <= #[trigger] s[i].time,
    ensures
        s[first].time <= now ==> sleep_for(s, now) == 0,
        now < s[first].time <= now + 60000 ==> sleep_for(s, now) == s[first].time - now,
        s[first].time > now + 60000 ==> sleep_for(s, now) == 60000,
        sleep_for(s, now) >= 0,
        now + sleep_for(s, now) <= s[first].time || sleep_for(s, now) == 0,
{
    lemma_earliest_index_bounds(s);
    let k = earliest_index(s);
    assert(s[k].time <= s[first].time);
    assert(s[first].time <= s[k].time);
}

/// The timer thread sleeps only with nothing queued (-1) or for at most
/// `MAX_SLEEP_MS`, and does not sleep exactly when an event is due.
pub proof fn lemma_sleep_bounds<O, D, P>(s: Seq<EventEntry<O, D, P>>, now: u64)
    ensures
        -1 <= sleep_for(s, now) <= MAX_SLEEP_MS,
        sleep_for(s, now) == -1 <==> s.len() == 0,
        sleep_for(s, now) == 0 <==> exists|i: int| 0 <= i < s.len() && #[trigger] s[i].time <= now,
{
    lemma_earliest_index_bounds(s);
    if s.len() > 0 {
        let k = earliest_index(s);
        if s[k].time <= now {
            assert(0 <= k < s.len() && s[k].time <= now);
        }
    }
}

} // verus!
