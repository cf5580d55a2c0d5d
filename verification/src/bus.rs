//! In-process event bus: lifecycle and capability announcements, numbered in the
//! order they are published and kept in a bounded ring.

use vstd::prelude::*;

use std::collections::VecDeque;

use crate::audit::{next_seq_after, numbers_after, ring_push};
use crate::lifecycle::CellState;

verus! {

/// An announcement.
#[derive(Debug, Clone)]
pub enum BusEvent {
    CellState { cell: String, state: CellState },
    CapabilityAvailable { cell: String, capability: String, version: String },
    BindingChanged { generation: u64, count: usize },
}

/// The bus: at most `cap` numbered events, oldest first.
#[derive(Debug)]
pub struct EventBus {
    events: VecDeque<(u64, BusEvent)>,
    cap: usize,
    next_seq: u64,
}

/// How many events a default bus keeps.
pub const DEFAULT_BUS_CAP: usize = 128;

/// An equal copy of an event.
pub fn copy_bus_event(e: &BusEvent) -> (r: BusEvent)
    ensures
        r == *e,
{
    match e {
        BusEvent::CellState { cell, state } => BusEvent::CellState { cell: cell.clone(), state: *state },
        BusEvent::CapabilityAvailable { cell, capability, version } => BusEvent::CapabilityAvailable {
            cell: cell.clone(),
            capability: capability.clone(),
            version: version.clone(),
        },
        BusEvent::BindingChanged { generation, count } => BusEvent::BindingChanged {
            generation: *generation,
            count: *count,
        },
    }
}

/// The events of `s` numbered after `after`, in order.
pub open spec fn numbered_after(s: Seq<(u64, BusEvent)>, after: u64) -> Seq<(u64, BusEvent)>
    decreases s.len(),
{
    if s.len() == 0 {
        s
    } else if s.last().0 > after {
        numbered_after(s.drop_last(), after).push(s.last())
    } else {
        numbered_after(s.drop_last(), after)
    }
}

/// An announcement as text and numbers.
pub enum BusView {
    CellState(Seq<char>, CellState),
    CapabilityAvailable(Seq<char>, Seq<char>, Seq<char>),
    BindingChanged(u64, usize),
}

/// The view of an announcement.
pub open spec fn bus_view(e: BusEvent) -> BusView {
    match e {
        BusEvent::CellState { cell, state } => BusView::CellState(cell@, state),
        BusEvent::CapabilityAvailable { cell, capability, version } => BusView::CapabilityAvailable(
            cell@,
            capability@,
            version@,
        ),
        BusEvent::BindingChanged { generation, count } => BusView::BindingChanged(generation, count),
    }
}

/// The views of numbered announcements.
pub open spec fn bus_views(s: Seq<(u64, BusEvent)>) -> Seq<(u64, BusView)> {
    s.map_values(|p: (u64, BusEvent)| (p.0, bus_view(p.1)))
}

/// What a bus keeping `kept`, of capacity `cap` and numbering from `next`, keeps
/// after `evs` are published in order.
pub open spec fn published(kept: Seq<(u64, BusView)>, cap: nat, next: u64, evs: Seq<BusView>) -> Seq<(u64, BusView)>
    decreases evs.len(),
{
    if evs.len() == 0 {
        kept
    } else {
        ring_push(
            published(kept, cap, next, evs.drop_last()),
            cap,
            (numbers_after(next, (evs.len() - 1) as nat), evs.last()),
        )
    }
}

/// The announcements `evs` with the numbers they get when numbering starts at `next`.
pub open spec fn numbered(next: u64, evs: Seq<BusView>) -> Seq<(u64, BusView)> {
    Seq::new(evs.len(), |i: int| (numbers_after(next, i as nat), evs[i]))
}

/// Publishing is recording the numbered announcements into the ring.
pub proof fn published_is_ring_fold(kept: Seq<(u64, BusView)>, cap: nat, next: u64, evs: Seq<BusView>)
    ensures
        published(kept, cap, next, evs) == crate::audit::ring_fold(kept, cap, numbered(next, evs)),
    decreases evs.len(),
{
    if evs.len() > 0 {
        published_is_ring_fold(kept, cap, next, evs.drop_last());
        assert(numbered(next, evs).drop_last() =~= numbered(next, evs.drop_last()));
    }
}

/// A fresh bus of capacity `cap` (at least one) that has published `evs` keeps the
/// newest `min(n, cap)` of them, oldest first, numbered one after another from
/// `next`; the newest carries the number `n` numbers after `next`.
pub proof fn bus_keeps_last(cap: nat, next: u64, evs: Seq<BusView>)
    requires
        cap >= 1,
    ensures
        published(Seq::empty(), cap, next, evs).len() == crate::audit::min_nat(evs.len(), cap),
        published(Seq::empty(), cap, next, evs) == numbered(next, evs).subrange(
            evs.len() - crate::audit::min_nat(evs.len(), cap),
            evs.len() as int,
        ),
{
    published_is_ring_fold(Seq::empty(), cap, next, evs);
    crate::audit::ring_keeps_last(cap, numbered(next, evs));
}

/// A fresh bus (empty, numbering from 1) after publishing `evs[0..n]`, each step as
/// `publish` states it (`buses[i]` to `buses[i + 1]`, answering `nums[i]`): the
/// `i`-th publish answers `i + 1`, and the bus keeps the newest `min(n, capacity)`
/// events with their numbers, in order.
pub proof fn bus_history_keeps_newest(buses: Seq<EventBus>, nums: Seq<u64>, evs: Seq<BusEvent>)
    requires
        buses.len() == evs.len() + 1,
        nums.len() == evs.len(),
        evs.len() < u64::MAX,
        buses[0].wf(),
        buses[0].kept().len() == 0,
        buses[0].next() == 1,
        forall|i: int| 0 <= i < evs.len() ==> published_one(#[trigger] buses[i], buses[i + 1], nums[i], evs[i]),
    ensures
        forall|i: int| 0 <= i < nums.len() ==> #[trigger] nums[i] == i + 1,
        buses.last().kept().len() == crate::audit::min_nat(evs.len(), buses[0].capacity()),
        forall|j: int|
            0 <= j < buses.last().kept().len() ==> {
                let n = evs.len() as int;
                let k = buses.last().kept().len() as int;
                #[trigger] buses.last().kept()[j] == (((n - k + j + 1) as u64), evs[n - k + j])
            },
{
    let n = evs.len() as int;
    let cap = buses[0].capacity();
    let pairs = Seq::new(evs.len(), |j: int| (((j + 1) as u64), evs[j]));
    assert forall|m: int| 0 <= m <= n implies #[trigger] buses[m].kept() == crate::audit::ring_fold(
        Seq::<(u64, BusEvent)>::empty(),
        cap,
        pairs.take(m),
    ) && buses[m].next() == m + 1 && buses[m].capacity() == cap by {
        lemma_bus_prefix(buses, nums, evs, pairs, cap, m);
    }
    assert forall|i: int| 0 <= i < nums.len() implies #[trigger] nums[i] == i + 1 by {
        lemma_bus_prefix(buses, nums, evs, pairs, cap, i);
    }
    crate::audit::ring_keeps_last(cap, pairs);
    assert(pairs.take(n) =~= pairs);
}

proof fn lemma_bus_prefix(buses: Seq<EventBus>, nums: Seq<u64>, evs: Seq<BusEvent>, pairs: Seq<(u64, BusEvent)>, cap: nat, m: int)
    requires
        buses.len() == evs.len() + 1,
        nums.len() == evs.len(),
        evs.len() < u64::MAX,
        buses[0].wf(),
        buses[0].kept().len() == 0,
        buses[0].next() == 1,
        cap == buses[0].capacity(),
        forall|i: int| 0 <= i < evs.len() ==> published_one(#[trigger] buses[i], buses[i + 1], nums[i], evs[i]),
        pairs == Seq::new(evs.len(), |j: int| (((j + 1) as u64), evs[j])),
        0 <= m <= evs.len(),
    ensures
        buses[m].kept() == crate::audit::ring_fold(Seq::<(u64, BusEvent)>::empty(), cap, pairs.take(m)),
        buses[m].next() == m + 1,
        buses[m].capacity() == cap,
        m < evs.len() ==> nums[m] == m + 1,
    decreases m,
{
    if m == 0 {
        assert(pairs.take(0) =~= Seq::<(u64, BusEvent)>::empty());
        assert(buses[0].kept() =~= Seq::<(u64, BusEvent)>::empty());
        assert(published_one(buses[0], buses[1], nums[0], evs[0]) || evs.len() == 0);
    } else {
        lemma_bus_prefix(buses, nums, evs, pairs, cap, m - 1);
        assert(published_one(buses[m - 1], buses[m], nums[m - 1], evs[m - 1]));
        assert(pairs.take(m).drop_last() =~= pairs.take(m - 1));
        assert(pairs.take(m).last() == pairs[m - 1]);
        if m < evs.len() {
            assert(published_one(buses[m], buses[m + 1], nums[m], evs[m]));
        }
    }
}

/// Publishing one more event extends what `published` keeps by one ring push.
pub proof fn lemma_published_step(kept: Seq<(u64, BusView)>, cap: nat, next: u64, evs: Seq<BusView>, k: int)
    requires
        0 <= k < evs.len(),
    ensures
        published(kept, cap, next, evs.take(k + 1)) == ring_push(
            published(kept, cap, next, evs.take(k)),
            cap,
            (numbers_after(next, k as nat), evs[k]),
        ),
{
    assert(evs.take(k + 1).drop_last() =~= evs.take(k));
}

/// The views of a ring push are the ring push of the views.
pub proof fn lemma_views_push(s: Seq<(u64, BusEvent)>, cap: nat, e: (u64, BusEvent))
    requires
        cap >= 1,
    ensures
        bus_views(ring_push(s, cap, e)) == ring_push(bus_views(s), cap, (e.0, bus_view(e.1))),
{
    if s.len() >= cap {
        let a = bus_views(ring_push(s, cap, e));
        let b = ring_push(bus_views(s), cap, (e.0, bus_view(e.1)));
        assert(a.len() == b.len());
        assert forall|i: int| 0 <= i < a.len() implies a[i] == b[i] by {
            if i < a.len() - 1 {
                assert(ring_push(s, cap, e)[i] == s[i + 1]);
            }
        }
        assert(a =~= b);
    } else {
        assert(bus_views(ring_push(s, cap, e)) =~= ring_push(bus_views(s), cap, (e.0, bus_view(e.1))));
    }
}

/// Each kept event is numbered right after the one before it, and `next` right
/// after the newest.
pub open spec fn numbers_consecutive(evs: Seq<(u64, BusEvent)>, next: u64) -> bool {
    &&& forall|i: int, j: int|
        #![trigger evs[i], evs[j]]
        0 <= i && j == i + 1 && j < evs.len() ==> evs[j].0 == next_seq_after(evs[i].0)
    &&& evs.len() > 0 ==> next == next_seq_after(evs.last().0)
}

/// `after` is `before` with `e` published under number `n`: `before`'s next number,
/// pushed onto the ring, and the numbering moved on.
pub open spec fn published_one(before: EventBus, after: EventBus, n: u64, e: BusEvent) -> bool {
    &&& n == before.next()
    &&& after.capacity() == before.capacity()
    &&& after.next() == next_seq_after(before.next())
    &&& after.kept() == ring_push(before.kept(), before.capacity(), (n, e))
}

impl Default for EventBus {
    fn default() -> (r: Self)
        ensures
            r.wf(),
            r.capacity() == DEFAULT_BUS_CAP,
            r.kept().len() == 0,
            r.next() == 1,
    {
        EventBus::with_capacity(DEFAULT_BUS_CAP)
    }
}

impl EventBus {
    /// The kept events with their numbers, oldest first.
    pub closed spec fn kept(&self) -> Seq<(u64, BusEvent)> {
        self.events@
    }

    /// The most events kept.
    pub closed spec fn capacity(&self) -> nat {
        self.cap as nat
    }

    /// The number the next event gets.
    pub closed spec fn next(&self) -> u64 {
        self.next_seq
    }

    /// Capacity at least one, never more events than that, and every kept number
    /// below the next one (unless numbering has reached its end).
    pub open spec fn wf(&self) -> bool {
        &&& self.capacity() >= 1
        &&& self.kept().len() <= self.capacity()
        &&& forall|i: int|
            0 <= i < self.kept().len() ==> (#[trigger] self.kept()[i]).0 < self.next() || self.next() == u64::MAX
        &&& numbers_consecutive(self.kept(), self.next())
    }

    /// An empty bus keeping at most `cap` events (at least one).
    pub fn with_capacity(cap: usize) -> (r: Self)
        ensures
            r.wf(),
            r.capacity() == if cap == 0 { 1 } else { cap },
            r.kept().len() == 0,
            r.next() == 1,
    {
        EventBus { events: VecDeque::new(), cap: if cap < 1 { 1 } else { cap }, next_seq: 1 }
    }

    /// Publishes an event under the next number, dropping the oldest when full, and
    /// returns that number.
    pub fn publish(&mut self, event: BusEvent) -> (r: u64)
        requires
            old(self).wf(),
        ensures
            final(self).wf(),
            r == old(self).next(),
            final(self).capacity() == old(self).capacity(),
            final(self).next() == next_seq_after(old(self).next()),
            final(self).kept() == ring_push(old(self).kept(), old(self).capacity(), (r, event)),
            published_one(*old(self), *final(self), r, event),
    {
        let seq = self.next_seq;
        self.next_seq = self.next_seq.saturating_add(1);
        if self.events.len() >= self.cap {
            let _ = self.events.pop_front();
        }
        self.events.push_back((seq, event));
        proof {
            let k = self.events@;
            let old_evs = old(self).events@;
            let sh: int = if old_evs.len() >= old(self).cap { 1 } else { 0 };
            assert forall|i: int, j: int|
                #![trigger k[i], k[j]]
                0 <= i && j == i + 1 && j < k.len() implies k[j].0 == next_seq_after(k[i].0) by {
                assert(k[i] == old_evs[i + sh]);
                if j < k.len() - 1 {
                    assert(k[j] == old_evs[j + sh]);
                } else {
                    assert(old_evs.last() == old_evs[i + sh]);
                }
            }
            assert forall|i: int| 0 <= i < k.len() implies (#[trigger] k[i]).0 < self.next_seq || self.next_seq
                == u64::MAX by {
                if i < k.len() - 1 {
                    if old(self).events@.len() >= old(self).cap {
                        assert(k[i] == old(self).events@[i + 1]);
                    } else {
                        assert(k[i] == old(self).events@[i]);
                    }
                }
            }
        }
        seq
    }

    /// Every kept event with its number, oldest first.
    pub fn snapshot(&self) -> (r: Vec<(u64, BusEvent)>)
        ensures
            r@ == self.kept(),
    {
        let mut out: Vec<(u64, BusEvent)> = Vec::new();
        let mut i: usize = 0;
        while i < self.events.len()
            invariant
                i <= self.events@.len(),
                out@ == self.events@.take(i as int),
            decreases self.events@.len() - i,
        {
            let (s, e) = &self.events[i];
            out.push((*s, copy_bus_event(e)));
            assert(out@ =~= self.events@.take(i + 1));
            i = i + 1;
        }
        assert(out@ =~= self.events@);
        out
    }

    /// The kept events numbered after `after_seq`, oldest first.
    pub fn since(&self, after_seq: u64) -> (r: Vec<(u64, BusEvent)>)
        ensures
            r@ == numbered_after(self.kept(), after_seq),
    {
        let mut out: Vec<(u64, BusEvent)> = Vec::new();
        let mut i: usize = 0;
        assert(self.events@.take(0) =~= Seq::<(u64, BusEvent)>::empty());
        while i < self.events.len()
            invariant
                i <= self.events@.len(),
                out@ == numbered_after(self.events@.take(i as int), after_seq),
            decreases self.events@.len() - i,
        {
            let (s, e) = &self.events[i];
            proof {
                assert(self.events@.take(i + 1).drop_last() =~= self.events@.take(i as int));
                assert(self.events@.take(i + 1).last() == self.events@[i as int]);
            }
            if *s > after_seq {
                out.push((*s, copy_bus_event(e)));
            }
            i = i + 1;
        }
        assert(self.events@.take(self.events@.len() as int) =~= self.events@);
        out
    }

    /// How many events are kept.
    pub fn len(&self) -> (r: usize)
        ensures
            r == self.kept().len(),
    {
        self.events.len()
    }

    /// Whether no event is kept.
    pub fn is_empty(&self) -> (r: bool)
        ensures
            r == (self.kept().len() == 0),
    {
        self.events.len() == 0
    }
}

/// The kept events of a bus are numbered one after another, the newest right before
/// the number the next event gets.
pub proof fn bus_numbers_consecutive(bus: EventBus, i: int)
    requires
        bus.wf(),
        0 <= i < bus.kept().len(),
    ensures
        i + 1 < bus.kept().len() ==> bus.kept()[i + 1].0 == next_seq_after(bus.kept()[i].0),
        i + 1 == bus.kept().len() ==> bus.next() == next_seq_after(bus.kept()[i].0),
{
    if i + 1 < bus.kept().len() {
        let j = i + 1;
        assert(bus.kept()[j].0 == next_seq_after(bus.kept()[i].0));
    }
}

/// Events numbered at most `after` are not among those numbered after it.
proof fn lemma_none_after(s: Seq<(u64, BusEvent)>, after: u64)
    requires
        forall|i: int| 0 <= i < s.len() ==> (#[trigger] s[i]).0 <= after,
    ensures
        numbered_after(s, after) == Seq::<(u64, BusEvent)>::empty(),
    decreases s.len(),
{
    if s.len() > 0 {
        lemma_none_after(s.drop_last(), after);
    }
}

/// Publishing twice on a well-formed bus: the second event gets the next number,
/// and asking for the events after the first number gives exactly the second event.
pub proof fn publish_twice_then_since(
    kept: Seq<(u64, BusEvent)>,
    cap: nat,
    first: u64,
    e1: BusEvent,
    e2: BusEvent,
)
    requires
        cap >= 1,
        kept.len() <= cap,
        first < u64::MAX,
        forall|i: int| 0 <= i < kept.len() ==> (#[trigger] kept[i]).0 < first,
    ensures
        numbered_after(
            ring_push(ring_push(kept, cap, (first, e1)), cap, (next_seq_after(first), e2)),
            first,
        ) == seq![(next_seq_after(first), e2)],
{
    let k1 = ring_push(kept, cap, (first, e1));
    let k2 = ring_push(k1, cap, (next_seq_after(first), e2));
    assert forall|i: int| 0 <= i < k1.len() implies (#[trigger] k1[i]).0 <= first by {
        if i < k1.len() - 1 {
            if kept.len() >= cap {
                assert(k1[i] == kept[i + 1]);
            } else {
                assert(k1[i] == kept[i]);
            }
        }
    }
    let front = k2.drop_last();
    assert forall|i: int| 0 <= i < front.len() implies (#[trigger] front[i]).0 <= first by {
        if k1.len() >= cap {
            assert(front[i] == k1[i + 1]);
        } else {
            assert(front[i] == k1[i]);
        }
    }
    lemma_none_after(front, first);
    assert(numbered_after(k2, first) =~= seq![(next_seq_after(first), e2)]);
}

/// Everything `since` returns is numbered after its argument, and it loses no such
/// event.
pub proof fn since_is_exact(s: Seq<(u64, BusEvent)>, after: u64)
    ensures
        forall|i: int| 0 <= i < numbered_after(s, after).len() ==> (#[trigger] numbered_after(s, after)[i]).0 > after,
        numbered_after(s, after).len() == s.len() - numbered_upto(s, after),
    decreases s.len(),
{
    if s.len() > 0 {
        since_is_exact(s.drop_last(), after);
    }
}

/// How many events of `s` are numbered at most `after`.
pub open spec fn numbered_upto(s: Seq<(u64, BusEvent)>, after: u64) -> nat
    decreases s.len(),
{
    if s.len() == 0 {
        0
    } else if s.last().0 > after {
        numbered_upto(s.drop_last(), after)
    } else {
        numbered_upto(s.drop_last(), after) + 1
    }
}

} // verus!
