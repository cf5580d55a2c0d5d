//! Bounded audit trail of security and operations events. When full, recording an
//! event drops the oldest one.

use vstd::prelude::*;

use std::collections::VecDeque;

verus! {

/// What happened.
#[derive(Debug, Clone, Copy, PartialEq, Eq, Structural)]
pub enum AuditKind {
    Registered,
    Admitted,
    AdmitDenied,
    Activated,
    Stopped,
    BindingApplied,
    BindingRejected,
    Invoked,
    InvokeFailed,
    PolicyGrant,
    Discovered,
}

/// One audit record.
#[derive(Debug, Clone)]
pub struct AuditEvent {
    pub seq: u64,
    pub at_ms: u64,
    pub kind: AuditKind,
    pub cell: Option<String>,
    pub detail: String,
}

/// The audit trail: at most `cap` events, oldest first.
#[derive(Debug)]
pub struct AuditLog {
    events: VecDeque<AuditEvent>,
    cap: usize,
    next_seq: u64,
}

/// How many events a default audit trail keeps.
pub const DEFAULT_AUDIT_CAP: usize = 256;

/// `n` increased by one, stopping at `u64::MAX`.
pub open spec fn next_seq_after(n: u64) -> u64 {
    if n == u64::MAX {
        u64::MAX
    } else {
        (n + 1) as u64
    }
}

/// The events kept after adding one to `events` in a trail of capacity `cap`.
pub open spec fn ring_push<T>(events: Seq<T>, cap: nat, e: T) -> Seq<T> {
    if events.len() >= cap {
        events.subrange(1, events.len() as int).push(e)
    } else {
        events.push(e)
    }
}

/// Each kept event is numbered right after the one before it, and `next` right
/// after the newest.
pub open spec fn seqs_consecutive(evs: Seq<AuditEvent>, next: u64) -> bool {
    &&& forall|i: int, j: int|
        #![trigger evs[i], evs[j]]
        0 <= i && j == i + 1 && j < evs.len() ==> evs[j].seq == next_seq_after(evs[i].seq)
    &&& evs.len() > 0 ==> next == next_seq_after(evs.last().seq)
}

/// `after` is `before` with one event recorded: numbered with `before`'s next
/// number, pushed onto the ring, and the numbering moved on.
pub open spec fn recorded(before: AuditLog, after: AuditLog) -> bool {
    &&& after.capacity() == before.capacity()
    &&& after.next() == next_seq_after(before.next())
    &&& after.kept().len() > 0
    &&& after.kept() == ring_push(before.kept(), before.capacity(), after.kept().last())
    &&& after.kept().last().seq == before.next()
}

/// `after` is `before` cleared: no events, same capacity, numbering where it was.
pub open spec fn cleared(before: AuditLog, after: AuditLog) -> bool {
    &&& after.kept().len() == 0
    &&& after.capacity() == before.capacity()
    &&& after.next() == before.next()
}

impl Default for AuditLog {
    fn default() -> (r: Self)
        ensures
            r.wf(),
            r.capacity() == DEFAULT_AUDIT_CAP,
            r.kept().len() == 0,
            r.next() == 1,
    {
        AuditLog::with_capacity(DEFAULT_AUDIT_CAP)
    }
}

impl AuditLog {
    /// The kept events, oldest first.
    pub closed spec fn kept(&self) -> Seq<AuditEvent> {
        self.events@
    }

    /// The most events kept.
    pub closed spec fn capacity(&self) -> nat {
        self.cap as nat
    }

    /// The sequence number the next event gets.
    pub closed spec fn next(&self) -> u64 {
        self.next_seq
    }

    /// Capacity at least one, never more events than the capacity, and the kept
    /// events numbered one after another up to the next number.
    pub open spec fn wf(&self) -> bool {
        &&& self.capacity() >= 1
        &&& self.kept().len() <= self.capacity()
        &&& seqs_consecutive(self.kept(), self.next())
    }

    /// An empty trail keeping at most `cap` events (at least one).
    pub fn with_capacity(cap: usize) -> (r: Self)
        ensures
            r.wf(),
            r.capacity() == if cap == 0 { 1 } else { cap },
            r.kept().len() == 0,
            r.next() == 1,
    {
        let hint: usize = if cap < 1 {
            1
        } else if cap > DEFAULT_AUDIT_CAP {
            DEFAULT_AUDIT_CAP
        } else {
            cap
        };
        AuditLog { events: VecDeque::with_capacity(hint), cap: if cap < 1 { 1 } else { cap }, next_seq: 1 }
    }

    /// Records an event with the next sequence number and the current time, dropping
    /// the oldest event when the trail is full.
    pub fn record(&mut self, kind: AuditKind, cell: Option<String>, detail: String)
        requires
            old(self).wf(),
        ensures
            final(self).wf(),
            final(self).capacity() == old(self).capacity(),
            final(self).next() == next_seq_after(old(self).next()),
            final(self).kept() == ring_push(old(self).kept(), old(self).capacity(), final(self).kept().last()),
            final(self).kept().last().seq == old(self).next(),
            final(self).kept().last().kind == kind,
            final(self).kept().last().cell == cell,
            final(self).kept().last().detail == detail,
            recorded(*old(self), *final(self)),
    {
        let ev = AuditEvent { seq: self.next_seq, at_ms: crate::clock::now_ms(), kind, cell, detail };
        self.next_seq = self.next_seq.saturating_add(1);
        let ghost old_evs = self.events@;
        if self.events.len() >= self.cap {
            let _ = self.events.pop_front();
        }
        self.events.push_back(ev);
        proof {
            let k = self.events@;
            let sh: int = if old_evs.len() >= old(self).cap { 1 } else { 0 };
            assert forall|i: int, j: int|
                #![trigger k[i], k[j]]
                0 <= i && j == i + 1 && j < k.len() implies k[j].seq == next_seq_after(k[i].seq) by {
                assert(k[i] == old_evs[i + sh]);
                if j < k.len() - 1 {
                    assert(k[j] == old_evs[j + sh]);
                } else {
                    assert(old_evs.last() == old_evs[i + sh]);
                }
            }
        }
    }

    /// The kept events, oldest first.
    pub fn events(&self) -> (r: &VecDeque<AuditEvent>)
        ensures
            r@ == self.kept(),
    {
        &self.events
    }

    /// How many events are kept.
    pub fn len(&self) -> (r: usize)
        ensures
            r == self.kept().len(),
    {
        self.events.len()
    }

    /// Whether no event is kept.
    pub fn is_empty(&self) -> (r: bool)
        ensures
            r == (self.kept().len() == 0),
    {
        self.events.len() == 0
    }

    /// Forgets every kept event; numbering goes on where it was.
    pub fn clear(&mut self)
        requires
            old(self).wf(),
        ensures
            final(self).wf(),
            final(self).kept().len() == 0,
            final(self).capacity() == old(self).capacity(),
            final(self).next() == old(self).next(),
            cleared(*old(self), *final(self)),
    {
        self.events.clear();
    }
}

/// The kept events of a trail are numbered one after another, the newest right
/// before the number the next event gets.
pub proof fn audit_numbers_consecutive(log: AuditLog, i: int)
    requires
        log.wf(),
        0 <= i < log.kept().len(),
    ensures
        i + 1 < log.kept().len() ==> log.kept()[i + 1].seq == next_seq_after(log.kept()[i].seq),
        i + 1 == log.kept().len() ==> log.next() == next_seq_after(log.kept()[i].seq),
{
    if i + 1 < log.kept().len() {
        let j = i + 1;
        assert(log.kept()[j].seq == next_seq_after(log.kept()[i].seq));
    }
}

/// What a trail of capacity `cap` keeping `kept` keeps after `items` are recorded
/// in order.
pub open spec fn ring_fold<T>(kept: Seq<T>, cap: nat, items: Seq<T>) -> Seq<T>
    decreases items.len(),
{
    if items.len() == 0 {
        kept
    } else {
        ring_push(ring_fold(kept, cap, items.drop_last()), cap, items.last())
    }
}

/// The smaller of two numbers.
pub open spec fn min_nat(a: nat, b: nat) -> nat {
    if a <= b {
        a
    } else {
        b
    }
}

/// Recording `items` into an empty ring of capacity `cap` (at least one) keeps
/// exactly the newest `min(n, cap)` of them, oldest first.
pub proof fn ring_keeps_last<T>(cap: nat, items: Seq<T>)
    requires
        cap >= 1,
    ensures
        ring_fold(Seq::<T>::empty(), cap, items).len() == min_nat(items.len(), cap),
        ring_fold(Seq::<T>::empty(), cap, items) == items.subrange(
            items.len() - min_nat(items.len(), cap),
            items.len() as int,
        ),
    decreases items.len(),
{
    if items.len() > 0 {
        let init = items.drop_last();
        ring_keeps_last(cap, init);
        let prev = ring_fold(Seq::<T>::empty(), cap, init);
        let k = min_nat(init.len(), cap);
        if init.len() >= cap {
            assert(prev.len() == cap);
            assert(ring_push(prev, cap, items.last()) =~= items.subrange(items.len() - cap, items.len() as int));
        } else {
            assert(ring_push(prev, cap, items.last()) =~= items.subrange(0, items.len() as int));
        }
    }
}

/// `n` numbers handed out from `next`: the number after them.
pub open spec fn numbers_after(next: u64, n: nat) -> u64
    decreases n,
{
    if n == 0 {
        next
    } else {
        next_seq_after(numbers_after(next, (n - 1) as nat))
    }
}

/// Numbering starts at 1 and goes up by one: after `n` events (fewer than the
/// largest number) the next number is `n + 1`, so the `i`-th event recorded into a
/// fresh trail, or published on a fresh bus, is numbered `i`.
pub proof fn numbering_counts(n: nat)
    requires
        n < u64::MAX,
    ensures
        numbers_after(1, n) == n + 1,
    decreases n,
{
    if n > 0 {
        numbering_counts((n - 1) as nat);
    }
}

/// After `clear`, which keeps the next number, one record leaves just that event.
pub proof fn record_after_clear<T>(cap: nat, e: T)
    requires
        cap >= 1,
    ensures
        ring_push(Seq::<T>::empty(), cap, e) == seq![e],
{
    assert(ring_push(Seq::<T>::empty(), cap, e) =~= seq![e]);
}

/// A fresh trail (empty, numbering from 1) after `n` records, each step as `record`
/// states it (`logs[i]` to `logs[i + 1]`): it keeps the newest `min(n, capacity)`
/// events in recording order, the `i`-th event recorded numbered `i`, and the next
/// number is `n + 1`.
pub proof fn history_keeps_newest(logs: Seq<AuditLog>)
    requires
        logs.len() >= 1,
        logs.len() <= u64::MAX,
        logs[0].wf(),
        logs[0].kept().len() == 0,
        logs[0].next() == 1,
        forall|i: int| 0 <= i < logs.len() - 1 ==> recorded(#[trigger] logs[i], logs[i + 1]),
    ensures
        logs.last().kept().len() == min_nat((logs.len() - 1) as nat, logs[0].capacity()),
        logs.last().next() == logs.len(),
        forall|j: int|
            0 <= j < logs.last().kept().len() ==> {
                let n = logs.len() - 1;
                let k = logs.last().kept().len();
                &&& #[trigger] logs.last().kept()[j] == logs[n - k + j + 1].kept().last()
                &&& logs.last().kept()[j].seq == n - k + j + 1
            },
{
    let n = (logs.len() - 1) as int;
    let cap = logs[0].capacity();
    let evs = Seq::new(n as nat, |j: int| logs[j + 1].kept().last());
    assert forall|m: int| 0 <= m <= n implies #[trigger] logs[m].kept() == ring_fold(Seq::<AuditEvent>::empty(), cap, evs.take(m))
        && logs[m].next() == m + 1 && logs[m].capacity() == cap by {
        lemma_history_prefix(logs, evs, cap, m);
    }
    ring_keeps_last(cap, evs);
    assert(evs.take(n) =~= evs);
    let k = logs.last().kept().len() as int;
    assert forall|j: int| 0 <= j < k implies #[trigger] logs.last().kept()[j] == logs[n - k + j + 1].kept().last()
        && logs.last().kept()[j].seq == n - k + j + 1 by {
        assert(logs.last().kept()[j] == evs[n - k + j]);
        lemma_history_prefix(logs, evs, cap, n - k + j + 1);
        lemma_history_prefix(logs, evs, cap, n - k + j);
    }
}

proof fn lemma_history_prefix(logs: Seq<AuditLog>, evs: Seq<AuditEvent>, cap: nat, m: int)
    requires
        logs.len() >= 1,
        logs.len() <= u64::MAX,
        logs[0].wf(),
        logs[0].kept().len() == 0,
        logs[0].next() == 1,
        cap == logs[0].capacity(),
        forall|i: int| 0 <= i < logs.len() - 1 ==> recorded(#[trigger] logs[i], logs[i + 1]),
        evs.len() == logs.len() - 1,
        forall|j: int| 0 <= j < evs.len() ==> #[trigger] evs[j] == logs[j + 1].kept().last(),
        0 <= m < logs.len(),
    ensures
        logs[m].kept() == ring_fold(Seq::<AuditEvent>::empty(), cap, evs.take(m)),
        logs[m].next() == m + 1,
        logs[m].capacity() == cap,
        m > 0 ==> logs[m].kept().last().seq == m,
    decreases m,
{
    if m == 0 {
        assert(evs.take(0) =~= Seq::<AuditEvent>::empty());
        assert(logs[0].kept() =~= Seq::<AuditEvent>::empty());
    } else {
        lemma_history_prefix(logs, evs, cap, m - 1);
        assert(recorded(logs[m - 1], logs[m]));
        assert(evs.take(m).drop_last() =~= evs.take(m - 1));
        assert(evs.take(m).last() == evs[m - 1]);
    }
}

/// Clearing keeps the numbering: one record after `clear` leaves just that event,
/// numbered where the numbering stood before the clear.
pub proof fn clear_keeps_numbering(a: AuditLog, b: AuditLog, c: AuditLog)
    requires
        a.wf(),
        cleared(a, b),
        recorded(b, c),
    ensures
        c.kept() == seq![c.kept().last()],
        c.kept().last().seq == a.next(),
{
    assert(b.kept() =~= Seq::<AuditEvent>::empty());
    record_after_clear(b.capacity(), c.kept().last());
}

/// The trail never holds more than its capacity, and a record keeps the newest
/// events: the one just recorded last, after the ones before it.
pub proof fn ring_keeps_newest<T>(events: Seq<T>, cap: nat, e: T)
    requires
        cap >= 1,
        events.len() <= cap,
    ensures
        ring_push(events, cap, e).len() <= cap,
        ring_push(events, cap, e).last() == e,
        events.len() < cap ==> ring_push(events, cap, e).drop_last() == events,
        events.len() == cap ==> ring_push(events, cap, e).drop_last() == events.subrange(1, events.len() as int),
{
    if events.len() >= cap {
        assert(ring_push(events, cap, e).drop_last() =~= events.subrange(1, events.len() as int));
    } else {
        assert(ring_push(events, cap, e).drop_last() =~= events);
    }
}

} // verus!
