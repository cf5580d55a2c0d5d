//! Cell instance lifecycle: a state, and the log of transitions that led to it.

use vstd::prelude::*;

use crate::error::{is_lifecycle, Error, Result};
use crate::text::{join2, join5, owned};

verus! {

/// Cell instance lifecycle. Only forward transitions along the happy path are
/// allowed; `Failed` / `RolledBack` are terminal side exits from most states.
#[derive(Debug, Clone, Copy, PartialEq, Eq, Hash, Structural)]
pub enum CellState {
    Discovered,
    Resolved,
    Verified,
    Admitted,
    Staged,
    Starting,
    Ready,
    Active,
    Draining,
    Stopped,
    Failed,
    RolledBack,
}

/// States that take traffic.
pub open spec fn routable(s: CellState) -> bool {
    s == CellState::Ready || s == CellState::Active
}

/// States nothing leaves except by roll-back.
pub open spec fn terminal(s: CellState) -> bool {
    s == CellState::Stopped || s == CellState::Failed || s == CellState::RolledBack
}

/// The name of a state, as `{:?}` prints it.
pub open spec fn state_name(s: CellState) -> Seq<char> {
    match s {
        CellState::Discovered => "Discovered"@,
        CellState::Resolved => "Resolved"@,
        CellState::Verified => "Verified"@,
        CellState::Admitted => "Admitted"@,
        CellState::Staged => "Staged"@,
        CellState::Starting => "Starting"@,
        CellState::Ready => "Ready"@,
        CellState::Active => "Active"@,
        CellState::Draining => "Draining"@,
        CellState::Stopped => "Stopped"@,
        CellState::Failed => "Failed"@,
        CellState::RolledBack => "RolledBack"@,
    }
}

impl CellState {
    /// Ready and Active Cells take traffic.
    pub fn can_route(self) -> (r: bool)
        ensures
            r == routable(self),
    {
        matches!(self, CellState::Ready | CellState::Active)
    }

    /// Stopped, Failed and RolledBack are terminal.
    pub fn is_terminal(self) -> (r: bool)
        ensures
            r == terminal(self),
    {
        matches!(self, CellState::Stopped | CellState::Failed | CellState::RolledBack)
    }

    /// The state's name, as `{:?}` prints it.
    pub fn debug_name(self) -> (r: String)
        ensures
            r@ == state_name(self),
    {
        match self {
            CellState::Discovered => owned("Discovered"),
            CellState::Resolved => owned("Resolved"),
            CellState::Verified => owned("Verified"),
            CellState::Admitted => owned("Admitted"),
            CellState::Staged => owned("Staged"),
            CellState::Starting => owned("Starting"),
            CellState::Ready => owned("Ready"),
            CellState::Active => owned("Active"),
            CellState::Draining => owned("Draining"),
            CellState::Stopped => owned("Stopped"),
            CellState::Failed => owned("Failed"),
            CellState::RolledBack => owned("RolledBack"),
        }
    }
}

/// The transitions the lifecycle allows.
pub open spec fn allowed(from: CellState, to: CellState) -> bool {
    if to == CellState::Failed {
        !terminal(from) || from == CellState::Draining
    } else if to == CellState::RolledBack {
        from == CellState::Admitted || from == CellState::Staged || from == CellState::Starting
            || from == CellState::Ready || from == CellState::Active || from == CellState::Draining
            || from == CellState::Failed
    } else {
        match (from, to) {
            (CellState::Discovered, CellState::Resolved) => true,
            (CellState::Resolved, CellState::Verified) => true,
            (CellState::Verified, CellState::Admitted) => true,
            (CellState::Admitted, CellState::Staged) => true,
            (CellState::Staged, CellState::Starting) => true,
            (CellState::Starting, CellState::Ready) => true,
            (CellState::Ready, CellState::Active) => true,
            (CellState::Active, CellState::Draining) => true,
            (CellState::Ready, CellState::Draining) => true,
            (CellState::Starting, CellState::Draining) => true,
            (CellState::Draining, CellState::Stopped) => true,
            (CellState::Admitted, CellState::Stopped) => true,
            (CellState::Staged, CellState::Stopped) => true,
            (CellState::Verified, CellState::Stopped) => true,
            (CellState::Resolved, CellState::Stopped) => true,
            (CellState::Discovered, CellState::Stopped) => true,
            _ => false,
        }
    }
}

/// Whether `from -> to` is allowed.
pub fn transition_allowed(from: CellState, to: CellState) -> (r: bool)
    ensures
        r == allowed(from, to),
{
    if to == CellState::Failed {
        return !from.is_terminal() || from == CellState::Draining;
    }
    if to == CellState::RolledBack {
        return matches!(
            from,
            CellState::Admitted | CellState::Staged | CellState::Starting | CellState::Ready
                | CellState::Active | CellState::Draining | CellState::Failed
        );
    }
    match (from, to) {
        (CellState::Discovered, CellState::Resolved) => true,
        (CellState::Resolved, CellState::Verified) => true,
        (CellState::Verified, CellState::Admitted) => true,
        (CellState::Admitted, CellState::Staged) => true,
        (CellState::Staged, CellState::Starting) => true,
        (CellState::Starting, CellState::Ready) => true,
        (CellState::Ready, CellState::Active) => true,
        (CellState::Active, CellState::Draining) => true,
        (CellState::Ready, CellState::Draining) => true,
        (CellState::Starting, CellState::Draining) => true,
        (CellState::Draining, CellState::Stopped) => true,
        (CellState::Admitted, CellState::Stopped) => true,
        (CellState::Staged, CellState::Stopped) => true,
        (CellState::Verified, CellState::Stopped) => true,
        (CellState::Resolved, CellState::Stopped) => true,
        (CellState::Discovered, CellState::Stopped) => true,
        _ => false,
    }
}

/// One recorded transition.
#[derive(Debug, Clone)]
pub struct TransitionEvent {
    pub from: CellState,
    pub to: CellState,
    pub cell: String,
    pub reason: Option<String>,
}

/// Lifecycle of one Cell: its state and every transition taken so far.
#[derive(Debug, Clone)]
pub struct Lifecycle {
    cell: String,
    state: CellState,
    events: Vec<TransitionEvent>,
}

/// `evs` is a legal walk from `Discovered` that ends in `state`, every step allowed and
/// every event naming `cell`.
pub open spec fn legal_log(cell: Seq<char>, evs: Seq<TransitionEvent>, state: CellState) -> bool {
    &&& evs.len() == 0 ==> state == CellState::Discovered
    &&& evs.len() > 0 ==> evs[0].from == CellState::Discovered && evs.last().to == state
    &&& forall|k: int| 0 <= k < evs.len() ==> allowed(#[trigger] evs[k].from, evs[k].to)
    &&& forall|k: int| 0 <= k < evs.len() ==> (#[trigger] evs[k]).cell@ == cell
    &&& forall|k: int, j: int|
        #![trigger evs[k], evs[j]]
        0 <= k && j == k + 1 && j < evs.len() ==> evs[k].to == evs[j].from
}

/// The activation path, in order.
pub open spec fn activation_path() -> Seq<CellState> {
    seq![
        CellState::Discovered,
        CellState::Resolved,
        CellState::Verified,
        CellState::Admitted,
        CellState::Staged,
        CellState::Starting,
        CellState::Ready,
        CellState::Active,
    ]
}

/// Position of `s` on the activation path, or -1.
pub open spec fn path_index(s: CellState) -> int {
    match s {
        CellState::Discovered => 0,
        CellState::Resolved => 1,
        CellState::Verified => 2,
        CellState::Admitted => 3,
        CellState::Staged => 4,
        CellState::Starting => 5,
        CellState::Ready => 6,
        CellState::Active => 7,
        _ => -1,
    }
}

/// The transitions `activate` records from `s`: one per step still ahead on the path.
pub open spec fn activation_steps(s: CellState) -> nat {
    if path_index(s) < 0 {
        0
    } else {
        (7 - path_index(s)) as nat
    }
}

/// `e` records the step from `from` to `to` with reason `reason`.
pub open spec fn step_is(e: TransitionEvent, from: CellState, to: CellState, reason: Seq<char>) -> bool {
    &&& e.from == from
    &&& e.to == to
    &&& e.reason matches Some(m) && m@ == reason
}

impl Lifecycle {
    /// The Cell this lifecycle belongs to.
    pub closed spec fn cell_name(&self) -> Seq<char> {
        self.cell@
    }

    /// The current state.
    pub closed spec fn current(&self) -> CellState {
        self.state
    }

    /// The recorded transitions, oldest first.
    pub closed spec fn log(&self) -> Seq<TransitionEvent> {
        self.events@
    }

    /// The log is a legal walk to the current state.
    pub open spec fn wf(&self) -> bool {
        legal_log(self.cell_name(), self.log(), self.current())
    }

    /// A fresh lifecycle in `Discovered`, with an empty log.
    pub fn new(cell: String) -> (r: Self)
        ensures
            r.wf(),
            r.cell_name() == cell@,
            r.current() == CellState::Discovered,
            r.log().len() == 0,
    {
        Lifecycle { cell, state: CellState::Discovered, events: Vec::new() }
    }

    /// The current state.
    pub fn state(&self) -> (r: CellState)
        ensures
            r == self.current(),
    {
        self.state
    }

    /// The recorded transitions, oldest first.
    pub fn events(&self) -> (r: &[TransitionEvent])
        ensures
            r@ == self.log(),
    {
        self.events.as_slice()
    }

    /// Move to `to`. Staying in the current state is a no-op that hands back the last
    /// event (an error when nothing was recorded yet); a step `allowed` refuses is a
    /// lifecycle error and changes nothing; otherwise the step is recorded.
    pub fn transition(&mut self, to: CellState, reason: Option<String>) -> (r: Result<TransitionEvent>)
        requires
            old(self).wf(),
        ensures
            final(self).wf(),
            final(self).cell_name() == old(self).cell_name(),
            old(self).current() == to ==> {
                &&& *final(self) == *old(self)
                &&& old(self).log().len() > 0 ==> r == Ok::<TransitionEvent, Error>(old(self).log().last())
                &&& old(self).log().len() == 0 ==> (r matches Err(e) && is_lifecycle(e, "empty event log on noop"@))
            },
            old(self).current() != to && !allowed(old(self).current(), to) ==> {
                &&& *final(self) == *old(self)
                &&& r matches Err(e) && is_lifecycle(
                    e,
                    old(self).cell_name() + ": "@ + state_name(old(self).current()) + " -> "@
                        + state_name(to) + " not allowed"@,
                )
            },
            old(self).current() != to && allowed(old(self).current(), to) ==> {
                &&& final(self).current() == to
                &&& final(self).log() == old(self).log().push(
                    TransitionEvent { from: old(self).current(), to, cell: final(self).log().last().cell, reason },
                )
                &&& r == Ok::<TransitionEvent, Error>(final(self).log().last())
            },
    {
        if self.state == to {
            if self.events.len() == 0 {
                return Err(Error::Lifecycle(owned("empty event log on noop")));
            }
            let last = self.events.len() - 1;
            return Ok(copy_event(&self.events[last]));
        }
        if !transition_allowed(self.state, to) {
            let from_name = self.state.debug_name();
            let to_name = to.debug_name();
            let head = join5(self.cell.as_str(), ": ", from_name.as_str(), " -> ", to_name.as_str());
            return Err(Error::Lifecycle(join2(head.as_str(), " not allowed")));
        }
        let ev = TransitionEvent { from: self.state, to, cell: self.cell.clone(), reason };
        let out = copy_event(&ev);
        self.state = to;
        self.events.push(ev);
        proof {
            let evs = self.events@;
            assert(evs.last() == ev);
            assert forall|k: int, j: int|
                #![trigger evs[k], evs[j]]
                0 <= k && j == k + 1 && j < evs.len() implies evs[k].to == evs[j].from by {
                if j == evs.len() - 1 {
                    assert(evs[k] == old(self).events@.last());
                } else {
                    assert(evs[k] == old(self).events@[k]);
                    assert(evs[j] == old(self).events@[j]);
                }
            }
        }
        Ok(out)
    }

    /// Advance along the standard activation path to `Active`. Already active: nothing
    /// happens. From a state off the path (Draining, Stopped, Failed, RolledBack) it is a
    /// lifecycle error and nothing changes. Otherwise every remaining step is recorded.
    pub fn activate(&mut self) -> (r: Result<()>)
        requires
            old(self).wf(),
        ensures
            final(self).wf(),
            final(self).cell_name() == old(self).cell_name(),
            r is Ok <==> path_index(old(self).current()) >= 0,
            r is Ok ==> final(self).current() == CellState::Active,
            r is Ok ==> final(self).log().len() == old(self).log().len() + activation_steps(old(self).current()),
            r is Ok ==> final(self).log().take(old(self).log().len() as int) == old(self).log(),
            r is Err ==> *final(self) == *old(self),
            r matches Err(e) ==> is_lifecycle(
                e,
                old(self).cell_name() + ": cannot activate from "@ + state_name(old(self).current()),
            ),
    {
        if self.state == CellState::Active {
            assert(self.log().take(self.log().len() as int) =~= self.log());
            return Ok(());
        }
        let start = self.state;
        let idx: usize = match start {
            CellState::Discovered => 0,
            CellState::Resolved => 1,
            CellState::Verified => 2,
            CellState::Admitted => 3,
            CellState::Staged => 4,
            CellState::Starting => 5,
            CellState::Ready => 6,
            _ => {
                let name = start.debug_name();
                return Err(
                    Error::Lifecycle(join3_name(self.cell.as_str(), ": cannot activate from ", name.as_str())),
                );
            },
        };
        let ghost old_log = self.log();
        let mut k: usize = idx + 1;
        while k < 8
            invariant
                self.wf(),
                self.cell_name() == old(self).cell_name(),
                idx + 1 <= k <= 8,
                idx == path_index(start),
                self.current() == activation_path()[k - 1],
                self.log().len() == old_log.len() + (k - idx - 1),
                self.log().take(old_log.len() as int) == old_log,
            decreases 8 - k,
        {
            let next = path_state(k);
            let ghost before = self.log();
            let res = self.transition(next, None);
            assert(allowed(activation_path()[k - 1], activation_path()[k as int]));
            assert(res is Ok);
            proof {
                assert(self.log().take(old_log.len() as int) =~= before.take(old_log.len() as int));
            }
            k = k + 1;
        }
        Ok(())
    }

    /// Drain and stop. Stopped already: nothing happens. Ready, Active and Starting go
    /// through Draining to Stopped; Draining goes to Stopped; Discovered, Resolved,
    /// Verified and Admitted go straight to Stopped; Failed and RolledBack stay as they
    /// are. From Staged the step to Draining is refused: a lifecycle error, nothing
    /// changes.
    pub fn drain_and_stop(&mut self) -> (r: Result<()>)
        requires
            old(self).wf(),
        ensures
            final(self).wf(),
            final(self).cell_name() == old(self).cell_name(),
            r is Err <==> old(self).current() == CellState::Staged,
            r is Err ==> *final(self) == *old(self),
            r is Ok && !(old(self).current() == CellState::Failed || old(self).current()
                == CellState::RolledBack) ==> final(self).current() == CellState::Stopped,
            r is Ok && (old(self).current() == CellState::Failed || old(self).current()
                == CellState::RolledBack) ==> *final(self) == *old(self),
            old(self).current() == CellState::Stopped ==> *final(self) == *old(self),
            routable(old(self).current()) || old(self).current() == CellState::Starting ==> {
                &&& final(self).log().len() == old(self).log().len() + 2
                &&& final(self).log().take(old(self).log().len() as int) == old(self).log()
                &&& step_is(final(self).log()[old(self).log().len() as int], old(self).current(), CellState::Draining, "stop"@)
                &&& step_is(final(self).log().last(), CellState::Draining, CellState::Stopped, "drained"@)
            },
            old(self).current() == CellState::Draining ==> final(self).log() == old(self).log().push(
                final(self).log().last(),
            ) && step_is(final(self).log().last(), CellState::Draining, CellState::Stopped, "drained"@),
            path_index(old(self).current()) >= 0 && path_index(old(self).current()) <= 3 ==> final(self).log()
                == old(self).log().push(final(self).log().last()) && step_is(
                final(self).log().last(),
                old(self).current(),
                CellState::Stopped,
                "stop"@,
            ),
    {
        if self.state == CellState::Stopped {
            return Ok(());
        }
        proof {
            reveal_strlit("stop");
            reveal_strlit("drained");
        }
        if self.state.can_route() || self.state == CellState::Starting || self.state
            == CellState::Staged {
            if self.state != CellState::Draining {
                self.transition(CellState::Draining, Some(owned("stop")))?;
            }
        }
        let ghost mid = self.log();
        if self.state == CellState::Draining {
            let res = self.transition(CellState::Stopped, Some(owned("drained")));
            assert(res is Ok);
            proof {
                assert(self.log().take(mid.len() as int) =~= mid);
                if mid.len() > old(self).log().len() {
                    assert(self.log()[old(self).log().len() as int] == mid[old(self).log().len() as int]);
                    assert(self.log().take(old(self).log().len() as int) =~= mid.take(old(self).log().len() as int));
                }
            }
        } else if !self.state.is_terminal() {
            let res = self.transition(CellState::Stopped, Some(owned("stop")));
            assert(res is Ok);
        }
        Ok(())
    }

    /// Move to Failed with `reason`. Failed already: nothing happens. From Stopped or
    /// RolledBack the step is refused: a lifecycle error, nothing changes.
    pub fn fail(&mut self, reason: String) -> (r: Result<()>)
        requires
            old(self).wf(),
        ensures
            final(self).wf(),
            final(self).cell_name() == old(self).cell_name(),
            r is Err <==> (old(self).current() == CellState::Stopped || old(self).current()
                == CellState::RolledBack),
            r is Err ==> *final(self) == *old(self),
            r is Ok ==> final(self).current() == CellState::Failed,
            old(self).current() == CellState::Failed ==> *final(self) == *old(self),
            r matches Err(e) ==> is_lifecycle(
                e,
                old(self).cell_name() + ": "@ + state_name(old(self).current()) + " -> "@ + state_name(CellState::Failed)
                    + " not allowed"@,
            ),
            !terminal(old(self).current()) ==> final(self).log() == old(self).log().push(final(self).log().last())
                && final(self).log().last().from == old(self).current() && final(self).log().last().to == CellState::Failed
                && final(self).log().last().reason == Some(reason),
    {
        if self.state == CellState::Failed {
            return Ok(());
        }
        self.transition(CellState::Failed, Some(reason))?;
        Ok(())
    }
}

/// The state at position `k` of the activation path.
fn path_state(k: usize) -> (r: CellState)
    requires
        k < 8,
    ensures
        r == activation_path()[k as int],
{
    match k {
        0 => CellState::Discovered,
        1 => CellState::Resolved,
        2 => CellState::Verified,
        3 => CellState::Admitted,
        4 => CellState::Staged,
        5 => CellState::Starting,
        6 => CellState::Ready,
        _ => CellState::Active,
    }
}

fn join3_name(a: &str, b: &str, c: &str) -> (r: String)
    ensures
        r@ == a@ + b@ + c@,
{
    crate::text::join3(a, b, c)
}

/// A field-by-field copy of an event.
pub fn copy_event(e: &TransitionEvent) -> (r: TransitionEvent)
    ensures
        r == *e,
{
    let reason = match &e.reason {
        Some(s) => Some(s.clone()),
        None => None,
    };
    TransitionEvent { from: e.from, to: e.to, cell: e.cell.clone(), reason }
}

/// Nothing leaves `Stopped`: once a Cell is stopped, no transition is allowed.
pub proof fn stopped_is_final(to: CellState)
    ensures
        !allowed(CellState::Stopped, to),
{
}

/// Every step of the activation path is allowed, so activation from any state on the
/// path can run to `Active`.
pub proof fn activation_path_steps_allowed(k: int)
    requires
        0 <= k < 7,
    ensures
        allowed(activation_path()[k], activation_path()[k + 1]),
{
}

/// A lifecycle's log always tells how its state was reached: a legal walk from
/// `Discovered` ending in the current state.
pub proof fn log_explains_state(lc: Lifecycle)
    requires
        lc.wf(),
    ensures
        lc.log().len() == 0 ==> lc.current() == CellState::Discovered,
        lc.log().len() > 0 ==> lc.log()[0].from == CellState::Discovered && lc.log().last().to
            == lc.current(),
        forall|k: int| 0 <= k < lc.log().len() ==> allowed(#[trigger] lc.log()[k].from, lc.log()[k].to),
{
}

} // verus!
