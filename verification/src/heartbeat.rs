//! The heartbeat: what the periodic driver has to do at each second.
//!
//! The driver sleeps, calls `beat`, and carries out what it answers. Running
//! the enforcer and looking at the schedule are left to every third beat.

use crate::pomodoro::{tick_completes, tick_fits, ticked, PomodoroPhase};
use crate::session::{locked, ManagerView, SessionManager};
use vstd::prelude::*;

verus! {

/// The number of beats from one enforcement to the next.
pub const ENFORCEMENT_INTERVAL: u8 = 3;

/// Counts the beats up to the next enforcement.
pub struct Heartbeat {
    count: u8,
}

/// What the driver has to do after a beat.
#[derive(Clone, Copy, Debug, PartialEq, Eq, Structural)]
pub struct HeartbeatActions {
    /// The Pomodoro phase that this beat completed, to be announced.
    pub completed_phase: Option<PomodoroPhase>,
    /// Whether to run the process enforcer now.
    pub enforce: bool,
    /// Whether to look for a scheduled session that should start now.
    pub check_schedule: bool,
}

/// Whether the timer can take one more tick: its count of work phases has
/// room for one more.
pub open spec fn can_tick(state: ManagerView) -> bool {
    tick_fits(state.pomodoro)
}

/// The state after a beat: the timer is one second further.
pub open spec fn after_beat(state: ManagerView) -> ManagerView {
    if can_tick(state) {
        ManagerView { pomodoro: ticked(state.pomodoro), ..state }
    } else {
        state
    }
}

/// What a beat with counter `count` asks of the driver in `state`. The
/// enforcer runs while a session is active; the schedule is looked at while
/// none is, so that a schedule never pre-empts a session.
pub open spec fn actions_of(state: ManagerView, count: u8) -> HeartbeatActions {
    HeartbeatActions {
        completed_phase: if can_tick(state) {
            tick_completes(state.pomodoro)
        } else {
            None
        },
        enforce: count == 0 && state.session is Some,
        check_schedule: count == 0 && state.session is None,
    }
}

impl Heartbeat {
    #[verifier::type_invariant]
    spec fn well_formed(self) -> bool {
        self.count < ENFORCEMENT_INTERVAL
    }

    /// The beats since the last enforcement.
    pub closed spec fn counter(&self) -> u8 {
        self.count
    }

    /// A heartbeat whose first beat enforces.
    pub fn new() -> (heartbeat: Self)
        ensures
            heartbeat.counter() == 0,
    {
        Heartbeat { count: 0 }
    }

    /// One beat: a second has passed. Ticks the timer of `manager`, whether or
    /// not the hardcore lock holds, and tells the driver what to do.
    pub fn beat(&mut self, manager: &mut SessionManager) -> (actions: HeartbeatActions)
        ensures
            actions == actions_of(old(manager)@, old(self).counter()),
            final(manager)@ == after_beat(old(manager)@),
            final(self).counter() == (old(self).counter() + 1) % (ENFORCEMENT_INTERVAL as int),
            locked(final(manager)@) == locked(old(manager)@),
    {
        proof {
            use_type_invariant(&*self);
        }
        let completed_phase = if manager.get_pomodoro_state().has_room_for_tick() {
            manager.pomodoro_tick()
        } else {
            None
        };
        let active = manager.has_active_session();
        let due = self.count == 0;
        self.count = if self.count + 1 == ENFORCEMENT_INTERVAL {
            0
        } else {
            self.count + 1
        };
        HeartbeatActions { completed_phase, enforce: due && active, check_schedule: due && !active }
    }
}

} // verus!
