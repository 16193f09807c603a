//! The Pomodoro timer: work phases and breaks that follow one another, one
//! second at a time.

use vstd::prelude::*;

verus! {

/// The phases of the Pomodoro timer.
#[derive(Clone, Copy, Debug, PartialEq, Eq, Structural)]
pub enum PomodoroPhase {
    Work,
    Break,
    LongBreak,
}

/// The Pomodoro timer. Durations and the time that remains are in seconds.
#[derive(Clone, Copy, Debug, PartialEq, Eq, Structural)]
pub struct PomodoroState {
    pub phase: PomodoroPhase,
    pub work_duration: i64,
    pub break_duration: i64,
    pub long_break_duration: i64,
    pub sessions_until_long_break: i32,
    pub completed_sessions: i32,
    pub time_remaining: i64,
    pub is_running: bool,
}

/// The timer as it starts out: 25 minutes of work, breaks of 5 and 15 minutes,
/// a long break after every fourth work phase, not running.
pub open spec fn default_pomodoro() -> PomodoroState {
    PomodoroState {
        phase: PomodoroPhase::Work,
        work_duration: 1500,
        break_duration: 300,
        long_break_duration: 900,
        sessions_until_long_break: 4,
        completed_sessions: 0,
        time_remaining: 1500,
        is_running: false,
    }
}

impl Default for PomodoroState {
    fn default() -> (state: Self)
        ensures
            state == default_pomodoro(),
    {
        PomodoroState {
            phase: PomodoroPhase::Work,
            work_duration: 1500,
            break_duration: 300,
            long_break_duration: 900,
            sessions_until_long_break: 4,
            completed_sessions: 0,
            time_remaining: 1500,
            is_running: false,
        }
    }
}

/// A timer whose numbers make sense: no negative duration, no negative time
/// left, at least one work phase before a long break, no negative count.
pub open spec fn pomodoro_valid(state: PomodoroState) -> bool {
    &&& state.work_duration >= 0
    &&& state.break_duration >= 0
    &&& state.long_break_duration >= 0
    &&& state.sessions_until_long_break >= 1
    &&& state.completed_sessions >= 0
    &&& state.time_remaining >= 0
}

/// The configured length of `phase`.
pub open spec fn duration_of(state: PomodoroState, phase: PomodoroPhase) -> i64 {
    match phase {
        PomodoroPhase::Work => state.work_duration,
        PomodoroPhase::Break => state.break_duration,
        PomodoroPhase::LongBreak => state.long_break_duration,
    }
}

/// The phase that follows the current one: after work a break, a long one
/// after every `sessions_until_long_break`-th work phase; after a break, work.
pub open spec fn next_phase(state: PomodoroState) -> PomodoroPhase {
    match state.phase {
        PomodoroPhase::Work => if (state.completed_sessions + 1)
            % (state.sessions_until_long_break as int) == 0 {
            PomodoroPhase::LongBreak
        } else {
            PomodoroPhase::Break
        },
        PomodoroPhase::Break => PomodoroPhase::Work,
        PomodoroPhase::LongBreak => PomodoroPhase::Work,
    }
}

/// The timer after its phase has ended: the next phase begins with its full
/// duration, and a work phase that ended is counted.
pub open spec fn switched(state: PomodoroState) -> PomodoroState {
    PomodoroState {
        phase: next_phase(state),
        completed_sessions: if state.phase == PomodoroPhase::Work {
            (state.completed_sessions + 1) as i32
        } else {
            state.completed_sessions
        },
        time_remaining: duration_of(state, next_phase(state)),
        ..state
    }
}

/// The seconds left after one more second has passed.
pub open spec fn seconds_left(state: PomodoroState) -> i64 {
    if state.time_remaining > 0 {
        (state.time_remaining - 1) as i64
    } else {
        state.time_remaining
    }
}

/// The timer one second later. A timer that is not running stays as it is;
/// a running one loses a second and, where none is left, switches phase.
pub open spec fn ticked(state: PomodoroState) -> PomodoroState {
    if !state.is_running {
        state
    } else if seconds_left(state) == 0 {
        switched(state)
    } else {
        PomodoroState { time_remaining: seconds_left(state), ..state }
    }
}

/// The phase that a tick reports as completed, if it completes one.
pub open spec fn tick_completes(state: PomodoroState) -> Option<PomodoroPhase> {
    if state.is_running && seconds_left(state) == 0 {
        Some(state.phase)
    } else {
        None
    }
}

/// The timer after a reset: the current phase starts over and the timer stops.
pub open spec fn reset(state: PomodoroState) -> PomodoroState {
    PomodoroState {
        time_remaining: duration_of(state, state.phase),
        is_running: false,
        ..state
    }
}

/// Whether the four numbers can configure a timer.
pub open spec fn configuration_valid(work: i64, short_break: i64, long_break: i64, sessions: i32) -> bool {
    work >= 0 && short_break >= 0 && long_break >= 0 && sessions >= 1
}

/// The timer with new durations. The time that remains starts over only in a
/// work phase; a break that is running goes on.
pub open spec fn configured(
    state: PomodoroState,
    work: i64,
    short_break: i64,
    long_break: i64,
    sessions: i32,
) -> PomodoroState {
    PomodoroState {
        work_duration: work,
        break_duration: short_break,
        long_break_duration: long_break,
        sessions_until_long_break: sessions,
        time_remaining: if state.phase == PomodoroPhase::Work {
            work
        } else {
            state.time_remaining
        },
        ..state
    }
}

/// Whether a tick ends a work phase, and so counts one more.
pub open spec fn ends_work(state: PomodoroState) -> bool {
    state.is_running && seconds_left(state) == 0 && state.phase == PomodoroPhase::Work
}

/// Whether the count of work phases has room for what a tick adds to it: only
/// a tick that ends a work phase adds one.
pub open spec fn tick_fits(state: PomodoroState) -> bool {
    ends_work(state) ==> state.completed_sessions < i32::MAX
}

impl PomodoroState {
    /// Whether the count of work phases has room for what a tick adds to it.
    pub fn has_room_for_tick(self) -> (fits: bool)
        ensures
            fits == tick_fits(self),
    {
        let left = if self.time_remaining > 0 {
            self.time_remaining - 1
        } else {
            self.time_remaining
        };
        let counts = self.is_running && left == 0 && self.phase == PomodoroPhase::Work;
        !counts || self.completed_sessions < i32::MAX
    }

    /// The timer one second later, and the phase that this second completed,
    /// if any.
    pub fn after_tick(self) -> (r: (PomodoroState, Option<PomodoroPhase>))
        requires
            pomodoro_valid(self),
            tick_fits(self),
        ensures
            r.0 == ticked(self),
            r.1 == tick_completes(self),
            pomodoro_valid(r.0),
    {
        if !self.is_running {
            return (self, None);
        }
        let left = if self.time_remaining > 0 {
            self.time_remaining - 1
        } else {
            self.time_remaining
        };
        if left != 0 {
            return (PomodoroState { time_remaining: left, ..self }, None);
        }
        let next = match self.phase {
            PomodoroPhase::Work => {
                let done = self.completed_sessions + 1;
                if done % self.sessions_until_long_break == 0 {
                    PomodoroState {
                        phase: PomodoroPhase::LongBreak,
                        completed_sessions: done,
                        time_remaining: self.long_break_duration,
                        ..self
                    }
                } else {
                    PomodoroState {
                        phase: PomodoroPhase::Break,
                        completed_sessions: done,
                        time_remaining: self.break_duration,
                        ..self
                    }
                }
            },
            PomodoroPhase::Break => PomodoroState {
                phase: PomodoroPhase::Work,
                time_remaining: self.work_duration,
                ..self
            },
            PomodoroPhase::LongBreak => PomodoroState {
                phase: PomodoroPhase::Work,
                time_remaining: self.work_duration,
                ..self
            },
        };
        (next, Some(self.phase))
    }

    /// The timer with its current phase started over, stopped.
    pub fn after_reset(self) -> (r: PomodoroState)
        ensures
            r == reset(self),
            pomodoro_valid(self) ==> pomodoro_valid(r),
    {
        let full = match self.phase {
            PomodoroPhase::Work => self.work_duration,
            PomodoroPhase::Break => self.break_duration,
            PomodoroPhase::LongBreak => self.long_break_duration,
        };
        PomodoroState { time_remaining: full, is_running: false, ..self }
    }

    /// The timer with new durations.
    pub fn with_durations(self, work: i64, short_break: i64, long_break: i64, sessions: i32) -> (r:
        PomodoroState)
        ensures
            r == configured(self, work, short_break, long_break, sessions),
            pomodoro_valid(self) && configuration_valid(work, short_break, long_break, sessions)
                ==> pomodoro_valid(r),
    {
        PomodoroState {
            work_duration: work,
            break_duration: short_break,
            long_break_duration: long_break,
            sessions_until_long_break: sessions,
            time_remaining: if self.phase == PomodoroPhase::Work {
                work
            } else {
                self.time_remaining
            },
            ..self
        }
    }
}

} // verus!
