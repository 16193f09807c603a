//! What holds of the session state machine and the Pomodoro timer for every
//! state.

use crate::pomodoro::{
    next_phase, pomodoro_valid, seconds_left, tick_completes, tick_fits, ticked, PomodoroPhase,
    PomodoroState,
};
use crate::session::{
    after_end, after_start, configure_outcome, control_outcome, end_outcome, locked,
    start_outcome, with_pomodoro, ManagerView,
};
use vstd::prelude::*;

verus! {

/// A hardcore session that was started cannot be ended before its end time:
/// the attempt is refused and changes nothing. From its end time on, ending it
/// succeeds and leaves no session and no lock.
pub proof fn law_hardcore_lock(
    state: ManagerView,
    now: i64,
    name: Seq<char>,
    duration_minutes: i64,
    later: i64,
)
    requires
        start_outcome(state, now, name, duration_minutes, true) is Ok,
    ensures
        locked(after_start(state, now, name, duration_minutes, true)),
        later < now + duration_minutes * 60 ==> end_outcome(
            after_start(state, now, name, duration_minutes, true),
            later,
        ) is Err && after_end(after_start(state, now, name, duration_minutes, true), later)
            == after_start(state, now, name, duration_minutes, true),
        later >= now + duration_minutes * 60 ==> end_outcome(
            after_start(state, now, name, duration_minutes, true),
            later,
        ) is Ok && after_end(after_start(state, now, name, duration_minutes, true), later).session
            is None && !locked(
            after_end(after_start(state, now, name, duration_minutes, true), later),
        ),
{
}

/// A session that is not hardcore can be ended at any time.
pub proof fn law_plain_session_ends(state: ManagerView, now: i64)
    requires
        !locked(state),
    ensures
        end_outcome(state, now) is Ok,
        after_end(state, now).session is None,
{
}

/// While the hardcore lock holds, no session can be started in place of the
/// locked one, and the timer can be neither started, paused, reset nor
/// configured: each attempt is refused and leaves the state as it was.
pub proof fn law_lock_refuses_changes(
    state: ManagerView,
    now: i64,
    name: Seq<char>,
    duration_minutes: i64,
    hardcore: bool,
    pomodoro: PomodoroState,
    work: i64,
    short_break: i64,
    long_break: i64,
    sessions: i32,
)
    requires
        locked(state),
    ensures
        start_outcome(state, now, name, duration_minutes, hardcore) is Err,
        after_start(state, now, name, duration_minutes, hardcore) == state,
        control_outcome(state) is Err,
        with_pomodoro(state, pomodoro) == state,
        configure_outcome(state, work, short_break, long_break, sessions) is Err,
{
}

/// The lock holds exactly while the active session is hardcore; starting and
/// ending a session never touch the timer.
pub proof fn law_sessions_leave_timer(
    state: ManagerView,
    now: i64,
    name: Seq<char>,
    duration_minutes: i64,
    hardcore: bool,
)
    ensures
        after_start(state, now, name, duration_minutes, hardcore).pomodoro == state.pomodoro,
        after_end(state, now).pomodoro == state.pomodoro,
        start_outcome(state, now, name, duration_minutes, hardcore) is Ok ==> locked(
            after_start(state, now, name, duration_minutes, hardcore),
        ) == hardcore,
{
}

/// A tick keeps a valid timer valid: the time that remains never falls below
/// zero.
pub proof fn law_tick_keeps_valid(state: PomodoroState)
    requires
        pomodoro_valid(state),
        tick_fits(state),
    ensures
        pomodoro_valid(ticked(state)),
        ticked(state).time_remaining >= 0,
{
}

/// A tick changes the phase only where the timer runs and no second is left,
/// and exactly then it reports the phase that ended. A tick that does not
/// change the phase reports nothing and takes at most one second away.
pub proof fn law_phase_changes_at_zero(state: PomodoroState)
    requires
        pomodoro_valid(state),
        tick_fits(state),
    ensures
        ticked(state).phase != state.phase <==> state.is_running && seconds_left(state) == 0,
        tick_completes(state) is Some <==> ticked(state).phase != state.phase,
        tick_completes(state) matches Some(phase) ==> phase == state.phase,
        tick_completes(state) is None ==> ticked(state).completed_sessions
            == state.completed_sessions && state.time_remaining - 1 <= ticked(state).time_remaining
            <= state.time_remaining,
        !state.is_running ==> ticked(state) == state,
{
}

/// The phases follow one another as work, break, work: a work phase is
/// followed by a long break where the count of finished work phases reaches a
/// multiple of `sessions_until_long_break`, else by a short one; a break is
/// followed by work. Only a work phase that ends is counted.
pub proof fn law_phase_cycle(state: PomodoroState)
    requires
        pomodoro_valid(state),
        tick_fits(state),
        state.is_running,
        seconds_left(state) == 0,
    ensures
        state.phase != PomodoroPhase::Work ==> ticked(state).phase == PomodoroPhase::Work
            && ticked(state).completed_sessions == state.completed_sessions && ticked(
            state,
        ).time_remaining == state.work_duration,
        state.phase == PomodoroPhase::Work ==> ticked(state).completed_sessions
            == state.completed_sessions + 1,
        state.phase == PomodoroPhase::Work && (state.completed_sessions + 1)
            % (state.sessions_until_long_break as int) == 0 ==> ticked(state).phase
            == PomodoroPhase::LongBreak && ticked(state).time_remaining
            == state.long_break_duration,
        state.phase == PomodoroPhase::Work && (state.completed_sessions + 1)
            % (state.sessions_until_long_break as int) != 0 ==> ticked(state).phase
            == PomodoroPhase::Break && ticked(state).time_remaining == state.break_duration,
        ticked(state).phase == next_phase(state),
{
}

} // verus!
