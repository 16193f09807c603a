//! Focus sessions and the Pomodoro timer: one state object that says whether a
//! session is active, whether it is locked, and where the timer stands.
//!
//! Every transition is stated over the manager's view. The functions with a
//! name that ends in `_at` take the time as an argument; those without read
//! the clock and then do what the `_at` function does.

use crate::clock::{local_now, LocalMoment};
use crate::pomodoro::{
    configuration_valid, configured, default_pomodoro, pomodoro_valid, reset, tick_completes,
    tick_fits, ticked, PomodoroPhase, PomodoroState,
};
use crate::schedule::{
    first_applicable, naive_time, rule_applies, rule_applies_at, scheduled_session_at, time_format,
    window_end,
};
use crate::storage::Session;
use crate::text::{append_decimal, decimal};
use vstd::prelude::*;
use vstd::string::*;

verus! {

/// How a session came to be.
#[derive(Clone, Copy, Debug, PartialEq, Eq, Structural)]
pub enum SessionType {
    Manual,
    Scheduled,
    Pomodoro,
}

/// The focus session that is running. Times are seconds since the Unix epoch.
#[derive(Debug)]
pub struct ActiveSession {
    pub id: String,
    pub name: String,
    pub start_time: i64,
    pub end_time: i64,
    pub hardcore: bool,
    pub session_type: SessionType,
}

/// A session as plain values.
pub struct SessionView {
    pub id: Seq<char>,
    pub name: Seq<char>,
    pub start_time: i64,
    pub end_time: i64,
    pub hardcore: bool,
    pub session_type: SessionType,
}

impl View for ActiveSession {
    type V = SessionView;

    open spec fn view(&self) -> SessionView {
        SessionView {
            id: self.id@,
            name: self.name@,
            start_time: self.start_time,
            end_time: self.end_time,
            hardcore: self.hardcore,
            session_type: self.session_type,
        }
    }
}

impl Clone for ActiveSession {
    fn clone(&self) -> (r: Self)
        ensures
            r == *self,
    {
        ActiveSession {
            id: self.id.clone(),
            name: self.name.clone(),
            start_time: self.start_time,
            end_time: self.end_time,
            hardcore: self.hardcore,
            session_type: self.session_type,
        }
    }
}

/// What the manager holds: the active session, if any, and the timer.
pub struct ManagerView {
    pub session: Option<SessionView>,
    pub pomodoro: PomodoroState,
}

/// The hardcore lock: true while a hardcore session is active.
pub open spec fn locked(state: ManagerView) -> bool {
    state.session matches Some(session) && session.hardcore
}

/// The message for ending a hardcore session too early.
pub open spec fn early_end_refusal() -> Seq<char> {
    "Cannot end hardcore session before time expires"@
}

/// The message for starting a session while one is active.
pub open spec fn active_refusal() -> Seq<char> {
    "Cannot start a session while another one is active"@
}

/// The message for a session whose end cannot be represented.
pub open spec fn duration_refusal() -> Seq<char> {
    "Session duration is out of range"@
}

/// The message for changing the timer while the hardcore lock holds.
pub open spec fn locked_refusal() -> Seq<char> {
    "Cannot change the timer during a hardcore session"@
}

/// The message for timer settings that make no sense.
pub open spec fn configuration_refusal() -> Seq<char> {
    "Invalid timer configuration"@
}

/// The message for a forced end without a verified password.
pub open spec fn unverified_refusal() -> Seq<char> {
    "Master password verification failed"@
}

/// The identifier of a session started at `now`.
pub open spec fn session_id(now: i64) -> Seq<char> {
    "session_"@ + decimal(now as int)
}

/// Whether a session of `duration_minutes` that starts at `now` ends at a time
/// that an `i64` holds.
pub open spec fn end_fits(now: i64, duration_minutes: i64) -> bool {
    i64::MIN <= now + duration_minutes * 60 <= i64::MAX
}

/// The manual session that starts at `now`.
pub open spec fn manual_session(
    now: i64,
    name: Seq<char>,
    duration_minutes: i64,
    hardcore: bool,
) -> SessionView {
    SessionView {
        id: session_id(now),
        name,
        start_time: now,
        end_time: (now + duration_minutes * 60) as i64,
        hardcore,
        session_type: SessionType::Manual,
    }
}

/// What starting a session gives: the new session, or the reason why none was
/// started. A session starts only where none is active.
pub open spec fn start_outcome(
    state: ManagerView,
    now: i64,
    name: Seq<char>,
    duration_minutes: i64,
    hardcore: bool,
) -> Result<SessionView, Seq<char>> {
    if state.session is Some {
        Err(active_refusal())
    } else if !end_fits(now, duration_minutes) {
        Err(duration_refusal())
    } else {
        Ok(manual_session(now, name, duration_minutes, hardcore))
    }
}

/// The state after an attempt to start a session.
pub open spec fn after_start(
    state: ManagerView,
    now: i64,
    name: Seq<char>,
    duration_minutes: i64,
    hardcore: bool,
) -> ManagerView {
    match start_outcome(state, now, name, duration_minutes, hardcore) {
        Ok(session) => ManagerView { session: Some(session), ..state },
        Err(_) => state,
    }
}

/// What ending the session at `now` gives: it is refused while a hardcore
/// session has not reached its end.
pub open spec fn end_outcome(state: ManagerView, now: i64) -> Result<(), Seq<char>> {
    match state.session {
        Some(session) => if session.hardcore && now < session.end_time {
            Err(early_end_refusal())
        } else {
            Ok(())
        },
        None => Ok(()),
    }
}

/// The state after an attempt to end the session at `now`.
pub open spec fn after_end(state: ManagerView, now: i64) -> ManagerView {
    match end_outcome(state, now) {
        Ok(_) => ManagerView { session: None, ..state },
        Err(_) => state,
    }
}

/// The seconds that the session has left at `now`: none once its end is
/// reached, and at most what an `i64` holds.
pub open spec fn remaining_at(state: ManagerView, now: i64) -> Option<i64> {
    match state.session {
        Some(session) => if session.end_time <= now {
            Some(0i64)
        } else if session.end_time - now > i64::MAX {
            Some(i64::MAX)
        } else {
            Some((session.end_time - now) as i64)
        },
        None => None,
    }
}

/// Whether no session is left running at `now`.
pub open spec fn expired_at(state: ManagerView, now: i64) -> bool {
    match state.session {
        Some(session) => session.end_time <= now,
        None => true,
    }
}

/// The state after a change to the timer that the hardcore lock refuses.
pub open spec fn with_pomodoro(state: ManagerView, pomodoro: PomodoroState) -> ManagerView {
    if locked(state) {
        state
    } else {
        ManagerView { pomodoro, ..state }
    }
}

/// What a change to the timer gives: refused while the hardcore lock holds.
pub open spec fn control_outcome(state: ManagerView) -> Result<(), Seq<char>> {
    if locked(state) {
        Err(locked_refusal())
    } else {
        Ok(())
    }
}

/// What configuring the timer gives: refused while the hardcore lock holds,
/// and for numbers that cannot configure a timer.
pub open spec fn configure_outcome(
    state: ManagerView,
    work: i64,
    short_break: i64,
    long_break: i64,
    sessions: i32,
) -> Result<(), Seq<char>> {
    if locked(state) {
        Err(locked_refusal())
    } else if !configuration_valid(work, short_break, long_break, sessions) {
        Err(configuration_refusal())
    } else {
        Ok(())
    }
}

/// The rule that asks for a session at `moment`: the first of `rules` that
/// applies, and none while a session is active.
pub open spec fn scheduled_at(
    state: ManagerView,
    rules: Seq<Session>,
    moment: LocalMoment,
) -> Option<Session> {
    if state.session is Some {
        None
    } else {
        first_applicable(rules, moment)
    }
}

/// The message for changing the blocklist or the schedule while the hardcore
/// lock holds.
pub open spec fn mutation_refusal() -> Seq<char> {
    "Cannot change the blocklist or the schedule during a hardcore session"@
}

/// The message for a rule that does not ask for a session.
pub open spec fn schedule_refusal() -> Seq<char> {
    "No scheduled session applies now"@
}

/// The time at which a session that `rule` asks for at `moment` ends: the end
/// of the rule's window on the day of `moment`.
pub open spec fn scheduled_end(rule: Session, moment: LocalMoment) -> int {
    match naive_time(rule.end_time@, time_format()) {
        Some(end) => moment.timestamp + end.0 - moment.seconds,
        None => moment.timestamp as int,
    }
}

/// What starting the session of `rule` at `moment` gives: the new session,
/// which carries the rule's name and lock and lasts to the end of its window,
/// or the reason why none was started. A rule starts a session only where
/// none is active and the rule applies.
pub open spec fn scheduled_start_outcome(
    state: ManagerView,
    rule: Session,
    moment: LocalMoment,
) -> Result<SessionView, Seq<char>> {
    if state.session is Some {
        Err(active_refusal())
    } else if !rule_applies(rule, moment) {
        Err(schedule_refusal())
    } else if !(i64::MIN <= scheduled_end(rule, moment) <= i64::MAX) {
        Err(duration_refusal())
    } else {
        Ok(
            SessionView {
                id: session_id(moment.timestamp),
                name: rule.name@,
                start_time: moment.timestamp,
                end_time: scheduled_end(rule, moment) as i64,
                hardcore: rule.hardcore,
                session_type: SessionType::Scheduled,
            },
        )
    }
}

/// What looking at the schedule at `moment` starts: the session of the rule
/// that is due, if one is due and can be started.
pub open spec fn due_session(
    state: ManagerView,
    rules: Seq<Session>,
    moment: LocalMoment,
) -> Option<SessionView> {
    match scheduled_at(state, rules, moment) {
        Some(rule) => match scheduled_start_outcome(state, rule, moment) {
            Ok(session) => Some(session),
            Err(_) => None,
        },
        None => None,
    }
}

/// Whether `result` reports `outcome`: success for success, and a refusal with
/// the same message.
pub open spec fn reports(result: Result<(), String>, outcome: Result<(), Seq<char>>) -> bool {
    match outcome {
        Ok(_) => result is Ok,
        Err(reason) => result matches Err(message) && message@ == reason,
    }
}

/// The one owner of the session state: the active session, the hardcore lock
/// and the Pomodoro timer.
pub struct SessionManager {
    active_session: Option<ActiveSession>,
    pomodoro_state: PomodoroState,
    is_hardcore_locked: bool,
}

impl View for SessionManager {
    type V = ManagerView;

    closed spec fn view(&self) -> ManagerView {
        ManagerView {
            session: match self.active_session {
                Some(session) => Some(session@),
                None => None,
            },
            pomodoro: self.pomodoro_state,
        }
    }
}

impl SessionManager {
    #[verifier::type_invariant]
    spec fn well_formed(self) -> bool {
        &&& pomodoro_valid(self.pomodoro_state)
        &&& self.is_hardcore_locked == locked(self@)
    }

    /// A manager without session, with the timer as it starts out.
    pub fn new() -> (manager: Self)
        ensures
            manager@ == (ManagerView { session: None, pomodoro: default_pomodoro() }),
    {
        SessionManager {
            active_session: None,
            pomodoro_state: PomodoroState::default(),
            is_hardcore_locked: false,
        }
    }

    /// Whether the hardcore lock holds. Commands that change the blocklist or
    /// the schedule ask this first.
    pub fn is_hardcore_locked(&self) -> (held: bool)
        ensures
            held == locked(self@),
    {
        proof {
            use_type_invariant(self);
        }
        self.is_hardcore_locked
    }

    /// Asks leave to change the blocklist or the list of scheduled sessions:
    /// refused while the hardcore lock holds.
    pub fn allow_mutation(&self) -> (result: Result<(), String>)
        ensures
            reports(
                result,
                if locked(self@) {
                    Err(mutation_refusal())
                } else {
                    Ok(())
                },
            ),
    {
        if self.is_hardcore_locked() {
            Err("Cannot change the blocklist or the schedule during a hardcore session".to_owned())
        } else {
            Ok(())
        }
    }

    /// Whether a session is active.
    pub fn has_active_session(&self) -> (active: bool)
        ensures
            active == self@.session is Some,
    {
        self.active_session.is_some()
    }

    /// The active session, if any.
    pub fn active_session(&self) -> (session: Option<ActiveSession>)
        ensures
            match session {
                Some(active) => self@.session == Some(active@),
                None => self@.session is None,
            },
    {
        match &self.active_session {
            Some(active) => Some(active.clone()),
            None => None,
        }
    }

    /// Starts a manual session at `now`, unless one is active or its end would
    /// not fit an `i64`. A hardcore session sets the lock.
    pub fn start_session_at(
        &mut self,
        now: i64,
        name: String,
        duration_minutes: i64,
        hardcore: bool,
    ) -> (result: Result<ActiveSession, String>)
        ensures
            final(self)@ == after_start(old(self)@, now, name@, duration_minutes, hardcore),
            match start_outcome(old(self)@, now, name@, duration_minutes, hardcore) {
                Ok(session) => result matches Ok(started) && started@ == session,
                Err(reason) => result matches Err(message) && message@ == reason,
            },
    {
        proof {
            use_type_invariant(&*self);
        }
        if self.active_session.is_some() {
            return Err("Cannot start a session while another one is active".to_owned());
        }
        let end: i128 = now as i128 + duration_minutes as i128 * 60;
        if end < i64::MIN as i128 || end > i64::MAX as i128 {
            return Err("Session duration is out of range".to_owned());
        }
        let mut id = "session_".to_owned();
        append_decimal(&mut id, now);
        let session = ActiveSession {
            id,
            name,
            start_time: now,
            end_time: end as i64,
            hardcore,
            session_type: SessionType::Manual,
        };
        let started = session.clone();
        *self = SessionManager {
            active_session: Some(session),
            pomodoro_state: self.pomodoro_state,
            is_hardcore_locked: hardcore,
        };
        Ok(started)
    }

    /// Starts a manual session now. It does what `start_session_at` does with
    /// the time that the clock gives.
    pub fn start_session(&mut self, name: String, duration_minutes: i64, hardcore: bool) -> (result:
        Result<ActiveSession, String>)
        ensures
            exists|now: i64|
                {
                    &&& final(self)@ == after_start(
                        old(self)@,
                        now,
                        name@,
                        duration_minutes,
                        hardcore,
                    )
                    &&& match #[trigger] start_outcome(
                        old(self)@,
                        now,
                        name@,
                        duration_minutes,
                        hardcore,
                    ) {
                        Ok(session) => result matches Ok(started) && started@ == session,
                        Err(reason) => result matches Err(message) && message@ == reason,
                    }
                },
            old(self)@.session is Some ==> result is Err && final(self)@ == old(self)@,
    {
        let now = local_now().timestamp;
        self.start_session_at(now, name, duration_minutes, hardcore)
    }

    /// Ends the session at `now`. A hardcore session that has not reached its
    /// end stays, and the attempt is refused. Ending clears the lock.
    pub fn end_session_at(&mut self, now: i64) -> (result: Result<(), String>)
        ensures
            final(self)@ == after_end(old(self)@, now),
            reports(result, end_outcome(old(self)@, now)),
    {
        proof {
            use_type_invariant(&*self);
        }
        let refused = match &self.active_session {
            Some(session) => session.hardcore && now < session.end_time,
            None => false,
        };
        if refused {
            return Err("Cannot end hardcore session before time expires".to_owned());
        }
        *self = SessionManager {
            active_session: None,
            pomodoro_state: self.pomodoro_state,
            is_hardcore_locked: false,
        };
        Ok(())
    }

    /// Ends the session now. It does what `end_session_at` does with the time
    /// that the clock gives.
    pub fn end_session(&mut self) -> (result: Result<(), String>)
        ensures
            exists|now: i64|
                final(self)@ == after_end(old(self)@, now) && reports(
                    result,
                    #[trigger] end_outcome(old(self)@, now),
                ),
            !locked(old(self)@) ==> result is Ok && final(self)@.session is None,
    {
        let now = local_now().timestamp;
        self.end_session_at(now)
    }

    /// Ends the session whatever time is left, once the master password has
    /// been verified; refused where it has not.
    pub fn force_end_session(&mut self, verified: bool) -> (result: Result<(), String>)
        ensures
            verified ==> result is Ok && final(self)@ == (ManagerView {
                session: None,
                ..old(self)@
            }),
            !verified ==> final(self)@ == old(self)@ && reports(
                result,
                Err(unverified_refusal()),
            ),
    {
        proof {
            use_type_invariant(&*self);
        }
        if !verified {
            return Err("Master password verification failed".to_owned());
        }
        *self = SessionManager {
            active_session: None,
            pomodoro_state: self.pomodoro_state,
            is_hardcore_locked: false,
        };
        Ok(())
    }

    /// Ends the session now: whatever time is left where the master password
    /// has been verified, and else as `end_session` does.
    pub fn end_focus_session(&mut self, verified: bool) -> (result: Result<(), String>)
        ensures
            verified ==> result is Ok && final(self)@ == (ManagerView {
                session: None,
                ..old(self)@
            }),
            !verified ==> exists|now: i64|
                final(self)@ == after_end(old(self)@, now) && reports(
                    result,
                    #[trigger] end_outcome(old(self)@, now),
                ),
    {
        if verified {
            self.force_end_session(true)
        } else {
            self.end_session()
        }
    }

    /// The seconds that the session has left at `now`.
    pub fn time_remaining_at(&self, now: i64) -> (remaining: Option<i64>)
        ensures
            remaining == remaining_at(self@, now),
    {
        match &self.active_session {
            Some(session) => {
                if session.end_time <= now {
                    Some(0)
                } else {
                    let left: i128 = session.end_time as i128 - now as i128;
                    if left > i64::MAX as i128 {
                        Some(i64::MAX)
                    } else {
                        Some(left as i64)
                    }
                }
            },
            None => None,
        }
    }

    /// The seconds that the session has left now.
    pub fn get_time_remaining(&self) -> (remaining: Option<i64>)
        ensures
            exists|now: i64| remaining == #[trigger] remaining_at(self@, now),
            remaining is Some <==> self@.session is Some,
    {
        let now = local_now().timestamp;
        self.time_remaining_at(now)
    }

    /// Whether no session is left running at `now`.
    pub fn is_session_expired_at(&self, now: i64) -> (expired: bool)
        ensures
            expired == expired_at(self@, now),
    {
        match self.time_remaining_at(now) {
            Some(remaining) => remaining <= 0,
            None => true,
        }
    }

    /// Whether no session is left running now.
    pub fn is_session_expired(&self) -> (expired: bool)
        ensures
            exists|now: i64| expired == #[trigger] expired_at(self@, now),
            self@.session is None ==> expired,
    {
        let now = local_now().timestamp;
        self.is_session_expired_at(now)
    }

    /// The scheduled session that should be active at `moment`: the first
    /// enabled rule whose days and window hold it. A session that is active
    /// is never pre-empted: then there is none.
    pub fn check_scheduled_sessions_at(&self, sessions: &[Session], moment: &LocalMoment) -> (found:
        Option<Session>)
        ensures
            found == scheduled_at(self@, sessions@, *moment),
    {
        if self.active_session.is_some() {
            return None;
        }
        scheduled_session_at(sessions, moment)
    }

    /// The scheduled session that should be active now.
    pub fn check_scheduled_sessions(&self, sessions: &[Session]) -> (found: Option<Session>)
        ensures
            exists|moment: LocalMoment| found == #[trigger] scheduled_at(self@, sessions@, moment),
            self@.session is Some ==> found is None,
    {
        let moment = local_now();
        self.check_scheduled_sessions_at(sessions, &moment)
    }

    /// Starts the session that `rule` asks for at `moment`, unless a session is
    /// active or the rule does not apply. A hardcore rule sets the lock.
    pub fn start_scheduled_session(&mut self, rule: &Session, moment: &LocalMoment) -> (result:
        Result<ActiveSession, String>)
        ensures
            match scheduled_start_outcome(old(self)@, *rule, *moment) {
                Ok(session) => result matches Ok(started) && started@ == session && final(self)@
                    == (ManagerView { session: Some(session), ..old(self)@ }),
                Err(reason) => result matches Err(message) && message@ == reason && final(self)@
                    == old(self)@,
            },
    {
        proof {
            use_type_invariant(&*self);
        }
        if self.active_session.is_some() {
            return Err("Cannot start a session while another one is active".to_owned());
        }
        if !rule_applies_at(rule, moment) {
            return Err("No scheduled session applies now".to_owned());
        }
        let end: i128 = match window_end(rule) {
            Some(end) => moment.timestamp as i128 + end.0 as i128 - moment.seconds as i128,
            None => moment.timestamp as i128,
        };
        if end < i64::MIN as i128 || end > i64::MAX as i128 {
            return Err("Session duration is out of range".to_owned());
        }
        let mut id = "session_".to_owned();
        append_decimal(&mut id, moment.timestamp);
        let session = ActiveSession {
            id,
            name: rule.name.clone(),
            start_time: moment.timestamp,
            end_time: end as i64,
            hardcore: rule.hardcore,
            session_type: SessionType::Scheduled,
        };
        let started = session.clone();
        *self = SessionManager {
            active_session: Some(session),
            pomodoro_state: self.pomodoro_state,
            is_hardcore_locked: rule.hardcore,
        };
        Ok(started)
    }

    /// Looks at the schedule at `moment` and starts the session that is due.
    /// Nothing changes where none is due.
    pub fn start_due_session_at(&mut self, sessions: &[Session], moment: &LocalMoment) -> (started:
        Option<ActiveSession>)
        ensures
            match due_session(old(self)@, sessions@, *moment) {
                Some(session) => started matches Some(active) && active@ == session
                    && final(self)@ == (ManagerView { session: Some(session), ..old(self)@ }),
                None => started is None && final(self)@ == old(self)@,
            },
    {
        match self.check_scheduled_sessions_at(sessions, moment) {
            Some(rule) => match self.start_scheduled_session(&rule, moment) {
                Ok(session) => Some(session),
                Err(_) => None,
            },
            None => None,
        }
    }

    /// Looks at the schedule now and starts the session that is due.
    pub fn start_due_session(&mut self, sessions: &[Session]) -> (started: Option<ActiveSession>)
        ensures
            exists|moment: LocalMoment|
                match #[trigger] due_session(old(self)@, sessions@, moment) {
                    Some(session) => started matches Some(active) && active@ == session
                        && final(self)@ == (ManagerView {
                        session: Some(session),
                        ..old(self)@
                    }),
                    None => started is None && final(self)@ == old(self)@,
                },
            old(self)@.session is Some ==> started is None && final(self)@ == old(self)@,
    {
        let moment = local_now();
        self.start_due_session_at(sessions, &moment)
    }

    /// Starts or resumes the timer; refused while the hardcore lock holds.
    pub fn pomodoro_start(&mut self) -> (result: Result<(), String>)
        ensures
            reports(result, control_outcome(old(self)@)),
            final(self)@ == with_pomodoro(
                old(self)@,
                PomodoroState { is_running: true, ..old(self)@.pomodoro },
            ),
    {
        proof {
            use_type_invariant(&*self);
        }
        if self.is_hardcore_locked {
            return Err("Cannot change the timer during a hardcore session".to_owned());
        }
        self.pomodoro_state.is_running = true;
        Ok(())
    }

    /// Pauses the timer; refused while the hardcore lock holds.
    pub fn pomodoro_pause(&mut self) -> (result: Result<(), String>)
        ensures
            reports(result, control_outcome(old(self)@)),
            final(self)@ == with_pomodoro(
                old(self)@,
                PomodoroState { is_running: false, ..old(self)@.pomodoro },
            ),
    {
        proof {
            use_type_invariant(&*self);
        }
        if self.is_hardcore_locked {
            return Err("Cannot change the timer during a hardcore session".to_owned());
        }
        self.pomodoro_state.is_running = false;
        Ok(())
    }

    /// Starts the current phase over and stops the timer; refused while the
    /// hardcore lock holds.
    pub fn pomodoro_reset(&mut self) -> (result: Result<(), String>)
        ensures
            reports(result, control_outcome(old(self)@)),
            final(self)@ == with_pomodoro(old(self)@, reset(old(self)@.pomodoro)),
    {
        proof {
            use_type_invariant(&*self);
        }
        if self.is_hardcore_locked {
            return Err("Cannot change the timer during a hardcore session".to_owned());
        }
        self.pomodoro_state = self.pomodoro_state.after_reset();
        Ok(())
    }

    /// Lets one second pass on the timer and reports the phase that this
    /// completed, if any. The hardcore lock does not stop the tick.
    pub fn pomodoro_tick(&mut self) -> (completed: Option<PomodoroPhase>)
        requires
            tick_fits(old(self)@.pomodoro),
        ensures
            completed == tick_completes(old(self)@.pomodoro),
            final(self)@ == (ManagerView {
                pomodoro: ticked(old(self)@.pomodoro),
                ..old(self)@
            }),
    {
        proof {
            use_type_invariant(&*self);
        }
        let (next, completed) = self.pomodoro_state.after_tick();
        self.pomodoro_state = next;
        completed
    }

    /// Sets the durations of the timer; refused while the hardcore lock holds
    /// and for a negative duration or fewer than one session.
    pub fn pomodoro_configure(&mut self, work: i64, short_break: i64, long_break: i64, sessions: i32) -> (result:
        Result<(), String>)
        ensures
            reports(result, configure_outcome(old(self)@, work, short_break, long_break, sessions)),
            final(self)@ == if configure_outcome(old(self)@, work, short_break, long_break, sessions)
                is Ok {
                ManagerView {
                    pomodoro: configured(old(self)@.pomodoro, work, short_break, long_break, sessions),
                    ..old(self)@
                }
            } else {
                old(self)@
            },
    {
        proof {
            use_type_invariant(&*self);
        }
        if self.is_hardcore_locked {
            return Err("Cannot change the timer during a hardcore session".to_owned());
        }
        if work < 0 || short_break < 0 || long_break < 0 || sessions < 1 {
            return Err("Invalid timer configuration".to_owned());
        }
        self.pomodoro_state = self.pomodoro_state.with_durations(
            work,
            short_break,
            long_break,
            sessions,
        );
        Ok(())
    }

    /// The timer as it stands.
    pub fn get_pomodoro_state(&self) -> (state: PomodoroState)
        ensures
            state == self@.pomodoro,
            pomodoro_valid(state),
    {
        proof {
            use_type_invariant(self);
        }
        self.pomodoro_state
    }
}

impl Default for SessionManager {
    fn default() -> (manager: Self)
        ensures
            manager@ == (ManagerView { session: None, pomodoro: default_pomodoro() }),
    {
        SessionManager::new()
    }
}

} // verus!
