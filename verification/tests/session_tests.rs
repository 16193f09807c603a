use bastion::clock::{LocalMoment, Weekday};
use bastion::schedule::{has_day, rule_applies_at, scheduled_session_at, time_in_window, weekday_tag};
use bastion::pomodoro::{PomodoroPhase, PomodoroState};
use bastion::session::{SessionManager, SessionType};
use bastion::storage::Session;

#[test]
fn test_session_start_end() {
    let mut manager = SessionManager::new();

    let session = manager.start_session("Test".to_string(), 30, false);
    assert!(session.is_ok());
    assert!(manager.get_time_remaining().is_some());

    assert!(manager.end_session().is_ok());
    assert!(manager.get_time_remaining().is_none());
}

#[test]
fn test_pomodoro_tick() {
    let mut manager = SessionManager::new();

    // Configure short timers for testing
    assert!(manager.pomodoro_configure(2, 1, 2, 4).is_ok());
    assert!(manager.pomodoro_start().is_ok());

    // Tick through work phase
    assert!(manager.pomodoro_tick().is_none()); // 1 second left
    let phase = manager.pomodoro_tick(); // 0 seconds, phase complete
    assert_eq!(phase, Some(PomodoroPhase::Work));
}

#[test]
fn pomodoro_phase_becomes_break_after_work() {
    let mut manager = SessionManager::new();
    manager.pomodoro_configure(2, 1, 2, 4).unwrap();
    manager.pomodoro_start().unwrap();
    assert_eq!(manager.pomodoro_tick(), None);
    assert_eq!(manager.get_pomodoro_state().time_remaining, 1);
    assert_eq!(manager.pomodoro_tick(), Some(PomodoroPhase::Work));
    let state = manager.get_pomodoro_state();
    assert_eq!(state.phase, PomodoroPhase::Break);
    assert_eq!(state.time_remaining, 1);
    assert_eq!(state.completed_sessions, 1);
    assert!(state.is_running);
}

#[test]
fn pomodoro_starts_out_with_the_usual_durations() {
    let expected = PomodoroState {
        phase: PomodoroPhase::Work,
        work_duration: 25 * 60,
        break_duration: 5 * 60,
        long_break_duration: 15 * 60,
        sessions_until_long_break: 4,
        completed_sessions: 0,
        time_remaining: 25 * 60,
        is_running: false,
    };
    assert_eq!(SessionManager::new().get_pomodoro_state(), expected);
    assert_eq!(PomodoroState::default(), expected);
    assert_eq!(SessionManager::default().get_pomodoro_state(), expected);
}

#[test]
fn pomodoro_does_not_tick_while_paused() {
    let mut manager = SessionManager::new();
    assert_eq!(manager.pomodoro_tick(), None);
    assert_eq!(manager.get_pomodoro_state().time_remaining, 1500);
    manager.pomodoro_start().unwrap();
    assert_eq!(manager.pomodoro_tick(), None);
    manager.pomodoro_pause().unwrap();
    assert_eq!(manager.pomodoro_tick(), None);
    assert_eq!(manager.get_pomodoro_state().time_remaining, 1499);
}

#[test]
fn pomodoro_long_break_after_every_nth_work_phase() {
    let mut manager = SessionManager::new();
    manager.pomodoro_configure(1, 1, 1, 2).unwrap();
    manager.pomodoro_start().unwrap();
    let mut phases = Vec::new();
    let mut completed = Vec::new();
    for _ in 0..8 {
        completed.push(manager.pomodoro_tick());
        phases.push(manager.get_pomodoro_state().phase);
    }
    assert_eq!(
        phases,
        vec![
            PomodoroPhase::Break,
            PomodoroPhase::Work,
            PomodoroPhase::LongBreak,
            PomodoroPhase::Work,
            PomodoroPhase::Break,
            PomodoroPhase::Work,
            PomodoroPhase::LongBreak,
            PomodoroPhase::Work,
        ]
    );
    assert_eq!(
        completed,
        vec![
            Some(PomodoroPhase::Work),
            Some(PomodoroPhase::Break),
            Some(PomodoroPhase::Work),
            Some(PomodoroPhase::LongBreak),
            Some(PomodoroPhase::Work),
            Some(PomodoroPhase::Break),
            Some(PomodoroPhase::Work),
            Some(PomodoroPhase::LongBreak),
        ]
    );
    assert_eq!(manager.get_pomodoro_state().completed_sessions, 4);
}

#[test]
fn pomodoro_phase_of_no_length_ends_at_the_next_tick() {
    let mut manager = SessionManager::new();
    manager.pomodoro_configure(0, 0, 0, 1).unwrap();
    manager.pomodoro_start().unwrap();
    assert_eq!(manager.pomodoro_tick(), Some(PomodoroPhase::Work));
    assert_eq!(manager.get_pomodoro_state().phase, PomodoroPhase::LongBreak);
    assert_eq!(manager.pomodoro_tick(), Some(PomodoroPhase::LongBreak));
    assert_eq!(manager.get_pomodoro_state().phase, PomodoroPhase::Work);
}

#[test]
fn pomodoro_configure_resets_the_time_only_in_a_work_phase() {
    let mut manager = SessionManager::new();
    manager.pomodoro_configure(100, 50, 70, 3).unwrap();
    let state = manager.get_pomodoro_state();
    assert_eq!(state.time_remaining, 100);
    assert_eq!(state.work_duration, 100);
    assert_eq!(state.break_duration, 50);
    assert_eq!(state.long_break_duration, 70);
    assert_eq!(state.sessions_until_long_break, 3);

    manager.pomodoro_configure(1, 50, 70, 3).unwrap();
    manager.pomodoro_start().unwrap();
    assert_eq!(manager.pomodoro_tick(), Some(PomodoroPhase::Work));
    assert_eq!(manager.get_pomodoro_state().time_remaining, 50);
    manager.pomodoro_configure(200, 10, 20, 3).unwrap();
    let state = manager.get_pomodoro_state();
    assert_eq!(state.phase, PomodoroPhase::Break);
    assert_eq!(state.time_remaining, 50);
    assert_eq!(state.break_duration, 10);
}

#[test]
fn pomodoro_configure_refuses_numbers_that_make_no_sense() {
    let mut manager = SessionManager::new();
    let before = manager.get_pomodoro_state();
    for (work, short, long, sessions) in
        [(-1, 1, 1, 1), (1, -1, 1, 1), (1, 1, -1, 1), (1, 1, 1, 0), (1, 1, 1, -4)]
    {
        assert_eq!(
            manager.pomodoro_configure(work, short, long, sessions),
            Err("Invalid timer configuration".to_string())
        );
        assert_eq!(manager.get_pomodoro_state(), before);
    }
}

#[test]
fn pomodoro_reset_starts_the_phase_over_and_stops() {
    let mut manager = SessionManager::new();
    manager.pomodoro_configure(10, 5, 7, 4).unwrap();
    manager.pomodoro_start().unwrap();
    manager.pomodoro_tick();
    manager.pomodoro_tick();
    assert_eq!(manager.get_pomodoro_state().time_remaining, 8);
    manager.pomodoro_reset().unwrap();
    let state = manager.get_pomodoro_state();
    assert_eq!(state.time_remaining, 10);
    assert!(!state.is_running);
    assert_eq!(state.phase, PomodoroPhase::Work);
}

#[test]
fn hardcore_session_cannot_be_ended_early() {
    let mut manager = SessionManager::new();
    let session = manager.start_session_at(1_000, "Deep work".to_string(), 30, true).unwrap();
    assert_eq!(session.end_time, 2_800);
    assert!(manager.is_hardcore_locked());
    assert_eq!(
        manager.end_session_at(2_799),
        Err("Cannot end hardcore session before time expires".to_string())
    );
    assert!(manager.is_hardcore_locked());
    assert!(manager.has_active_session());
    assert_eq!(manager.end_session_at(2_800), Ok(()));
    assert!(!manager.is_hardcore_locked());
    assert!(!manager.has_active_session());
}

#[test]
fn hardcore_session_started_now_cannot_be_ended_now() {
    let mut manager = SessionManager::new();
    manager.start_session("Locked".to_string(), 60, true).unwrap();
    assert!(manager.end_session().is_err());
    assert!(manager.is_hardcore_locked());
    assert!(manager.get_time_remaining().unwrap() > 3_500);
    assert!(!manager.is_session_expired());
}

#[test]
fn hardcore_session_that_has_expired_can_be_ended() {
    let mut manager = SessionManager::new();
    manager.start_session("Over".to_string(), -1, true).unwrap();
    assert!(manager.is_session_expired());
    assert_eq!(manager.get_time_remaining(), Some(0));
    assert!(manager.end_session().is_ok());
    assert!(!manager.is_hardcore_locked());
}

#[test]
fn plain_session_can_be_ended_at_any_time() {
    let mut manager = SessionManager::new();
    manager.start_session_at(1_000, "Light".to_string(), 30, false).unwrap();
    assert!(!manager.is_hardcore_locked());
    assert_eq!(manager.end_session_at(1_000), Ok(()));
    assert!(manager.active_session().is_none());
}

#[test]
fn ending_without_a_session_succeeds() {
    let mut manager = SessionManager::new();
    assert_eq!(manager.end_session_at(0), Ok(()));
    assert!(manager.end_session().is_ok());
}

#[test]
fn forced_end_needs_a_verified_password() {
    let mut manager = SessionManager::new();
    manager.start_session_at(1_000, "Deep work".to_string(), 30, true).unwrap();
    assert_eq!(
        manager.force_end_session(false),
        Err("Master password verification failed".to_string())
    );
    assert!(manager.is_hardcore_locked());
    assert_eq!(manager.force_end_session(true), Ok(()));
    assert!(!manager.is_hardcore_locked());
    assert!(manager.active_session().is_none());
}

#[test]
fn end_focus_session_forces_only_where_verified() {
    let mut manager = SessionManager::new();
    manager.start_session("Deep work".to_string(), 30, true).unwrap();
    assert_eq!(
        manager.end_focus_session(false),
        Err("Cannot end hardcore session before time expires".to_string())
    );
    assert!(manager.is_hardcore_locked());
    assert_eq!(manager.end_focus_session(true), Ok(()));
    assert!(!manager.has_active_session());
}

#[test]
fn started_session_holds_what_was_asked() {
    let mut manager = SessionManager::new();
    let session = manager.start_session_at(1_700_000_000, "Test".to_string(), 30, false).unwrap();
    assert_eq!(session.id, "session_1700000000");
    assert_eq!(session.name, "Test");
    assert_eq!(session.start_time, 1_700_000_000);
    assert_eq!(session.end_time, 1_700_001_800);
    assert!(!session.hardcore);
    assert_eq!(session.session_type, SessionType::Manual);
    let active = manager.active_session().unwrap();
    assert_eq!(active.id, session.id);
    assert_eq!(active.end_time, session.end_time);
}

#[test]
fn session_ids_are_decimal() {
    for (now, id) in [
        (0i64, "session_0"),
        (7, "session_7"),
        (10, "session_10"),
        (-5, "session_-5"),
        (i64::MAX, "session_9223372036854775807"),
        (i64::MIN, "session_-9223372036854775808"),
    ] {
        let mut manager = SessionManager::new();
        assert_eq!(manager.start_session_at(now, "n".to_string(), 0, false).unwrap().id, id);
    }
}

#[test]
fn second_session_is_refused_while_one_is_active() {
    let mut manager = SessionManager::new();
    manager.start_session_at(1_000, "First".to_string(), 30, true).unwrap();
    let second = manager.start_session_at(1_001, "Second".to_string(), 0, false);
    assert_eq!(second.err(), Some("Cannot start a session while another one is active".to_string()));
    let active = manager.active_session().unwrap();
    assert_eq!(active.name, "First");
    assert!(manager.is_hardcore_locked());
    assert!(manager.start_session("Third".to_string(), 1, false).is_err());
}

#[test]
fn session_whose_end_does_not_fit_is_refused() {
    let mut manager = SessionManager::new();
    let refused = manager.start_session_at(i64::MAX - 59, "n".to_string(), 1, false);
    assert_eq!(refused.err(), Some("Session duration is out of range".to_string()));
    assert!(!manager.has_active_session());
    assert!(manager.start_session_at(0, "n".to_string(), i64::MAX, false).is_err());
    assert!(manager.start_session_at(i64::MIN, "n".to_string(), -1, false).is_err());
    let fits = manager.start_session_at(i64::MAX - 60, "n".to_string(), 1, false).unwrap();
    assert_eq!(fits.end_time, i64::MAX);
}

#[test]
fn time_remaining_counts_down_to_zero() {
    let mut manager = SessionManager::new();
    assert_eq!(manager.time_remaining_at(5), None);
    assert!(manager.is_session_expired_at(5));
    manager.start_session_at(1_000, "n".to_string(), 1, false).unwrap();
    assert_eq!(manager.time_remaining_at(1_000), Some(60));
    assert_eq!(manager.time_remaining_at(1_059), Some(1));
    assert_eq!(manager.time_remaining_at(1_060), Some(0));
    assert_eq!(manager.time_remaining_at(9_999), Some(0));
    assert_eq!(manager.time_remaining_at(i64::MIN), Some(i64::MAX));
    assert!(!manager.is_session_expired_at(1_059));
    assert!(manager.is_session_expired_at(1_060));
}

#[test]
fn timer_controls_are_refused_while_locked() {
    let mut manager = SessionManager::new();
    manager.pomodoro_configure(5, 1, 2, 4).unwrap();
    manager.pomodoro_start().unwrap();
    manager.start_session_at(1_000, "Deep work".to_string(), 30, true).unwrap();
    let before = manager.get_pomodoro_state();
    let refusal = Err("Cannot change the timer during a hardcore session".to_string());
    assert_eq!(manager.pomodoro_pause(), refusal);
    assert_eq!(manager.pomodoro_start(), refusal);
    assert_eq!(manager.pomodoro_reset(), refusal);
    assert_eq!(manager.pomodoro_configure(9, 9, 9, 9), refusal);
    assert_eq!(manager.get_pomodoro_state(), before);
    assert_eq!(manager.pomodoro_tick(), None);
    assert_eq!(manager.get_pomodoro_state().time_remaining, 4);
    manager.end_session_at(2_800).unwrap();
    assert_eq!(manager.pomodoro_pause(), Ok(()));
}

fn rule(days: &str, start: &str, end: &str, enabled: bool) -> Session {
    Session {
        id: 1,
        name: "Work hours".to_string(),
        start_time: start.to_string(),
        end_time: end.to_string(),
        days: days.to_string(),
        hardcore: false,
        enabled,
    }
}

fn at(weekday: Weekday, hour: u32, minute: u32, second: u32, nanos: u32) -> LocalMoment {
    LocalMoment { timestamp: 0, weekday, seconds: hour * 3600 + minute * 60 + second, nanos }
}

#[test]
fn rule_applies_inside_its_window_on_its_days() {
    let work = rule("[\"Mon\",\"Wed\"]", "09:00", "17:00", true);
    assert!(rule_applies_at(&work, &at(Weekday::Mon, 12, 0, 0, 0)));
    assert!(rule_applies_at(&work, &at(Weekday::Wed, 9, 0, 0, 0)));
    assert!(rule_applies_at(&work, &at(Weekday::Wed, 17, 0, 0, 0)));
    assert!(!rule_applies_at(&work, &at(Weekday::Wed, 17, 0, 0, 1)));
    assert!(!rule_applies_at(&work, &at(Weekday::Wed, 17, 0, 1, 0)));
    assert!(!rule_applies_at(&work, &at(Weekday::Wed, 8, 59, 59, 999_999_999)));
    assert!(!rule_applies_at(&work, &at(Weekday::Tue, 12, 0, 0, 0)));
}

#[test]
fn rule_that_cannot_be_read_never_applies() {
    let noon = at(Weekday::Mon, 12, 0, 0, 0);
    assert!(!rule_applies_at(&rule("[\"Mon\"]", "09:00", "17:00", false), &noon));
    assert!(!rule_applies_at(&rule("Mon", "09:00", "17:00", true), &noon));
    assert!(!rule_applies_at(&rule("[1,2]", "09:00", "17:00", true), &noon));
    assert!(!rule_applies_at(&rule("", "09:00", "17:00", true), &noon));
    assert!(!rule_applies_at(&rule("[]", "09:00", "17:00", true), &noon));
    assert!(!rule_applies_at(&rule("[\"mon\"]", "09:00", "17:00", true), &noon));
    assert!(!rule_applies_at(&rule("[\"Mon\"]", "25:00", "26:00", true), &noon));
    assert!(!rule_applies_at(&rule("[\"Mon\"]", "09:00", "17:60", true), &noon));
    assert!(!rule_applies_at(&rule("[\"Mon\"]", "nine", "17:00", true), &noon));
    assert!(!rule_applies_at(&rule("[\"Mon\"]", "17:00", "09:00", true), &noon));
    assert!(rule_applies_at(&rule(" [ \"Mon\" ] ", "9:00", "17:00", true), &noon));
}

#[test]
fn first_rule_that_applies_is_scheduled() {
    let mut early = rule("[\"Fri\"]", "06:00", "08:00", true);
    early.id = 1;
    let mut off = rule("[\"Fri\"]", "00:00", "23:59", false);
    off.id = 2;
    let mut long = rule("[\"Fri\",\"Sat\"]", "07:00", "20:00", true);
    long.id = 3;
    let mut late = rule("[\"Fri\"]", "19:00", "21:00", true);
    late.id = 4;
    let rules = vec![early, off, long, late];
    let found = |h: u32| scheduled_session_at(&rules, &at(Weekday::Fri, h, 30, 0, 0)).map(|s| s.id);
    assert_eq!(found(5), None);
    assert_eq!(found(6), Some(1));
    assert_eq!(found(7), Some(1));
    assert_eq!(found(8), Some(3));
    assert_eq!(found(19), Some(3));
    assert_eq!(found(20), Some(4));
    assert_eq!(found(21), None);
    assert_eq!(scheduled_session_at(&[], &at(Weekday::Fri, 7, 0, 0, 0)).map(|s| s.id), None);
    let found = scheduled_session_at(&rules, &at(Weekday::Sat, 7, 0, 0, 0)).unwrap();
    assert_eq!(found.id, 3);
    assert_eq!(found.name, "Work hours");
    assert_eq!(found.days, "[\"Fri\",\"Sat\"]");
}

#[test]
fn schedule_never_pre_empts_an_active_session() {
    let rules = vec![rule("[\"Mon\"]", "00:00", "23:59", true)];
    let noon = at(Weekday::Mon, 12, 0, 0, 0);
    let mut manager = SessionManager::new();
    assert!(manager.check_scheduled_sessions_at(&rules, &noon).is_some());
    manager.start_session_at(0, "Manual".to_string(), 10, false).unwrap();
    assert!(manager.check_scheduled_sessions_at(&rules, &noon).is_none());
    assert!(manager.check_scheduled_sessions(&rules).is_none());
}

#[test]
fn schedule_is_checked_against_the_clock() {
    let every_day = "[\"Mon\",\"Tue\",\"Wed\",\"Thu\",\"Fri\",\"Sat\",\"Sun\"]";
    let manager = SessionManager::new();
    assert!(manager.check_scheduled_sessions(&[rule(every_day, "00:00", "23:59", false)]).is_none());
    assert!(manager.check_scheduled_sessions(&[rule("[]", "00:00", "23:59", true)]).is_none());
    assert!(manager.check_scheduled_sessions(&[]).is_none());
}

#[test]
fn weekday_tags_and_windows() {
    assert_eq!(weekday_tag(Weekday::Mon), "Mon");
    assert_eq!(weekday_tag(Weekday::Tue), "Tue");
    assert_eq!(weekday_tag(Weekday::Wed), "Wed");
    assert_eq!(weekday_tag(Weekday::Thu), "Thu");
    assert_eq!(weekday_tag(Weekday::Fri), "Fri");
    assert_eq!(weekday_tag(Weekday::Sat), "Sat");
    assert_eq!(weekday_tag(Weekday::Sun), "Sun");
    let days = vec!["Sat".to_string(), "Sun".to_string()];
    assert!(has_day(&days, Weekday::Sun));
    assert!(!has_day(&days, Weekday::Mon));
    assert!(!has_day(&[], Weekday::Mon));
    let noon = at(Weekday::Mon, 12, 0, 0, 5);
    assert!(time_in_window((43_200, 5), (43_200, 5), &noon));
    assert!(!time_in_window((43_200, 6), (50_000, 0), &noon));
    assert!(!time_in_window((0, 0), (43_200, 4), &noon));
    assert!(time_in_window((0, 9), (43_201, 0), &noon));
}

#[test]
fn scheduled_session_lasts_to_the_end_of_its_window() {
    let mut work = rule("[\"Mon\"]", "09:00", "17:00", true);
    work.hardcore = true;
    let mut moment = at(Weekday::Mon, 12, 30, 15, 7);
    moment.timestamp = 1_000_000;
    let mut manager = SessionManager::new();
    let session = manager.start_scheduled_session(&work, &moment).unwrap();
    assert_eq!(session.id, "session_1000000");
    assert_eq!(session.name, "Work hours");
    assert_eq!(session.start_time, 1_000_000);
    assert_eq!(session.end_time, 1_000_000 + (17 * 3600 - (12 * 3600 + 30 * 60 + 15)));
    assert!(session.hardcore);
    assert_eq!(session.session_type, SessionType::Scheduled);
    assert!(manager.is_hardcore_locked());
    assert!(manager.end_session_at(session.end_time - 1).is_err());
    assert!(manager.end_session_at(session.end_time).is_ok());
}

#[test]
fn scheduled_session_is_refused_where_the_rule_does_not_apply() {
    let work = rule("[\"Mon\"]", "09:00", "17:00", true);
    let mut manager = SessionManager::new();
    assert_eq!(
        manager.start_scheduled_session(&work, &at(Weekday::Tue, 12, 0, 0, 0)).err(),
        Some("No scheduled session applies now".to_string())
    );
    assert!(!manager.has_active_session());
    manager.start_session_at(0, "Manual".to_string(), 10, false).unwrap();
    assert_eq!(
        manager.start_scheduled_session(&work, &at(Weekday::Mon, 12, 0, 0, 0)).err(),
        Some("Cannot start a session while another one is active".to_string())
    );
    assert_eq!(manager.active_session().unwrap().name, "Manual");
}

#[test]
fn due_session_is_started_from_the_schedule() {
    let rules = vec![
        rule("[\"Tue\"]", "00:00", "23:59", true),
        rule("[\"Mon\"]", "10:00", "11:00", true),
    ];
    let mut manager = SessionManager::new();
    assert!(manager.start_due_session_at(&rules, &at(Weekday::Mon, 9, 0, 0, 0)).is_none());
    assert!(!manager.has_active_session());
    let started = manager.start_due_session_at(&rules, &at(Weekday::Mon, 10, 30, 0, 0)).unwrap();
    assert_eq!(started.end_time, 1_800);
    assert_eq!(started.session_type, SessionType::Scheduled);
    assert!(manager.has_active_session());
    assert!(manager.start_due_session_at(&rules, &at(Weekday::Mon, 10, 31, 0, 0)).is_none());
    assert!(manager.start_due_session(&rules).is_none());
    assert!(SessionManager::new().start_due_session(&[]).is_none());
}

#[test]
fn blocklist_changes_are_refused_while_locked() {
    let mut manager = SessionManager::new();
    assert_eq!(manager.allow_mutation(), Ok(()));
    manager.start_session_at(0, "Light".to_string(), 10, false).unwrap();
    assert_eq!(manager.allow_mutation(), Ok(()));
    manager.end_session_at(0).unwrap();
    manager.start_session_at(0, "Deep".to_string(), 10, true).unwrap();
    assert_eq!(
        manager.allow_mutation(),
        Err("Cannot change the blocklist or the schedule during a hardcore session".to_string())
    );
    manager.end_session_at(600).unwrap();
    assert_eq!(manager.allow_mutation(), Ok(()));
}

#[test]
fn tick_needs_room_in_the_count_only_where_a_work_phase_ends() {
    let full = PomodoroState {
        phase: PomodoroPhase::Break,
        work_duration: 5,
        break_duration: 1,
        long_break_duration: 2,
        sessions_until_long_break: 4,
        completed_sessions: i32::MAX,
        time_remaining: 1,
        is_running: true,
    };
    assert!(full.has_room_for_tick());
    let (next, completed) = full.after_tick();
    assert_eq!(completed, Some(PomodoroPhase::Break));
    assert_eq!(next.phase, PomodoroPhase::Work);
    assert_eq!(next.completed_sessions, i32::MAX);
    assert_eq!(next.time_remaining, 5);
    assert!(next.has_room_for_tick());
    let (counting_down, completed) = next.after_tick();
    assert_eq!(completed, None);
    assert_eq!(counting_down.time_remaining, 4);
    let ending = PomodoroState { time_remaining: 1, ..next };
    assert!(!ending.has_room_for_tick());
    let paused = PomodoroState { is_running: false, ..ending };
    assert!(paused.has_room_for_tick());
    let with_room = PomodoroState { completed_sessions: i32::MAX - 1, ..ending };
    assert!(with_room.has_room_for_tick());
    assert_eq!(with_room.after_tick().0.completed_sessions, i32::MAX);
}
