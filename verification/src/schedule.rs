//! Scheduled sessions: which rule, if any, asks for a session at a given
//! moment of local time.

use crate::clock::{LocalMoment, Weekday};
use crate::storage::Session;
use vstd::prelude::*;
use vstd::string::*;

verus! {

/// The list of strings that `serde_json` reads out of a JSON text; `None`
/// where the text is no JSON array of strings.
pub uninterp spec fn json_string_list(text: Seq<char>) -> Option<Seq<Seq<char>>>;

/// The time of day that `chrono` reads out of `text` by `format`, as seconds
/// since midnight and nanoseconds; `None` where the text does not fit.
pub uninterp spec fn naive_time(text: Seq<char>, format: Seq<char>) -> Option<(u32, u32)>;

/// Calls `serde_json::from_str` for a `Vec<String>`. The contract names what
/// it reads and turns its error into `None`.
#[verifier::external_body]
fn parse_string_list(text: &str) -> (list: Option<Vec<String>>)
    ensures
        list.deep_view() == json_string_list(text@),
{
    serde_json::from_str::<Vec<String>>(text).ok()
}

/// Calls `chrono::NaiveTime::parse_from_str` and reads the time off with
/// `num_seconds_from_midnight` and `nanosecond`. The contract names what it
/// reads and turns its error into `None`.
#[verifier::external_body]
fn parse_time(text: &str, format: &str) -> (time: Option<(u32, u32)>)
    ensures
        time == naive_time(text@, format@),
{
    chrono::NaiveTime::parse_from_str(text, format).ok().map(
        |t| (chrono::Timelike::num_seconds_from_midnight(&t), chrono::Timelike::nanosecond(&t)),
    )
}

/// The tag by which a rule names `weekday`.
pub open spec fn day_tag(weekday: Weekday) -> Seq<char> {
    match weekday {
        Weekday::Mon => "Mon"@,
        Weekday::Tue => "Tue"@,
        Weekday::Wed => "Wed"@,
        Weekday::Thu => "Thu"@,
        Weekday::Fri => "Fri"@,
        Weekday::Sat => "Sat"@,
        Weekday::Sun => "Sun"@,
    }
}

/// The format in which a rule writes its times: hours and minutes.
pub open spec fn time_format() -> Seq<char> {
    "%H:%M"@
}

/// Whether the time of day `a` is not after `b`; each is seconds since
/// midnight with nanoseconds.
pub open spec fn not_after(a: (u32, u32), b: (u32, u32)) -> bool {
    a.0 < b.0 || (a.0 == b.0 && a.1 <= b.1)
}

/// Whether the time of day of `moment` lies between `start` and `end`, both
/// included.
pub open spec fn in_window(start: (u32, u32), end: (u32, u32), moment: LocalMoment) -> bool {
    not_after(start, (moment.seconds, moment.nanos)) && not_after(
        (moment.seconds, moment.nanos),
        end,
    )
}

/// Whether `rule` asks for a session at `moment`: it is enabled, its days
/// hold the day of `moment`, and its window holds the time of `moment`.
pub open spec fn rule_applies(rule: Session, moment: LocalMoment) -> bool {
    &&& rule.enabled
    &&& json_string_list(rule.days@) matches Some(days) && days.contains(day_tag(moment.weekday))
    &&& naive_time(rule.start_time@, time_format()) matches Some(start) && naive_time(
        rule.end_time@,
        time_format(),
    ) matches Some(end) && in_window(start, end, moment)
}

/// The first of `rules` that asks for a session at `moment`.
pub open spec fn first_applicable(rules: Seq<Session>, moment: LocalMoment) -> Option<Session>
    decreases rules.len(),
{
    if rules.len() == 0 {
        None
    } else if rule_applies(rules.first(), moment) {
        Some(rules.first())
    } else {
        first_applicable(rules.drop_first(), moment)
    }
}

/// The tag by which a rule names `weekday`.
pub fn weekday_tag(weekday: Weekday) -> (tag: &'static str)
    ensures
        tag@ == day_tag(weekday),
{
    match weekday {
        Weekday::Mon => "Mon",
        Weekday::Tue => "Tue",
        Weekday::Wed => "Wed",
        Weekday::Thu => "Thu",
        Weekday::Fri => "Fri",
        Weekday::Sat => "Sat",
        Weekday::Sun => "Sun",
    }
}

/// Whether `days` holds the tag of `weekday`.
pub fn has_day(days: &[String], weekday: Weekday) -> (found: bool)
    ensures
        found == days.deep_view().contains(day_tag(weekday)),
{
    let tag = weekday_tag(weekday).to_owned();
    let mut i: usize = 0;
    while i < days.len()
        invariant
            i <= days@.len(),
            tag@ == day_tag(weekday),
            forall|k: int| 0 <= k < i ==> days.deep_view()[k] != day_tag(weekday),
        decreases days@.len() - i,
    {
        if days[i] == tag {
            assert(days.deep_view()[i as int] == day_tag(weekday));
            return true;
        }
        i += 1;
    }
    false
}

/// Whether the time of day of `moment` lies between `start` and `end`, both
/// included.
pub fn time_in_window(start: (u32, u32), end: (u32, u32), moment: &LocalMoment) -> (inside: bool)
    ensures
        inside == in_window(start, end, *moment),
{
    let after_start = start.0 < moment.seconds || (start.0 == moment.seconds && start.1
        <= moment.nanos);
    let before_end = moment.seconds < end.0 || (moment.seconds == end.0 && moment.nanos <= end.1);
    after_start && before_end
}

/// The time of day at which the window of `rule` ends, where it can be read.
pub fn window_end(rule: &Session) -> (end: Option<(u32, u32)>)
    ensures
        end == naive_time(rule.end_time@, time_format()),
{
    parse_time(rule.end_time.as_str(), "%H:%M")
}

/// Whether `rule` asks for a session at `moment`.
pub fn rule_applies_at(rule: &Session, moment: &LocalMoment) -> (applies: bool)
    ensures
        applies == rule_applies(*rule, *moment),
{
    if !rule.enabled {
        return false;
    }
    let named = match parse_string_list(rule.days.as_str()) {
        Some(days) => has_day(days.as_slice(), moment.weekday),
        None => false,
    };
    if !named {
        return false;
    }
    match (parse_time(rule.start_time.as_str(), "%H:%M"), parse_time(rule.end_time.as_str(), "%H:%M")) {
        (Some(start), Some(end)) => time_in_window(start, end, moment),
        _ => false,
    }
}

/// The first of `sessions` that asks for a session at `moment`.
pub fn scheduled_session_at(sessions: &[Session], moment: &LocalMoment) -> (found: Option<Session>)
    ensures
        found == first_applicable(sessions@, *moment),
{
    let mut i: usize = 0;
    assert(sessions@.subrange(0, sessions@.len() as int) =~= sessions@);
    while i < sessions.len()
        invariant
            i <= sessions@.len(),
            first_applicable(sessions@, *moment) == first_applicable(
                sessions@.subrange(i as int, sessions@.len() as int),
                *moment,
            ),
        decreases sessions@.len() - i,
    {
        assert(sessions@.subrange(i as int, sessions@.len() as int).drop_first()
            =~= sessions@.subrange(i + 1, sessions@.len() as int));
        if rule_applies_at(&sessions[i], moment) {
            return Some(sessions[i].clone());
        }
        i += 1;
    }
    None
}

} // verus!
