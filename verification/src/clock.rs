//! The local wall clock, read into plain values.

use chrono::{Datelike, Timelike};
use vstd::prelude::*;

verus! {

/// A day of the week.
#[derive(Clone, Copy, Debug, PartialEq, Eq, Structural)]
pub enum Weekday {
    Mon,
    Tue,
    Wed,
    Thu,
    Fri,
    Sat,
    Sun,
}

/// A moment of local time: the seconds since the Unix epoch, the day of the
/// week, and the time of day as whole seconds since midnight with the
/// nanoseconds that follow them.
#[derive(Clone, Copy, Debug, PartialEq, Eq, Structural)]
pub struct LocalMoment {
    pub timestamp: i64,
    pub weekday: Weekday,
    pub seconds: u32,
    pub nanos: u32,
}

/// Calls `chrono::Local::now` and reads the moment off with `timestamp`,
/// `weekday`, `num_seconds_from_midnight` and `nanosecond`. Nothing is claimed
/// of the moment: it is whatever the clock says.
#[verifier::external_body]
pub(crate) fn local_now() -> (moment: LocalMoment) {
    let now = chrono::Local::now();
    let weekday = match now.weekday() {
        chrono::Weekday::Mon => Weekday::Mon,
        chrono::Weekday::Tue => Weekday::Tue,
        chrono::Weekday::Wed => Weekday::Wed,
        chrono::Weekday::Thu => Weekday::Thu,
        chrono::Weekday::Fri => Weekday::Fri,
        chrono::Weekday::Sat => Weekday::Sat,
        chrono::Weekday::Sun => Weekday::Sun,
    };
    let (seconds, nanos) = (now.time().num_seconds_from_midnight(), now.time().nanosecond());
    LocalMoment { timestamp: now.timestamp(), weekday, seconds, nanos }
}

} // verus!
