//! Instants of UTC time, and how the calendar reads them.
//!
//! An instant is held as whole seconds since the start of 1970. Reading the
//! clock and turning an instant into calendar text is the work of `chrono`;
//! the three functions that call it are trusted rather than proved.

use vstd::prelude::*;

verus! {

/// The seconds of one day.
pub const DAY: i64 = 86_400;

/// The first second of the year 0000.
pub const EARLIEST: i64 = -62_167_219_200;

/// The last second of the year 9999.
pub const LATEST: i64 = 253_402_300_799;

/// The last second that a `Moment` can hold: one day before `LATEST`, so
/// that the day after a moment still has a four-digit year.
pub const LAST_MOMENT: i64 = 253_402_214_399;

/// The layout of the date in a snapshot's file name: month, day, year.
pub const SNAPSHOT_DATE: &'static str = "%m_%d_%Y";

/// The layout of a date in a change-feed query: year, month, day.
pub const QUERY_DATE: &'static str = "%Y-%m-%d";

/// The text that `chrono` gives for the UTC instant `secs` seconds after
/// the start of 1970 under the `strftime` layout `layout`.
pub uninterp spec fn utc_text(secs: int, layout: Seq<char>) -> Seq<char>;

/// The hour of the UTC day, from 0 to 23, in which the instant `secs`
/// seconds after the start of 1970 lies.
pub open spec fn utc_hour(secs: int) -> int {
    (secs % 86_400) / 3_600
}

/// Reads the system clock with `std::time::SystemTime::now`, lets `chrono`
/// turn the reading into a UTC date and time (`DateTime::<Utc>::from`), and
/// gives the whole seconds since the start of 1970, as `DateTime::timestamp`
/// counts them: a negative count where the clock shows an instant before
/// 1970. `chrono` holds every instant that lies within some 262,000 years
/// of 1970. Nothing is claimed of the value.
#[verifier::external_body]
fn unix_now() -> (secs: i64) {
    chrono::DateTime::<chrono::Utc>::from(std::time::SystemTime::now()).timestamp()
}

/// The hour that `chrono::Timelike::hour` reads from the UTC date and time
/// that `chrono::DateTime::from_timestamp` makes of `secs`. Claimed: for an
/// instant of the years 0000 to 9999 there is such a date and time, and its
/// hour is the count of whole hours in the seconds since the last midnight.
#[verifier::external_body]
fn hour_of(secs: i64) -> (hour: Option<u32>)
    requires
        EARLIEST <= secs <= LATEST,
    ensures
        hour is Some,
        hour->0 == utc_hour(secs as int),
{
    match chrono::DateTime::from_timestamp(secs, 0) {
        Some(at) => Some(chrono::Timelike::hour(&at)),
        None => None,
    }
}

/// The text that `chrono::DateTime::format` gives for the UTC date and time
/// that `chrono::DateTime::from_timestamp` makes of `secs`. Claimed: for an
/// instant of the years 0000 to 9999 and one of the two layouts that this
/// library uses there is such a text, and it depends on nothing but the
/// instant and the layout.
#[verifier::external_body]
fn text_of(secs: i64, layout: &str) -> (text: Option<String>)
    requires
        EARLIEST <= secs <= LATEST,
        layout@ == SNAPSHOT_DATE@ || layout@ == QUERY_DATE@,
    ensures
        text is Some,
        text->0@ == utc_text(secs as int, layout@),
{
    match chrono::DateTime::from_timestamp(secs, 0) {
        Some(at) => Some(at.format(layout).to_string()),
        None => None,
    }
}

/// An instant of UTC time between the start of 1970 and `LAST_MOMENT`.
#[derive(Clone, Copy, Debug, PartialEq, Eq)]
pub struct Moment {
    secs: i64,
}

impl View for Moment {
    type V = int;

    closed spec fn view(&self) -> int {
        self.secs as int
    }
}

impl Moment {
    #[verifier::type_invariant]
    spec fn in_range(self) -> bool {
        0 <= self.secs <= LAST_MOMENT
    }

    /// Whether `secs` seconds after the start of 1970 is an instant that a
    /// `Moment` can hold.
    pub open spec fn holds(secs: int) -> bool {
        0 <= secs <= LAST_MOMENT
    }

    /// The moment `secs` seconds after the start of 1970, where the type
    /// admits it.
    pub fn from_unix(secs: i64) -> (made: Option<Moment>)
        ensures
            Moment::holds(secs as int) ==> (made matches Some(moment) && moment@ == secs),
            !Moment::holds(secs as int) ==> made is None,
    {
        if 0 <= secs && secs <= LAST_MOMENT {
            Some(Moment { secs })
        } else {
            None
        }
    }

    /// The present moment by the system clock; none where the clock shows
    /// an instant before 1970 or after `LAST_MOMENT`.
    pub fn now() -> (read: Option<Moment>)
        ensures
            read matches Some(moment) ==> Moment::holds(moment@),
    {
        Moment::from_unix(unix_now())
    }

    /// The seconds between the start of 1970 and the moment.
    pub fn unix(&self) -> (secs: i64)
        ensures
            secs == self@,
            Moment::holds(secs as int),
    {
        proof {
            use_type_invariant(self);
        }
        self.secs
    }

    /// The hour of the UTC day in which the moment lies.
    pub fn hour(&self) -> (hour: u32)
        ensures
            hour == utc_hour(self@),
            hour < 24,
    {
        let secs: i64 = self.unix();
        match hour_of(secs) {
            Some(hour) => hour,
            None => vstd::pervasive::unreached(),
        }
    }

    /// The calendar date, under `layout`, of the instant `shift` seconds
    /// away from the moment. The shift may reach back a year and forward
    /// a day.
    pub(crate) fn shifted_date(&self, shift: i64, layout: &str) -> (text: String)
        requires
            -366 * DAY <= shift <= DAY,
            layout@ == SNAPSHOT_DATE@ || layout@ == QUERY_DATE@,
        ensures
            text@ == utc_text(self@ + shift, layout@),
    {
        let secs: i64 = self.unix();
        match text_of(secs + shift, layout) {
            Some(text) => text,
            None => vstd::pervasive::unreached(),
        }
    }
}

} // verus!
