//! The time of day, for the line on the dashboard that says when the page
//! was rendered. A moment is held as the whole seconds since the Unix
//! epoch; the calendar is the `time` crate's.

use vstd::prelude::*;
use vstd::string::*;
use time::OffsetDateTime;
use crate::decimal::{append_signed, signed_text};
use crate::text::text_of;

verus! {

/// What the `time` crate shows for the moment `seconds` after the Unix
/// epoch, in UTC: date, time of day and offset. There is none where the
/// moment lies outside the years that the crate holds. Neither a time
/// zone nor a locale enters: the same seconds are shown alike everywhere.
pub uninterp spec fn displayed_moment(seconds: i64) -> Option<Seq<char>>;

/// The stamp for a moment, given what the calendar shows for it: that
/// text, or the count of seconds itself where the calendar shows none.
pub open spec fn stamp_from(shown: Option<Seq<char>>, seconds: i64) -> Seq<char> {
    match shown {
        Some(text) => text,
        None => signed_text(seconds as int),
    }
}

/// The stamp for the moment `seconds` after the Unix epoch: what the
/// calendar shows for it, to the second, and the count of seconds where
/// the calendar does not reach.
pub open spec fn stamp_text(seconds: i64) -> Seq<char> {
    stamp_from(displayed_moment(seconds), seconds)
}

/// The current time in UTC to the second, as text: the stamp of some
/// whole second, whichever the clock gives. Parts of a second are
/// dropped.
pub fn utc_stamp() -> (stamp: String)
    ensures
        exists|seconds: i64| stamp@ == stamp_text(seconds),
{
    let seconds = unix_now();
    let stamp = stamp_at(seconds);
    assert(stamp@ == stamp_text(seconds));
    stamp
}

/// The moment `seconds` after the Unix epoch in UTC, as text.
pub fn stamp_at(seconds: i64) -> (stamp: String)
    ensures
        stamp@ == stamp_text(seconds),
{
    stamp_or_count(moment_text(seconds), seconds)
}

/// Makes the stamp for a moment out of what the calendar shows for it.
pub fn stamp_or_count(shown: Option<String>, seconds: i64) -> (stamp: String)
    ensures
        stamp@ == stamp_from(text_of(shown), seconds),
{
    match shown {
        Some(text) => text,
        None => {
            let mut count = String::new();
            append_signed(&mut count, seconds);
            assert(count@ =~= signed_text(seconds as int));
            count
        },
    }
}

/// `time::OffsetDateTime::now_utc`, read through `unix_timestamp`: the
/// whole seconds since the Unix epoch at the moment of the call. It depends
/// on the clock, so nothing is claimed of it.
#[verifier::external_body]
fn unix_now() -> i64 {
    OffsetDateTime::now_utc().unix_timestamp()
}

/// `time::OffsetDateTime::from_unix_timestamp`, shown through the
/// `Display` of the moment it gives, or nothing where it gives an error.
/// The text depends on the seconds alone: that is all that is claimed.
#[verifier::external_body]
fn moment_text(seconds: i64) -> (text: Option<String>)
    ensures
        text_of(text) == displayed_moment(seconds),
{
    match OffsetDateTime::from_unix_timestamp(seconds) {
        Ok(moment) => Some(format!("{}", moment)),
        Err(_) => None,
    }
}

} // verus!
