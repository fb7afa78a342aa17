//! Points in time, and the signed distance between two of them.

use vstd::prelude::*;

verus! {

/// A point in time: nanoseconds since 1970-01-01 00:00:00 UTC, leap seconds
/// not counted. It reaches from the year 1677 into the year 2262.
#[derive(Clone, Copy, Debug, PartialEq, Eq, Structural)]
pub struct Moment {
    pub nanos: i64,
}

/// The text of the moment that the countdown runs to, read as UTC.
pub const TARGET: &'static str = "2022-02-11 16:00:00";

/// How [`TARGET`] is laid out: year, month, day, hour, minute, second.
pub const TARGET_LAYOUT: &'static str = "%Y-%m-%d %H:%M:%S";

/// Nanoseconds from `now` until `target`; negative once `target` has passed.
pub open spec fn span(target: Moment, now: Moment) -> int {
    target.nanos - now.nanos
}

/// Whether a count of nanoseconds can be held in 64 bits.
pub open spec fn in_reach(nanos: int) -> bool {
    i64::MIN <= nanos <= i64::MAX
}

/// The nanoseconds since 1970-01-01 00:00:00 UTC of the date and time that
/// `chrono` reads from `text` under the layout `layout`; `None` where it
/// reads none, or one that a [`Moment`] cannot hold.
pub uninterp spec fn parsed_nanos(text: Seq<char>, layout: Seq<char>) -> Option<i64>;

/// The moment that `text` names under `layout`.
pub open spec fn parsed_moment(text: Seq<char>, layout: Seq<char>) -> Option<Moment> {
    match parsed_nanos(text, layout) {
        Some(nanos) => Some(Moment { nanos }),
        None => None,
    }
}

/// `chrono::NaiveDateTime::signed_duration_since` on the two moments, then
/// `chrono::TimeDelta::num_nanoseconds` on what it returns: the difference of
/// the two counts where 64 bits hold it, `None` where they do not.
#[verifier::external_body]
fn signed_nanos_since(later: i64, earlier: i64) -> (nanos: Option<i64>)
    ensures
        nanos == (if in_reach(later - earlier) {
            Some((later - earlier) as i64)
        } else {
            None
        }),
{
    let later = chrono::DateTime::from_timestamp_nanos(later).naive_utc();
    let earlier = chrono::DateTime::from_timestamp_nanos(earlier).naive_utc();
    later.signed_duration_since(earlier).num_nanoseconds()
}

/// `chrono::NaiveDateTime::parse_from_str` under the layout of the target,
/// and of the date and time that it reads, taken as UTC,
/// `chrono::DateTime::timestamp_nanos_opt`. Under that layout `chrono`
/// answers every text, with a date and time or with an error; what comes
/// back depends on the two texts alone and is named by [`parsed_nanos`].
#[verifier::external_body]
fn parse_nanos(text: &str, layout: &str) -> (nanos: Option<i64>)
    requires
        layout@ == TARGET_LAYOUT@,
    ensures
        nanos == parsed_nanos(text@, layout@),
{
    match chrono::NaiveDateTime::parse_from_str(text, layout) {
        Ok(read) => read.and_utc().timestamp_nanos_opt(),
        Err(_) => None,
    }
}

impl Moment {
    /// The moment `nanos` nanoseconds after 1970-01-01 00:00:00 UTC.
    pub fn from_nanos(nanos: i64) -> (moment: Moment)
        ensures
            moment == (Moment { nanos }),
    {
        Moment { nanos }
    }

    /// Reads a date and time, taken as UTC, from `text`, which is laid out
    /// as [`TARGET_LAYOUT`] says.
    pub fn parse(text: &str) -> (moment: Option<Moment>)
        ensures
            moment == parsed_moment(text@, TARGET_LAYOUT@),
    {
        match parse_nanos(text, TARGET_LAYOUT) {
            Some(nanos) => Some(Moment::from_nanos(nanos)),
            None => None,
        }
    }

    /// Nanoseconds from `now` until `self`, where 64 bits hold them.
    pub fn nanos_since(&self, now: &Moment) -> (nanos: Option<i64>)
        ensures
            nanos == (if in_reach(span(*self, *now)) {
                Some(span(*self, *now) as i64)
            } else {
                None
            }),
    {
        signed_nanos_since(self.nanos, now.nanos)
    }
}

/// The moment that the countdown runs to, where [`TARGET`] can be read.
pub fn target_moment() -> (moment: Option<Moment>)
    ensures
        moment == parsed_moment(TARGET@, TARGET_LAYOUT@),
{
    Moment::parse(TARGET)
}

} // verus!
