//! The age of a record in whole days.
//!
//! A moment is a pair: the whole seconds since the start of 1970 in UTC,
//! and the nanoseconds into that second.

use vstd::prelude::*;

verus! {

/// The moment that `text` names when it is read by the `strftime` pattern
/// `format` as a date and time in UTC, or `None` where it does not fit.
pub uninterp spec fn naive_moment(text: Seq<char>, format: Seq<char>) -> Option<(i64, u32)>;

/// The moment that `text` names as an RFC 3339 date and time, or `None`
/// where it is none.
pub uninterp spec fn rfc3339_moment(text: Seq<char>) -> Option<(i64, u32)>;

/// `chrono::NaiveDateTime::parse_from_str`, with the result taken as UTC
/// and read by `chrono::DateTime::timestamp` and
/// `chrono::DateTime::timestamp_subsec_nanos`. The claim is that the
/// answer depends on the text and the pattern alone.
#[verifier::external_body]
fn parse_naive(text: &str, format: &str) -> (moment: Option<(i64, u32)>)
    ensures
        moment == naive_moment(text@, format@),
{
    match chrono::NaiveDateTime::parse_from_str(text, format) {
        Ok(t) => Some((t.and_utc().timestamp(), t.and_utc().timestamp_subsec_nanos())),
        Err(_) => None,
    }
}

/// `chrono::DateTime::parse_from_rfc3339`, read by
/// `chrono::DateTime::timestamp` and
/// `chrono::DateTime::timestamp_subsec_nanos`. The claim is that the
/// answer depends on the text alone.
#[verifier::external_body]
fn parse_rfc3339(text: &str) -> (moment: Option<(i64, u32)>)
    ensures
        moment == rfc3339_moment(text@),
{
    match chrono::DateTime::parse_from_rfc3339(text) {
        Ok(t) => Some((t.timestamp(), t.timestamp_subsec_nanos())),
        Err(_) => None,
    }
}

/// `chrono::Utc::now`, read by `chrono::DateTime::timestamp` and
/// `chrono::DateTime::timestamp_subsec_nanos`: the present moment. Nothing
/// is claimed of it. `chrono` gives up on a machine whose clock stands
/// before 1970.
#[verifier::external_body]
fn now_moment() -> (i64, u32) {
    let now = chrono::Utc::now();
    (now.timestamp(), now.timestamp_subsec_nanos())
}

/// `chrono::Utc::now` written by `chrono::DateTime::to_rfc3339`: the
/// present moment as text. Nothing is claimed of it. `chrono` gives up on
/// a machine whose clock stands before 1970.
#[verifier::external_body]
pub(crate) fn now_rfc3339() -> String {
    chrono::Utc::now().to_rfc3339()
}

/// Nanoseconds from `then` to `now`.
pub open spec fn elapsed_nanos(then: (i64, u32), now: (i64, u32)) -> int {
    (now.0 - then.0) * 1_000_000_000 + (now.1 - then.1)
}

/// Whole days from `then` to `now`; a moment that is not in the past is 0
/// days old.
pub open spec fn days_between(then: (i64, u32), now: (i64, u32)) -> int {
    if elapsed_nanos(then, now) <= 0 {
        0
    } else {
        elapsed_nanos(then, now) / 86_400_000_000_000
    }
}

/// The moment that a creation time names: it is written either as
/// `YYYY-MM-DD HH:MM:SS` in UTC or in RFC 3339.
pub open spec fn created_moment(created_at: Seq<char>) -> Option<(i64, u32)> {
    match naive_moment(created_at, "%Y-%m-%d %H:%M:%S"@) {
        Some(m) => Some(m),
        None => rfc3339_moment(created_at),
    }
}

/// The age in days at `now` of a record with the creation time
/// `created_at`; a creation time that cannot be read counts as no age.
pub open spec fn age_in_days(created_at: Seq<char>, now: (i64, u32)) -> int {
    match created_moment(created_at) {
        Some(then) => days_between(then, now),
        None => 0,
    }
}

/// Whole days from `then` to `now`.
pub fn elapsed_days(then: (i64, u32), now: (i64, u32)) -> (days: i64)
    ensures
        days == days_between(then, now),
        days >= 0,
{
    let elapsed: i128 = (now.0 as i128 - then.0 as i128) * 1_000_000_000 + (now.1 as i128
        - then.1 as i128);
    if elapsed <= 0 {
        0
    } else {
        (elapsed / 86_400_000_000_000) as i64
    }
}

/// Reads a creation time.
pub fn parse_created_at(created_at: &str) -> (moment: Option<(i64, u32)>)
    ensures
        moment == created_moment(created_at@),
{
    match parse_naive(created_at, "%Y-%m-%d %H:%M:%S") {
        Some(m) => Some(m),
        None => parse_rfc3339(created_at),
    }
}

/// The age in days at `now` of a record created at `created_at`.
pub fn days_old_at(created_at: &str, now: (i64, u32)) -> (days: i64)
    ensures
        days == age_in_days(created_at@, now),
        days >= 0,
{
    match parse_created_at(created_at) {
        Some(then) => elapsed_days(then, now),
        None => 0,
    }
}

/// The age in days, at the present moment, of a record created at
/// `created_at`.
pub fn parse_days_old(created_at: &str) -> (days: i64)
    ensures
        days >= 0,
        exists|now: (i64, u32)| days == age_in_days(created_at@, now),
{
    let now = now_moment();
    let days = days_old_at(created_at, now);
    assert(days == age_in_days(created_at@, now));
    days
}

} // verus!
