//! Timestamps as the database stores and compares them:
//! `YYYY-MM-DD HH:MM:SS` in UTC.
use vstd::prelude::*;

use crate::fmt::{decimal, decimal_string, signed_padded, signed_padded_string, zero_pad, zero_padded};

verus! {

/// The calendar fields of a UTC instant.
#[derive(Debug)]
pub struct UtcParts {
    pub year: i32,
    pub month: u8,
    pub day: u8,
    pub hour: u8,
    pub minute: u8,
    pub second: u8,
}

/// Fields as the `time` crate hands them out.
pub open spec fn parts_in_range(p: UtcParts) -> bool {
    &&& -999_999 <= p.year <= 999_999
    &&& 1 <= p.month <= 12
    &&& 1 <= p.day <= 31
    &&& p.hour < 24
    &&& p.minute < 60
    &&& p.second < 60
}

/// `{:04}-{:02}-{:02} {:02}:{:02}:{:02}` of the fields.
pub open spec fn utc_text_spec(p: UtcParts) -> Seq<char> {
    signed_padded(p.year as int, 4) + seq!['-'] + zero_pad(decimal(p.month as nat), 2) + seq!['-']
        + zero_pad(decimal(p.day as nat), 2) + seq![' '] + zero_pad(decimal(p.hour as nat), 2)
        + seq![':'] + zero_pad(decimal(p.minute as nat), 2) + seq![':'] + zero_pad(
        decimal(p.second as nat),
        2,
    )
}

/// Calls `time::OffsetDateTime::now_utc` and reads its calendar fields.
/// Nothing is claimed of which instant it is, only the fields' ranges.
#[verifier::external_body]
fn now_utc_parts() -> (p: UtcParts)
    ensures
        parts_in_range(p),
{
    let now = time::OffsetDateTime::now_utc();
    UtcParts {
        year: now.year(),
        month: u8::from(now.month()),
        day: now.day(),
        hour: now.hour(),
        minute: now.minute(),
        second: now.second(),
    }
}

/// Calls `time::OffsetDateTime::now_utc` and `checked_add` with `days` whole
/// days, reading the calendar fields of the sum (`None` where the sum leaves
/// the range of dates the crate represents).  Nothing is claimed of which
/// instant it is, only the fields' ranges, and that adding zero days never
/// leaves the range (`checked_add` of a zero duration gives the same date and
/// time back).  Whether a positive number of days stays in range depends on
/// the current date and is not claimed.
#[verifier::external_body]
fn now_utc_plus_days_parts(days: u32) -> (p: Option<UtcParts>)
    ensures
        p matches Some(q) ==> parts_in_range(q),
        days == 0 ==> p is Some,
{
    match time::OffsetDateTime::now_utc().checked_add(time::Duration::days(days as i64)) {
        Some(t) => Some(UtcParts {
            year: t.year(),
            month: u8::from(t.month()),
            day: t.day(),
            hour: t.hour(),
            minute: t.minute(),
            second: t.second(),
        }),
        None => None,
    }
}

fn two_digits(n: u8) -> (r: String)
    ensures
        r@ == zero_pad(decimal(n as nat), 2),
{
    zero_padded(decimal_string(n as u64), 2)
}

/// The text form of a UTC instant.
pub fn utc_text(p: &UtcParts) -> (r: String)
    ensures
        r@ == utc_text_spec(*p),
{
    proof {
        reveal_strlit("-");
        reveal_strlit(" ");
        reveal_strlit(":");
    }
    let mut s = signed_padded_string(p.year as i64, 4);
    s.append("-");
    s.append(two_digits(p.month).as_str());
    s.append("-");
    s.append(two_digits(p.day).as_str());
    s.append(" ");
    s.append(two_digits(p.hour).as_str());
    s.append(":");
    s.append(two_digits(p.minute).as_str());
    s.append(":");
    s.append(two_digits(p.second).as_str());
    s
}

/// The current instant as text.
pub fn utc_now_text() -> (r: String)
    ensures
        exists|p: UtcParts| parts_in_range(p) && r@ == utc_text_spec(p),
{
    let p = now_utc_parts();
    utc_text(&p)
}

/// The instant `days` days from now as text; `None` past the last representable
/// date, which the current instant itself never is.
pub fn utc_text_in_days(days: u32) -> (r: Option<String>)
    ensures
        r matches Some(t) ==> exists|p: UtcParts| parts_in_range(p) && t@ == utc_text_spec(p),
        days == 0 ==> r is Some,
{
    match now_utc_plus_days_parts(days) {
        Some(p) => Some(utc_text(&p)),
        None => None,
    }
}

} // verus!
