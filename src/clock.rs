use vstd::prelude::*;

use crate::timestamp::Timestamp;

verus! {

/// Relies on chrono's `Utc::now` for the current instant in UTC, read through
/// `Datelike` and `Timelike`: the date is a real day of chrono's range of years,
/// and `second` runs from 0 to 59 (a leap second shows in the nanoseconds).
#[verifier::external_body]
fn utc_now() -> (r: Timestamp)
    ensures
        r.is_instant(),
{
    let now = chrono::Utc::now();
    Timestamp {
        year: chrono::Datelike::year(&now),
        month: chrono::Datelike::month(&now),
        day: chrono::Datelike::day(&now),
        hour: chrono::Timelike::hour(&now),
        minute: chrono::Timelike::minute(&now),
        second: chrono::Timelike::second(&now),
    }
}

/// Relies on chrono's `NaiveDate::from_ymd_opt` and `NaiveDate::and_hms_opt`,
/// which give `None` exactly for fields that name no instant, and on
/// `NaiveDateTime::format` with `%d-%m-%Y %H:%M:%S`, which writes each field
/// as `Timestamp::text` does.
#[verifier::external_body]
fn chrono_text(t: &Timestamp) -> (r: Option<String>)
    ensures
        r is Some <==> t.is_instant(),
        r matches Some(s) ==> s@ == t.text(),
{
    let date = chrono::NaiveDate::from_ymd_opt(t.year, t.month, t.day)?;
    let at = date.and_hms_opt(t.hour, t.minute, t.second)?;
    Some(at.format("%d-%m-%Y %H:%M:%S").to_string())
}

/// The current date and time in UTC, to the second.
pub fn current_timestamp() -> (r: Timestamp)
    ensures
        r.is_instant(),
{
    utc_now()
}

/// `t` as `DD-MM-YYYY HH:MM:SS`; `None` where `t` names no instant.
pub fn format_timestamp(t: &Timestamp) -> (r: Option<String>)
    ensures
        r is Some <==> t.is_instant(),
        r matches Some(s) ==> s@ == t.text(),
{
    chrono_text(t)
}

/// The current date and time in UTC as `DD-MM-YYYY HH:MM:SS`.
pub fn get_current_datetime() -> (r: String)
    ensures
        exists|t: Timestamp| #[trigger] t.is_instant() && r@ == t.text(),
{
    let now = current_timestamp();
    match format_timestamp(&now) {
        Some(s) => s,
        None => vstd::pervasive::unreached(),
    }
}

} // verus!
