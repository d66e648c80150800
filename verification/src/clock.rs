//! The UTC clock: the current time since the Unix epoch, and that time written out
//! by chrono as a strftime pattern or in RFC 3339 form.
use crate::cli::two_digits;
use crate::text::decimal;
use vstd::prelude::*;

verus! {

#[verifier::external_type_specification]
#[verifier::external_body]
pub struct ExSystemTime(std::time::SystemTime);

#[verifier::external_type_specification]
#[verifier::external_body]
pub struct ExSystemTimeError(std::time::SystemTimeError);

/// A strftime pattern whose every `%` starts one of the specifiers `%Y`, `%m`, `%d`,
/// `%H`, `%M`, `%S`; chrono writes such a pattern without error.
pub open spec fn simple_strftime(pattern: Seq<char>) -> bool {
    forall|i: int|
        0 <= i < pattern.len() && #[trigger] pattern[i] == '%' ==> i + 1 < pattern.len() && (
        pattern[i + 1] == 'Y' || pattern[i + 1] == 'm' || pattern[i + 1] == 'd' || pattern[i + 1]
            == 'H' || pattern[i + 1] == 'M' || pattern[i + 1] == 'S')
}

/// The hour of the day of `secs` seconds after the Unix epoch, in UTC.
pub open spec fn hour_of(secs: int) -> nat {
    ((secs % 86400) / 3600) as nat
}

/// The minute of the hour of `secs` seconds after the Unix epoch.
pub open spec fn minute_of(secs: int) -> nat {
    ((secs % 3600) / 60) as nat
}

/// The second of the minute of `secs` seconds after the Unix epoch.
pub open spec fn second_of(secs: int) -> nat {
    (secs % 60) as nat
}

/// A calendar date of the Unix era: a year from 1970, a month from 1 to 12 and a day
/// from 1 to 31.
pub open spec fn date_in_range(year: nat, month: nat, day: nat) -> bool {
    1970 <= year && 1 <= month <= 12 && 1 <= day <= 31
}

/// A year as chrono's `%Y` and RFC 3339 write it for years from 1000 on: its digits,
/// with a `+` sign after 9999.
pub open spec fn year_text(year: nat) -> Seq<char> {
    if year <= 9999 {
        decimal(year)
    } else {
        seq!['+'] + decimal(year)
    }
}

/// `pattern` with `%Y`, `%m`, `%d`, `%H`, `%M` and `%S` written for the given date
/// and the time of day of `secs`, each but the year as two digits; every other
/// character is written as it is.
pub open spec fn strftime_spec(pattern: Seq<char>, year: nat, month: nat, day: nat, secs: int) -> Seq<
    char,
>
    decreases pattern.len(),
{
    if pattern.len() == 0 {
        seq![]
    } else if pattern[0] == '%' && pattern.len() >= 2 {
        let field = if pattern[1] == 'Y' {
            year_text(year)
        } else if pattern[1] == 'm' {
            two_digits(month)
        } else if pattern[1] == 'd' {
            two_digits(day)
        } else if pattern[1] == 'H' {
            two_digits(hour_of(secs))
        } else if pattern[1] == 'M' {
            two_digits(minute_of(secs))
        } else {
            two_digits(second_of(secs))
        };
        field + strftime_spec(pattern.skip(2), year, month, day, secs)
    } else {
        seq![pattern[0]] + strftime_spec(pattern.skip(1), year, month, day, secs)
    }
}

/// The digits of `n`, with zeros in front up to `width` digits.
pub open spec fn zero_padded(n: nat, width: nat) -> Seq<char> {
    if decimal(n).len() >= width {
        decimal(n)
    } else {
        Seq::new((width - decimal(n).len()) as nat, |i: int| '0') + decimal(n)
    }
}

/// The fraction of a second as RFC 3339 writes it with the fewest of 0, 3, 6 or 9 digits.
pub open spec fn second_fraction(nanos: nat) -> Seq<char> {
    if nanos == 0 {
        seq![]
    } else if nanos % 1_000_000 == 0 {
        seq!['.'] + zero_padded(nanos / 1_000_000, 3)
    } else if nanos % 1000 == 0 {
        seq!['.'] + zero_padded(nanos / 1000, 6)
    } else {
        seq!['.'] + zero_padded(nanos, 9)
    }
}

/// A UTC time in RFC 3339 form: date, `T`, time of day, the fraction of a second, and
/// the offset `+00:00`.
pub open spec fn rfc3339_spec(year: nat, month: nat, day: nat, secs: int, nanos: nat) -> Seq<char> {
    year_text(year) + seq!['-'] + two_digits(month) + seq!['-'] + two_digits(day) + seq!['T']
        + two_digits(hour_of(secs)) + seq![':'] + two_digits(minute_of(secs)) + seq![':']
        + two_digits(second_of(secs)) + second_fraction(nanos) + seq!['+', '0', '0', ':', '0', '0']
}

/// The calendar date (year, month, day) that chrono's `DateTime::from_timestamp` gives
/// to `secs` seconds after the Unix epoch, in UTC; `None` where chrono has no date for
/// them. For a sub-second part below one billion, the outcome depends on `secs` alone.
pub uninterp spec fn utc_date(secs: i64) -> Option<(nat, nat, nat)>;

/// `std::time::SystemTime::now`: the current system time. Nothing is stated of it.
#[verifier::external_body]
fn system_time_now() -> (now: std::time::SystemTime) {
    std::time::SystemTime::now()
}

/// `SystemTime::duration_since` the Unix epoch. Nothing is stated of the outcome.
#[verifier::external_body]
fn since_unix_epoch(time: &std::time::SystemTime) -> (res: Result<
    std::time::Duration,
    std::time::SystemTimeError,
>) {
    time.duration_since(std::time::UNIX_EPOCH)
}

/// `Duration::as_secs`: the whole seconds of `d`. Nothing is stated of them.
#[verifier::external_body]
fn whole_secs(d: &std::time::Duration) -> (secs: u64) {
    d.as_secs()
}

/// `Duration::subsec_nanos`, which its documentation says is below one billion.
#[verifier::external_body]
fn subsec_nanos(d: &std::time::Duration) -> (nanos: u32)
    ensures
        nanos < 1_000_000_000,
{
    d.subsec_nanos()
}

/// Whole seconds and sub-second nanoseconds since the Unix epoch as an `i64` pair;
/// `None` when the seconds do not fit in an `i64`.
pub fn epoch_offset(secs: u64, nanos: u32) -> (res: Option<(i64, u32)>)
    ensures
        secs <= i64::MAX ==> res == Some((secs as i64, nanos)),
        secs > i64::MAX ==> res is None,
{
    if secs > 0x7fff_ffff_ffff_ffff {
        None
    } else {
        Some((secs as i64, nanos))
    }
}

/// The current time as whole seconds and sub-second nanoseconds since the Unix epoch;
/// `None` when the clock is before the epoch or too far after it for an `i64`.
pub fn unix_time_now() -> (res: Option<(i64, u32)>)
    ensures
        res matches Some((secs, nanos)) ==> secs >= 0 && nanos < 1_000_000_000,
{
    match since_unix_epoch(&system_time_now()) {
        Ok(d) => {
            let nanos = subsec_nanos(&d);
            epoch_offset(whole_secs(&d), nanos)
        },
        Err(_) => None,
    }
}

/// chrono's `DateTime::from_timestamp(secs, nanos)` written out with `DateTime::format`
/// in `pattern`; `None` exactly where chrono has no date for `secs`. The text is
/// `pattern` with the fields of that time in place of its specifiers: the date is
/// `utc_date(secs)`, a date of the Unix era, and the time of day is that of `secs`.
#[verifier::external_body]
pub(crate) fn utc_timestamp_formatted(secs: i64, nanos: u32, pattern: &str) -> (res: Option<String>)
    requires
        secs >= 0,
        nanos < 1_000_000_000,
        simple_strftime(pattern@),
    ensures
        res is Some <==> utc_date(secs) is Some,
        res matches Some(text) ==> (utc_date(secs) matches Some((year, month, day))
            && date_in_range(year, month, day) && text@ == strftime_spec(
            pattern@,
            year,
            month,
            day,
            secs as int,
        )),
{
    match chrono::DateTime::from_timestamp(secs, nanos) {
        Some(time) => Some(time.format(pattern).to_string()),
        None => None,
    }
}

/// chrono's `DateTime::from_timestamp(secs, nanos)` written out with
/// `DateTime::to_rfc3339`; `None` exactly where chrono has no date for `secs`. The text
/// is the RFC 3339 form of that time: the date is `utc_date(secs)`, a date of the Unix
/// era, the time of day is that of `secs`, and the fraction is `nanos`.
#[verifier::external_body]
pub(crate) fn utc_timestamp_rfc3339(secs: i64, nanos: u32) -> (res: Option<String>)
    requires
        secs >= 0,
        nanos < 1_000_000_000,
    ensures
        res is Some <==> utc_date(secs) is Some,
        res matches Some(text) ==> (utc_date(secs) matches Some((year, month, day))
            && date_in_range(year, month, day) && text@ == rfc3339_spec(
            year,
            month,
            day,
            secs as int,
            nanos as nat,
        )),
{
    match chrono::DateTime::from_timestamp(secs, nanos) {
        Some(time) => Some(time.to_rfc3339()),
        None => None,
    }
}

} // verus!
