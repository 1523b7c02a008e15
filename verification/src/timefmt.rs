//! Calendar rendering of millisecond timestamps, through chrono.

use vstd::prelude::*;
use vstd::arithmetic::div_mod::{
    lemma_fundamental_div_mod, lemma_fundamental_div_mod_converse,
    lemma_mod_division_less_than_divisor,
};

verus! {

/// Whether chrono can represent a timestamp given in milliseconds since
/// the Unix epoch.
pub uninterp spec fn millis_in_range(ms: int) -> bool;

/// The `DD.MM.YYYY HH:MM` rendering, in UTC, of a representable
/// millisecond timestamp.
pub uninterp spec fn date_time_text(ms: int) -> Seq<char>;

/// The `HH:MM` rendering, in UTC, of a millisecond timestamp: the hour
/// and the minute of its second of day, each in two digits.  Division
/// here is Euclidean, as chrono's is, so timestamps before the epoch
/// read correctly; the text depends on nothing finer than the calendar
/// minute.
pub open spec fn clock_text(ms: int) -> Seq<char> {
    let sod = (ms / 1000) % 86400;
    crate::textnum::two_dec(sod / 3600) + ":"@ + crate::textnum::two_dec((sod % 3600) / 60)
}

/// Relies on chrono's `DateTime::<Utc>::from_timestamp_millis`, which is
/// `Some` exactly on the timestamps chrono represents, and on `naive_utc`
/// and `format` with `%d.%m.%Y %H:%M`, whose rendering is a function of
/// the timestamp alone.
#[verifier::external_body]
pub(crate) fn format_date_time(ms: i64) -> (r: Option<String>)
    ensures
        (r is Some) == millis_in_range(ms as int),
        r matches Some(t) ==> t@ == date_time_text(ms as int),
{
    match chrono::DateTime::<chrono::Utc>::from_timestamp_millis(ms) {
        Some(d) => Some(d.naive_utc().format("%d.%m.%Y %H:%M").to_string()),
        None => None,
    }
}

/// Relies on chrono's `DateTime::<Utc>::from_timestamp_millis`, `naive_utc`
/// and `format` with `%H:%M`, as `format_date_time` does.  That the
/// rendering equals `clock_text` holds because `from_timestamp_millis`
/// takes the second of day by Euclidean division and `%H:%M` prints its
/// hour and minute zero-padded to two digits.
#[verifier::external_body]
pub(crate) fn format_clock(ms: i64) -> (r: Option<String>)
    ensures
        (r is Some) == millis_in_range(ms as int),
        r matches Some(t) ==> t@ == clock_text(ms as int),
{
    match chrono::DateTime::<chrono::Utc>::from_timestamp_millis(ms) {
        Some(d) => Some(d.naive_utc().format("%H:%M").to_string()),
        None => None,
    }
}

proof fn lemma_clock_fields(ms: int)
    ensures
        ((ms / 1000) % 86400) / 3600 == ((ms / 60000) % 1440) / 60,
        (((ms / 1000) % 86400) % 3600) / 60 == ((ms / 60000) % 1440) % 60,
{
    let m = ms / 60000;
    let q = ms % 60000;
    lemma_fundamental_div_mod(ms, 60000);
    lemma_mod_division_less_than_divisor(ms, 60000);
    let r = q / 1000;
    let q2 = q % 1000;
    lemma_fundamental_div_mod(q, 1000);
    lemma_mod_division_less_than_divisor(q, 1000);
    assert(0 <= r && r < 60);
    assert(ms == 1000 * (60 * m + r) + q2);
    lemma_fundamental_div_mod_converse(ms, 1000, 60 * m + r, q2);
    let s = ms / 1000;
    let k = m / 1440;
    let mm = m % 1440;
    lemma_fundamental_div_mod(m, 1440);
    lemma_mod_division_less_than_divisor(m, 1440);
    assert(s == 86400 * k + (60 * mm + r));
    assert(0 <= 60 * mm + r && 60 * mm + r < 86400);
    lemma_fundamental_div_mod_converse(s, 86400, k, 60 * mm + r);
    let sod = s % 86400;
    let hh = mm / 60;
    let m2 = mm % 60;
    lemma_fundamental_div_mod(mm, 60);
    lemma_mod_division_less_than_divisor(mm, 60);
    assert(sod == 3600 * hh + (60 * m2 + r));
    assert(0 <= 60 * m2 + r && 60 * m2 + r < 3600);
    lemma_fundamental_div_mod_converse(sod, 3600, hh, 60 * m2 + r);
    lemma_fundamental_div_mod_converse(60 * m2 + r, 60, m2, r);
}

/// The clock text depends on nothing finer than the calendar minute:
/// two timestamps within one minute render the same `HH:MM`.
pub proof fn lemma_clock_minute_granularity(a: int, b: int)
    requires
        a / 60000 == b / 60000,
    ensures
        clock_text(a) == clock_text(b),
{
    lemma_clock_fields(a);
    lemma_clock_fields(b);
}

} // verus!
