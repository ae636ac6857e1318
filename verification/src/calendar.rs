//! Reset times: parsing `YYYY-MM-DDTHH:MM:SS` timestamps, turning a civil UTC
//! date and time into seconds since the Unix epoch, and rounding to a minute.
use vstd::prelude::*;
use vstd::arithmetic::div_mod::lemma_fundamental_div_mod_converse;
use crate::decimal::{
    parse_i32_spec, parse_u32_spec, parse_i32_range, parse_u32_range, parse_int_utf8,
    lemma_parse_bytes_as_utf8,
};
use crate::text::{byte_chars, chars_of_bytes};

verus! {

/// Integer division rounding toward zero, as Rust's `/` on signed integers.
pub open spec fn trunc_div(a: int, b: int) -> int {
    let q = (if a >= 0 { a } else { -a }) / (if b >= 0 { b } else { -b });
    if (a >= 0) == (b > 0) || q == 0 {
        q
    } else {
        -q
    }
}

/// The day count that `utc_to_epoch` computes for a civil date (the
/// days-from-civil formula, with Rust's truncating division).
pub open spec fn days_from_civil(year: int, month: int, day: int) -> int {
    let y = if month <= 2 { year - 1 } else { year };
    let m = if month <= 2 { month + 12 } else { month };
    365 * y + trunc_div(y, 4) - trunc_div(y, 100) + trunc_div(y, 400) + (153 * (m - 3) + 2) / 5
        + day - 719469
}

/// Seconds that `utc_to_epoch` gives for a civil date and time.
pub open spec fn epoch_from_civil(
    year: int,
    month: int,
    day: int,
    hour: int,
    min: int,
    sec: int,
) -> int {
    days_from_civil(year, month, day) * 86400 + hour * 3600 + min * 60 + sec
}

/// Gregorian leap years.
pub open spec fn is_leap_year(y: int) -> bool {
    (y % 4 == 0 && y % 100 != 0) || y % 400 == 0
}

pub open spec fn days_in_year(y: int) -> int {
    if is_leap_year(y) {
        366
    } else {
        365
    }
}

pub open spec fn days_in_month(y: int, m: int) -> int {
    if m == 2 {
        if is_leap_year(y) {
            29
        } else {
            28
        }
    } else if m == 4 || m == 6 || m == 9 || m == 11 {
        30
    } else {
        31
    }
}

pub open spec fn is_valid_date(y: int, m: int, d: int) -> bool {
    1 <= m <= 12 && 1 <= d <= days_in_month(y, m)
}

/// Days in the months of year `y` before month `m`.
pub open spec fn days_before_month(y: int, m: int) -> int
    decreases m,
{
    if m <= 1 {
        0
    } else {
        days_before_month(y, m - 1) + days_in_month(y, m - 1)
    }
}

/// Days from 1970-01-01 to the first of January of year `y` (negative
/// before 1970).
pub open spec fn days_before_year(y: int) -> int
    decreases (if y >= 1970 { y - 1970 } else { 1970 - y }),
{
    if y == 1970 {
        0
    } else if y > 1970 {
        days_before_year(y - 1) + days_in_year(y - 1)
    } else {
        days_before_year(y + 1) - days_in_year(y)
    }
}

/// Days from 1970-01-01 to the date `y-m-d`, counted on the Gregorian
/// calendar.
pub open spec fn days_since_unix_epoch(y: int, m: int, d: int) -> int {
    days_before_year(y) + days_before_month(y, m) + d - 1
}

proof fn lemma_step_div(x: int, k: int)
    requires
        x >= 1,
        k > 0,
    ensures
        x / k - (x - 1) / k == (if x % k == 0 { 1int } else { 0int }),
        x / k >= 0,
{
    let q = (x - 1) / k;
    let r = (x - 1) % k;
    assert(x - 1 == q * k + r) by {
        vstd::arithmetic::div_mod::lemma_fundamental_div_mod(x - 1, k);
        vstd::arithmetic::mul::lemma_mul_is_commutative(q, k);
    }
    assert(0 <= r < k) by {
        vstd::arithmetic::div_mod::lemma_mod_bound(x - 1, k);
    }
    if r == k - 1 {
        assert(x == (q + 1) * k + 0) by (nonlinear_arith)
            requires
                x - 1 == q * k + r,
                r == k - 1,
        ;
        lemma_fundamental_div_mod_converse(x, k, q + 1, 0);
    } else {
        assert(x == q * k + (r + 1));
        lemma_fundamental_div_mod_converse(x, k, q, r + 1);
    }
    assert(q >= 0) by {
        vstd::arithmetic::div_mod::lemma_div_pos_is_pos(x - 1, k);
    }
}

/// The leap-day terms of the day formula grow by one exactly in leap years.
proof fn lemma_leap_terms(y: int)
    requires
        y >= 1,
    ensures
        (y / 4 - y / 100 + y / 400) - ((y - 1) / 4 - (y - 1) / 100 + (y - 1) / 400) == (if is_leap_year(y) {
            1int
        } else {
            0int
        }),
{
    lemma_step_div(y, 4);
    lemma_step_div(y, 100);
    lemma_step_div(y, 400);
    if y % 400 == 0 {
        let k = y / 400;
        vstd::arithmetic::div_mod::lemma_fundamental_div_mod(y, 400);
        assert(y == (4 * k) * 100 + 0);
        lemma_fundamental_div_mod_converse(y, 100, 4 * k, 0);
    }
    if y % 100 == 0 {
        let k = y / 100;
        vstd::arithmetic::div_mod::lemma_fundamental_div_mod(y, 100);
        assert(y == (25 * k) * 4 + 0);
        lemma_fundamental_div_mod_converse(y, 4, 25 * k, 0);
    }
}

/// From year 1 on, the formula's leap-day terms use floor division.
proof fn lemma_trunc_div_nonneg(a: int, b: int)
    requires
        a >= 0,
        b > 0,
    ensures
        trunc_div(a, b) == a / b,
{
}

/// Days from the first of January of `y` to `y-m-d`, by the formula.
proof fn lemma_civil_within_year(y: int, m: int, d: int)
    requires
        y >= 1,
        1 <= m <= 12,
    ensures
        days_from_civil(y, m, d) == days_from_civil(y, 1, 1) + days_before_month(y, m) + d - 1,
{
    lemma_trunc_div_nonneg(y - 1, 4);
    lemma_trunc_div_nonneg(y - 1, 100);
    lemma_trunc_div_nonneg(y - 1, 400);
    lemma_trunc_div_nonneg(y, 4);
    lemma_trunc_div_nonneg(y, 100);
    lemma_trunc_div_nonneg(y, 400);
    lemma_leap_terms(y);
    reveal_with_fuel(days_before_month, 13);
}

/// One calendar year later, the formula has counted that year's days.
proof fn lemma_civil_next_year(y: int)
    requires
        y >= 1,
    ensures
        days_from_civil(y + 1, 1, 1) == days_from_civil(y, 1, 1) + days_in_year(y),
{
    lemma_trunc_div_nonneg(y - 1, 4);
    lemma_trunc_div_nonneg(y - 1, 100);
    lemma_trunc_div_nonneg(y - 1, 400);
    lemma_trunc_div_nonneg(y, 4);
    lemma_trunc_div_nonneg(y, 100);
    lemma_trunc_div_nonneg(y, 400);
    lemma_leap_terms(y);
}

proof fn lemma_civil_new_year(y: int)
    requires
        y >= 1,
    ensures
        days_from_civil(y, 1, 1) == days_before_year(y),
    decreases (if y >= 1970 { y - 1970 } else { 1970 - y }),
{
    if y == 1970 {
        assert(days_from_civil(1970, 1, 1) == 0);
    } else if y > 1970 {
        lemma_civil_new_year(y - 1);
        lemma_civil_next_year(y - 1);
    } else {
        lemma_civil_new_year(y + 1);
        lemma_civil_next_year(y);
    }
}

/// For every valid Gregorian date from year 1 on, the day formula used by
/// `utc_to_epoch` counts exactly the calendar days since 1970-01-01.
pub proof fn lemma_days_from_civil_counts_days(y: int, m: int, d: int)
    requires
        y >= 1,
        is_valid_date(y, m, d),
    ensures
        days_from_civil(y, m, d) == days_since_unix_epoch(y, m, d),
{
    lemma_civil_within_year(y, m, d);
    lemma_civil_new_year(y);
}

/// Seconds since the Unix epoch of a UTC date and time, by the
/// days-from-civil formula.
/// For a valid date from year 1 on, that is the number of seconds elapsed
/// since 1970-01-01T00:00:00 on the Gregorian calendar.
pub fn utc_to_epoch(year: i32, month: u32, day: u32, hour: u32, min: u32, sec: u32) -> (r: i64)
    ensures
        r == epoch_from_civil(year as int, month as int, day as int, hour as int, min as int, sec as int),
        year >= 1 && is_valid_date(year as int, month as int, day as int) ==> r
            == days_since_unix_epoch(year as int, month as int, day as int) * 86400 + hour * 3600
            + min * 60 + sec,
{
    proof {
        if year >= 1 && is_valid_date(year as int, month as int, day as int) {
            lemma_days_from_civil_counts_days(year as int, month as int, day as int);
        }
    }
    let mut y = year as i64;
    let mut m = month as i64;
    if m <= 2 {
        y -= 1;
        m += 12;
    }
    let q4 = y / 4;
    let q100 = y / 100;
    let q400 = y / 400;
    assert(q4 == trunc_div(y as int, 4));
    assert(q100 == trunc_div(y as int, 100));
    assert(q400 == trunc_div(y as int, 400));
    let era_day = 365 * y + q4 - q100 + q400 + (153 * (m - 3) + 2) / 5 + day as i64 - 719469;
    era_day * 86400 + hour as i64 * 3600 + min as i64 * 60 + sec as i64
}

/// `epoch` rounded to a whole minute: to the nearest one, halves up, from
/// 1970 on; toward zero before.
pub open spec fn round_to_minute(epoch: int) -> int {
    if epoch >= 0 {
        ((epoch + 30) / 60) * 60
    } else {
        -(((-epoch) / 60) * 60)
    }
}

proof fn lemma_round_to_minute(e: int, secs: int)
    requires
        i64::MIN <= e <= i64::MAX,
        secs == (if e >= 0 { e % 60 } else { -((-e) % 60) }),
    ensures
        secs >= 30 ==> e >= 0 && e + (60 - secs) == round_to_minute(e) && e + (60 - secs)
            <= i64::MAX,
        secs < 30 ==> e - secs == round_to_minute(e),
{
    if e >= 0 {
        let q = e / 60;
        vstd::arithmetic::div_mod::lemma_fundamental_div_mod(e, 60);
        assert(e == 60 * q + secs);
        if secs >= 30 {
            lemma_fundamental_div_mod_converse(e + 30, 60, q + 1, secs - 30);
            assert(60 * q + 30 <= i64::MAX);
        } else {
            lemma_fundamental_div_mod_converse(e + 30, 60, q, secs + 30);
        }
    } else {
        let q = (-e) / 60;
        vstd::arithmetic::div_mod::lemma_fundamental_div_mod(-e, 60);
        assert(-e == 60 * q - secs);
    }
}

/// Rounds `epoch` to a whole minute (see `round_to_minute`).
pub fn round_epoch_to_minute(epoch: i64) -> (r: i64)
    ensures
        r == round_to_minute(epoch as int),
{
    let secs = epoch % 60;
    proof {
        lemma_round_to_minute(epoch as int, secs as int);
    }
    if secs >= 30 {
        epoch + (60 - secs)
    } else {
        epoch - secs
    }
}

/// Rounding to a minute gives a whole minute, is stable under a second
/// rounding, and moves a time from 1970 on by at most 30 seconds.
pub proof fn lemma_round_to_minute_laws(epoch: int)
    ensures
        round_to_minute(epoch) % 60 == 0,
        round_to_minute(round_to_minute(epoch)) == round_to_minute(epoch),
        epoch >= 0 ==> epoch - 30 < round_to_minute(epoch) <= epoch + 30,
        epoch < 0 ==> epoch <= round_to_minute(epoch) < epoch + 60,
{
    let r = round_to_minute(epoch);
    if epoch >= 0 {
        let q = (epoch + 30) / 60;
        vstd::arithmetic::div_mod::lemma_fundamental_div_mod(epoch + 30, 60);
        vstd::arithmetic::div_mod::lemma_mod_bound(epoch + 30, 60);
        assert(q >= 0);
        lemma_fundamental_div_mod_converse(r, 60, q, 0);
        lemma_fundamental_div_mod_converse(r + 30, 60, q, 30);
    } else {
        let q = (-epoch) / 60;
        vstd::arithmetic::div_mod::lemma_fundamental_div_mod(-epoch, 60);
        vstd::arithmetic::div_mod::lemma_mod_bound(-epoch, 60);
        lemma_fundamental_div_mod_converse(r, 60, -q, 0);
        if q > 0 {
            lemma_fundamental_div_mod_converse(-r, 60, q, 0);
        } else {
            assert(r == 0);
        }
    }
}

/// For a valid date from year 1 on, `utc_to_epoch` gives the seconds elapsed
/// since 1970-01-01T00:00:00 on the Gregorian calendar.
pub proof fn lemma_epoch_from_civil_counts_seconds(
    y: int,
    m: int,
    d: int,
    hour: int,
    min: int,
    sec: int,
)
    requires
        y >= 1,
        is_valid_date(y, m, d),
    ensures
        epoch_from_civil(y, m, d, hour, min, sec) == days_since_unix_epoch(y, m, d) * 86400
            + hour * 3600 + min * 60 + sec,
{
    lemma_days_from_civil_counts_days(y, m, d);
}

/// `str::parse::<u32>` on the text of `bytes` (`None` for bytes that are not
/// such a number, UTF-8 or not).
pub fn parse_digits(bytes: &[u8]) -> (r: Option<u32>)
    ensures
        r matches Some(x) ==> parse_u32_spec(byte_chars(bytes@)) == Some(x as int),
        r is None ==> parse_u32_spec(byte_chars(bytes@)) is None,
{
    let v = chars_of_bytes(bytes);
    assert(v@.subrange(0, v@.len() as int) =~= v@);
    parse_u32_range(&v, 0, v.len())
}

/// `str::parse::<i32>` on the text of `bytes`.
pub fn parse_signed_digits(bytes: &[u8]) -> (r: Option<i32>)
    ensures
        r matches Some(x) ==> parse_i32_spec(byte_chars(bytes@)) == Some(x as int),
        r is None ==> parse_i32_spec(byte_chars(bytes@)) is None,
{
    let v = chars_of_bytes(bytes);
    assert(v@.subrange(0, v@.len() as int) =~= v@);
    parse_i32_range(&v, 0, v.len())
}

/// The reset time that `parse_reset_epoch` reads from the bytes `b` of a
/// timestamp `YYYY-MM-DDTHH:MM:SS...`: the fields sit at fixed offsets, the
/// separators are not checked, and whatever follows the seconds is ignored.
pub open spec fn reset_epoch_spec(b: Seq<u8>) -> Option<int> {
    if b.len() < 19 {
        None
    } else {
        match (
            parse_i32_spec(byte_chars(b.subrange(0, 4))),
            parse_u32_spec(byte_chars(b.subrange(5, 7))),
            parse_u32_spec(byte_chars(b.subrange(8, 10))),
            parse_u32_spec(byte_chars(b.subrange(11, 13))),
            parse_u32_spec(byte_chars(b.subrange(14, 16))),
            parse_u32_spec(byte_chars(b.subrange(17, 19))),
        ) {
            (Some(y), Some(mo), Some(d), Some(h), Some(mi), Some(s)) => Some(
                epoch_from_civil(y, mo, d, h, mi, s),
            ),
            _ => None,
        }
    }
}

/// Seconds since the Unix epoch of an ISO-8601 UTC timestamp such as
/// `2025-06-01T05:00:00.123Z`.
pub fn parse_reset_epoch(iso: &str) -> (r: Option<i64>)
    ensures
        r matches Some(x) ==> reset_epoch_spec(vstd::utf8::encode_utf8(iso@)) == Some(x as int),
        r is None ==> reset_epoch_spec(vstd::utf8::encode_utf8(iso@)) is None,
{
    let b = iso.as_bytes();
    if b.len() < 19 {
        return None;
    }
    let year = parse_signed_digits(vstd::slice::slice_subrange(b, 0, 4));
    let month = parse_digits(vstd::slice::slice_subrange(b, 5, 7));
    let day = parse_digits(vstd::slice::slice_subrange(b, 8, 10));
    let hour = parse_digits(vstd::slice::slice_subrange(b, 11, 13));
    let min = parse_digits(vstd::slice::slice_subrange(b, 14, 16));
    let sec = parse_digits(vstd::slice::slice_subrange(b, 17, 19));
    match (year, month, day, hour, min, sec) {
        (Some(year), Some(month), Some(day), Some(hour), Some(min), Some(sec)) => {
            Some(utc_to_epoch(year, month, day, hour, min, sec))
        },
        _ => None,
    }
}

/// The reset time read field by field with `str::from_utf8` and then
/// `str::parse` (`i32` for the year, `u32` for the rest), the way the fields
/// of a timestamp are usually decoded.
pub open spec fn reset_epoch_utf8_spec(b: Seq<u8>) -> Option<int> {
    if b.len() < 19 {
        None
    } else {
        match (
            parse_int_utf8(b.subrange(0, 4), true, i32::MIN as int, i32::MAX as int),
            parse_int_utf8(b.subrange(5, 7), false, 0, u32::MAX as int),
            parse_int_utf8(b.subrange(8, 10), false, 0, u32::MAX as int),
            parse_int_utf8(b.subrange(11, 13), false, 0, u32::MAX as int),
            parse_int_utf8(b.subrange(14, 16), false, 0, u32::MAX as int),
            parse_int_utf8(b.subrange(17, 19), false, 0, u32::MAX as int),
        ) {
            (Some(y), Some(mo), Some(d), Some(h), Some(mi), Some(s)) => Some(
                epoch_from_civil(y, mo, d, h, mi, s),
            ),
            _ => None,
        }
    }
}

/// Reading the fields of a timestamp byte by byte, as `parse_reset_epoch`
/// does, gives the same reset time as decoding each field as UTF-8 first.
pub proof fn lemma_reset_epoch_as_utf8(b: Seq<u8>)
    ensures
        reset_epoch_spec(b) == reset_epoch_utf8_spec(b),
{
    if b.len() >= 19 {
        lemma_parse_bytes_as_utf8(b.subrange(0, 4), true, i32::MIN as int, i32::MAX as int);
        lemma_parse_bytes_as_utf8(b.subrange(5, 7), false, 0, u32::MAX as int);
        lemma_parse_bytes_as_utf8(b.subrange(8, 10), false, 0, u32::MAX as int);
        lemma_parse_bytes_as_utf8(b.subrange(11, 13), false, 0, u32::MAX as int);
        lemma_parse_bytes_as_utf8(b.subrange(14, 16), false, 0, u32::MAX as int);
        lemma_parse_bytes_as_utf8(b.subrange(17, 19), false, 0, u32::MAX as int);
    }
}

/// The reset time to show for a cached timestamp text: the parsed reset
/// time rounded to a whole minute.
pub open spec fn reset_display_epoch_spec(resets_at: Seq<char>) -> Option<int> {
    match reset_epoch_spec(vstd::utf8::encode_utf8(resets_at)) {
        Some(e) => Some(round_to_minute(e)),
        None => None,
    }
}

/// The reset time of a cached timestamp text, rounded to a whole minute; the
/// local time of this instant is what the status line shows.
pub fn reset_display_epoch(resets_at: &str) -> (r: Option<i64>)
    ensures
        r matches Some(x) ==> reset_display_epoch_spec(resets_at@) == Some(x as int),
        r is None ==> reset_display_epoch_spec(resets_at@) is None,
{
    match parse_reset_epoch(resets_at) {
        Some(e) => Some(round_epoch_to_minute(e)),
        None => None,
    }
}

} // verus!
