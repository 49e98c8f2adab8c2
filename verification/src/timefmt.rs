//! Timestamp rendering: turn seconds since the Unix epoch, adjusted by
//! the machine's local offset, into a `yyyy-MM-dd HH:mm:ss` string.
//! The calendar arithmetic is done and verified here; only the local
//! time zone offset is taken from `chrono`.

use vstd::prelude::*;
use chrono::Offset;
use chrono::TimeZone;
use crate::strutil::{dec_chars_into, dec_seq, string_of};

verus! {

/// Relies on chrono: `Local.timestamp_opt` and
/// `FixedOffset::local_minus_utc`, for the machine's local-zone offset
/// from UTC, in seconds, at the given instant. The offset is always
/// less than one day in magnitude; nothing more can be promised of a
/// machine-dependent value.
#[verifier::external_body]
pub(crate) fn local_offset_seconds(epoch_secs: u64) -> (r: i32)
    ensures
        -86400 < r < 86400,
{
    let secs = if epoch_secs > i64::MAX as u64 {
        i64::MAX
    } else {
        epoch_secs as i64
    };
    match chrono::Local.timestamp_opt(secs, 0) {
        chrono::LocalResult::Single(dt) => dt.offset().fix().local_minus_utc(),
        chrono::LocalResult::Ambiguous(dt, _) => dt.offset().fix().local_minus_utc(),
        chrono::LocalResult::None => 0,
    }
}

/// Whether a year is a leap year.
pub open spec fn is_leap(y: int) -> bool {
    y % 4 == 0 && (y % 100 != 0 || y % 400 == 0)
}

/// The number of days in a year.
pub open spec fn days_in_year(y: int) -> int {
    if is_leap(y) {
        366
    } else {
        365
    }
}

/// The number of days in a month.
pub open spec fn days_in_month(y: int, m: int) -> int {
    if m == 2 {
        if is_leap(y) {
            29
        } else {
            28
        }
    } else if m == 4 || m == 6 || m == 9 || m == 11 {
        30
    } else {
        31
    }
}

/// The year a day count starting at year `y` falls in, and the days
/// left within that year.
pub open spec fn year_from(y: int, rem: int) -> (int, int)
    decreases rem,
{
    if rem >= days_in_year(y) && rem >= 0 {
        year_from(y + 1, rem - days_in_year(y))
    } else {
        (y, rem)
    }
}

/// The month a day count within year `y` falls in (starting at month
/// `m`), and the days left within that month.
pub open spec fn month_from(y: int, m: int, rem: int) -> (int, int)
    decreases 12 - m,
{
    if m < 12 && rem >= days_in_month(y, m) {
        month_from(y, m + 1, rem - days_in_month(y, m))
    } else {
        (m, rem)
    }
}

/// The days of year `y` that precede month `m`.
pub open spec fn months_before(y: int, m: int) -> int
    decreases m,
{
    if m <= 1 {
        0
    } else {
        months_before(y, m - 1) + days_in_month(y, m - 1)
    }
}

/// The days between 1970-01-01 and the start of year `y`.
pub open spec fn days_before_year(y: int) -> int
    decreases y - 1970,
{
    if y <= 1970 {
        0
    } else {
        days_before_year(y - 1) + days_in_year(y - 1)
    }
}

/// The year computation is pinned: starting from year `y` with `rem`
/// days, it yields the unique year whose day range contains the day,
/// and the exact day within that year.
pub proof fn lemma_year_from_characterization(y: int, rem: int)
    requires
        y >= 1970,
        rem >= 0,
    ensures
        year_from(y, rem).0 >= y,
        0 <= year_from(y, rem).1 < days_in_year(year_from(y, rem).0),
        days_before_year(year_from(y, rem).0) - days_before_year(y) + year_from(y, rem).1 == rem,
    decreases rem,
{
    if rem >= days_in_year(y) {
        lemma_year_from_characterization(y + 1, rem - days_in_year(y));
    }
}

/// The month computation is pinned: it yields a month no earlier than
/// where it started, and the exact day count within the year.
pub proof fn lemma_month_from_characterization(y: int, m: int, rem: int)
    requires
        1 <= m <= 12,
        rem >= 0,
    ensures
        m <= month_from(y, m, rem).0 <= 12,
        month_from(y, m, rem).1 >= 0,
        months_before(y, month_from(y, m, rem).0) - months_before(y, m) + month_from(
            y,
            m,
            rem,
        ).1 == rem,
        month_from(y, m, rem).0 < 12 ==> month_from(y, m, rem).1 < days_in_month(
            y,
            month_from(y, m, rem).0,
        ),
    decreases 12 - m,
{
    if m < 12 && rem >= days_in_month(y, m) {
        lemma_month_from_characterization(y, m + 1, rem - days_in_month(y, m));
    }
}

/// The rendered calendar parts are pinned: the year, month and day of
/// `timestamp_text` denote the unique calendar date whose day number,
/// counted from 1970-01-01 as day zero, equals `local / 86400`.
pub proof fn lemma_timestamp_parts(local: nat)
    ensures
        year_from(1970, (local / 86400) as int).0 >= 1970,
        1 <= month_from(
            year_from(1970, (local / 86400) as int).0,
            1,
            year_from(1970, (local / 86400) as int).1,
        ).0 <= 12,
        days_before_year(year_from(1970, (local / 86400) as int).0) + months_before(
            year_from(1970, (local / 86400) as int).0,
            month_from(
                year_from(1970, (local / 86400) as int).0,
                1,
                year_from(1970, (local / 86400) as int).1,
            ).0,
        ) + month_from(
            year_from(1970, (local / 86400) as int).0,
            1,
            year_from(1970, (local / 86400) as int).1,
        ).1 == local / 86400,
        0 <= month_from(
            year_from(1970, (local / 86400) as int).0,
            1,
            year_from(1970, (local / 86400) as int).1,
        ).1 < days_in_month(
            year_from(1970, (local / 86400) as int).0,
            month_from(
                year_from(1970, (local / 86400) as int).0,
                1,
                year_from(1970, (local / 86400) as int).1,
            ).0,
        ),
{
    let days = (local / 86400) as int;
    lemma_year_from_characterization(1970, days);
    let ymd = year_from(1970, days);
    lemma_month_from_characterization(ymd.0, 1, ymd.1);
    let md = month_from(ymd.0, 1, ymd.1);
    if md.0 == 12 && md.1 >= 31 {
        assert(months_before(ymd.0, 12) == days_in_year(ymd.0) - 31) by {
            reveal_with_fuel(months_before, 13);
        }
    }
}

/// A value below 100 as two digits, zero padded.
pub open spec fn pad2(v: nat) -> Seq<char> {
    if v < 10 {
        seq!['0'] + dec_seq(v)
    } else {
        dec_seq(v)
    }
}

/// The `yyyy-MM-dd HH:mm:ss` text of a local-time second count.
pub open spec fn timestamp_text(local: nat) -> Seq<char> {
    let days = local / 86400;
    let tod = local % 86400;
    let ymd = year_from(1970, days as int);
    let md = month_from(ymd.0, 1, ymd.1);
    dec_seq(ymd.0 as nat) + seq!['-'] + pad2(md.0 as nat) + seq!['-'] + pad2(
        (md.1 + 1) as nat,
    ) + seq![' '] + pad2(tod / 3600) + seq![':'] + pad2(tod % 3600 / 60) + seq![':'] + pad2(
        tod % 60,
    )
}

/// The local second count of an epoch instant under an offset: shifted
/// by the offset and clamped at the epoch itself.
pub open spec fn local_secs(epoch: u64, offset: int) -> nat {
    if epoch + offset >= 0 {
        (epoch + offset) as nat
    } else {
        0
    }
}

/// Append the digits of a value below 100, zero padded to two digits.
fn push_pad2(v: u64, out: &mut Vec<char>)
    requires
        v < 100,
    ensures
        final(out)@ == old(out)@ + pad2(v as nat),
{
    if v < 10 {
        out.push('0');
    }
    dec_chars_into(v, out);
    proof {
        if v < 10 {
            assert(out@ =~= old(out)@ + pad2(v as nat));
        }
    }
}

/// Format an epoch instant under a local offset as
/// `yyyy-MM-dd HH:mm:ss`.
pub fn format_timestamp(epoch_secs: u64, offset: i32) -> (r: String)
    requires
        epoch_secs < u64::MAX - 86400,
        -86400 < offset < 86400,
    ensures
        r@ == timestamp_text(local_secs(epoch_secs, offset as int)),
{
    let local: u64 = if offset >= 0 {
        epoch_secs + (offset as u64)
    } else {
        let mag = (-(offset as i64)) as u64;
        if epoch_secs >= mag {
            epoch_secs - mag
        } else {
            0
        }
    };
    proof {
        assert(local == local_secs(epoch_secs, offset as int));
    }
    let days: u64 = local / 86400;
    let tod: u64 = local % 86400;
    let mut y: u64 = 1970;
    let mut rem: u64 = days;
    let mut ylen: u64 = if is_leap_exec(y) {
        366
    } else {
        365
    };
    while rem >= ylen
        invariant
            ylen == days_in_year(y as int),
            1970 <= y,
            y - 1970 <= days - rem,
            rem <= days,
            days < u64::MAX / 86400 + 1,
            year_from(1970, days as int) == year_from(y as int, rem as int),
        decreases rem,
    {
        rem = rem - ylen;
        y = y + 1;
        ylen = if is_leap_exec(y) {
            366
        } else {
            365
        };
    }
    proof {
        assert(year_from(y as int, rem as int) == (y as int, rem as int));
        assert(rem < days_in_year(y as int));
    }
    let mut m: u64 = 1;
    let mut mrem: u64 = rem;
    while m < 12 && mrem >= days_in_month_exec(y, m)
        invariant
            1 <= m <= 12,
            mrem <= rem,
            rem < days_in_year(y as int),
            mrem + months_before(y as int, m as int) == rem,
            month_from(y as int, 1, rem as int) == month_from(y as int, m as int, mrem as int),
        decreases 12 - m,
    {
        mrem = mrem - days_in_month_exec(y, m);
        m = m + 1;
    }
    proof {
        assert(month_from(y as int, m as int, mrem as int) == (m as int, mrem as int));
        assert(mrem <= 30) by {
            if m == 12 && mrem >= 31 {
                assert(months_before(y as int, 12) == days_in_year(y as int) - 31) by {
                    reveal_with_fuel(months_before, 13);
                }
            }
        }
    }
    let mut out: Vec<char> = Vec::new();
    dec_chars_into(y, &mut out);
    out.push('-');
    proof {
        assert(out@ =~= dec_seq(y as nat) + seq!['-']);
    }
    push_pad2(m, &mut out);
    out.push('-');
    push_pad2(mrem + 1, &mut out);
    out.push(' ');
    push_pad2(tod / 3600, &mut out);
    out.push(':');
    push_pad2(tod % 3600 / 60, &mut out);
    out.push(':');
    push_pad2(tod % 60, &mut out);
    proof {
        assert(out@ =~= timestamp_text(local as nat));
    }
    string_of(&out)
}

/// Whether a year is a leap year, computed.
fn is_leap_exec(y: u64) -> (r: bool)
    ensures
        r == is_leap(y as int),
{
    y % 4 == 0 && (y % 100 != 0 || y % 400 == 0)
}

/// The number of days in a month, computed.
fn days_in_month_exec(y: u64, m: u64) -> (r: u64)
    ensures
        r == days_in_month(y as int, m as int),
{
    if m == 2 {
        if is_leap_exec(y) {
            29
        } else {
            28
        }
    } else if m == 4 || m == 6 || m == 9 || m == 11 {
        30
    } else {
        31
    }
}

} // verus!
