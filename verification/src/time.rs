//! The timestamp grammar of `eventDateTime`: an ISO-8601 instant in UTC,
//! `YYYY-MM-DDThh:mm:ssZ`, optionally with one to nine fractional-second
//! digits before the `Z`. A parsed instant is expressed as milliseconds
//! since the Unix epoch, on the proleptic Gregorian calendar; fractional
//! digits beyond the third are truncated.

use vstd::prelude::*;

verus! {

pub open spec fn is_digit(b: u8) -> bool {
    48 <= b <= 57
}

/// The numeric value of a digit byte.
pub open spec fn dv(b: u8) -> int {
    b - 48
}

/// The value of the two digit bytes at `i`.
pub open spec fn d2(s: Seq<u8>, i: int) -> int {
    dv(s[i]) * 10 + dv(s[i + 1])
}

/// The value of the four digit bytes at `i`.
pub open spec fn d4(s: Seq<u8>, i: int) -> int {
    dv(s[i]) * 1000 + dv(s[i + 1]) * 100 + dv(s[i + 2]) * 10 + dv(s[i + 3])
}

/// Whether the bytes have the shape `YYYY-MM-DDThh:mm:ssZ`, with an optional
/// fraction `.d{1..9}` before the `Z`.
pub open spec fn ts_shape_ok(s: Seq<u8>) -> bool {
    &&& s.len() >= 20
    &&& is_digit(s[0]) && is_digit(s[1]) && is_digit(s[2]) && is_digit(s[3])
    &&& s[4] == 45 && is_digit(s[5]) && is_digit(s[6]) && s[7] == 45
    &&& is_digit(s[8]) && is_digit(s[9]) && s[10] == 84
    &&& is_digit(s[11]) && is_digit(s[12]) && s[13] == 58
    &&& is_digit(s[14]) && is_digit(s[15]) && s[16] == 58
    &&& is_digit(s[17]) && is_digit(s[18])
    &&& if s.len() == 20 {
        s[19] == 90
    } else {
        &&& s[19] == 46
        &&& 22 <= s.len() <= 30
        &&& s[s.len() - 1] == 90
        &&& forall|k: int| 20 <= k < s.len() - 1 ==> is_digit(s[k])
    }
}

pub open spec fn is_leap_year(y: int) -> bool {
    y % 4 == 0 && (y % 100 != 0 || y % 400 == 0)
}

pub open spec fn days_in_month(y: int, mo: int) -> int {
    if mo == 2 {
        if is_leap_year(y) {
            29
        } else {
            28
        }
    } else if mo == 4 || mo == 6 || mo == 9 || mo == 11 {
        30
    } else {
        31
    }
}

/// Whether the calendar fields of a shaped timestamp are in range.
pub open spec fn ts_fields_ok(s: Seq<u8>) -> bool {
    let y = d4(s, 0);
    let mo = d2(s, 5);
    let d = d2(s, 8);
    let h = d2(s, 11);
    let mi = d2(s, 14);
    let sec = d2(s, 17);
    &&& 1 <= mo <= 12
    &&& 1 <= d <= days_in_month(y, mo)
    &&& h <= 23
    &&& mi <= 59
    &&& sec <= 59
}

/// Days between a proleptic Gregorian civil date and 1970-01-01.
pub open spec fn days_from_civil(y: int, mo: int, d: int) -> int {
    let yp = if mo <= 2 {
        y + 399
    } else {
        y + 400
    };
    let erap = yp / 400;
    let yoe = yp % 400;
    let mp = (mo + 9) % 12;
    let doy = (153 * mp + 2) / 5 + d - 1;
    let doe = yoe * 365 + yoe / 4 + doy - yoe / 100;
    (erap - 1) * 146097 + doe - 719468
}

/// The milliseconds encoded by the fractional digits, truncated to three.
pub open spec fn frac_ms(s: Seq<u8>) -> int {
    if s.len() == 20 {
        0
    } else if s.len() == 22 {
        dv(s[20]) * 100
    } else if s.len() == 23 {
        dv(s[20]) * 100 + dv(s[21]) * 10
    } else {
        dv(s[20]) * 100 + dv(s[21]) * 10 + dv(s[22])
    }
}

/// The instant of a shaped, in-range timestamp, in milliseconds since the
/// Unix epoch.
pub open spec fn ts_millis(s: Seq<u8>) -> int {
    let days = days_from_civil(d4(s, 0), d2(s, 5), d2(s, 8));
    let secs = days * 86400 + d2(s, 11) * 3600 + d2(s, 14) * 60 + d2(s, 17);
    secs * 1000 + frac_ms(s)
}

/// The timestamp grammar: the instant of the bytes, when they are an
/// accepted timestamp.
pub open spec fn parse_ts(s: Seq<u8>) -> Option<int> {
    if ts_shape_ok(s) && ts_fields_ok(s) {
        Some(ts_millis(s))
    } else {
        None
    }
}

/// Reads the two digit bytes at `i`.
fn rd2(s: &[u8], i: usize) -> (r: u32)
    requires
        i + 2 <= s@.len(),
        is_digit(s@[i as int]),
        is_digit(s@[i as int + 1]),
    ensures
        r == d2(s@, i as int),
        r <= 99,
{
    (s[i] - 48) as u32 * 10 + (s[i + 1] - 48) as u32
}

/// Reads the four digit bytes at `i`.
fn rd4(s: &[u8], i: usize) -> (r: u32)
    requires
        i + 4 <= s@.len(),
        is_digit(s@[i as int]),
        is_digit(s@[i as int + 1]),
        is_digit(s@[i as int + 2]),
        is_digit(s@[i as int + 3]),
    ensures
        r == d4(s@, i as int),
        r <= 9999,
{
    (s[i] - 48) as u32 * 1000 + (s[i + 1] - 48) as u32 * 100 + (s[i + 2] - 48) as u32 * 10 + (s[i
        + 3] - 48) as u32
}

fn digit_at(s: &[u8], i: usize) -> (r: bool)
    requires
        i < s@.len(),
    ensures
        r == is_digit(s@[i as int]),
{
    48 <= s[i] && s[i] <= 57
}

/// Parses an `eventDateTime` text, as [`parse_ts`] describes.
#[verifier::rlimit(100)]
pub fn parse_timestamp(s: &[u8]) -> (r: Option<i64>)
    ensures
        (r is Some) == (parse_ts(s@) is Some),
        r is Some ==> r->0 as int == parse_ts(s@)->0,
{
    let n = s.len();
    if n < 20 {
        return None;
    }
    // the fixed positions
    if !(digit_at(s, 0) && digit_at(s, 1) && digit_at(s, 2) && digit_at(s, 3) && s[4] == 45
        && digit_at(s, 5) && digit_at(s, 6) && s[7] == 45 && digit_at(s, 8) && digit_at(s, 9) && s[10]
        == 84 && digit_at(s, 11) && digit_at(s, 12) && s[13] == 58 && digit_at(s, 14) && digit_at(
        s,
        15,
    ) && s[16] == 58 && digit_at(s, 17) && digit_at(s, 18)) {
        return None;
    }
    // the tail: a bare `Z`, or a fraction and then `Z`
    if n == 20 {
        if s[19] != 90 {
            return None;
        }
    } else {
        if !(s[19] == 46 && 22 <= n && n <= 30 && s[n - 1] == 90) {
            return None;
        }
        let mut k: usize = 20;
        while k < n - 1
            invariant
                20 <= k <= n - 1,
                n == s@.len(),
                22 <= n <= 30,
                forall|m: int| 20 <= m < k ==> is_digit(s@[m]),
            decreases n - k,
        {
            if !digit_at(s, k) {
                return None;
            }
            k = k + 1;
        }
    }
    assert(ts_shape_ok(s@));
    let y = rd4(s, 0);
    let mo = rd2(s, 5);
    let d = rd2(s, 8);
    let h = rd2(s, 11);
    let mi = rd2(s, 14);
    let sec = rd2(s, 17);
    // the field ranges
    let dim: u32 = if mo == 2 {
        if (y % 4 == 0 && (y % 100 != 0 || y % 400 == 0)) {
            29
        } else {
            28
        }
    } else if mo == 4 || mo == 6 || mo == 9 || mo == 11 {
        30
    } else {
        31
    };
    if !(1 <= mo && mo <= 12 && 1 <= d && d <= dim && h <= 23 && mi <= 59 && sec <= 59) {
        return None;
    }
    assert(ts_fields_ok(s@));
    // days since the epoch, kept non-negative until the final shift
    let yp: u64 = if mo <= 2 {
        y as u64 + 399
    } else {
        y as u64 + 400
    };
    assert(yp <= 10399);
    let erap: u64 = yp / 400;
    let yoe: u64 = yp % 400;
    assert(erap <= 25 && yoe <= 399);
    let mp: u64 = (mo as u64 + 9) % 12;
    assert(mp <= 11);
    let doy: u64 = (153 * mp + 2) / 5 + d as u64 - 1;
    assert(doy <= 366);
    let doe: u64 = yoe * 365 + yoe / 4 + doy - yoe / 100;
    assert(doe <= 146100);
    let days: i64 = (erap as i64 - 1) * 146097 + doe as i64 - 719468;
    let secs: i64 = days * 86400 + h as i64 * 3600 + mi as i64 * 60 + sec as i64;
    // the fractional digits, truncated to milliseconds
    let fm: u32 = if n == 20 {
        0
    } else if n == 22 {
        (s[20] - 48) as u32 * 100
    } else if n == 23 {
        (s[20] - 48) as u32 * 100 + (s[21] - 48) as u32 * 10
    } else {
        (s[20] - 48) as u32 * 100 + (s[21] - 48) as u32 * 10 + (s[22] - 48) as u32
    };
    Some(secs * 1000 + fm as i64)
}

} // verus!
