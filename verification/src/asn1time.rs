//! ASN.1 `UTCTime` and `GeneralizedTime` values (DER form, in UTC) as UNIX
//! seconds.

use vstd::prelude::*;

verus! {

/// DER tag of `UTCTime`.
pub const TAG_UTC_TIME: u8 = 0x17;

/// DER tag of `GeneralizedTime`.
pub const TAG_GENERALIZED_TIME: u8 = 0x18;

/// An ASCII decimal digit.
pub open spec fn is_digit(b: u8) -> bool {
    0x30 <= b <= 0x39
}

/// The first `n` bytes of `c` are ASCII digits.
pub open spec fn all_digits(c: Seq<u8>, n: int) -> bool {
    forall|i: int| 0 <= i < n ==> is_digit(#[trigger] c[i])
}

/// The number written by the two digits at `i`.
pub open spec fn two_digits(c: Seq<u8>, i: int) -> int {
    (c[i] - 0x30) * 10 + (c[i + 1] - 0x30)
}

/// A Gregorian leap year.
pub open spec fn is_leap(y: int) -> bool {
    y % 4 == 0 && (y % 100 != 0 || y % 400 == 0)
}

/// The number of days of month `m` of year `y`.
pub open spec fn days_in_month(y: int, m: int) -> int {
    if m == 2 {
        if is_leap(y) { 29 } else { 28 }
    } else if m == 4 || m == 6 || m == 9 || m == 11 {
        30
    } else {
        31
    }
}

/// The number of days of year `y` before the first day of month `m`.
pub open spec fn days_before_month(y: int, m: int) -> int {
    let base: int = if m == 1 { 0 }
        else if m == 2 { 31 }
        else if m == 3 { 59 }
        else if m == 4 { 90 }
        else if m == 5 { 120 }
        else if m == 6 { 151 }
        else if m == 7 { 181 }
        else if m == 8 { 212 }
        else if m == 9 { 243 }
        else if m == 10 { 273 }
        else if m == 11 { 304 }
        else { 334 };
    if m > 2 && is_leap(y) { base + 1 } else { base }
}

/// The number of leap years from year 1 to year `y`.
pub open spec fn leaps_through(y: int) -> int {
    y / 4 - y / 100 + y / 400
}

/// The number of days from 1970-01-01 to the first day of year `y`.
pub open spec fn days_before_year(y: int) -> int {
    365 * (y - 1970) + leaps_through(y - 1) - leaps_through(1969)
}

/// The fields of a date and time in range, from 1970 on.
pub open spec fn fields_valid(y: int, mo: int, d: int, h: int, mi: int, se: int) -> bool {
    &&& y >= 1970
    &&& 1 <= mo <= 12
    &&& 1 <= d <= days_in_month(y, mo)
    &&& 0 <= h < 24
    &&& 0 <= mi < 60
    &&& 0 <= se < 60
}

/// Seconds since 1970-01-01T00:00:00Z.
pub open spec fn unix_seconds(y: int, mo: int, d: int, h: int, mi: int, se: int) -> int {
    (days_before_year(y) + days_before_month(y, mo) + d - 1) * 86400 + h * 3600 + mi * 60 + se
}

/// The time whose month, day, hour, minute and second are the digit pairs
/// from `off` on, in year `y`.
pub open spec fn time_from(y: int, c: Seq<u8>, off: int) -> Option<int> {
    let mo = two_digits(c, off);
    let d = two_digits(c, off + 2);
    let h = two_digits(c, off + 4);
    let mi = two_digits(c, off + 6);
    let se = two_digits(c, off + 8);
    if fields_valid(y, mo, d, h, mi, se) {
        Some(unix_seconds(y, mo, d, h, mi, se))
    } else {
        None
    }
}

/// The UNIX time of a `UTCTime` (`YYMMDDHHMMSSZ`, years 1950 to 2049) or
/// `GeneralizedTime` (`YYYYMMDDHHMMSSZ`) with contents `c`.
pub open spec fn time_seconds(tag: u8, c: Seq<u8>) -> Option<int> {
    if tag == TAG_UTC_TIME && c.len() == 13 && c[12] == 0x5a && all_digits(c, 12) {
        let yy = two_digits(c, 0);
        time_from(if yy < 50 { 2000 + yy } else { 1900 + yy }, c, 2)
    } else if tag == TAG_GENERALIZED_TIME && c.len() == 15 && c[14] == 0x5a && all_digits(c, 14) {
        time_from(two_digits(c, 0) * 100 + two_digits(c, 2), c, 4)
    } else {
        None
    }
}

fn is_leap_exec(y: u64) -> (r: bool)
    ensures
        r == is_leap(y as int),
{
    y % 4 == 0 && (y % 100 != 0 || y % 400 == 0)
}

fn two_digits_exec(s: &[u8], i: usize) -> (r: u64)
    requires
        i + 1 < s@.len(),
        is_digit(s@[i as int]),
        is_digit(s@[i + 1]),
    ensures
        r == two_digits(s@, i as int),
        r < 100,
{
    ((s[i] - 0x30) as u64) * 10 + ((s[i + 1] - 0x30) as u64)
}

fn all_digits_exec(s: &[u8], n: usize) -> (r: bool)
    requires
        n <= s@.len(),
    ensures
        r == all_digits(s@, n as int),
{
    let mut i: usize = 0;
    while i < n
        invariant
            0 <= i <= n <= s@.len(),
            all_digits(s@, i as int),
        decreases n - i,
    {
        if !(0x30 <= s[i] && s[i] <= 0x39) {
            return false;
        }
        i = i + 1;
    }
    true
}

fn time_from_exec(y: u64, s: &[u8], off: usize) -> (r: Option<u64>)
    requires
        y < 10000,
        off + 10 <= s.len(),
        all_digits(s@, off + 10),
    ensures
        match time_from(y as int, s@, off as int) {
            Some(v) => r == Some(v as u64) && 0 <= v < 0x1_0000_0000_0000,
            None => r is None,
        },
{
    assert(is_digit(s@[off as int]) && is_digit(s@[off + 1]) && is_digit(s@[off + 2]) && is_digit(s@[off + 3]));
    assert(is_digit(s@[off + 4]) && is_digit(s@[off + 5]) && is_digit(s@[off + 6]) && is_digit(s@[off + 7]));
    assert(is_digit(s@[off + 8]) && is_digit(s@[off + 9]));
    let o2: usize = off + 2;
    let o4: usize = off + 4;
    let o6: usize = off + 6;
    let o8: usize = off + 8;
    let mo: u64 = two_digits_exec(s, off);
    let d: u64 = two_digits_exec(s, o2);
    let h: u64 = two_digits_exec(s, o4);
    let mi: u64 = two_digits_exec(s, o6);
    let se: u64 = two_digits_exec(s, o8);
    if y < 1970 || mo < 1 || mo > 12 || h >= 24 || mi >= 60 || se >= 60 || d < 1 {
        return None;
    }
    let leap: bool = is_leap_exec(y);
    let dim: u64 = if mo == 2 {
        if leap { 29 } else { 28 }
    } else if mo == 4 || mo == 6 || mo == 9 || mo == 11 {
        30
    } else {
        31
    };
    if d > dim {
        return None;
    }
    let base: u64 = if mo == 1 { 0 }
        else if mo == 2 { 31 }
        else if mo == 3 { 59 }
        else if mo == 4 { 90 }
        else if mo == 5 { 120 }
        else if mo == 6 { 151 }
        else if mo == 7 { 181 }
        else if mo == 8 { 212 }
        else if mo == 9 { 243 }
        else if mo == 10 { 273 }
        else if mo == 11 { 304 }
        else { 334 };
    let before_month: u64 = if mo > 2 && leap { base + 1 } else { base };
    let p: u64 = y - 1;
    assert(p / 4 >= 492 && p / 100 <= p / 4 && (p / 100) - 19 <= p / 4 - 492);
    let before_year: u64 = 365 * (y - 1970) + (p / 4 - 492) - (p / 100 - 19) + (p / 400 - 4);
    let days: u64 = before_year + before_month + d - 1;
    Some(days * 86400 + h * 3600 + mi * 60 + se)
}

/// The UNIX time of the DER time element with tag `tag` whose contents are
/// `s[a..b]`.
pub fn read_time(s: &[u8], tag: u8, a: usize, b: usize) -> (r: Option<u64>)
    requires
        a <= b <= s@.len(),
    ensures
        match time_seconds(tag, s@.subrange(a as int, b as int)) {
            Some(v) => r == Some(v as u64) && 0 <= v < 0x1_0000_0000_0000,
            None => r is None,
        },
{
    let ghost c = s@.subrange(a as int, b as int);
    let n: usize = b - a;
    let mut v: Vec<u8> = Vec::new();
    let mut i: usize = a;
    while i < b
        invariant
            a <= i <= b <= s@.len(),
            v@ == s@.subrange(a as int, i as int),
        decreases b - i,
    {
        v.push(s[i]);
        i = i + 1;
        assert(v@ =~= s@.subrange(a as int, i as int));
    }
    let c_exec: &[u8] = v.as_slice();
    assert(c_exec@ == c);
    if tag == TAG_UTC_TIME && n == 13 && c_exec[12] == 0x5a {
        if !all_digits_exec(c_exec, 12) {
            return None;
        }
        let yy: u64 = two_digits_exec(c_exec, 0);
        let y: u64 = if yy < 50 { 2000 + yy } else { 1900 + yy };
        time_from_exec(y, c_exec, 2)
    } else if tag == TAG_GENERALIZED_TIME && n == 15 && c_exec[14] == 0x5a {
        if !all_digits_exec(c_exec, 14) {
            return None;
        }
        let y: u64 = two_digits_exec(c_exec, 0) * 100 + two_digits_exec(c_exec, 2);
        time_from_exec(y, c_exec, 4)
    } else {
        None
    }
}

} // verus!
