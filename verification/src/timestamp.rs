use vstd::prelude::*;

use crate::error::ConfigError;
use crate::price::{spec_is_digit, spec_digit_val, is_digit_char, digit_of};

verus! {

pub open spec fn is_leap_year(y: int) -> bool {
    y % 4 == 0 && (y % 100 != 0 || y % 400 == 0)
}

pub open spec fn days_in_year(y: int) -> int {
    if is_leap_year(y) {
        366
    } else {
        365
    }
}

pub open spec fn days_in_month(y: int, m: int) -> int {
    if m == 1 || m == 3 || m == 5 || m == 7 || m == 8 || m == 10 || m == 12 {
        31
    } else if m == 4 || m == 6 || m == 9 || m == 11 {
        30
    } else if is_leap_year(y) {
        29
    } else {
        28
    }
}

/// Days from the epoch date to the first day of year `y`; negative for years
/// before the epoch.
pub open spec fn days_before_year(y: int) -> int
    decreases
            (if y >= 1970 {
                y - 1970
            } else {
                1970 - y
            }),
{
    if y == 1970 {
        0
    } else if y > 1970 {
        days_before_year(y - 1) + days_in_year(y - 1)
    } else {
        days_before_year(y + 1) - days_in_year(y)
    }
}

/// Days from the first of January to the first day of month `m` in year `y`.
pub open spec fn days_before_month(y: int, m: int) -> int
    decreases m,
{
    if m <= 1 {
        0
    } else {
        days_before_month(y, m - 1) + days_in_month(y, m - 1)
    }
}

pub open spec fn epoch_days(y: int, m: int, d: int) -> int {
    days_before_year(y) + days_before_month(y, m) + (d - 1)
}

/// The value of the two digits at positions `i`, `i + 1`.
pub open spec fn two_digits(s: Seq<char>, i: int) -> int {
    (spec_digit_val(s[i]) * 10 + spec_digit_val(s[i + 1])) as int
}

pub open spec fn ts_year(s: Seq<char>) -> int {
    (spec_digit_val(s[0]) * 1000 + spec_digit_val(s[1]) * 100 + spec_digit_val(s[2]) * 10
        + spec_digit_val(s[3])) as int
}

/// The fixed date-time skeleton: `YYYY-MM-DDThh:mm:ss`, with `T` in either
/// case.
pub open spec fn ts_fields_ok(s: Seq<char>) -> bool {
    &&& s.len() >= 20
    &&& spec_is_digit(s[0])
    &&& spec_is_digit(s[1])
    &&& spec_is_digit(s[2])
    &&& spec_is_digit(s[3])
    &&& s[4] == '-'
    &&& spec_is_digit(s[5])
    &&& spec_is_digit(s[6])
    &&& s[7] == '-'
    &&& spec_is_digit(s[8])
    &&& spec_is_digit(s[9])
    &&& (s[10] == 'T' || s[10] == 't')
    &&& spec_is_digit(s[11])
    &&& spec_is_digit(s[12])
    &&& s[13] == ':'
    &&& spec_is_digit(s[14])
    &&& spec_is_digit(s[15])
    &&& s[16] == ':'
    &&& spec_is_digit(s[17])
    &&& spec_is_digit(s[18])
}

/// The first index at or after `i` holding a non-digit, or the length.
pub open spec fn digits_end(s: Seq<char>, i: int) -> int
    decreases s.len() - i,
{
    if i < 0 || i >= s.len() || !spec_is_digit(s[i]) {
        i
    } else {
        digits_end(s, i + 1)
    }
}

/// Where the offset part begins: after the optional fraction.
pub open spec fn ts_tail_start(s: Seq<char>) -> int {
    if s[19] == '.' {
        digits_end(s, 20)
    } else {
        19
    }
}

/// A fraction, if present, has at least one digit.
pub open spec fn ts_frac_ok(s: Seq<char>) -> bool {
    s[19] == '.' ==> digits_end(s, 20) > 20
}

/// The offset in seconds named by the tail beginning at `p`: `Z` (either
/// case), or a signed `hh:mm` pair, and nothing after it.
pub open spec fn ts_offset(s: Seq<char>, p: int) -> Option<int> {
    if 0 <= p < s.len() && (s[p] == 'Z' || s[p] == 'z') && p + 1 == s.len() {
        Some(0)
    } else if 0 <= p && p + 6 == s.len() && (s[p] == '+' || s[p] == '-') && spec_is_digit(s[p + 1])
        && spec_is_digit(s[p + 2]) && s[p + 3] == ':' && spec_is_digit(s[p + 4]) && spec_is_digit(
        s[p + 5],
    ) && two_digits(s, p + 1) <= 23 && two_digits(s, p + 4) <= 59 {
        if s[p] == '-' {
            Some(-(two_digits(s, p + 1) * 3600 + two_digits(s, p + 4) * 60))
        } else {
            Some(two_digits(s, p + 1) * 3600 + two_digits(s, p + 4) * 60)
        }
    } else {
        None
    }
}

/// The epoch second count a strict date-time string stands for, or absence
/// when the string deviates from the format anywhere.  A leap second (`60`)
/// counts as the last second of its minute.
pub open spec fn spec_parse_timestamp(s: Seq<char>) -> Option<int> {
    if !ts_fields_ok(s) {
        None
    } else {
        let y = ts_year(s);
        let mo = two_digits(s, 5);
        let da = two_digits(s, 8);
        let h = two_digits(s, 11);
        let mi = two_digits(s, 14);
        let se = two_digits(s, 17);
        if !(1 <= mo <= 12) {
            None
        } else if !(1 <= da <= days_in_month(y, mo)) {
            None
        } else if !(h <= 23 && mi <= 59 && se <= 60) {
            None
        } else if !ts_frac_ok(s) {
            None
        } else {
            match ts_offset(s, ts_tail_start(s)) {
                None => None,
                Some(off) => Some(
                    epoch_days(y, mo, da) * 86400 + h * 3600 + mi * 60 + (if se == 60 {
                        59int
                    } else {
                        se
                    }) - off,
                ),
            }
        }
    }
}

proof fn lemma_digits_end_at(s: Seq<char>, i: int, e: int)
    requires
        0 <= i <= e <= s.len(),
        forall|j: int| i <= j < e ==> spec_is_digit(#[trigger] s[j]),
        e < s.len() ==> !spec_is_digit(s[e]),
    ensures
        digits_end(s, i) == e,
    decreases e - i,
{
    if i < e {
        lemma_digits_end_at(s, i + 1, e);
    }
}

/// Bounds on the day count for four-digit years, for overflow-free
/// arithmetic.
proof fn lemma_days_before_year_bounds(y: int)
    requires
        0 <= y <= 9999,
    ensures
        -800000 <= days_before_year(y) <= 3000000,
    decreases
            (if y >= 1970 {
                y - 1970
            } else {
                1970 - y
            }),
{
    if y == 1970 {
    } else if y > 1970 {
        lemma_days_before_year_bounds(y - 1);
        assert(days_before_year(y) <= days_before_year(y - 1) + 366);
        lemma_days_before_year_le(y);
    } else {
        lemma_days_before_year_bounds(y + 1);
        lemma_days_before_year_ge(y);
    }
}

proof fn lemma_days_before_year_le(y: int)
    requires
        1970 <= y <= 9999,
    ensures
        days_before_year(y) <= 366 * (y - 1970),
    decreases y - 1970,
{
    if y > 1970 {
        lemma_days_before_year_le(y - 1);
    }
}

proof fn lemma_days_before_year_ge(y: int)
    requires
        0 <= y <= 1970,
    ensures
        days_before_year(y) >= -366 * (1970 - y),
        days_before_year(y) <= 0,
    decreases 1970 - y,
{
    if y < 1970 {
        lemma_days_before_year_ge(y + 1);
    }
}

fn exec_is_leap(y: u32) -> (r: bool)
    ensures
        r == is_leap_year(y as int),
{
    y % 4 == 0 && (y % 100 != 0 || y % 400 == 0)
}

fn exec_days_in_year(y: u32) -> (r: u32)
    ensures
        r == days_in_year(y as int),
        365 <= r <= 366,
{
    if exec_is_leap(y) {
        366
    } else {
        365
    }
}

fn exec_days_in_month(y: u32, m: u32) -> (r: u32)
    requires
        1 <= m <= 12,
    ensures
        r == days_in_month(y as int, m as int),
        28 <= r <= 31,
{
    if m == 1 || m == 3 || m == 5 || m == 7 || m == 8 || m == 10 || m == 12 {
        31
    } else if m == 4 || m == 6 || m == 9 || m == 11 {
        30
    } else if exec_is_leap(y) {
        29
    } else {
        28
    }
}

/// Days from the epoch date to the given calendar day, counting year by
/// year and month by month.
#[verifier::loop_isolation(false)]
fn exec_epoch_days(y: u32, mo: u32, da: u32) -> (r: i64)
    requires
        y <= 9999,
        1 <= mo <= 12,
        1 <= da <= 31,
    ensures
        r == epoch_days(y as int, mo as int, da as int),
        -900000 <= r <= 3100000,
{
    let mut days: i64 = 0;
    if y >= 1970 {
        let mut cur: u32 = 1970;
        while cur < y
            invariant
                1970 <= cur <= if y >= 1970 {
                    y
                } else {
                    1970
                },
                days == days_before_year(cur as int),
                0 <= days <= 366 * (cur - 1970),
            decreases y - cur,
        {
            days = days + exec_days_in_year(cur) as i64;
            cur = cur + 1;
        }
    } else {
        let mut cur: u32 = 1970;
        while cur > y
            invariant
                y <= cur <= 1970,
                days == days_before_year(cur as int),
                -366 * (1970 - cur) <= days <= 0,
            decreases cur - y,
        {
            cur = cur - 1;
            days = days - exec_days_in_year(cur) as i64;
        }
    }
    let mut md: i64 = 0;
    let mut mm: u32 = 1;
    while mm < mo
        invariant
            1 <= mm <= mo,
            md == days_before_month(y as int, mm as int),
            0 <= md <= 31 * (mm - 1),
        decreases mo - mm,
    {
        md = md + exec_days_in_month(y, mm) as i64;
        mm = mm + 1;
    }
    proof {
        lemma_days_before_year_bounds(y as int);
    }
    days + md + (da as i64 - 1)
}

/// Reads the two-digit number at positions `i`, `i + 1`.
fn read_two(s: &str, i: usize) -> (r: u32)
    requires
        i < usize::MAX,
        i + 1 < s@.len(),
        spec_is_digit(s@[i as int]),
        spec_is_digit(s@[i as int + 1]),
    ensures
        r == two_digits(s@, i as int),
        r <= 99,
{
    let hi: u64 = digit_of(s.get_char(i));
    let lo: u64 = digit_of(s.get_char(i + 1));
    (hi * 10 + lo) as u32
}

/// Translates a strict date-time string into an epoch second count; any
/// deviation from the format is an error naming the offending string.
#[verifier::loop_isolation(false)]
#[verifier::rlimit(100)]
pub fn go_live_date_as_timestamp(go_live_date: &str) -> (r: Result<i64, ConfigError>)
    ensures
        match r {
            Ok(ts) => spec_parse_timestamp(go_live_date@) == Some(ts as int),
            Err(e) => spec_parse_timestamp(go_live_date@) is None && match e {
                ConfigError::InvalidTimestamp(m) => m@ == go_live_date@,
                _ => false,
            },
        },
{
    let s = go_live_date;
    let n: usize = s.unicode_len();
    if n < 20 {
        return Err(ConfigError::InvalidTimestamp(String::from_str(s)));
    }
    let shape_ok: bool = is_digit_char(s.get_char(0)) && is_digit_char(s.get_char(1))
        && is_digit_char(s.get_char(2)) && is_digit_char(s.get_char(3)) && s.get_char(4) == '-'
        && is_digit_char(s.get_char(5)) && is_digit_char(s.get_char(6)) && s.get_char(7) == '-'
        && is_digit_char(s.get_char(8)) && is_digit_char(s.get_char(9)) && (s.get_char(10) == 'T'
        || s.get_char(10) == 't') && is_digit_char(s.get_char(11)) && is_digit_char(s.get_char(12))
        && s.get_char(13) == ':' && is_digit_char(s.get_char(14)) && is_digit_char(s.get_char(15))
        && s.get_char(16) == ':' && is_digit_char(s.get_char(17)) && is_digit_char(s.get_char(18));
    if !shape_ok {
        assert(!ts_fields_ok(s@));
        return Err(ConfigError::InvalidTimestamp(String::from_str(s)));
    }
    assert(ts_fields_ok(s@));

    let d0: u64 = digit_of(s.get_char(0));
    let d1: u64 = digit_of(s.get_char(1));
    let d2: u64 = digit_of(s.get_char(2));
    let d3: u64 = digit_of(s.get_char(3));
    let y: u32 = (d0 * 1000 + d1 * 100 + d2 * 10 + d3) as u32;
    assert(y == ts_year(s@));
    let mo: u32 = read_two(s, 5);
    let da: u32 = read_two(s, 8);
    let h: u32 = read_two(s, 11);
    let mi: u32 = read_two(s, 14);
    let se: u32 = read_two(s, 17);

    if !(1 <= mo && mo <= 12) {
        return Err(ConfigError::InvalidTimestamp(String::from_str(s)));
    }
    if !(1 <= da && da <= exec_days_in_month(y, mo)) {
        return Err(ConfigError::InvalidTimestamp(String::from_str(s)));
    }
    if !(h <= 23 && mi <= 59 && se <= 60) {
        return Err(ConfigError::InvalidTimestamp(String::from_str(s)));
    }

    // Optional fraction: a dot with at least one digit.
    let mut p: usize = 19;
    if s.get_char(19) == '.' {
        let mut e: usize = 20;
        while e < n && is_digit_char(s.get_char(e))
            invariant
                20 <= e <= n,
                n == s@.len(),
                forall|j: int| 20 <= j < e ==> spec_is_digit(#[trigger] s@[j]),
            decreases n - e,
        {
            e = e + 1;
        }
        proof {
            lemma_digits_end_at(s@, 20, e as int);
        }
        if e == 20 {
            assert(!ts_frac_ok(s@));
            return Err(ConfigError::InvalidTimestamp(String::from_str(s)));
        }
        p = e;
    }
    assert(p == ts_tail_start(s@));
    assert(ts_frac_ok(s@));

    // Offset: `Z` in either case, or a signed `hh:mm` pair ending the string.
    if p == n {
        assert(ts_offset(s@, p as int) is None);
        return Err(ConfigError::InvalidTimestamp(String::from_str(s)));
    }
    let off: i64;
    let pc = s.get_char(p);
    if (pc == 'Z' || pc == 'z') && n - p == 1 {
        off = 0;
        assert(ts_offset(s@, p as int) == Some(0int));
    } else if (pc == '+' || pc == '-') && n - p == 6 && is_digit_char(s.get_char(p + 1))
        && is_digit_char(s.get_char(p + 2)) && s.get_char(p + 3) == ':' && is_digit_char(
        s.get_char(p + 4),
    ) && is_digit_char(s.get_char(p + 5)) {
        let oh: u32 = read_two(s, p + 1);
        let om: u32 = read_two(s, p + 4);
        if !(oh <= 23 && om <= 59) {
            assert(ts_offset(s@, p as int) is None);
            return Err(ConfigError::InvalidTimestamp(String::from_str(s)));
        }
        let magnitude: i64 = oh as i64 * 3600 + om as i64 * 60;
        if pc == '-' {
            off = -magnitude;
        } else {
            off = magnitude;
        }
        assert(ts_offset(s@, p as int) == Some(off as int));
    } else {
        assert(ts_offset(s@, p as int) is None);
        return Err(ConfigError::InvalidTimestamp(String::from_str(s)));
    }

    let days: i64 = exec_epoch_days(y, mo, da);
    let secs: i64 = if se == 60 {
        59
    } else {
        se as i64
    };
    let ts: i64 = days * 86400 + h as i64 * 3600 + mi as i64 * 60 + secs - off;
    Ok(ts)
}

} // verus!
