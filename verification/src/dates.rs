//! Relative time parsing for date flags.
//!
//! Human-friendly expressions — `2h ago`, `yesterday`, `next friday`,
//! `2024-01-15`, RFC 3339 stamps — become Unix timestamps, computed
//! against a caller-supplied reference time.  All calendar arithmetic is
//! done here on plain integers: days from the civil calendar, weekdays
//! from the day number, seconds from the clock fields.

use vstd::prelude::*;
use vstd::string::*;
use crate::strutil::{char_eq_ci, eq_ignore_ascii_case, eq_ignore_case, lower_char};
use crate::query::{skip_space, spec_skip_space, spec_trim_end, trim_end_index};

verus! {

broadcast use vstd::string::group_string_axioms;

/// Latest reference time accepted: the year 10000.
pub const MAX_REFERENCE_TS: i64 = 253_402_300_800;

/// Midnight of the day containing `t` (non-negative timestamps).
pub open spec fn spec_day_start(t: int) -> int {
    t - t % 86400
}

/// Day number of the civil date `y-m-d` relative to 1970-01-01, for years
/// of the proleptic Gregorian calendar from 1 onward.
pub open spec fn spec_days_from_civil(y: int, m: int, d: int) -> int {
    let yy = if m <= 2 {
        y - 1
    } else {
        y
    };
    let era = yy / 400;
    let yoe = yy - era * 400;
    let mp = if m > 2 {
        m - 3
    } else {
        m + 9
    };
    let doy = (153 * mp + 2) / 5 + d - 1;
    let doe = yoe * 365 + yoe / 4 - yoe / 100 + doy;
    era * 146097 + doe - 719468
}

/// Whether `y` is a leap year.
pub open spec fn spec_is_leap(y: int) -> bool {
    (y % 4 == 0 && y % 100 != 0) || y % 400 == 0
}

/// Days in month `m` of year `y` (m between 1 and 12).
pub open spec fn spec_days_in_month(y: int, m: int) -> int {
    if m == 2 {
        if spec_is_leap(y) {
            29
        } else {
            28
        }
    } else if m == 4 || m == 6 || m == 9 || m == 11 {
        30
    } else {
        31
    }
}

/// Day of the week of day number `days` (0 = Sunday .. 6 = Saturday); day
/// zero, 1970-01-01, was a Thursday.
pub open spec fn spec_weekday_of_day(days: int) -> int {
    (days + 4) % 7
}

/// Midnight of the day containing `t`.
pub fn day_start(t: i64) -> (r: i64)
    requires
        0 <= t <= MAX_REFERENCE_TS,
    ensures
        r == spec_day_start(t as int),
        0 <= r <= t,
{
    t - t % 86400
}

/// Day number of a civil date; the year is kept in a narrow range so the
/// arithmetic stays well inside 64 bits.
pub fn days_from_civil(y: i64, m: i64, d: i64) -> (r: i64)
    requires
        1 <= y <= 9999,
        1 <= m <= 12,
        1 <= d <= 31,
    ensures
        r == spec_days_from_civil(y as int, m as int, d as int),
{
    let yy: i64 = if m <= 2 {
        y - 1
    } else {
        y
    };
    let era: i64 = yy / 400;
    let yoe: i64 = yy - era * 400;
    let mp: i64 = if m > 2 {
        m - 3
    } else {
        m + 9
    };
    let doy: i64 = (153 * mp + 2) / 5 + d - 1;
    let doe: i64 = yoe * 365 + yoe / 4 - yoe / 100 + doy;
    era * 146097 + doe - 719468
}

/// Whether a year is a leap year.
pub fn is_leap_year(y: i64) -> (r: bool)
    requires
        0 <= y <= 9999,
    ensures
        r == spec_is_leap(y as int),
{
    (y % 4 == 0 && y % 100 != 0) || y % 400 == 0
}

/// Days in a month.
pub fn days_in_month(y: i64, m: i64) -> (r: i64)
    requires
        0 <= y <= 9999,
        1 <= m <= 12,
    ensures
        r == spec_days_in_month(y as int, m as int),
{
    if m == 2 {
        if is_leap_year(y) {
            29
        } else {
            28
        }
    } else if m == 4 || m == 6 || m == 9 || m == 11 {
        30
    } else {
        31
    }
}

/// The value of a run of decimal digit characters.
pub open spec fn spec_digits_val(t: Seq<char>) -> int
    decreases t.len(),
{
    if t.len() == 0 {
        0
    } else {
        spec_digits_val(t.drop_last()) * 10 + (t.last() as int - '0' as int)
    }
}

/// End of the digit run starting at `i`.
pub open spec fn spec_digit_end(s: Seq<char>, i: int) -> int
    decreases s.len() - i,
{
    if 0 <= i < s.len() && '0' <= s[i] && s[i] <= '9' {
        spec_digit_end(s, i + 1)
    } else {
        i
    }
}


/// Scans a digit run starting at `idx`: the position after it and its
/// value, unless the value exceeds `i64::MAX`.
pub fn read_digits(s: &str, n: usize, idx: usize) -> (r: (usize, Option<i64>))
    requires
        n == s@.len(),
        idx <= n,
    ensures
        r.0 == spec_digit_end(s@, idx as int),
        idx <= r.0 <= n,
        match r.1 {
            Option::Some(v) => v == spec_digits_val(s@.subrange(idx as int, r.0 as int)) && v
                >= 0,
            Option::None => spec_digits_val(s@.subrange(idx as int, r.0 as int)) > i64::MAX,
        },
{
    let ghost start = idx as int;
    let mut i: usize = idx;
    let mut value: i64 = 0;
    let mut overflow = false;
    proof {
        assert(s@.subrange(start, start) =~= Seq::<char>::empty());
    }
    loop
        invariant
            idx <= i <= n,
            n == s@.len(),
            start == idx as int,
            spec_digit_end(s@, start) == spec_digit_end(s@, i as int),
            forall|j: int| start <= j < i ==> '0' <= #[trigger] s@[j] && s@[j] <= '9',
            if overflow {
                spec_digits_val(s@.subrange(start, i as int)) > i64::MAX
            } else {
                value == spec_digits_val(s@.subrange(start, i as int)) && value >= 0
            },
        decreases n - i,
    {
        if i >= n {
            return (i, if overflow {
                Option::None
            } else {
                Option::Some(value)
            });
        }
        let c = s.get_char(i);
        if !('0' <= c && c <= '9') {
            return (i, if overflow {
                Option::None
            } else {
                Option::Some(value)
            });
        }
        let d: i64 = (c as u32 - 48) as i64;
        let ghost prev = spec_digits_val(s@.subrange(start, i as int));
        proof {
            assert(s@.subrange(start, i as int + 1).drop_last() =~= s@.subrange(
                start,
                i as int,
            ));
            assert(s@.subrange(start, i as int + 1).last() == c);
            assert(spec_digits_val(s@.subrange(start, i as int + 1)) == prev * 10 + (
            c as int - 48));
            assert(forall|j: int|
                start <= j < i as int ==> '0' <= #[trigger] s@.subrange(start, i as int)[j
                    - start] && s@.subrange(start, i as int)[j - start] <= '9');
            lemma_digits_val_nonneg(s@.subrange(start, i as int));
        }
        if !overflow && value <= (i64::MAX - d) / 10 {
            value = value * 10 + d;
            proof {
                assert(value == prev * 10 + (c as int - 48));
            }
        } else {
            proof {
                assert(prev * 10 + (c as int - 48) > i64::MAX) by (nonlinear_arith)
                    requires
                        prev >= 0,
                        0 <= (c as int - 48) <= 9,
                        prev > i64::MAX || prev > (i64::MAX - (c as int - 48)) / 10,
                ;
            }
            overflow = true;
        }
        i = i + 1;
    }
}

/// Digit-run values are never negative.
pub proof fn lemma_digits_val_nonneg(t: Seq<char>)
    requires
        forall|i: int| 0 <= i < t.len() ==> '0' <= #[trigger] t[i] && t[i] <= '9',
    ensures
        spec_digits_val(t) >= 0,
    decreases t.len(),
{
    if t.len() > 0 {
        lemma_digits_val_nonneg(t.drop_last());
        let prev = spec_digits_val(t.drop_last());
        assert(prev * 10 >= 0) by (nonlinear_arith)
            requires
                prev >= 0,
        ;
    }
}

/// Digit characters fill the whole window `[a, b)`.
pub open spec fn spec_digits_in(t: Seq<char>, a: int, b: int) -> bool {
    forall|j: int| a <= j < b ==> '0' <= #[trigger] t[j] && t[j] <= '9'
}

/// Reads the decimal value of the fixed window `[start, end)`; nothing if
/// any character there is not a digit.
pub fn window_digits(s: &str, start: usize, end: usize) -> (r: Option<i64>)
    requires
        start <= end,
        end <= s@.len(),
        end - start <= 10,
    ensures
        match r {
            Option::Some(v) => spec_digits_in(s@, start as int, end as int) && v
                == spec_digits_val(s@.subrange(start as int, end as int)) && v >= 0,
            Option::None => !spec_digits_in(s@, start as int, end as int),
        },
{
    let mut i: usize = start;
    let mut value: i64 = 0;
    proof {
        assert(s@.subrange(start as int, start as int) =~= Seq::<char>::empty());
    }
    while i < end
        invariant
            start <= i <= end,
            end <= s@.len(),
            end - start <= 10,
            spec_digits_in(s@, start as int, i as int),
            value == spec_digits_val(s@.subrange(start as int, i as int)),
            0 <= value,
        decreases end - i,
    {
        let c = s.get_char(i);
        if !('0' <= c && c <= '9') {
            return Option::None;
        }
        let d: i64 = (c as u32 - 48) as i64;
        proof {
            assert(s@.subrange(start as int, i as int + 1).drop_last() =~= s@.subrange(
                start as int,
                i as int,
            ));
            assert(s@.subrange(start as int, i as int + 1).last() == c);
            assert(forall|j: int|
                0 <= j < i as int - start as int ==> '0' <= #[trigger] s@.subrange(
                    start as int,
                    i as int,
                )[j] && s@.subrange(start as int, i as int)[j] <= '9');
            lemma_digits_val_bound(s@.subrange(start as int, i as int));
            lemma_pow10_mono(i as int - start as int, 9);
            lemma_pow10_small();
        }
        value = value * 10 + d;
        i = i + 1;
    }
    Option::Some(value)
}

/// `spec_pow10` grows with its argument.
pub proof fn lemma_pow10_mono(a: int, b: int)
    requires
        a <= b,
    ensures
        spec_pow10(a) <= spec_pow10(b),
        spec_pow10(a) >= 1,
    decreases b - a,
{
    if a < b {
        lemma_pow10_mono(a, b - 1);
    } else if a == b {
        lemma_pow10_pos(a);
    }
}

/// `spec_pow10` is positive.
pub proof fn lemma_pow10_pos(a: int)
    ensures
        spec_pow10(a) >= 1,
    decreases a,
{
    if a > 0 {
        lemma_pow10_pos(a - 1);
    }
}

/// The small powers of ten, spelled out.
pub proof fn lemma_pow10_small()
    ensures
        spec_pow10(9) == 1_000_000_000,
{
    assert(spec_pow10(0) == 1);
    assert(spec_pow10(1) == 10);
    assert(spec_pow10(2) == 100);
    assert(spec_pow10(3) == 1000);
    assert(spec_pow10(4) == 10000);
    assert(spec_pow10(5) == 100000);
    assert(spec_pow10(6) == 1000000);
    assert(spec_pow10(7) == 10000000);
    assert(spec_pow10(8) == 100000000);
    assert(spec_pow10(9) == 1_000_000_000);
}

/// The weekday a name denotes (0 = Sunday .. 6 = Saturday), compared
/// case-insensitively; short and long forms are accepted.
pub open spec fn spec_weekday_name(t: Seq<char>) -> Option<int> {
    if eq_ignore_case(t, "sun"@) || eq_ignore_case(t, "sunday"@) { Option::Some(0) }
    else if eq_ignore_case(t, "mon"@) || eq_ignore_case(t, "monday"@) { Option::Some(1) }
    else if eq_ignore_case(t, "tue"@) || eq_ignore_case(t, "tues"@) || eq_ignore_case(t, "tuesday"@) { Option::Some(2) }
    else if eq_ignore_case(t, "wed"@) || eq_ignore_case(t, "weds"@) || eq_ignore_case(t, "wednesday"@) { Option::Some(3) }
    else if eq_ignore_case(t, "thu"@) || eq_ignore_case(t, "thur"@) || eq_ignore_case(t, "thurs"@) || eq_ignore_case(t, "thursday"@) { Option::Some(4) }
    else if eq_ignore_case(t, "fri"@) || eq_ignore_case(t, "friday"@) { Option::Some(5) }
    else if eq_ignore_case(t, "sat"@) || eq_ignore_case(t, "saturday"@) { Option::Some(6) }
    else { Option::None }
}

/// The weekday a name denotes.
pub fn weekday_name(t: &str) -> (r: Option<i64>)
    ensures
        match r {
            Option::Some(w) => spec_weekday_name(t@) == Option::Some(w as int),
            Option::None => spec_weekday_name(t@) is None,
        },
{
    if eq_ignore_ascii_case(t, "sun") || eq_ignore_ascii_case(t, "sunday") { Option::Some(0) }
    else if eq_ignore_ascii_case(t, "mon") || eq_ignore_ascii_case(t, "monday") { Option::Some(1) }
    else if eq_ignore_ascii_case(t, "tue") || eq_ignore_ascii_case(t, "tues") || eq_ignore_ascii_case(t, "tuesday") { Option::Some(2) }
    else if eq_ignore_ascii_case(t, "wed") || eq_ignore_ascii_case(t, "weds") || eq_ignore_ascii_case(t, "wednesday") { Option::Some(3) }
    else if eq_ignore_ascii_case(t, "thu") || eq_ignore_ascii_case(t, "thur") || eq_ignore_ascii_case(t, "thurs") || eq_ignore_ascii_case(t, "thursday") { Option::Some(4) }
    else if eq_ignore_ascii_case(t, "fri") || eq_ignore_ascii_case(t, "friday") { Option::Some(5) }
    else if eq_ignore_ascii_case(t, "sat") || eq_ignore_ascii_case(t, "saturday") { Option::Some(6) }
    else { Option::None }
}

/// A weekday expression: an optional `next `/`this ` prefix (compared
/// case-insensitively) and a weekday name; yields the target weekday and
/// whether `next` forces a full week when today already matches.
pub open spec fn spec_weekday_expr(t: Seq<char>) -> Option<(int, bool)> {
    if t.len() >= 5 && eq_ignore_case(t.subrange(0, 5), "next "@) {
        let rest = t.subrange(spec_skip_space(t, 5), t.len() as int);
        match spec_weekday_name(rest) {
            Option::Some(w) => Option::Some((w, true)),
            Option::None => Option::None,
        }
    } else if t.len() >= 5 && eq_ignore_case(t.subrange(0, 5), "this "@) {
        let rest = t.subrange(spec_skip_space(t, 5), t.len() as int);
        match spec_weekday_name(rest) {
            Option::Some(w) => Option::Some((w, false)),
            Option::None => Option::None,
        }
    } else {
        match spec_weekday_name(t) {
            Option::Some(w) => Option::Some((w, false)),
            Option::None => Option::None,
        }
    }
}

/// Parses a weekday expression.
pub fn weekday_expr(t: &str) -> (r: Option<(i64, bool)>)
    ensures
        match r {
            Option::Some((w, nx)) => spec_weekday_expr(t@) == Option::Some((w as int, nx)),
            Option::None => spec_weekday_expr(t@) is None,
        },
{
    let n = t.unicode_len();
    if n >= 5 && eq_ignore_ascii_case(t.substring_char(0, 5), "next ") {
        let rest = t.substring_char(skip_space(t, n, 5), n);
        match weekday_name(rest) {
            Option::Some(w) => Option::Some((w, true)),
            Option::None => Option::None,
        }
    } else if n >= 5 && eq_ignore_ascii_case(t.substring_char(0, 5), "this ") {
        let rest = t.substring_char(skip_space(t, n, 5), n);
        match weekday_name(rest) {
            Option::Some(w) => Option::Some((w, false)),
            Option::None => Option::None,
        }
    } else {
        match weekday_name(t) {
            Option::Some(w) => Option::Some((w, false)),
            Option::None => Option::None,
        }
    }
}

/// The timestamp of the next occurrence of `target` (midnight), counted
/// from the day containing `now`; with `next`, a full week when today
/// already is that weekday.
pub open spec fn spec_weekday_ts(now: int, target: int, next: bool) -> int {
    let base = spec_day_start(now);
    let current = spec_weekday_of_day(base / 86400);
    let d0 = target - current;
    let d1 = if d0 < 0 { d0 + 7 } else { d0 };
    let delta = if next && d1 == 0 { 7 } else { d1 };
    base + delta * 86400
}

/// Computes the weekday target timestamp.
pub fn weekday_ts(now: i64, target: i64, next: bool) -> (r: i64)
    requires
        0 <= now <= MAX_REFERENCE_TS,
        0 <= target <= 6,
    ensures
        r == spec_weekday_ts(now as int, target as int, next),
        0 <= r <= MAX_REFERENCE_TS + 7 * 86400,
{
    let base = day_start(now);
    let days = base / 86400;
    let current = (days + 4) % 7;
    let mut delta = target - current;
    if delta < 0 {
        delta = delta + 7;
    }
    if next && delta == 0 {
        delta = 7;
    }
    base + delta * 86400
}

/// A relative amount: leading digits, then one of the units `mo`, `w`,
/// `d`, `h`, `m` (case-insensitive); yields the value, the unit's length
/// in seconds, and the position after the unit.
pub open spec fn spec_rel_core(t: Seq<char>) -> Option<(int, int, int)> {
    let e = spec_digit_end(t, 0);
    if e == 0 {
        Option::None
    } else {
        let v = spec_digits_val(t.subrange(0, e));
        if e + 1 < t.len() && lower_char(t[e]) == 'm' && lower_char(t[e + 1]) == 'o' {
            Option::Some((v, 2_592_000, e + 2))
        } else if e < t.len() && lower_char(t[e]) == 'w' {
            Option::Some((v, 604_800, e + 1))
        } else if e < t.len() && lower_char(t[e]) == 'd' {
            Option::Some((v, 86_400, e + 1))
        } else if e < t.len() && lower_char(t[e]) == 'h' {
            Option::Some((v, 3_600, e + 1))
        } else if e < t.len() && lower_char(t[e]) == 'm' {
            Option::Some((v, 60, e + 1))
        } else {
            Option::None
        }
    }
}

/// A relative past expression: amount, unit, optional spaces, `ago`.
pub open spec fn spec_rel_ago(t: Seq<char>) -> Option<(int, int)> {
    match spec_rel_core(t) {
        Option::Some((v, u, p)) => {
            let q = spec_skip_space(t, p);
            if t.len() - q == 3 && eq_ignore_case(t.subrange(q, t.len() as int), "ago"@) {
                Option::Some((v, u))
            } else {
                Option::None
            }
        }
        Option::None => Option::None,
    }
}

/// A relative future expression: amount and unit, nothing after.
pub open spec fn spec_rel_future(t: Seq<char>) -> Option<(int, int)> {
    match spec_rel_core(t) {
        Option::Some((v, u, p)) => if p == t.len() {
            Option::Some((v, u))
        } else {
            Option::None
        },
        Option::None => Option::None,
    }
}

/// Parses the amount-and-unit core of a relative expression.  The value
/// comes back unclamped as an option: nothing inside when it exceeds
/// `i64::MAX`.
pub fn rel_core(t: &str) -> (r: Option<(Option<i64>, i64, usize)>)
    ensures
        match r {
            Option::Some((v, u, p)) => spec_rel_core(t@) matches Option::Some((v0, u0, p0))
                && u == u0 && p == p0 && p <= t@.len() && (match v {
                Option::Some(value) => v0 == value,
                Option::None => v0 > i64::MAX,
            }),
            Option::None => spec_rel_core(t@) is None,
        },
{
    let n = t.unicode_len();
    let (e, value) = read_digits(t, n, 0);
    if e == 0 {
        return Option::None;
    }
    if e < n && e + 1 < n && char_eq_ci(t.get_char(e), 'm') && char_eq_ci(t.get_char(e + 1), 'o') {
        Option::Some((value, 2_592_000, e + 2))
    } else if e < n && char_eq_ci(t.get_char(e), 'w') {
        Option::Some((value, 604_800, e + 1))
    } else if e < n && char_eq_ci(t.get_char(e), 'd') {
        Option::Some((value, 86_400, e + 1))
    } else if e < n && char_eq_ci(t.get_char(e), 'h') {
        Option::Some((value, 3_600, e + 1))
    } else if e < n && char_eq_ci(t.get_char(e), 'm') {
        Option::Some((value, 60, e + 1))
    } else {
        Option::None
    }
}

/// A `YYYY-MM-DD` date, validated against the calendar; its timestamp is
/// midnight of that day.
pub open spec fn spec_date_expr(t: Seq<char>) -> Option<int> {
    if t.len() == 10 && spec_digits_in(t, 0, 4) && t[4] == '-' && spec_digits_in(t, 5, 7)
        && t[7] == '-' && spec_digits_in(t, 8, 10) {
        let y = spec_digits_val(t.subrange(0, 4));
        let mo = spec_digits_val(t.subrange(5, 7));
        let d = spec_digits_val(t.subrange(8, 10));
        if 1 <= y && 1 <= mo <= 12 && 1 <= d <= spec_days_in_month(y, mo) {
            Option::Some(spec_days_from_civil(y, mo, d) * 86400)
        } else {
            Option::None
        }
    } else {
        Option::None
    }
}

/// Parses a `YYYY-MM-DD` date into midnight of that day.
pub fn date_expr(t: &str) -> (r: Option<i64>)
    ensures
        match r {
            Option::Some(v) => spec_date_expr(t@) == Option::Some(v as int),
            Option::None => spec_date_expr(t@) is None,
        },
{
    let n = t.unicode_len();
    if n != 10 {
        return Option::None;
    }
    if t.get_char(4) != '-' || t.get_char(7) != '-' {
        return Option::None;
    }
    let y = match window_digits(t, 0, 4) {
        Option::Some(v) => v,
        Option::None => {
            return Option::None;
        }
    };
    let mo = match window_digits(t, 5, 7) {
        Option::Some(v) => v,
        Option::None => {
            return Option::None;
        }
    };
    let d = match window_digits(t, 8, 10) {
        Option::Some(v) => v,
        Option::None => {
            return Option::None;
        }
    };
    proof {
        assert(spec_pow10(0) == 1);
        assert(spec_pow10(1) == 10);
        assert(spec_pow10(2) == 100);
        assert(spec_pow10(3) == 1000);
        assert(spec_pow10(4) == 10000);
        lemma_digits_val_bound(t@.subrange(0, 4));
        lemma_digits_val_bound(t@.subrange(5, 7));
        lemma_digits_val_bound(t@.subrange(8, 10));
    }
    if 1 <= y && 1 <= mo && mo <= 12 && 1 <= d && d <= days_in_month(y, mo) {
        Option::Some(days_from_civil(y, mo, d) * 86400)
    } else {
        Option::None
    }
}

/// Ten to the power `n`.
pub open spec fn spec_pow10(n: int) -> int
    decreases n,
{
    if n <= 0 {
        1
    } else {
        10 * spec_pow10(n - 1)
    }
}

/// A digit window's value is bounded by the window's width.
pub proof fn lemma_digits_val_bound(t: Seq<char>)
    requires
        forall|i: int| 0 <= i < t.len() ==> '0' <= #[trigger] t[i] && t[i] <= '9',
    ensures
        0 <= spec_digits_val(t) < spec_pow10(t.len() as int),
    decreases t.len(),
{
    if t.len() > 0 {
        lemma_digits_val_bound(t.drop_last());
        let prev = spec_digits_val(t.drop_last());
        assert(prev * 10 + (t.last() as int - 48) < 10 * spec_pow10(t.len() - 1))
            by (nonlinear_arith)
            requires
                0 <= prev < spec_pow10(t.len() - 1),
                0 <= (t.last() as int - 48) <= 9,
        ;
    }
}

/// An RFC 3339 timestamp: date, `T` (or `t`), clock time, an optional
/// fraction (ignored), and `Z` or a numeric offset.  Leap seconds are not
/// accepted.
pub open spec fn spec_rfc3339_expr(t: Seq<char>) -> Option<int> {
    if t.len() >= 20 && spec_digits_in(t, 0, 4) && t[4] == '-' && spec_digits_in(t, 5, 7)
        && t[7] == '-' && spec_digits_in(t, 8, 10) && (t[10] == 'T' || t[10] == 't')
        && spec_digits_in(t, 11, 13) && t[13] == ':' && spec_digits_in(t, 14, 16) && t[16]
        == ':' && spec_digits_in(t, 17, 19) {
        let y = spec_digits_val(t.subrange(0, 4));
        let mo = spec_digits_val(t.subrange(5, 7));
        let d = spec_digits_val(t.subrange(8, 10));
        let h = spec_digits_val(t.subrange(11, 13));
        let mi = spec_digits_val(t.subrange(14, 16));
        let sec = spec_digits_val(t.subrange(17, 19));
        let p = if t[19] == '.' && spec_digit_end(t, 20) > 20 {
            spec_digit_end(t, 20)
        } else {
            19
        };
        if 1 <= y && 1 <= mo <= 12 && 1 <= d <= spec_days_in_month(y, mo) && h <= 23 && mi
            <= 59 && sec <= 59 {
            let base = spec_days_from_civil(y, mo, d) * 86400 + h * 3600 + mi * 60 + sec;
            if p < t.len() && (t[p] == 'Z' || t[p] == 'z') && p + 1 == t.len() {
                Option::Some(base)
            } else if p + 6 == t.len() && (t[p] == '+' || t[p] == '-') && spec_digits_in(
                t,
                p + 1,
                p + 3,
            ) && t[p + 3] == ':' && spec_digits_in(t, p + 4, p + 6) {
                let oh = spec_digits_val(t.subrange(p + 1, p + 3));
                let om = spec_digits_val(t.subrange(p + 4, p + 6));
                if oh <= 23 && om <= 59 {
                    let off = oh * 3600 + om * 60;
                    if t[p] == '+' {
                        Option::Some(base - off)
                    } else {
                        Option::Some(base + off)
                    }
                } else {
                    Option::None
                }
            } else {
                Option::None
            }
        } else {
            Option::None
        }
    } else {
        Option::None
    }
}

/// Parses an RFC 3339 timestamp.
#[verifier::rlimit(60)]
pub fn rfc3339_expr(t: &str) -> (r: Option<i64>)
    ensures
        match r {
            Option::Some(v) => spec_rfc3339_expr(t@) == Option::Some(v as int),
            Option::None => spec_rfc3339_expr(t@) is None,
        },
{
    let n = t.unicode_len();
    if n < 20 {
        return Option::None;
    }
    if t.get_char(4) != '-' || t.get_char(7) != '-' {
        return Option::None;
    }
    let c10 = t.get_char(10);
    if !(c10 == 'T' || c10 == 't') {
        return Option::None;
    }
    if t.get_char(13) != ':' || t.get_char(16) != ':' {
        return Option::None;
    }
    let y = match window_digits(t, 0, 4) {
        Option::Some(v) => v,
        Option::None => { return Option::None; }
    };
    let mo = match window_digits(t, 5, 7) {
        Option::Some(v) => v,
        Option::None => { return Option::None; }
    };
    let d = match window_digits(t, 8, 10) {
        Option::Some(v) => v,
        Option::None => { return Option::None; }
    };
    let h = match window_digits(t, 11, 13) {
        Option::Some(v) => v,
        Option::None => { return Option::None; }
    };
    let mi = match window_digits(t, 14, 16) {
        Option::Some(v) => v,
        Option::None => { return Option::None; }
    };
    let sec = match window_digits(t, 17, 19) {
        Option::Some(v) => v,
        Option::None => { return Option::None; }
    };
    proof {
        assert(spec_pow10(0) == 1);
        assert(spec_pow10(1) == 10);
        assert(spec_pow10(2) == 100);
        assert(spec_pow10(3) == 1000);
        assert(spec_pow10(4) == 10000);
        lemma_digits_val_bound(t@.subrange(0, 4));
        lemma_digits_val_bound(t@.subrange(5, 7));
        lemma_digits_val_bound(t@.subrange(8, 10));
        lemma_digits_val_bound(t@.subrange(11, 13));
        lemma_digits_val_bound(t@.subrange(14, 16));
        lemma_digits_val_bound(t@.subrange(17, 19));
    }
    let p: usize = if t.get_char(19) == '.' {
        let frac_end = read_digits(t, n, 20).0;
        if frac_end > 20 {
            frac_end
        } else {
            19
        }
    } else {
        19
    };
    if !(1 <= y && 1 <= mo && mo <= 12 && 1 <= d && d <= days_in_month(y, mo) && h <= 23 && mi
        <= 59 && sec <= 59) {
        return Option::None;
    }
    let base = days_from_civil(y, mo, d) * 86400 + h * 3600 + mi * 60 + sec;
    if p >= n {
        return Option::None;
    }
    let cp = t.get_char(p);
    if (cp == 'Z' || cp == 'z') && p + 1 == n {
        return Option::Some(base);
    }
    if n - p == 6 && (cp == '+' || cp == '-') && t.get_char(p + 3) == ':' {
        let oh = match window_digits(t, p + 1, p + 3) {
            Option::Some(v) => v,
            Option::None => { return Option::None; }
        };
        let om = match window_digits(t, p + 4, p + 6) {
            Option::Some(v) => v,
            Option::None => { return Option::None; }
        };
        proof {
            lemma_digits_val_bound(t@.subrange(p as int + 1, p as int + 3));
            lemma_digits_val_bound(t@.subrange(p as int + 4, p as int + 6));
        }
        if oh <= 23 && om <= 59 {
            let off = oh * 3600 + om * 60;
            if cp == '+' {
                return Option::Some(base - off);
            }
            return Option::Some(base + off);
        }
        return Option::None;
    }
    Option::None
}

/// What a whole time expression means against the reference time `now`:
/// the named days, weekday expressions, relative past and future amounts,
/// plain dates, and RFC 3339 stamps, tried in that order; nothing when
/// the expression fits no form or a relative amount is zero.
pub open spec fn spec_parse_relative_time(s: Seq<char>, now: int) -> Option<int> {
    let lead = spec_skip_space(s, 0);
    let tend = spec_trim_end(s, s.len() as int);
    if lead >= tend {
        Option::None
    } else {
        let t = s.subrange(lead, tend);
        if eq_ignore_case(t, "yesterday"@) {
            Option::Some(spec_day_start(now) - 86400)
        } else if eq_ignore_case(t, "today"@) {
            Option::Some(spec_day_start(now))
        } else if eq_ignore_case(t, "tomorrow"@) {
            Option::Some(spec_day_start(now) + 86400)
        } else if spec_weekday_expr(t) is Some {
            let (w, nx) = spec_weekday_expr(t)->0;
            Option::Some(spec_weekday_ts(now, w, nx))
        } else if spec_rel_ago(t) is Some {
            let (v, u) = spec_rel_ago(t)->0;
            if v >= 1 {
                Option::Some(now - v * u)
            } else {
                Option::None
            }
        } else if spec_rel_future(t) is Some {
            let (v, u) = spec_rel_future(t)->0;
            if v >= 1 {
                Option::Some(now + v * u)
            } else {
                Option::None
            }
        } else if spec_date_expr(t) is Some {
            spec_date_expr(t)
        } else if spec_rfc3339_expr(t) is Some {
            spec_rfc3339_expr(t)
        } else {
            Option::None
        }
    }
}

/// A relative amount whose total seconds overflow 64 bits.
pub open spec fn spec_rel_overflow(s: Seq<char>) -> bool {
    let lead = spec_skip_space(s, 0);
    let tend = spec_trim_end(s, s.len() as int);
    lead < tend && {
        let t = s.subrange(lead, tend);
        (spec_rel_ago(t) matches Option::Some((v, u)) && v * u > i64::MAX) || (spec_rel_future(
            t,
        ) matches Option::Some((v, u)) && v * u > i64::MAX)
    }
}

/// Parses a human-friendly time expression into a Unix timestamp, using
/// `now` as the reference time.  Succeeds exactly when the expression
/// denotes a time per [`spec_parse_relative_time`], that time fits a
/// 64-bit count of seconds, and no intermediate relative amount overflows;
/// every malformed expression, zero relative amount, or out-of-range
/// result is an error, and a blank expression is named as such.
#[verifier::rlimit(60)]
pub fn parse_relative_time(input: &str, now: i64) -> (r: Result<i64, String>)
    requires
        0 <= now <= MAX_REFERENCE_TS,
    ensures
        match r {
            Result::Ok(v) => spec_parse_relative_time(input@, now as int) == Option::Some(
                v as int,
            ),
            Result::Err(_) => spec_parse_relative_time(input@, now as int) is None
                || spec_parse_relative_time(input@, now as int)->0 > i64::MAX
                || spec_parse_relative_time(input@, now as int)->0 < i64::MIN
                || spec_rel_overflow(input@),
        },
        spec_skip_space(input@, 0) >= spec_trim_end(input@, input@.len() as int) ==> (
        r matches Result::Err(e) && e@ == "empty time expression"@),
{
    let n = input.unicode_len();
    let lead = skip_space(input, n, 0);
    let tend = trim_end_index(input, n);
    if lead >= tend {
        return Result::Err(String::from_str("empty time expression"));
    }
    let t = input.substring_char(lead, tend);
    if eq_ignore_ascii_case(t, "yesterday") {
        return Result::Ok(day_start(now) - 86400);
    }
    if eq_ignore_ascii_case(t, "today") {
        return Result::Ok(day_start(now));
    }
    if eq_ignore_ascii_case(t, "tomorrow") {
        return Result::Ok(day_start(now) + 86400);
    }
    match weekday_expr(t) {
        Option::Some((w, nx)) => {
            return Result::Ok(weekday_ts(now, w, nx));
        }
        Option::None => {}
    }
    match rel_core(t) {
        Option::Some((value, unit_secs, p)) => {
            let tn = t.unicode_len();
            let q = skip_space(t, tn, p);
            let is_ago = tn - q == 3 && eq_ignore_ascii_case(t.substring_char(q, tn), "ago");
            let is_future = p == tn;
            if is_ago || is_future {
                let v = match value {
                    Option::Some(v) => v,
                    Option::None => {
                        proof {
                            let lead0 = spec_skip_space(input@, 0);
                            let tend0 = spec_trim_end(input@, input@.len() as int);
                            let tt = input@.subrange(lead0, tend0);
                            if spec_rel_core(tt) is Some {
                                let (v0, u0, p0) = spec_rel_core(tt)->0;
                                assert(v0 * u0 > i64::MAX) by (nonlinear_arith)
                                    requires
                                        v0 > i64::MAX,
                                        u0 >= 60,
                                ;
                            }
                        }
                        return Result::Err(
                            String::from_str("invalid number in time expression"),
                        );
                    }
                };
                if v < 1 {
                    return Result::Err(String::from_str("invalid relative time"));
                }
                let amount = match v.checked_mul(unit_secs) {
                    Option::Some(a) => a,
                    Option::None => {
                        return Result::Err(String::from_str("relative time out of range"));
                    }
                };
                if is_ago {
                    match now.checked_sub(amount) {
                        Option::Some(ts) => {
                            return Result::Ok(ts);
                        }
                        Option::None => {
                            return Result::Err(
                                String::from_str("relative time out of range"),
                            );
                        }
                    }
                } else {
                    match now.checked_add(amount) {
                        Option::Some(ts) => {
                            return Result::Ok(ts);
                        }
                        Option::None => {
                            return Result::Err(
                                String::from_str("relative time out of range"),
                            );
                        }
                    }
                }
            }
        }
        Option::None => {}
    }
    match date_expr(t) {
        Option::Some(ts) => {
            return Result::Ok(ts);
        }
        Option::None => {}
    }
    match rfc3339_expr(t) {
        Option::Some(ts) => {
            return Result::Ok(ts);
        }
        Option::None => {}
    }
    Result::Err(String::from_str("invalid time expression"))
}

} // verus!
