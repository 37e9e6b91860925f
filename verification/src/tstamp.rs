//! Timestamp resolution: a payload timestamp arrives as an offset date-time
//! string, a plain or fractional Unix number, or a date-time string without a
//! zone designator, and is reduced to a canonical epoch-second integer.
//! Anything else is an unresolvable timestamp, a recoverable per-payload
//! error. The calendar here is the proleptic Gregorian calendar over the
//! years 0 through 9999; a resolved instant always lies in that window.

use vstd::prelude::*;

use crate::errors::CoreError;
use crate::json::JsonValue;
use crate::text::{chars_of, digit_val, is_digit, spec_dec_val, spec_dec_digits, spec_digit_char, spec_digit_val, spec_is_digit, spec_pow10};
use vstd::string::StringExecFns;

verus! {

/// The year 0 begins this many days before 1970-01-01.
pub open spec fn spec_epoch_shift_days() -> int {
    spec_days_before_year(1970)
}

/// The lowest epoch second the core accepts: 0000-01-01T00:00:00Z.
pub open spec fn spec_min_epoch() -> int {
    -spec_epoch_shift_days() * 86400
}

/// The highest epoch second the core accepts: 9999-12-31T23:59:59Z.
pub open spec fn spec_max_epoch() -> int {
    (spec_days_before_year(10000) - spec_epoch_shift_days()) * 86400 - 1
}

/// Whether `y` is a leap year of the proleptic Gregorian calendar.
pub open spec fn spec_is_leap(y: int) -> bool {
    y % 4 == 0 && (y % 100 != 0 || y % 400 == 0)
}

/// Days in year `y`.
pub open spec fn spec_days_in_year(y: int) -> int {
    if spec_is_leap(y) {
        366
    } else {
        365
    }
}

/// Days in month `m` of year `y` (months count from 1).
pub open spec fn spec_days_in_month(y: int, m: int) -> int {
    if m == 2 {
        if spec_is_leap(y) {
            29
        } else {
            28
        }
    } else if m == 4 || m == 6 || m == 9 || m == 11 {
        30
    } else {
        31
    }
}

/// Days in all years before `y`, counted from year 0.
pub open spec fn spec_days_before_year(y: int) -> int
    decreases y,
{
    if y <= 0 {
        0
    } else {
        spec_days_before_year(y - 1) + spec_days_in_year(y - 1)
    }
}

/// Days in the months of year `y` before month `m`.
pub open spec fn spec_days_before_month(y: int, m: int) -> int
    decreases m,
{
    if m <= 1 {
        0
    } else {
        spec_days_before_month(y, m - 1) + spec_days_in_month(y, m - 1)
    }
}

/// Whether `y-m-d` names a day of the calendar window.
pub open spec fn spec_valid_date(y: int, m: int, d: int) -> bool {
    0 <= y <= 9999 && 1 <= m <= 12 && 1 <= d <= spec_days_in_month(y, m)
}

/// Whether `h:mi:s` names a second of a day.
pub open spec fn spec_valid_time(h: int, mi: int, s: int) -> bool {
    0 <= h < 24 && 0 <= mi < 60 && 0 <= s < 60
}

/// Days from 0000-01-01 to `y-m-d`.
pub open spec fn spec_day_number(y: int, m: int, d: int) -> int {
    spec_days_before_year(y) + spec_days_before_month(y, m) + d - 1
}

/// The epoch second of the instant `y-m-d h:mi:s` displaced by
/// `offset` seconds east of UTC.
pub open spec fn spec_civil_to_epoch(
    y: int,
    m: int,
    d: int,
    h: int,
    mi: int,
    s: int,
    offset: int,
) -> int {
    (spec_day_number(y, m, d) - spec_epoch_shift_days()) * 86400 + h * 3600 + mi * 60 + s - offset
}

proof fn lemma_days_before_year_bounds(y: int)
    requires
        0 <= y <= 10000,
    ensures
        365 * y <= spec_days_before_year(y) <= 366 * y,
    decreases y,
{
    if y > 0 {
        lemma_days_before_year_bounds(y - 1);
    }
}

proof fn lemma_days_before_month_bounds(y: int, m: int)
    requires
        1 <= m <= 13,
    ensures
        0 <= spec_days_before_month(y, m) <= 31 * (m - 1),
    decreases m,
{
    if m > 1 {
        lemma_days_before_month_bounds(y, m - 1);
    }
}

/// Days in all years before `y`, counted from year 0.
pub fn days_before_year(y: u32) -> (r: u64)
    requires
        y <= 10000,
    ensures
        r == spec_days_before_year(y as int),
        r <= 3660000,
{
    let mut acc: u64 = 0;
    let mut i: u32 = 0;
    while i < y
        invariant
            i <= y <= 10000,
            acc == spec_days_before_year(i as int),
            acc <= 366 * i,
        decreases y - i,
    {
        let len: u64 = if (i % 4 == 0) && (i % 100 != 0 || i % 400 == 0) {
            366
        } else {
            365
        };
        assert(len == spec_days_in_year(i as int));
        acc = acc + len;
        i = i + 1;
    }
    proof {
        lemma_days_before_year_bounds(y as int);
    }
    acc
}

/// Days in the months of year `y` before month `m`.
pub fn days_before_month(y: u32, m: u32) -> (r: u32)
    requires
        1 <= m <= 13,
    ensures
        r == spec_days_before_month(y as int, m as int),
        r <= 372,
{
    let mut acc: u32 = 0;
    let mut i: u32 = 1;
    while i < m
        invariant
            1 <= i <= m <= 13,
            acc == spec_days_before_month(y as int, i as int),
            acc <= 31 * i,
        decreases m - i,
    {
        acc = acc + days_in_month(y, i);
        i = i + 1;
    }
    proof {
        lemma_days_before_month_bounds(y as int, m as int);
    }
    acc
}

/// Days in month `m` of year `y`.
pub fn days_in_month(y: u32, m: u32) -> (r: u32)
    ensures
        r == spec_days_in_month(y as int, m as int),
        28 <= r <= 31,
{
    if m == 2 {
        if (y % 4 == 0) && (y % 100 != 0 || y % 400 == 0) {
            29
        } else {
            28
        }
    } else if m == 4 || m == 6 || m == 9 || m == 11 {
        30
    } else {
        31
    }
}

/// The epoch second of `y-m-d h:mi:s` displaced by `offset` seconds east.
pub fn civil_to_epoch(y: u32, m: u32, d: u32, h: u32, mi: u32, s: u32, offset: i64) -> (r: i64)
    requires
        spec_valid_date(y as int, m as int, d as int),
        spec_valid_time(h as int, mi as int, s as int),
        -86400 <= offset <= 86400,
    ensures
        r == spec_civil_to_epoch(
            y as int,
            m as int,
            d as int,
            h as int,
            mi as int,
            s as int,
            offset as int,
        ),
{
    let by: u64 = days_before_year(y);
    let bm: u32 = days_before_month(y, m);
    let shift: u64 = days_before_year(1970);
    let day_number: i64 = by as i64 + bm as i64 + d as i64 - 1;
    let days: i64 = day_number - shift as i64;
    days * 86400 + (h as i64) * 3600 + (mi as i64) * 60 + s as i64 - offset
}

/// The value of the two digits at `i`.
pub open spec fn spec_num2(t: Seq<char>, i: int) -> int {
    spec_digit_val(t[i]) * 10 + spec_digit_val(t[i + 1])
}

/// The value of the four digits at `i`.
pub open spec fn spec_num4(t: Seq<char>, i: int) -> int {
    spec_digit_val(t[i]) * 1000 + spec_digit_val(t[i + 1]) * 100 + spec_digit_val(t[i + 2]) * 10
        + spec_digit_val(t[i + 3])
}

/// Whether `t` begins with the fixed-width `YYYY-MM-DDThh:mm:ss` head
/// (the date-time separator may be `T` or `t`).
pub open spec fn spec_head_shape_ok(t: Seq<char>) -> bool {
    &&& t.len() >= 19
    &&& spec_is_digit(t[0])
    &&& spec_is_digit(t[1])
    &&& spec_is_digit(t[2])
    &&& spec_is_digit(t[3])
    &&& t[4] == '-'
    &&& spec_is_digit(t[5])
    &&& spec_is_digit(t[6])
    &&& t[7] == '-'
    &&& spec_is_digit(t[8])
    &&& spec_is_digit(t[9])
    &&& (t[10] == 'T' || t[10] == 't')
    &&& spec_is_digit(t[11])
    &&& spec_is_digit(t[12])
    &&& t[13] == ':'
    &&& spec_is_digit(t[14])
    &&& spec_is_digit(t[15])
    &&& t[16] == ':'
    &&& spec_is_digit(t[17])
    &&& spec_is_digit(t[18])
}

/// Whether the head names a day of the calendar and a second of a day.
pub open spec fn spec_head_fields_ok(t: Seq<char>) -> bool {
    &&& spec_head_shape_ok(t)
    &&& spec_valid_date(spec_num4(t, 0), spec_num2(t, 5), spec_num2(t, 8))
    &&& spec_valid_time(spec_num2(t, 11), spec_num2(t, 14), spec_num2(t, 17))
}

/// The epoch second named by the head of `t`, displaced by `offset`.
pub open spec fn spec_head_epoch(t: Seq<char>, offset: int) -> int {
    spec_civil_to_epoch(
        spec_num4(t, 0),
        spec_num2(t, 5),
        spec_num2(t, 8),
        spec_num2(t, 11),
        spec_num2(t, 14),
        spec_num2(t, 17),
        offset,
    )
}

/// The first position at or after `i` that does not hold a decimal digit.
pub open spec fn spec_digits_end(t: Seq<char>, i: int) -> int
    decreases t.len() - i,
{
    if 0 <= i < t.len() && spec_is_digit(t[i]) {
        spec_digits_end(t, i + 1)
    } else {
        i
    }
}

/// The zone designator that occupies `t` from `i` to its end: `Z` (or `z`)
/// for UTC, or a `+hh:mm` / `-hh:mm` displacement, in seconds east.
pub open spec fn spec_parse_zone(t: Seq<char>, i: int) -> Option<int> {
    if i + 1 == t.len() && (t[i] == 'Z' || t[i] == 'z') {
        Some(0int)
    } else if i + 6 == t.len() && (t[i] == '+' || t[i] == '-') && spec_is_digit(t[i + 1])
        && spec_is_digit(t[i + 2]) && t[i + 3] == ':' && spec_is_digit(t[i + 4]) && spec_is_digit(
        t[i + 5],
    ) && spec_num2(t, i + 1) < 24 && spec_num2(t, i + 4) < 60 {
        let v = spec_num2(t, i + 1) * 3600 + spec_num2(t, i + 4) * 60;
        if t[i] == '-' {
            Some(-v)
        } else {
            Some(v)
        }
    } else {
        None
    }
}

/// The epoch second named by the date-time string `t`, if it belongs to the
/// accepted grammar: a full offset date-time, with or without a fractional
/// part, or a date-time with a fractional part and no zone designator, which
/// is taken as UTC. A fractional part is truncated. A date-time with neither
/// fractional part nor zone is not accepted.
pub open spec fn spec_resolve_str(t: Seq<char>) -> Option<int> {
    if !spec_head_fields_ok(t) {
        None
    } else if t.len() == 19 {
        None
    } else if t[19] == '.' {
        let e = spec_digits_end(t, 20);
        if e == 20 {
            None
        } else if e == t.len() {
            Some(spec_head_epoch(t, 0))
        } else {
            match spec_parse_zone(t, e) {
                Some(o) => Some(spec_head_epoch(t, o)),
                None => None,
            }
        }
    } else {
        match spec_parse_zone(t, 19) {
            Some(o) => Some(spec_head_epoch(t, o)),
            None => None,
        }
    }
}

/// The epoch second named by the number lexeme `t`: an optional minus sign,
/// integer digits, and an optional fractional part, which truncation toward
/// zero discards.
pub open spec fn spec_resolve_num(t: Seq<char>) -> Option<int> {
    let neg = t.len() > 0 && t[0] == '-';
    let start: int = if neg {
        1
    } else {
        0
    };
    let e = spec_digits_end(t, start);
    if e == start {
        None
    } else if !(e == t.len() || (t[e] == '.' && spec_digits_end(t, e + 1) == t.len()
        && spec_digits_end(t, e + 1) > e + 1)) {
        None
    } else {
        let v = spec_dec_val(t.subrange(start, e));
        if neg {
            Some(-v)
        } else {
            Some(v)
        }
    }
}

/// The epoch second of the timestamp value `v`, if it is resolvable and
/// lies in the calendar window.
pub open spec fn spec_resolve(v: JsonValue) -> Option<int> {
    match v {
        JsonValue::Str(s) => match spec_resolve_str(s@) {
            Some(e) => if spec_min_epoch() <= e <= spec_max_epoch() {
                Some(e)
            } else {
                None
            },
            None => None,
        },
        JsonValue::Num(s) => match spec_resolve_num(s@) {
            Some(e) => if spec_min_epoch() <= e <= spec_max_epoch() {
                Some(e)
            } else {
                None
            },
            None => None,
        },
        _ => None,
    }
}

/// The first position at or after `i` in `t` that holds no decimal digit.
fn digits_end(t: &Vec<char>, i: usize) -> (r: usize)
    requires
        i <= t@.len(),
    ensures
        r == spec_digits_end(t@, i as int),
        i <= r <= t@.len(),
    decreases t@.len() - i,
{
    if i < t.len() && is_digit(t[i]) {
        digits_end(t, i + 1)
    } else {
        i
    }
}

fn num2(t: &Vec<char>, i: usize) -> (r: u32)
    requires
        i + 2 <= t@.len(),
        spec_is_digit(t@[i as int]),
        spec_is_digit(t@[i as int + 1]),
    ensures
        r == spec_num2(t@, i as int),
        r <= 99,
{
    let n: usize = t.len();
    digit_val(t[i]) * 10 + digit_val(t[i + 1])
}

fn num4(t: &Vec<char>, i: usize) -> (r: u32)
    requires
        i + 4 <= t@.len(),
        spec_is_digit(t@[i as int]),
        spec_is_digit(t@[i as int + 1]),
        spec_is_digit(t@[i as int + 2]),
        spec_is_digit(t@[i as int + 3]),
    ensures
        r == spec_num4(t@, i as int),
        r <= 9999,
{
    let n: usize = t.len();
    digit_val(t[i]) * 1000 + digit_val(t[i + 1]) * 100 + digit_val(t[i + 2]) * 10 + digit_val(
        t[i + 3],
    )
}

fn parse_zone(t: &Vec<char>, i: usize) -> (r: Option<i64>)
    requires
        i < t@.len(),
    ensures
        match r {
            Some(o) => spec_parse_zone(t@, i as int) == Some(o as int) && -86400 <= o <= 86400,
            None => spec_parse_zone(t@, i as int) is None,
        },
{
    let n: usize = t.len();
    let c: char = t[i];
    if i + 1 == n && (c == 'Z' || c == 'z') {
        Some(0)
    } else if n >= 6 && i == n - 6 && (c == '+' || c == '-') {
        if is_digit(t[i + 1]) && is_digit(t[i + 2]) && t[i + 3] == ':' && is_digit(t[i + 4])
            && is_digit(t[i + 5]) {
            let hh: u32 = num2(t, i + 1);
            let mm: u32 = num2(t, i + 4);
            if hh < 24 && mm < 60 {
                let v: i64 = (hh as i64) * 3600 + (mm as i64) * 60;
                if c == '-' {
                    Some(-v)
                } else {
                    Some(v)
                }
            } else {
                None
            }
        } else {
            None
        }
    } else {
        None
    }
}

fn head_shape_ok(t: &Vec<char>) -> (r: bool)
    ensures
        r == spec_head_shape_ok(t@),
{
    t.len() >= 19 && is_digit(t[0]) && is_digit(t[1]) && is_digit(t[2]) && is_digit(t[3])
        && t[4] == '-' && is_digit(t[5]) && is_digit(t[6]) && t[7] == '-' && is_digit(t[8])
        && is_digit(t[9]) && (t[10] == 'T' || t[10] == 't') && is_digit(t[11]) && is_digit(t[12])
        && t[13] == ':' && is_digit(t[14]) && is_digit(t[15]) && t[16] == ':' && is_digit(t[17])
        && is_digit(t[18])
}

/// The epoch second named by the date-time string `t`, by the accepted
/// grammar, or `None`.
fn resolve_str_chars(t: &Vec<char>) -> (r: Option<i64>)
    ensures
        match r {
            Some(e) => spec_resolve_str(t@) == Some(e as int),
            None => spec_resolve_str(t@) is None,
        },
{
    if !head_shape_ok(t) {
        return None;
    }
    let y: u32 = num4(t, 0);
    let mo: u32 = num2(t, 5);
    let d: u32 = num2(t, 8);
    let h: u32 = num2(t, 11);
    let mi: u32 = num2(t, 14);
    let sec: u32 = num2(t, 17);
    if !(1 <= mo && mo <= 12 && 1 <= d && d <= days_in_month(y, mo) && h < 24 && mi < 60 && sec
        < 60) {
        return None;
    }
    if t.len() == 19 {
        return None;
    }
    let offset: i64 = if t[19] == '.' {
        let e: usize = digits_end(t, 20);
        if e == 20 {
            return None;
        }
        if e == t.len() {
            0
        } else {
            match parse_zone(t, e) {
                Some(o) => o,
                None => {
                    return None;
                },
            }
        }
    } else {
        match parse_zone(t, 19) {
            Some(o) => o,
            None => {
                return None;
            },
        }
    };
    Some(civil_to_epoch(y, mo, d, h, mi, sec, offset))
}





/// The epoch second named by the digit run `t[start .. e]`, read as a
/// decimal integer, or `None` when it cannot lie in the calendar window.
fn dec_val_capped(t: &Vec<char>, start: usize, e: usize) -> (r: Option<u64>)
    requires
        start < e <= t@.len(),
        forall|j: int| start <= j < e ==> spec_is_digit(t@[j]),
    ensures
        match r {
            Some(v) => v == spec_dec_val(t@.subrange(start as int, e as int)),
            None => spec_dec_val(t@.subrange(start as int, e as int)) > spec_max_epoch(),
        },
{
    let ghost full = t@.subrange(start as int, e as int);
    // skip leading zeros
    let mut z: usize = start;
    while z < e && t[z] == '0'
        invariant
            start <= z <= e <= t@.len(),
            forall|j: int| start <= j < e ==> spec_is_digit(t@[j]),
            spec_dec_val(t@.subrange(start as int, e as int)) == spec_dec_val(
                t@.subrange(z as int, e as int),
            ),
        decreases e - z,
    {
        proof {
            let cur = t@.subrange(z as int, e as int);
            assert(cur[0] == t@[z as int]);
            assert(spec_digit_val(cur[0]) == 0);
            crate::text::lemma_dec_val_strip_zero(cur);
            assert(cur.subrange(1, cur.len() as int) =~= t@.subrange(z as int + 1, e as int));
        }
        z = z + 1;
    }
    if e - z > 12 {
        proof {
            let cur = t@.subrange(z as int, e as int);
            assert(spec_digit_val(cur[0]) >= 1) by {
                assert(cur[0] == t@[z as int]);
            }
            crate::text::lemma_dec_val_lower(cur);
            crate::text::lemma_pow10_mono(12, (cur.len() - 1) as nat);
            reveal_with_fuel(crate::text::spec_pow10, 13);
            assert(spec_pow10(12) == 1000000000000int);
            lemma_days_before_year_bounds(10000);
            lemma_days_before_year_bounds(1970);
        }
        return None;
    }
    let mut acc: u64 = 0;
    let mut i: usize = z;
    proof {
        assert(t@.subrange(z as int, z as int) =~= Seq::<char>::empty());
    }
    while i < e
        invariant
            start <= z <= i <= e <= t@.len(),
            e - z <= 12,
            forall|j: int| start <= j < e ==> spec_is_digit(t@[j]),
            spec_dec_val(t@.subrange(start as int, e as int)) == spec_dec_val(
                t@.subrange(z as int, e as int),
            ),
            acc == spec_dec_val(t@.subrange(z as int, i as int)),
            acc < 1000000000000,
        decreases e - i,
    {
        let d: u32 = digit_val(t[i]);
        proof {
            crate::text::lemma_dec_val_step(t@.subrange(z as int, e as int), i - z);
            assert(t@.subrange(z as int, e as int).subrange(0, i - z) =~= t@.subrange(
                z as int,
                i as int,
            ));
            assert(t@.subrange(z as int, e as int).subrange(0, i - z + 1) =~= t@.subrange(
                z as int,
                i as int + 1,
            ));
            assert(t@.subrange(z as int, e as int)[i - z] == t@[i as int]);
            // the accumulated value stays under its cap
            let pref = t@.subrange(z as int, i as int + 1);
            assert(spec_dec_val(pref) < 1000000000000int) by {
                assert(forall|j: int| 0 <= j < pref.len() ==> spec_is_digit(#[trigger] pref[j]));
                crate::text::lemma_dec_val_bound_by_len(pref);
                crate::text::lemma_pow10_mono(pref.len() as nat, 12);
                reveal_with_fuel(crate::text::spec_pow10, 13);
                assert(spec_pow10(12) == 1000000000000int);
            }
        }
        acc = acc * 10 + d as u64;
        i = i + 1;
    }
    proof {
        assert(t@.subrange(z as int, i as int) =~= t@.subrange(z as int, e as int));
    }
    Some(acc)
}


/// The epoch second named by the number lexeme `t`, or `None` when it does
/// not have the shape of a decimal number or cannot lie in the window
/// `[-min_mag, max]`.
fn resolve_num_chars(t: &Vec<char>, min_mag: u64, max: u64) -> (r: Option<i64>)
    requires
        min_mag == -spec_min_epoch(),
        max == spec_max_epoch(),
        min_mag < 0x4000000000000000,
        max < 0x4000000000000000,
    ensures
        match r {
            Some(e) => spec_resolve_num(t@) == Some(
                e as int,
            ) && spec_min_epoch() <= e <= spec_max_epoch(),
            None => match spec_resolve_num(t@) {
                Some(v) => !(spec_min_epoch() <= v <= spec_max_epoch()),
                None => true,
            },
        },
{
    let neg: bool = t.len() > 0 && t[0] == '-';
    let start: usize = if neg {
        1
    } else {
        0
    };
    let e: usize = digits_end(t, start);
    if e == start {
        return None;
    }
    proof {
        lemma_digits_end_digits(t@, start as int);
    }
    if !(e == t.len()) {
        if !(t[e] == '.') {
            return None;
        }
        let e2: usize = digits_end(t, e + 1);
        if !(e2 == t.len() && e2 > e + 1) {
            return None;
        }
    }
    let v: u64 = match dec_val_capped(t, start, e) {
        Some(v) => v,
        None => {
            proof {
                lemma_days_before_year_bounds(10000);
                lemma_days_before_year_bounds(1970);
            }
            return None;
        },
    };
    if neg {
        if v > min_mag {
            // below the window
            return None;
        }
        Some(-(v as i64))
    } else {
        if v > max {
            return None;
        }
        Some(v as i64)
    }
}

proof fn lemma_digits_end_digits(t: Seq<char>, i: int)
    requires
        0 <= i <= t.len(),
    ensures
        forall|j: int| i <= j < spec_digits_end(t, i) ==> spec_is_digit(t[j]),
        i <= spec_digits_end(t, i) <= t.len(),
    decreases t.len() - i,
{
    if i < t.len() && spec_is_digit(t[i]) {
        lemma_digits_end_digits(t, i + 1);
    }
}


/// The lowest accepted epoch second, as a magnitude.
pub fn min_epoch_mag() -> (r: u64)
    ensures
        r == -spec_min_epoch(),
        r < 0x4000000000000000,
{
    let shift: u64 = days_before_year(1970);
    shift * 86400
}

/// The highest accepted epoch second.
pub fn max_epoch() -> (r: i64)
    ensures
        r == spec_max_epoch(),
        0 < r < 0x4000000000000000,
{
    let all: u64 = days_before_year(10000);
    let shift: u64 = days_before_year(1970);
    proof {
        lemma_days_before_year_bounds(10000);
        lemma_days_before_year_bounds(1970);
        lemma_days_before_year_mono(1970, 10000);
    }
    ((all - shift) * 86400 - 1) as i64
}

/// Days before a later year are more.
proof fn lemma_days_before_year_mono(a: int, b: int)
    requires
        0 <= a <= b,
    ensures
        spec_days_before_year(a) <= spec_days_before_year(b),
        a < b ==> spec_days_before_year(a) + 365 * (b - a) <= spec_days_before_year(b),
    decreases b,
{
    if a < b {
        lemma_days_before_year_mono(a, b - 1);
    }
}

/// Resolves the timestamp value `v` to its canonical epoch second, or
/// reports it unresolvable. A string is read as a date-time by the accepted
/// grammar; a number is truncated toward zero; every other shape, a string
/// outside the grammar, and an instant outside the calendar window fail.
pub fn resolve(v: &JsonValue) -> (r: Result<i64, CoreError>)
    ensures
        match r {
            Ok(e) => spec_resolve(*v) == Some(e as int),
            Err(err) => spec_resolve(*v) is None && err == CoreError::UnresolvableTimestamp,
        },
{
    let min_mag: u64 = min_epoch_mag();
    let max: i64 = max_epoch();
    match v {
        JsonValue::Str(s) => {
            let t = chars_of(s.as_str());
            match resolve_str_chars(&t) {
                Some(e) => {
                    if -(min_mag as i64) <= e && e <= max {
                        Ok(e)
                    } else {
                        Err(CoreError::UnresolvableTimestamp)
                    }
                },
                None => Err(CoreError::UnresolvableTimestamp),
            }
        },
        JsonValue::Num(s) => {
            let t = chars_of(s.as_str());
            match resolve_num_chars(&t, min_mag, max as u64) {
                Some(e) => Ok(e),
                None => Err(CoreError::UnresolvableTimestamp),
            }
        },
        _ => Err(CoreError::UnresolvableTimestamp),
    }
}

/// The year holding the day `days` counted from the start of year `y`, and
/// the day's index within that year.
pub open spec fn spec_year_from(y: int, days: int) -> (int, int)
    decreases days,
{
    if days < spec_days_in_year(y) || days < 0 {
        (y, days)
    } else {
        spec_year_from(y + 1, days - spec_days_in_year(y))
    }
}

/// The month of year `y` holding the day `days` counted from the start of
/// month `m`, and the day's index within that month.
pub open spec fn spec_month_from(y: int, m: int, days: int) -> (int, int)
    decreases 12 - m,
{
    if m >= 12 || days < spec_days_in_month(y, m) {
        (m, days)
    } else {
        spec_month_from(y, m + 1, days - spec_days_in_month(y, m))
    }
}

/// The civil reading `(y, m, d, h, mi, s)` of the epoch second `ts`.
pub open spec fn spec_civil_of_epoch(ts: int) -> (int, int, int, int, int, int) {
    let total = ts - spec_min_epoch();
    let days = total / 86400;
    let rem = total % 86400;
    let yd = spec_year_from(0, days);
    let md = spec_month_from(yd.0, 1, yd.1);
    (yd.0, md.0, md.1 + 1, rem / 3600, (rem % 3600) / 60, (rem % 3600) % 60)
}

proof fn lemma_year_from_props(y0: int, days: int)
    requires
        0 <= y0,
        0 <= days,
    ensures
        ({
            let (y, doy) = spec_year_from(y0, days);
            &&& y0 <= y
            &&& 0 <= doy < spec_days_in_year(y)
            &&& spec_days_before_year(y) - spec_days_before_year(y0) == days - doy
        }),
    decreases days,
{
    if days < spec_days_in_year(y0) {
    } else {
        lemma_year_from_props(y0 + 1, days - spec_days_in_year(y0));
    }
}

proof fn lemma_month_total(y: int)
    ensures
        spec_days_before_month(y, 13) == spec_days_in_year(y),
{
    reveal_with_fuel(spec_days_before_month, 14);
}

proof fn lemma_month_from_props(y: int, m0: int, days: int)
    requires
        1 <= m0 <= 12,
        0 <= days,
        days < spec_days_before_month(y, 13) - spec_days_before_month(y, m0),
    ensures
        ({
            let (m, dom) = spec_month_from(y, m0, days);
            &&& m0 <= m <= 12
            &&& 0 <= dom < spec_days_in_month(y, m)
            &&& spec_days_before_month(y, m) - spec_days_before_month(y, m0) == days - dom
        }),
    decreases 12 - m0,
{
    reveal_with_fuel(spec_days_before_month, 14);
    if m0 >= 12 || days < spec_days_in_month(y, m0) {
    } else {
        lemma_month_from_props(y, m0 + 1, days - spec_days_in_month(y, m0));
    }
}

/// The civil reading of an epoch second in the window is a day of the
/// calendar and a second of a day, and writing it back as an epoch second
/// returns the number it came from.
pub proof fn lemma_civil_of_epoch_inverse(ts: int)
    requires
        spec_min_epoch() <= ts <= spec_max_epoch(),
    ensures
        ({
            let (y, m, d, h, mi, sec) = spec_civil_of_epoch(ts);
            &&& spec_valid_date(y, m, d)
            &&& spec_valid_time(h, mi, sec)
            &&& spec_civil_to_epoch(y, m, d, h, mi, sec, 0) == ts
        }),
{
    let total = ts - spec_min_epoch();
    let days = total / 86400;
    let rem = total % 86400;
    assert(total == 86400 * days + rem && 0 <= rem < 86400) by (nonlinear_arith)
        requires
            total >= 0,
            days == total / 86400,
            rem == total % 86400,
    ;
    assert(days >= 0) by (nonlinear_arith)
        requires
            total >= 0,
            days == total / 86400,
    ;
    assert(total <= spec_days_before_year(10000) * 86400 - 1) by (nonlinear_arith)
        requires
            total == ts - spec_min_epoch(),
            ts <= spec_max_epoch(),
            spec_min_epoch() == -spec_days_before_year(1970) * 86400,
            spec_max_epoch() == (spec_days_before_year(10000) - spec_days_before_year(1970)) * 86400
                - 1,
    ;
    assert(days < spec_days_before_year(10000)) by (nonlinear_arith)
        requires
            total == 86400 * days + rem,
            0 <= rem < 86400,
            total <= spec_days_before_year(10000) * 86400 - 1,
    ;
    lemma_year_from_props(0, days);
    let (y, doy) = spec_year_from(0, days);
    assert(spec_days_before_year(y) == days - doy);
    // the year lies in the window
    if y > 9999 {
        lemma_days_before_year_mono(10000, y);
        assert(spec_days_before_year(10000) <= spec_days_before_year(y));
        assert(false);
    }
    lemma_month_total(y);
    lemma_month_from_props(y, 1, doy);
    let (m, dom) = spec_month_from(y, 1, doy);
    assert(spec_days_before_month(y, m) == doy - dom);
    let d = dom + 1;
    let h = rem / 3600;
    let r2 = rem % 3600;
    assert(rem == 3600 * h + r2 && 0 <= r2 < 3600 && h < 24) by (nonlinear_arith)
        requires
            0 <= rem < 86400,
            h == rem / 3600,
            r2 == rem % 3600,
    ;
    let mi = r2 / 60;
    let sec = r2 % 60;
    assert(r2 == 60 * mi + sec && 0 <= sec < 60 && mi < 60) by (nonlinear_arith)
        requires
            0 <= r2 < 3600,
            mi == r2 / 60,
            sec == r2 % 60,
    ;
    assert(spec_day_number(y, m, d) == days);
    assert(spec_civil_to_epoch(y, m, d, h, mi, sec, 0) == (days - spec_epoch_shift_days()) * 86400
        + h * 3600 + mi * 60 + sec);
    assert((days - spec_epoch_shift_days()) * 86400 == days * 86400 - spec_epoch_shift_days()
        * 86400) by (nonlinear_arith);
    assert(days * 86400 == 86400 * days) by (nonlinear_arith);
    assert(spec_civil_to_epoch(y, m, d, h, mi, sec, 0) == ts);
}

/// Days in year `y`.
pub fn days_in_year(y: u32) -> (r: u32)
    ensures
        r == spec_days_in_year(y as int),
{
    if (y % 4 == 0) && (y % 100 != 0 || y % 400 == 0) {
        366
    } else {
        365
    }
}

/// The civil reading `(y, m, d, h, mi, s)` of the epoch second `ts`.
#[verifier::loop_isolation(false)]
pub fn epoch_to_civil(ts: i64) -> (r: (u32, u32, u32, u32, u32, u32))
    requires
        spec_min_epoch() <= ts <= spec_max_epoch(),
    ensures
        ({
            let c = spec_civil_of_epoch(ts as int);
            r.0 == c.0 && r.1 == c.1 && r.2 == c.2 && r.3 == c.3 && r.4 == c.4 && r.5 == c.5
        }),
{
    let min_mag: u64 = min_epoch_mag();
    let max: i64 = max_epoch();
    proof {
        lemma_days_before_year_bounds(10000);
        lemma_days_before_year_bounds(1970);
    }
    let total: u64 = (ts + min_mag as i64) as u64;
    let days: u64 = total / 86400;
    let rem: u32 = (total % 86400) as u32;
    proof {
        lemma_civil_of_epoch_inverse(ts as int);
        lemma_year_from_props(0, days as int);
        assert((ts + min_mag) as u64 == ts - spec_min_epoch());
        assert(total <= spec_days_before_year(10000) * 86400 - 1) by (nonlinear_arith)
            requires
                total == ts - spec_min_epoch(),
                ts <= spec_max_epoch(),
                spec_min_epoch() == -spec_days_before_year(1970) * 86400,
                spec_max_epoch() == (spec_days_before_year(10000) - spec_days_before_year(1970))
                    * 86400 - 1,
        ;
        assert((days as int) < spec_days_before_year(10000)) by (nonlinear_arith)
            requires
                total == 86400 * (days as int) + (total % 86400),
                0 <= total % 86400 < 86400,
                total <= spec_days_before_year(10000) * 86400 - 1,
        ;
    }
    let mut y: u32 = 0;
    let mut d: u64 = days;
    loop
        invariant
            spec_year_from(y as int, d as int) == spec_year_from(0, days as int),
            0 <= d <= days,
            spec_days_before_year(y as int) == days - d,
            y <= 10000,
        decreases d,
    {
        let len: u32 = days_in_year(y);
        if d >= len as u64 {
            proof {
                if y as int + 1 > 10000 {
                    lemma_days_before_year_mono(10000, y as int + 1);
                    assert(false);
                }
            }
            d = d - len as u64;
            y = y + 1;
        } else {
            break ;
        }
    }
    let doy: u32 = d as u32;
    let mut m: u32 = 1;
    let mut dm: u32 = doy;
    proof {
        lemma_month_total(y as int);
        lemma_month_from_props(y as int, 1, doy as int);
    }
    loop
        invariant
            1 <= m <= 12,
            spec_month_from(y as int, m as int, dm as int) == spec_month_from(
                y as int,
                1,
                doy as int,
            ),
            dm <= doy < 366,
        decreases 12 - m,
    {
        let len: u32 = days_in_month(y, m);
        if m < 12 && dm >= len {
            dm = dm - len;
            m = m + 1;
        } else {
            break ;
        }
    }
    let h: u32 = rem / 3600;
    let r2: u32 = rem % 3600;
    (y, m, dm + 1, h, r2 / 60, r2 % 60)
}

/// The 19 characters `YYYY-MM-DDThh:mm:ss` of the civil reading of `ts`.
pub open spec fn spec_head19(ts: int) -> Seq<char> {
    let (y, m, d, h, mi, sec) = spec_civil_of_epoch(ts);
    seq![
        spec_digit_char(y / 1000),
        spec_digit_char(y / 100 % 10),
        spec_digit_char(y / 10 % 10),
        spec_digit_char(y % 10),
        '-',
        spec_digit_char(m / 10),
        spec_digit_char(m % 10),
        '-',
        spec_digit_char(d / 10),
        spec_digit_char(d % 10),
        'T',
        spec_digit_char(h / 10),
        spec_digit_char(h % 10),
        ':',
        spec_digit_char(mi / 10),
        spec_digit_char(mi % 10),
        ':',
        spec_digit_char(sec / 10),
        spec_digit_char(sec % 10),
    ]
}

/// The canonical rendering of `ts`: its civil reading in UTC, `Z`-suffixed.
pub open spec fn spec_rfc3339z_text(ts: int) -> Seq<char> {
    spec_head19(ts).push('Z')
}

/// The same instant written without a zone designator, with a fractional
/// part, as the zone-less representation spells it.
pub open spec fn spec_naive_text(ts: int) -> Seq<char> {
    spec_head19(ts).push('.').push('0')
}

proof fn lemma_digit_char(d: int)
    requires
        0 <= d <= 9,
    ensures
        spec_is_digit(spec_digit_char(d)),
        spec_digit_val(spec_digit_char(d)) == d,
{
}

proof fn lemma_two_digits(n: int)
    requires
        0 <= n <= 99,
    ensures
        spec_is_digit(spec_digit_char(n / 10)),
        spec_is_digit(spec_digit_char(n % 10)),
        spec_digit_val(spec_digit_char(n / 10)) * 10 + spec_digit_val(spec_digit_char(n % 10))
            == n,
{
    lemma_digit_char(n / 10);
    lemma_digit_char(n % 10);
}

/// The head of any string that starts with the rendering of `ts` names the
/// civil reading of `ts`, and is a day of the calendar.
proof fn lemma_head_props(ts: int, t: Seq<char>)
    requires
        spec_min_epoch() <= ts <= spec_max_epoch(),
        t.len() >= 19,
        t.subrange(0, 19) =~= spec_head19(ts),
    ensures
        spec_head_fields_ok(t),
        spec_head_epoch(t, 0) == ts,
{
    let (y, m, d, h, mi, sec) = spec_civil_of_epoch(ts);
    lemma_civil_of_epoch_inverse(ts);
    assert(forall|i: int| 0 <= i < 19 ==> t[i] == #[trigger] spec_head19(ts)[i]) by {
        assert(forall|i: int| 0 <= i < 19 ==> t[i] == #[trigger] t.subrange(0, 19)[i]);
    }
    lemma_digit_char(y / 1000);
    lemma_digit_char(y / 100 % 10);
    lemma_digit_char(y / 10 % 10);
    lemma_digit_char(y % 10);
    lemma_two_digits(m);
    lemma_two_digits(d);
    lemma_two_digits(h);
    lemma_two_digits(mi);
    lemma_two_digits(sec);
    assert(spec_head_shape_ok(t));
    assert(spec_num4(t, 0) == (y / 1000) * 1000 + (y / 100 % 10) * 100 + (y / 10 % 10) * 10 + y
        % 10);
    assert((y / 1000) * 1000 + (y / 100 % 10) * 100 + (y / 10 % 10) * 10 + y % 10 == y)
        by (nonlinear_arith)
        requires
            0 <= y <= 9999,
    ;
    assert(spec_num2(t, 5) == m);
    assert(spec_num2(t, 8) == d);
    assert(spec_num2(t, 11) == h);
    assert(spec_num2(t, 14) == mi);
    assert(spec_num2(t, 17) == sec);
}

/// An instant in the window survives the round trip through its canonical
/// rendering: resolving `spec_rfc3339z_text(ts)` yields `ts` again.
pub proof fn lemma_rfc3339_round_trip(ts: int)
    requires
        spec_min_epoch() <= ts <= spec_max_epoch(),
    ensures
        spec_resolve_str(spec_rfc3339z_text(ts)) == Some(ts),
{
    let t = spec_rfc3339z_text(ts);
    assert(t.subrange(0, 19) =~= spec_head19(ts));
    lemma_head_props(ts, t);
    assert(t[19] == 'Z');
    assert(spec_parse_zone(t, 19) == Some(0int));
}

/// The zone-less rendering of an instant in the window resolves to the same
/// epoch second as its canonical rendering.
pub proof fn lemma_naive_round_trip(ts: int)
    requires
        spec_min_epoch() <= ts <= spec_max_epoch(),
    ensures
        spec_resolve_str(spec_naive_text(ts)) == Some(ts),
{
    let t = spec_naive_text(ts);
    assert(t.subrange(0, 19) =~= spec_head19(ts));
    lemma_head_props(ts, t);
    assert(t.len() == 21);
    assert(t[19] == '.');
    assert(t[20] == '0');
    assert(spec_digits_end(t, 20) == 21) by {
        reveal_with_fuel(spec_digits_end, 3);
    }
}

proof fn lemma_dec_digits_props(v: int)
    requires
        0 <= v,
    ensures
        spec_dec_digits(v).len() >= 1,
        forall|i: int|
            0 <= i < spec_dec_digits(v).len() ==> spec_is_digit(#[trigger] spec_dec_digits(v)[i]),
        spec_dec_val(spec_dec_digits(v)) == v,
    decreases v,
{
    if v <= 9 {
        lemma_digit_char(v);
        let s = spec_dec_digits(v);
        assert(s.drop_last() =~= Seq::<char>::empty());
        assert(spec_dec_val(s) == spec_dec_val(s.drop_last()) * 10 + spec_digit_val(s.last()));
    } else {
        lemma_dec_digits_props(v / 10);
        lemma_digit_char(v % 10);
        let s = spec_dec_digits(v);
        assert(s == spec_dec_digits(v / 10).push(spec_digit_char(v % 10)));
        assert(s.drop_last() =~= spec_dec_digits(v / 10));
        assert(spec_dec_val(s) == spec_dec_val(s.drop_last()) * 10 + spec_digit_val(s.last()));
        assert((v / 10) * 10 + v % 10 == v) by (nonlinear_arith)
            requires
                v >= 0,
        ;
    }
}

proof fn lemma_digits_end_all(t: Seq<char>, i: int, j: int)
    requires
        0 <= i <= j <= t.len(),
        forall|k: int| i <= k < j ==> spec_is_digit(t[k]),
        j == t.len() || !spec_is_digit(t[j]),
    ensures
        spec_digits_end(t, i) == j,
    decreases j - i,
{
    if i < j {
        lemma_digits_end_all(t, i + 1, j);
    }
}

/// The plain integer rendering of an instant in the window resolves to it.
pub proof fn lemma_int_form_resolves(ts: int)
    requires
        spec_min_epoch() <= ts <= spec_max_epoch(),
    ensures
        spec_resolve_num(crate::text::spec_i64_text(ts)) == Some(ts),
{
    let t = crate::text::spec_i64_text(ts);
    if ts < 0 {
        lemma_dec_digits_props(-ts);
        let digits = spec_dec_digits(-ts);
        assert(t =~= seq!['-'].add(digits));
        assert(t[0] == '-');
        assert(!spec_is_digit('-'));
        assert(forall|k: int| 1 <= k < t.len() ==> spec_is_digit(t[k])) by {
            assert(forall|k: int| 1 <= k < t.len() ==> t[k] == digits[k - 1]);
        }
        lemma_digits_end_all(t, 1, t.len() as int);
        assert(t.subrange(1, t.len() as int) =~= digits);
    } else {
        lemma_dec_digits_props(ts);
        assert(t == spec_dec_digits(ts));
        assert(spec_is_digit(t[0]));
        assert(t[0] != '-');
        lemma_digits_end_all(t, 0, t.len() as int);
        assert(t.subrange(0, t.len() as int) =~= t);
    }
}

/// The fractional rendering `<integer>.0` of an instant in the window
/// resolves to it: the fraction is truncated away.
pub proof fn lemma_fractional_form_resolves(ts: int)
    requires
        spec_min_epoch() <= ts <= spec_max_epoch(),
    ensures
        spec_resolve_num(crate::text::spec_i64_text(ts).push('.').push('0')) == Some(ts),
{
    let base = crate::text::spec_i64_text(ts);
    let t = base.push('.').push('0');
    let n = base.len() as int;
    assert(t.len() == n + 2);
    assert(t[n] == '.');
    assert(t[n + 1] == '0');
    if ts < 0 {
        lemma_dec_digits_props(-ts);
        let digits = spec_dec_digits(-ts);
        assert(base =~= seq!['-'].add(digits));
        assert(t[0] == '-');
        assert(forall|k: int| 1 <= k < n ==> t[k] == digits[k - 1]);
        lemma_digits_end_all(t, 1, n);
        lemma_digits_end_all(t, n + 1, n + 2);
        assert(t.subrange(1, n) =~= digits);
    } else {
        lemma_dec_digits_props(ts);
        assert(base == spec_dec_digits(ts));
        assert(forall|k: int| 0 <= k < n ==> t[k] == base[k]);
        assert(spec_is_digit(t[0]));
        assert(t[0] != '-');
        lemma_digits_end_all(t, 0, n);
        lemma_digits_end_all(t, n + 1, n + 2);
        assert(t.subrange(0, n) =~= base);
    }
}

/// One instant, four spellings: the canonical offset rendering, the
/// zone-less rendering taken as UTC, the integer second count, and the
/// fractional second count all resolve to the same epoch second, for every
/// instant of the calendar window.
pub proof fn lemma_resolve_forms_agree(ts: int)
    requires
        spec_min_epoch() <= ts <= spec_max_epoch(),
    ensures
        spec_resolve_str(spec_rfc3339z_text(ts)) == Some(ts),
        spec_resolve_str(spec_naive_text(ts)) == Some(ts),
        spec_resolve_num(crate::text::spec_i64_text(ts)) == Some(ts),
        spec_resolve_num(crate::text::spec_i64_text(ts).push('.').push('0')) == Some(ts),
        forall|s: String|
            s@ == spec_rfc3339z_text(ts) ==> spec_resolve(JsonValue::Str(s)) == Some(ts),
        forall|s: String|
            s@ == spec_naive_text(ts) ==> spec_resolve(JsonValue::Str(s)) == Some(ts),
        forall|s: String|
            s@ == crate::text::spec_i64_text(ts) ==> spec_resolve(JsonValue::Num(s)) == Some(ts),
        forall|s: String|
            s@ == crate::text::spec_i64_text(ts).push('.').push('0') ==> spec_resolve(
                JsonValue::Num(s),
            ) == Some(ts),
{
    lemma_rfc3339_round_trip(ts);
    lemma_naive_round_trip(ts);
    lemma_int_form_resolves(ts);
    lemma_fractional_form_resolves(ts);
}

/// The canonical `YYYY-MM-DDThh:mm:ssZ` rendering of the epoch second `ts`.
pub fn format_rfc3339(ts: i64) -> (r: String)
    requires
        spec_min_epoch() <= ts <= spec_max_epoch(),
    ensures
        r@ == spec_rfc3339z_text(ts as int),
{
    let c = epoch_to_civil(ts);
    let (y, m, d, h, mi, sec) = c;
    proof {
        lemma_civil_of_epoch_inverse(ts as int);
    }
    proof {
        reveal_strlit("-");
        reveal_strlit(":");
        reveal_strlit("T");
        reveal_strlit("Z");
    }
    let mut out = String::new();
    out.append(crate::text::digit_str_pub((y / 1000) as u64));
    out.append(crate::text::digit_str_pub((y / 100 % 10) as u64));
    out.append(crate::text::digit_str_pub((y / 10 % 10) as u64));
    out.append(crate::text::digit_str_pub((y % 10) as u64));
    out.append("-");
    out.append(crate::text::digit_str_pub((m / 10) as u64));
    out.append(crate::text::digit_str_pub((m % 10) as u64));
    out.append("-");
    out.append(crate::text::digit_str_pub((d / 10) as u64));
    out.append(crate::text::digit_str_pub((d % 10) as u64));
    out.append("T");
    out.append(crate::text::digit_str_pub((h / 10) as u64));
    out.append(crate::text::digit_str_pub((h % 10) as u64));
    out.append(":");
    out.append(crate::text::digit_str_pub((mi / 10) as u64));
    out.append(crate::text::digit_str_pub((mi % 10) as u64));
    out.append(":");
    out.append(crate::text::digit_str_pub((sec / 10) as u64));
    out.append(crate::text::digit_str_pub((sec % 10) as u64));
    out.append("Z");
    assert(out@ =~= spec_rfc3339z_text(ts as int));
    out
}

} // verus!
