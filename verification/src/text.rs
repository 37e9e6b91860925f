//! Small verified text helpers shared by the pipeline: character-wise string
//! equality, decimal rendering of integers, and decimal parsing.

use vstd::prelude::*;
use vstd::string::StrSliceExecFns;
use vstd::string::StringExecFns;

verus! {

/// True iff the two slices spell the same character sequence.
pub fn str_eq(a: &str, b: &str) -> (r: bool)
    ensures
        r == (a@ == b@),
{
    let an: usize = a.unicode_len();
    let bn: usize = b.unicode_len();
    if an != bn {
        assert(a@ != b@) by {
            assert(a@.len() != b@.len());
        }
        return false;
    }
    let mut i: usize = 0;
    while i < an
        invariant
            i <= an,
            an == a@.len(),
            an == b@.len(),
            forall|j: int| 0 <= j < i ==> a@[j] == b@[j],
        decreases an - i,
    {
        if a.get_char(i) != b.get_char(i) {
            return false;
        }
        i = i + 1;
    }
    assert(a@ =~= b@);
    true
}

/// The digit character for `d`.
pub open spec fn spec_digit_char(d: int) -> char {
    if d == 0 {
        '0'
    } else if d == 1 {
        '1'
    } else if d == 2 {
        '2'
    } else if d == 3 {
        '3'
    } else if d == 4 {
        '4'
    } else if d == 5 {
        '5'
    } else if d == 6 {
        '6'
    } else if d == 7 {
        '7'
    } else if d == 8 {
        '8'
    } else {
        '9'
    }
}

/// The decimal rendering of a non-negative integer, without sign.
pub open spec fn spec_dec_digits(n: int) -> Seq<char>
    decreases n,
{
    if n <= 9 {
        seq![spec_digit_char(n)]
    } else {
        spec_dec_digits(n / 10).push(spec_digit_char(n % 10))
    }
}

/// The decimal rendering of an integer, with a leading `-` when negative.
pub open spec fn spec_i64_text(n: int) -> Seq<char> {
    if n < 0 {
        seq!['-'].add(spec_dec_digits(-n))
    } else {
        spec_dec_digits(n)
    }
}

pub fn digit_str_pub(d: u64) -> (r: &'static str)
    requires
        d <= 9,
    ensures
        r@ =~= seq![spec_digit_char(d as int)],
{
    proof {
        reveal_strlit("0");
        reveal_strlit("1");
        reveal_strlit("2");
        reveal_strlit("3");
        reveal_strlit("4");
        reveal_strlit("5");
        reveal_strlit("6");
        reveal_strlit("7");
        reveal_strlit("8");
        reveal_strlit("9");
    }
    if d == 0 {
        "0"
    } else if d == 1 {
        "1"
    } else if d == 2 {
        "2"
    } else if d == 3 {
        "3"
    } else if d == 4 {
        "4"
    } else if d == 5 {
        "5"
    } else if d == 6 {
        "6"
    } else if d == 7 {
        "7"
    } else if d == 8 {
        "8"
    } else {
        "9"
    }
}

/// Appends the decimal rendering of `n` to `out`.
pub fn push_u64_digits(out: &mut String, n: u64)
    ensures
        final(out)@ == old(out)@ + spec_dec_digits(n as int),
    decreases n,
{
    if n <= 9 {
        out.append(digit_str_pub(n));
    } else {
        push_u64_digits(out, n / 10);
        out.append(digit_str_pub(n % 10));
    }
}

/// The decimal rendering of `n` as a fresh string.
pub fn u64_to_dec(n: u64) -> (r: String)
    ensures
        r@ == spec_dec_digits(n as int),
{
    let mut out = String::new();
    push_u64_digits(&mut out, n);
    assert(Seq::<char>::empty() + spec_dec_digits(n as int) =~= spec_dec_digits(n as int));
    out
}

/// The decimal rendering of `n`, signed.
pub fn i64_to_dec(n: i64) -> (r: String)
    ensures
        r@ == spec_i64_text(n as int),
{
    if n >= 0 {
        let r = u64_to_dec(n as u64);
        r
    } else {
        proof {
            reveal_strlit("-");
        }
        let mut out = String::from_str("-");
        assert(out@ =~= seq!['-']);
        let mag: u64 = if n == i64::MIN {
            9223372036854775808u64
        } else {
            (-n) as u64
        };
        push_u64_digits(&mut out, mag);
        assert(out@ =~= seq!['-'].add(spec_dec_digits(-(n as int))));
        out
    }
}

/// Whether `c` is a decimal digit.
pub open spec fn spec_is_digit(c: char) -> bool {
    48 <= c as int && c as int <= 57
}

/// The numeric value of digit `c`.
pub open spec fn spec_digit_val(c: char) -> int {
    c as int - 48
}

/// The value of the digit string `s` read in base ten.
pub open spec fn spec_dec_val(s: Seq<char>) -> int
    decreases s.len(),
{
    if s.len() == 0 {
        0
    } else {
        spec_dec_val(s.drop_last()) * 10 + spec_digit_val(s.last())
    }
}

pub fn is_digit(c: char) -> (r: bool)
    ensures
        r == spec_is_digit(c),
{
    let u: u32 = c as u32;
    48 <= u && u <= 57
}

pub fn digit_val(c: char) -> (r: u32)
    requires
        spec_is_digit(c),
    ensures
        r == spec_digit_val(c),
{
    (c as u32) - 48
}

/// The characters of `s` as a vector.
pub fn chars_of(s: &str) -> (r: Vec<char>)
    ensures
        r@ == s@,
{
    let n: usize = s.unicode_len();
    let mut out: Vec<char> = Vec::new();
    let mut i: usize = 0;
    while i < n
        invariant
            i <= n,
            n == s@.len(),
            out@ =~= s@.subrange(0, i as int),
        decreases n - i,
    {
        out.push(s.get_char(i));
        assert(out@ =~= s@.subrange(0, i + 1));
        i = i + 1;
    }
    assert(s@.subrange(0, n as int) =~= s@);
    out
}

/// Ten to the `n`.
pub open spec fn spec_pow10(n: nat) -> int
    decreases n,
{
    if n == 0 {
        1
    } else {
        10 * spec_pow10((n - 1) as nat)
    }
}

/// The first position at or after `i` in `t` that holds `c`, or the length.
pub open spec fn spec_char_end(t: Seq<char>, i: int, c: char) -> int
    decreases t.len() - i,
{
    if 0 <= i < t.len() {
        if t[i] == c {
            i
        } else {
            spec_char_end(t, i + 1, c)
        }
    } else {
        i
    }
}

/// The first position at or after `i` in `t` that holds `c`, or the length.
pub fn char_end(t: &Vec<char>, i: usize, c: char) -> (r: usize)
    requires
        i <= t@.len(),
    ensures
        r == spec_char_end(t@, i as int, c),
        i <= r <= t@.len(),
    decreases t@.len() - i,
{
    if i < t.len() {
        if t[i] == c {
            i
        } else {
            char_end(t, i + 1, c)
        }
    } else {
        i
    }
}

/// The first occurrence of `c` at or after `i` is at `spec_char_end`, and
/// nothing before it is `c`.
pub proof fn lemma_char_end(t: Seq<char>, i: int, c: char)
    requires
        0 <= i <= t.len(),
    ensures
        i <= spec_char_end(t, i, c) <= t.len(),
        spec_char_end(t, i, c) < t.len() ==> t[spec_char_end(t, i, c)] == c,
        forall|j: int| i <= j < spec_char_end(t, i, c) ==> t[j] != c,
    decreases t.len() - i,
{
    if i < t.len() && t[i] != c {
        lemma_char_end(t, i + 1, c);
    }
}

/// Whether `c` is one of the blank characters trimming removes: space,
/// tab, line feed, or carriage return.
pub open spec fn spec_is_blank(c: char) -> bool {
    c == ' ' || c == '\t' || c == '\n' || c == '\r'
}

pub fn is_blank(c: char) -> (r: bool)
    ensures
        r == spec_is_blank(c),
{
    c == ' ' || c == '\t' || c == '\n' || c == '\r'
}

/// `s` without its trailing blanks.
pub open spec fn spec_rtrim(s: Seq<char>) -> Seq<char>
    decreases s.len(),
{
    if s.len() > 0 && spec_is_blank(s.last()) {
        spec_rtrim(s.drop_last())
    } else {
        s
    }
}

/// `s` without its leading blanks.
pub open spec fn spec_ltrim(s: Seq<char>) -> Seq<char>
    decreases s.len(),
{
    if s.len() > 0 && spec_is_blank(s[0]) {
        spec_ltrim(s.skip(1))
    } else {
        s
    }
}

/// `s` without leading and trailing blanks.
pub open spec fn spec_trim(s: Seq<char>) -> Seq<char> {
    spec_rtrim(spec_ltrim(s))
}

/// The part of `t` between `from` and `to`, without leading and trailing
/// blanks.
pub fn trim_range(t: &Vec<char>, from: usize, to: usize) -> (r: Vec<char>)
    requires
        from <= to <= t@.len(),
    ensures
        r@ == spec_trim(t@.subrange(from as int, to as int)),
{
    let mut a: usize = from;
    while a < to && is_blank(t[a])
        invariant
            from <= a <= to <= t@.len(),
            spec_ltrim(t@.subrange(from as int, to as int)) == spec_ltrim(
                t@.subrange(a as int, to as int),
            ),
        decreases to - a,
    {
        proof {
            let cur = t@.subrange(a as int, to as int);
            assert(cur[0] == t@[a as int]);
            assert(cur.skip(1) =~= t@.subrange(a as int + 1, to as int));
        }
        a = a + 1;
    }
    let mut b: usize = to;
    while b > a && is_blank(t[b - 1])
        invariant
            from <= a <= b <= to <= t@.len(),
            spec_ltrim(t@.subrange(from as int, to as int)) == spec_ltrim(
                t@.subrange(a as int, to as int),
            ),
            spec_rtrim(spec_ltrim(t@.subrange(from as int, to as int))) == spec_rtrim(
                t@.subrange(a as int, b as int),
            ),
        decreases b,
    {
        proof {
            let cur = t@.subrange(a as int, b as int);
            assert(cur.last() == t@[b as int - 1]);
            assert(cur.drop_last() =~= t@.subrange(a as int, b as int - 1));
            assert(spec_rtrim(cur) == spec_rtrim(cur.drop_last()));
        }
        b = b - 1;
    }
    let mut out: Vec<char> = Vec::new();
    let mut i: usize = a;
    while i < b
        invariant
            a <= i <= b <= t@.len(),
            out@ =~= t@.subrange(a as int, i as int),
        decreases b - i,
    {
        out.push(t[i]);
        assert(out@ =~= t@.subrange(a as int, i as int + 1));
        i = i + 1;
    }
    proof {
        let lt = spec_ltrim(t@.subrange(from as int, to as int));
        let win = t@.subrange(a as int, b as int);
        assert(spec_rtrim(lt) == spec_rtrim(win));
        assert(win.len() == 0 || !spec_is_blank(win.last()));
        assert(spec_rtrim(win) == win);
        assert(out@ =~= win);
    }
    out
}

/// The i64 named by the decimal text `s`: an optional sign and digits,
/// rejecting anything else and anything outside the i64 range.
pub open spec fn spec_parse_i64(s: Seq<char>) -> Option<i64> {
    let signed = s.len() > 0 && (s[0] == '-' || s[0] == '+');
    let start: int = if signed {
        1
    } else {
        0
    };
    if s.len() <= start || !(forall|j: int| start <= j < s.len() ==> spec_is_digit(s[j])) {
        None
    } else {
        let v = spec_dec_val(s.subrange(start, s.len() as int));
        if s.len() > 0 && s[0] == '-' {
            if -v >= i64::MIN {
                Some((-v) as i64)
            } else {
                None
            }
        } else {
            if v <= i64::MAX {
                Some(v as i64)
            } else {
                None
            }
        }
    }
}

pub proof fn lemma_dec_val_step(s: Seq<char>, i: int)
    requires
        0 <= i < s.len(),
    ensures
        spec_dec_val(s.subrange(0, i + 1)) == spec_dec_val(s.subrange(0, i)) * 10
            + spec_digit_val(s[i]),
{
    assert(s.subrange(0, i + 1).drop_last() =~= s.subrange(0, i));
    assert(s.subrange(0, i + 1).last() == s[i]);
}


pub proof fn lemma_dec_val_lower(s: Seq<char>)
    requires
        s.len() >= 1,
        forall|i: int| 0 <= i < s.len() ==> spec_is_digit(s[i]),
        spec_digit_val(s[0]) >= 1,
    ensures
        spec_dec_val(s) >= spec_pow10((s.len() - 1) as nat),
    decreases s.len(),
{
    if s.len() == 1 {
        assert(s.drop_last() =~= Seq::<char>::empty());
        assert(s.last() == s[0]);
        assert(spec_dec_val(s) == spec_dec_val(s.drop_last()) * 10 + spec_digit_val(s.last()));
    } else {
        assert(s.drop_last()[0] == s[0]);
        assert(forall|i: int|
            0 <= i < s.drop_last().len() ==> spec_is_digit(#[trigger] s.drop_last()[i]));
        lemma_dec_val_lower(s.drop_last());
        assert(spec_digit_val(s.last()) >= 0);
        assert(spec_pow10((s.len() - 1) as nat) == 10 * spec_pow10((s.len() - 2) as nat));
    }
}


pub proof fn lemma_dec_val_strip_zero(s: Seq<char>)
    requires
        s.len() >= 1,
        spec_digit_val(s[0]) == 0,
    ensures
        spec_dec_val(s) == spec_dec_val(s.subrange(1, s.len() as int)),
    decreases s.len(),
{
    if s.len() == 1 {
        assert(s.subrange(1, 1) =~= Seq::<char>::empty());
        assert(spec_dec_val(s) == spec_dec_val(s.drop_last()) * 10 + spec_digit_val(s.last()));
        assert(s.drop_last() =~= s.subrange(0, 0));
        assert(spec_dec_val(s.subrange(0, 0)) == 0);
    } else {
        lemma_dec_val_strip_zero(s.drop_last());
        assert(s.drop_last()[0] == s[0]);
        assert(s.drop_last().subrange(1, s.len() - 1) =~= s.subrange(1, s.len() as int).drop_last());
        assert(s.subrange(1, s.len() as int).last() == s.last());
    }
}


pub proof fn lemma_pow10_mono(a: nat, b: nat)
    requires
        a <= b,
    ensures
        spec_pow10(a) <= spec_pow10(b),
        spec_pow10(a) >= 1,
    decreases b,
{
    if b > 0 {
        if a == b {
            lemma_pow10_mono((a - 1) as nat, (b - 1) as nat);
        } else {
            lemma_pow10_mono(a, (b - 1) as nat);
        }
    }
}


pub proof fn lemma_dec_val_bound_by_len(s: Seq<char>)
    requires
        forall|i: int| 0 <= i < s.len() ==> spec_is_digit(s[i]),
    ensures
        0 <= spec_dec_val(s) < spec_pow10(s.len() as nat),
    decreases s.len(),
{
    if s.len() == 0 {
    } else {
        lemma_dec_val_bound_by_len(s.drop_last());
        assert(0 <= spec_digit_val(s.last()) <= 9);
    }
}

/// The i64 named by the digit characters of `t`, by `spec_parse_i64`.
#[verifier::loop_isolation(false)]
pub fn parse_i64_chars(t: &Vec<char>) -> (r: Option<i64>)
    ensures
        r == spec_parse_i64(t@),
{
    let n: usize = t.len();
    let signed: bool = n > 0 && (t[0] == '-' || t[0] == '+');
    let start: usize = if signed {
        1
    } else {
        0
    };
    if n <= start {
        return None;
    }
    let mut i: usize = start;
    while i < n
        invariant
            start <= i <= n,
            forall|j: int| start <= j < i ==> spec_is_digit(t@[j]),
        decreases n - i,
    {
        if !is_digit(t[i]) {
            return None;
        }
        i = i + 1;
    }
    // skip leading zeros of the digit run
    let ghost digits = t@.subrange(start as int, n as int);
    let mut z: usize = start;
    while z < n && t[z] == '0'
        invariant
            start <= z <= n,
            forall|j: int| start <= j < n ==> spec_is_digit(t@[j]),
            spec_dec_val(t@.subrange(start as int, n as int)) == spec_dec_val(
                t@.subrange(z as int, n as int),
            ),
        decreases n - z,
    {
        proof {
            let cur = t@.subrange(z as int, n as int);
            assert(cur[0] == t@[z as int]);
            assert(spec_digit_val(cur[0]) == 0);
            lemma_dec_val_strip_zero(cur);
            assert(cur.subrange(1, cur.len() as int) =~= t@.subrange(z as int + 1, n as int));
        }
        z = z + 1;
    }
    proof {
        reveal_with_fuel(spec_pow10, 21);
        assert(spec_pow10(19) == 10000000000000000000int);
        assert(spec_pow10(20) == 100000000000000000000int);
    }
    if n - z > 19 {
        proof {
            let cur = t@.subrange(z as int, n as int);
            assert(spec_digit_val(cur[0]) >= 1) by {
                assert(cur[0] == t@[z as int]);
            }
            lemma_dec_val_lower(cur);
            lemma_pow10_mono(19, (cur.len() - 1) as nat);
        }
        return None;
    }
    let mut acc: u64 = 0;
    let mut i2: usize = z;
    proof {
        assert(t@.subrange(z as int, z as int) =~= Seq::<char>::empty());
    }
    while i2 < n
        invariant
            z <= i2 <= n,
            n - z <= 19,
            acc == spec_dec_val(t@.subrange(z as int, i2 as int)),
            acc < 10000000000000000000,
        decreases n - i2,
    {
        let d: u32 = digit_val(t[i2]);
        proof {
            lemma_dec_val_step(t@.subrange(z as int, n as int), i2 - z);
            assert(t@.subrange(z as int, n as int).subrange(0, i2 - z) =~= t@.subrange(
                z as int,
                i2 as int,
            ));
            assert(t@.subrange(z as int, n as int).subrange(0, i2 - z + 1) =~= t@.subrange(
                z as int,
                i2 as int + 1,
            ));
            assert(t@.subrange(z as int, n as int)[i2 - z] == t@[i2 as int]);
            let pref = t@.subrange(z as int, i2 as int + 1);
            assert(spec_dec_val(pref) < 10000000000000000000int) by {
                assert(forall|j: int| 0 <= j < pref.len() ==> spec_is_digit(#[trigger] pref[j]));
                lemma_dec_val_bound_by_len(pref);
                lemma_pow10_mono(pref.len() as nat, 19);
            }
        }
        acc = acc * 10 + d as u64;
        i2 = i2 + 1;
    }
    proof {
        assert(t@.subrange(z as int, i2 as int) =~= t@.subrange(z as int, n as int));
    }
    if n > 0 && t[0] == '-' {
        if acc > 9223372036854775808u64 {
            None
        } else if acc == 9223372036854775808u64 {
            Some(i64::MIN)
        } else {
            Some(-(acc as i64))
        }
    } else {
        if acc > 9223372036854775807u64 {
            None
        } else {
            Some(acc as i64)
        }
    }
}

/// Relies on String::push: it appends exactly the one character to the end
/// of the string.
#[verifier::external_body]
pub fn push_char(s: &mut String, c: char)
    ensures
        final(s)@ == old(s)@.push(c),
{
    s.push(c);
}

} // verus!
