//! The grammar of Bluesky `createdAt` timestamps, as the pattern
//! `(?P<year>\d{4})-(?P<month>\d{2})-(?P<day>\d{1,2})T(?P<hour>\d{2}):(?P<minute>\d{2}):(?P<second>\d{2})(?:\.(?P<microsecond>\d+))?(?:(?P<offset>[+-]\d+:\d+))?[Zz]?`
//! finds it: the leftmost match, with greedy quantifiers, where `\d` is any
//! Unicode decimal digit.

use vstd::prelude::*;

use crate::datetime::{civil_timestamp, lemma_civil_timestamp_in_range, timestamp_in_range, valid_ymd_hms};

verus! {

/// Unicode decimal digits (general category Nd, Unicode 16.0): the class `\d` of the pattern.
pub open spec fn is_decimal_digit(c: char) -> bool {
    let u = c as u32;
    (0x30 <= u && u <= 0x39)
        || (0x660 <= u && u <= 0x669)
        || (0x6F0 <= u && u <= 0x6F9)
        || (0x7C0 <= u && u <= 0x7C9)
        || (0x966 <= u && u <= 0x96F)
        || (0x9E6 <= u && u <= 0x9EF)
        || (0xA66 <= u && u <= 0xA6F)
        || (0xAE6 <= u && u <= 0xAEF)
        || (0xB66 <= u && u <= 0xB6F)
        || (0xBE6 <= u && u <= 0xBEF)
        || (0xC66 <= u && u <= 0xC6F)
        || (0xCE6 <= u && u <= 0xCEF)
        || (0xD66 <= u && u <= 0xD6F)
        || (0xDE6 <= u && u <= 0xDEF)
        || (0xE50 <= u && u <= 0xE59)
        || (0xED0 <= u && u <= 0xED9)
        || (0xF20 <= u && u <= 0xF29)
        || (0x1040 <= u && u <= 0x1049)
        || (0x1090 <= u && u <= 0x1099)
        || (0x17E0 <= u && u <= 0x17E9)
        || (0x1810 <= u && u <= 0x1819)
        || (0x1946 <= u && u <= 0x194F)
        || (0x19D0 <= u && u <= 0x19D9)
        || (0x1A80 <= u && u <= 0x1A89)
        || (0x1A90 <= u && u <= 0x1A99)
        || (0x1B50 <= u && u <= 0x1B59)
        || (0x1BB0 <= u && u <= 0x1BB9)
        || (0x1C40 <= u && u <= 0x1C49)
        || (0x1C50 <= u && u <= 0x1C59)
        || (0xA620 <= u && u <= 0xA629)
        || (0xA8D0 <= u && u <= 0xA8D9)
        || (0xA900 <= u && u <= 0xA909)
        || (0xA9D0 <= u && u <= 0xA9D9)
        || (0xA9F0 <= u && u <= 0xA9F9)
        || (0xAA50 <= u && u <= 0xAA59)
        || (0xABF0 <= u && u <= 0xABF9)
        || (0xFF10 <= u && u <= 0xFF19)
        || (0x104A0 <= u && u <= 0x104A9)
        || (0x10D30 <= u && u <= 0x10D39)
        || (0x10D40 <= u && u <= 0x10D49)
        || (0x11066 <= u && u <= 0x1106F)
        || (0x110F0 <= u && u <= 0x110F9)
        || (0x11136 <= u && u <= 0x1113F)
        || (0x111D0 <= u && u <= 0x111D9)
        || (0x112F0 <= u && u <= 0x112F9)
        || (0x11450 <= u && u <= 0x11459)
        || (0x114D0 <= u && u <= 0x114D9)
        || (0x11650 <= u && u <= 0x11659)
        || (0x116C0 <= u && u <= 0x116C9)
        || (0x116D0 <= u && u <= 0x116E3)
        || (0x11730 <= u && u <= 0x11739)
        || (0x118E0 <= u && u <= 0x118E9)
        || (0x11950 <= u && u <= 0x11959)
        || (0x11BF0 <= u && u <= 0x11BF9)
        || (0x11C50 <= u && u <= 0x11C59)
        || (0x11D50 <= u && u <= 0x11D59)
        || (0x11DA0 <= u && u <= 0x11DA9)
        || (0x11F50 <= u && u <= 0x11F59)
        || (0x16130 <= u && u <= 0x16139)
        || (0x16A60 <= u && u <= 0x16A69)
        || (0x16AC0 <= u && u <= 0x16AC9)
        || (0x16B50 <= u && u <= 0x16B59)
        || (0x16D70 <= u && u <= 0x16D79)
        || (0x1CCF0 <= u && u <= 0x1CCF9)
        || (0x1D7CE <= u && u <= 0x1D7FF)
        || (0x1E140 <= u && u <= 0x1E149)
        || (0x1E2F0 <= u && u <= 0x1E2F9)
        || (0x1E4F0 <= u && u <= 0x1E4F9)
        || (0x1E5F1 <= u && u <= 0x1E5FA)
        || (0x1E950 <= u && u <= 0x1E959)
        || (0x1FBF0 <= u && u <= 0x1FBF9)
}

/// Whether `c` is a decimal digit in the sense of `is_decimal_digit`.
pub fn decimal_digit(c: char) -> (r: bool)
    ensures
        r == is_decimal_digit(c),
{
    let u = c as u32;
    (0x30 <= u && u <= 0x39)
        || (0x660 <= u && u <= 0x669)
        || (0x6F0 <= u && u <= 0x6F9)
        || (0x7C0 <= u && u <= 0x7C9)
        || (0x966 <= u && u <= 0x96F)
        || (0x9E6 <= u && u <= 0x9EF)
        || (0xA66 <= u && u <= 0xA6F)
        || (0xAE6 <= u && u <= 0xAEF)
        || (0xB66 <= u && u <= 0xB6F)
        || (0xBE6 <= u && u <= 0xBEF)
        || (0xC66 <= u && u <= 0xC6F)
        || (0xCE6 <= u && u <= 0xCEF)
        || (0xD66 <= u && u <= 0xD6F)
        || (0xDE6 <= u && u <= 0xDEF)
        || (0xE50 <= u && u <= 0xE59)
        || (0xED0 <= u && u <= 0xED9)
        || (0xF20 <= u && u <= 0xF29)
        || (0x1040 <= u && u <= 0x1049)
        || (0x1090 <= u && u <= 0x1099)
        || (0x17E0 <= u && u <= 0x17E9)
        || (0x1810 <= u && u <= 0x1819)
        || (0x1946 <= u && u <= 0x194F)
        || (0x19D0 <= u && u <= 0x19D9)
        || (0x1A80 <= u && u <= 0x1A89)
        || (0x1A90 <= u && u <= 0x1A99)
        || (0x1B50 <= u && u <= 0x1B59)
        || (0x1BB0 <= u && u <= 0x1BB9)
        || (0x1C40 <= u && u <= 0x1C49)
        || (0x1C50 <= u && u <= 0x1C59)
        || (0xA620 <= u && u <= 0xA629)
        || (0xA8D0 <= u && u <= 0xA8D9)
        || (0xA900 <= u && u <= 0xA909)
        || (0xA9D0 <= u && u <= 0xA9D9)
        || (0xA9F0 <= u && u <= 0xA9F9)
        || (0xAA50 <= u && u <= 0xAA59)
        || (0xABF0 <= u && u <= 0xABF9)
        || (0xFF10 <= u && u <= 0xFF19)
        || (0x104A0 <= u && u <= 0x104A9)
        || (0x10D30 <= u && u <= 0x10D39)
        || (0x10D40 <= u && u <= 0x10D49)
        || (0x11066 <= u && u <= 0x1106F)
        || (0x110F0 <= u && u <= 0x110F9)
        || (0x11136 <= u && u <= 0x1113F)
        || (0x111D0 <= u && u <= 0x111D9)
        || (0x112F0 <= u && u <= 0x112F9)
        || (0x11450 <= u && u <= 0x11459)
        || (0x114D0 <= u && u <= 0x114D9)
        || (0x11650 <= u && u <= 0x11659)
        || (0x116C0 <= u && u <= 0x116C9)
        || (0x116D0 <= u && u <= 0x116E3)
        || (0x11730 <= u && u <= 0x11739)
        || (0x118E0 <= u && u <= 0x118E9)
        || (0x11950 <= u && u <= 0x11959)
        || (0x11BF0 <= u && u <= 0x11BF9)
        || (0x11C50 <= u && u <= 0x11C59)
        || (0x11D50 <= u && u <= 0x11D59)
        || (0x11DA0 <= u && u <= 0x11DA9)
        || (0x11F50 <= u && u <= 0x11F59)
        || (0x16130 <= u && u <= 0x16139)
        || (0x16A60 <= u && u <= 0x16A69)
        || (0x16AC0 <= u && u <= 0x16AC9)
        || (0x16B50 <= u && u <= 0x16B59)
        || (0x16D70 <= u && u <= 0x16D79)
        || (0x1CCF0 <= u && u <= 0x1CCF9)
        || (0x1D7CE <= u && u <= 0x1D7FF)
        || (0x1E140 <= u && u <= 0x1E149)
        || (0x1E2F0 <= u && u <= 0x1E2F9)
        || (0x1E4F0 <= u && u <= 0x1E4F9)
        || (0x1E5F1 <= u && u <= 0x1E5FA)
        || (0x1E950 <= u && u <= 0x1E959)
        || (0x1FBF0 <= u && u <= 0x1FBF9)
}

/// The ASCII digits `0` to `9`, the only digits integer parsing accepts.
pub open spec fn is_ascii_digit(c: char) -> bool {
    '0' <= c && c <= '9'
}

/// `s[i]` exists and is a decimal digit.
pub open spec fn digit_at(s: Seq<char>, i: int) -> bool {
    0 <= i < s.len() && is_decimal_digit(s[i])
}

/// `s[i]` exists and is `c`.
pub open spec fn char_at(s: Seq<char>, i: int, c: char) -> bool {
    0 <= i < s.len() && s[i] == c
}

/// The number of day digits of a match starting at `i`: two when a second digit follows
/// the first, one otherwise.
pub open spec fn day_len(s: Seq<char>, i: int) -> int {
    if digit_at(s, i + 9) { 2 } else { 1 }
}

/// The position of the `T` separator of a match starting at `i`.
pub open spec fn time_pos(s: Seq<char>, i: int) -> int {
    i + 8 + day_len(s, i)
}

/// The mandatory part `\d{4}-\d{2}-\d{1,2}T\d{2}:\d{2}:\d{2}` matches at `i`; everything
/// after it is optional, so the pattern matches at `i` exactly when this part does.
pub open spec fn head_matches_at(s: Seq<char>, i: int) -> bool {
    let t = time_pos(s, i);
    &&& 0 <= i
    &&& digit_at(s, i) && digit_at(s, i + 1) && digit_at(s, i + 2) && digit_at(s, i + 3)
    &&& char_at(s, i + 4, '-') && digit_at(s, i + 5) && digit_at(s, i + 6)
    &&& char_at(s, i + 7, '-') && digit_at(s, i + 8)
    &&& char_at(s, t, 'T') && digit_at(s, t + 1) && digit_at(s, t + 2)
    &&& char_at(s, t + 3, ':') && digit_at(s, t + 4) && digit_at(s, t + 5)
    &&& char_at(s, t + 6, ':') && digit_at(s, t + 7) && digit_at(s, t + 8)
}

/// The leftmost position at or after `i` where the pattern matches.
pub open spec fn first_match_from(s: Seq<char>, i: int) -> Option<int>
    decreases s.len() - i,
{
    if i < 0 || i >= s.len() {
        None
    } else if head_matches_at(s, i) {
        Some(i)
    } else {
        first_match_from(s, i + 1)
    }
}

/// The end of the run of decimal digits that starts at `j`.
pub open spec fn run_end(s: Seq<char>, j: int) -> int
    decreases s.len() - j,
{
    if j < 0 || j >= s.len() || !is_decimal_digit(s[j]) {
        j
    } else {
        run_end(s, j + 1)
    }
}

/// The end of the optional fraction `(?:\.\d+)?` that may start at `e`.
pub open spec fn fraction_end(s: Seq<char>, e: int) -> int {
    if char_at(s, e, '.') && digit_at(s, e + 1) {
        run_end(s, e + 1)
    } else {
        e
    }
}

/// The offset `[+-]\d+:\d+` that may start at `f`: its sign (`true` for `+`), its hour
/// digits and its minute digits.
pub open spec fn offset_at(s: Seq<char>, f: int) -> Option<(bool, Seq<char>, Seq<char>)> {
    if (char_at(s, f, '+') || char_at(s, f, '-')) && digit_at(s, f + 1) {
        let a = run_end(s, f + 1);
        if char_at(s, a, ':') && digit_at(s, a + 1) {
            let b = run_end(s, a + 1);
            Some((s[f] == '+', s.subrange(f + 1, a), s.subrange(a + 1, b)))
        } else {
            None
        }
    } else {
        None
    }
}

/// The groups of the leftmost match.
pub struct CreatedAtCaptures {
    pub year: Seq<char>,
    pub month: Seq<char>,
    pub day: Seq<char>,
    pub hour: Seq<char>,
    pub minute: Seq<char>,
    pub second: Seq<char>,
    pub offset: Option<(bool, Seq<char>, Seq<char>)>,
}

/// The groups of the match that starts at `i`.
pub open spec fn captures_at(s: Seq<char>, i: int) -> CreatedAtCaptures {
    let t = time_pos(s, i);
    CreatedAtCaptures {
        year: s.subrange(i, i + 4),
        month: s.subrange(i + 5, i + 7),
        day: s.subrange(i + 8, t),
        hour: s.subrange(t + 1, t + 3),
        minute: s.subrange(t + 4, t + 6),
        second: s.subrange(t + 7, t + 9),
        offset: offset_at(s, fraction_end(s, t + 9)),
    }
}

/// The groups of the leftmost match in `s`, if the pattern matches anywhere.
pub open spec fn created_at_captures(s: Seq<char>) -> Option<CreatedAtCaptures> {
    match first_match_from(s, 0) {
        Some(i) => Some(captures_at(s, i)),
        None => None,
    }
}

/// All characters of `s` are ASCII digits.
pub open spec fn all_ascii_digits(s: Seq<char>) -> bool {
    forall|k: int| 0 <= k < s.len() ==> is_ascii_digit(#[trigger] s[k])
}

/// The value of a string of ASCII digits read in base ten.
pub open spec fn decimal_value(s: Seq<char>) -> nat
    decreases s.len(),
{
    if s.len() == 0 {
        0
    } else {
        decimal_value(s.drop_last()) * 10 + ((s.last() as int) - ('0' as int)) as nat
    }
}

/// Why reading a timestamp fails.
#[derive(Clone, Copy, Debug, PartialEq, Eq, Structural)]
pub enum ReadFailure {
    /// The timestamp pattern matches nowhere in the text.
    NoMatch,
    /// A matched number holds a character that is not an ASCII digit.
    InvalidDigit,
    /// A matched number does not fit its integer type.
    NumberTooLarge,
}

/// `str::parse` of a run of digits into an integer type whose largest value is `max`,
/// reading from left to right: at the first character that is not an ASCII digit it
/// fails with `InvalidDigit`, and at the first digit that takes the value above `max`
/// it fails with `NumberTooLarge`.
#[verifier::opaque]
pub open spec fn read_digits(s: Seq<char>, max: int) -> Result<int, ReadFailure>
    decreases s.len(),
{
    if s.len() == 0 {
        Ok(0)
    } else {
        match read_digits(s.drop_last(), max) {
            Err(f) => Err(f),
            Ok(v) => if !is_ascii_digit(s.last()) {
                Err(ReadFailure::InvalidDigit)
            } else if v * 10 + ((s.last() as int) - ('0' as int)) > max {
                Err(ReadFailure::NumberTooLarge)
            } else {
                Ok(v * 10 + ((s.last() as int) - ('0' as int)))
            },
        }
    }
}

/// A run of ASCII digits whose value fits reads as that value.
pub proof fn lemma_read_digits_value(s: Seq<char>, max: int)
    requires
        all_ascii_digits(s),
        decimal_value(s) <= max,
    ensures
        read_digits(s, max) == Ok::<int, ReadFailure>(decimal_value(s) as int),
    decreases s.len(),
{
    reveal_with_fuel(read_digits, 1);
    if s.len() > 0 {
        assert(all_ascii_digits(s.drop_last())) by {
            assert forall|k: int| 0 <= k < s.drop_last().len() implies is_ascii_digit(#[trigger] s.drop_last()[k]) by {
                assert(s.drop_last()[k] == s[k]);
            }
        }
        assert(is_ascii_digit(s[s.len() - 1]));
        lemma_read_digits_value(s.drop_last(), max);
    }
}

/// Once a prefix fails to read, the whole run fails the same way.
proof fn lemma_read_digits_prefix_err(s: Seq<char>, j: int, max: int)
    requires
        0 <= j <= s.len(),
        read_digits(s.subrange(0, j), max) is Err,
    ensures
        read_digits(s, max) == read_digits(s.subrange(0, j), max),
    decreases s.len() - j,
{
    reveal_with_fuel(read_digits, 1);
    if j < s.len() {
        let p1 = s.subrange(0, j + 1);
        assert(p1.drop_last() =~= s.subrange(0, j));
        lemma_read_digits_prefix_err(s, j + 1, max);
    } else {
        assert(s.subrange(0, j) =~= s);
    }
}

/// Whether the pattern's mandatory part matches `v` at `i`.
pub fn head_matches(v: &Vec<char>, i: usize) -> (r: bool)
    ensures
        r == head_matches_at(v@, i as int),
{
    let n = v.len();
    if i >= n || n - i < 18 {
        return false;
    }
    if !(decimal_digit(v[i]) && decimal_digit(v[i + 1]) && decimal_digit(v[i + 2]) && decimal_digit(v[i + 3])) {
        return false;
    }
    if !(v[i + 4] == '-' && decimal_digit(v[i + 5]) && decimal_digit(v[i + 6])) {
        return false;
    }
    if !(v[i + 7] == '-' && decimal_digit(v[i + 8])) {
        return false;
    }
    let dl: usize = if decimal_digit(v[i + 9]) { 2 } else { 1 };
    let t = i + 8 + dl;
    assert(t == time_pos(v@, i as int));
    if t + 8 >= n {
        return false;
    }
    if !(v[t] == 'T' && decimal_digit(v[t + 1]) && decimal_digit(v[t + 2])) {
        return false;
    }
    if !(v[t + 3] == ':' && decimal_digit(v[t + 4]) && decimal_digit(v[t + 5])) {
        return false;
    }
    if !(v[t + 6] == ':' && decimal_digit(v[t + 7]) && decimal_digit(v[t + 8])) {
        return false;
    }
    true
}

/// The end of the run of decimal digits of `v` that starts at `j`.
pub fn digit_run_end(v: &Vec<char>, j: usize) -> (r: usize)
    requires
        j <= v.len(),
    ensures
        r == run_end(v@, j as int),
        j <= r <= v.len(),
        j < v.len() && is_decimal_digit(v@[j as int]) ==> j < r,
{
    let mut k = j;
    while k < v.len() && decimal_digit(v[k])
        invariant
            j <= k <= v.len(),
            run_end(v@, j as int) == run_end(v@, k as int),
        decreases v.len() - k,
    {
        k = k + 1;
    }
    k
}

/// The end of the optional fraction that may start at `e`.
pub fn fraction_end_at(v: &Vec<char>, e: usize) -> (r: usize)
    requires
        e <= v.len(),
    ensures
        r == fraction_end(v@, e as int),
        e <= r <= v.len(),
{
    if v.len() - e >= 2 && v[e] == '.' && decimal_digit(v[e + 1]) {
        digit_run_end(v, e + 1)
    } else {
        e
    }
}

/// Where the offset that may start at `f` lies: its sign (`true` for `+`), the end of its
/// hour digits and the end of its minute digits (the minutes start after the `:`).
pub fn find_offset(v: &Vec<char>, f: usize) -> (r: Option<(bool, usize, usize)>)
    requires
        f <= v.len(),
    ensures
        r is None <==> offset_at(v@, f as int) is None,
        r matches Some((plus, a, b)) ==> {
            &&& f + 1 < a
            &&& a + 1 < b <= v.len()
            &&& offset_at(v@, f as int) == Some((plus, v@.subrange(f + 1, a as int), v@.subrange(a + 1, b as int)))
        },
{
    if v.len() - f >= 2 && (v[f] == '+' || v[f] == '-') && decimal_digit(v[f + 1]) {
        let a = digit_run_end(v, f + 1);
        if v.len() - a >= 2 && v[a] == ':' && decimal_digit(v[a + 1]) {
            let b = digit_run_end(v, a + 1);
            Some((v[f] == '+', a, b))
        } else {
            None
        }
    } else {
        None
    }
}

/// `str::parse` of the digits `v[from..to]` into an integer type whose largest value is `max`.
pub fn parse_digit_range(v: &Vec<char>, from: usize, to: usize, max: u64) -> (r: Result<u64, ReadFailure>)
    requires
        from <= to <= v.len(),
        max >= 9,
    ensures
        match read_digits(v@.subrange(from as int, to as int), max as int) {
            Ok(x) => r == Ok::<u64, ReadFailure>(x as u64) && x <= max,
            Err(f) => r == Err::<u64, ReadFailure>(f),
        },
        r matches Ok(x) ==> read_digits(v@.subrange(from as int, to as int), max as int) == Ok::<int, ReadFailure>(x as int),
{
    let ghost sub = v@.subrange(from as int, to as int);
    let mut acc: u64 = 0;
    let mut k: usize = from;
    assert(sub.subrange(0, 0) =~= Seq::<char>::empty());
    proof {
        reveal_with_fuel(read_digits, 1);
    }
    while k < to
        invariant
            from <= k <= to <= v.len(),
            max >= 9,
            sub == v@.subrange(from as int, to as int),
            read_digits(sub.subrange(0, k - from), max as int) == Ok::<int, ReadFailure>(acc as int),
            acc <= max,
        decreases to - k,
    {
        let c = v[k];
        let ghost p = sub.subrange(0, k - from);
        let ghost p1 = sub.subrange(0, k + 1 - from);
        assert(p1.drop_last() =~= p);
        proof {
            reveal_with_fuel(read_digits, 1);
        }
        assert(p1.last() == c);
        if !('0' <= c && c <= '9') {
            proof {
                lemma_read_digits_prefix_err(sub, k + 1 - from, max as int);
            }
            return Err(ReadFailure::InvalidDigit);
        }
        let d = (c as u32 - '0' as u32) as u64;
        assert(d == (c as int) - ('0' as int));
        assert(d <= 9);
        if acc > (max - d) / 10 {
            assert(acc * 10 + d > max) by (nonlinear_arith)
                requires
                    acc > (max - d) / 10,
                    d <= 9,
                    max >= 9,
            ;
            proof {
                lemma_read_digits_prefix_err(sub, k + 1 - from, max as int);
            }
            return Err(ReadFailure::NumberTooLarge);
        }
        assert(acc * 10 + d <= max) by (nonlinear_arith)
            requires
                acc <= (max - d) / 10,
                d <= 9,
                max >= 9,
        ;
        acc = acc * 10 + d;
        k = k + 1;
    }
    assert(sub.subrange(0, to - from) =~= sub);
    Ok(acc)
}

/// Why a timestamp could not be read: the text itself when the pattern matches nowhere,
/// or why a matched number does not parse.
#[derive(Clone, Debug, PartialEq, Eq)]
pub enum CreatedAtError {
    /// The timestamp pattern matches nowhere in this text.
    NoMatch(String),
    /// A matched number holds a character that is not an ASCII digit.
    InvalidDigit,
    /// A matched number does not fit its integer type.
    NumberTooLarge,
}

/// `e` is the error for the failure `f` in reading `text`.
pub open spec fn error_for(e: CreatedAtError, f: ReadFailure, text: Seq<char>) -> bool {
    match e {
        CreatedAtError::NoMatch(t) => f == ReadFailure::NoMatch && t@ == text,
        CreatedAtError::InvalidDigit => f == ReadFailure::InvalidDigit,
        CreatedAtError::NumberTooLarge => f == ReadFailure::NumberTooLarge,
    }
}

/// The message of an error: `Could not parse time: ` and the text, or the message of
/// the integer parse error.
pub open spec fn error_message(e: CreatedAtError) -> Seq<char> {
    match e {
        CreatedAtError::NoMatch(t) => "Could not parse time: "@ + t@,
        CreatedAtError::InvalidDigit => "invalid digit found in string"@,
        CreatedAtError::NumberTooLarge => "number too large to fit in target type"@,
    }
}

impl CreatedAtError {
    /// The error for the failure `f` in reading `text`.
    pub fn from_failure(f: ReadFailure, text: &str) -> (e: CreatedAtError)
        ensures
            error_for(e, f, text@),
    {
        match f {
            ReadFailure::NoMatch => CreatedAtError::NoMatch(String::from_str(text)),
            ReadFailure::InvalidDigit => CreatedAtError::InvalidDigit,
            ReadFailure::NumberTooLarge => CreatedAtError::NumberTooLarge,
        }
    }

    /// The message of the error.
    pub fn to_string(&self) -> (r: String)
        ensures
            r@ == error_message(*self),
    {
        match self {
            CreatedAtError::NoMatch(t) => {
                let mut m = String::from_str("Could not parse time: ");
                m.append(t.as_str());
                m
            },
            CreatedAtError::InvalidDigit => String::from_str("invalid digit found in string"),
            CreatedAtError::NumberTooLarge => String::from_str("number too large to fit in target type"),
        }
    }
}

/// The six date and time fields of a match, parsed in order (the year as an `i32`, the
/// others as `u32`); the first field that fails decides the failure.
pub open spec fn date_fields(c: CreatedAtCaptures) -> Result<(int, int, int, int, int, int), ReadFailure> {
    match read_digits(c.year, i32::MAX as int) {
        Err(f) => Err(f),
        Ok(y) => match read_digits(c.month, u32::MAX as int) {
            Err(f) => Err(f),
            Ok(mo) => match read_digits(c.day, u32::MAX as int) {
                Err(f) => Err(f),
                Ok(d) => match read_digits(c.hour, u32::MAX as int) {
                    Err(f) => Err(f),
                    Ok(h) => match read_digits(c.minute, u32::MAX as int) {
                        Err(f) => Err(f),
                        Ok(mi) => match read_digits(c.second, u32::MAX as int) {
                            Err(f) => Err(f),
                            Ok(se) => Ok((y, mo, d, h, mi, se)),
                        },
                    },
                },
            },
        },
    }
}

/// The seconds to add to the wall-clock time to reach UTC: none without an offset,
/// minus the offset for `+hh:mm`, plus it for `-hh:mm`; the failure of the first offset
/// number (hours, then minutes) that does not parse as an `i64`.
pub open spec fn offset_value(off: Option<(bool, Seq<char>, Seq<char>)>) -> Result<int, ReadFailure> {
    match off {
        None => Ok(0),
        Some((plus, hs, ms)) => match read_digits(hs, i64::MAX as int) {
            Err(f) => Err(f),
            Ok(h) => match read_digits(ms, i64::MAX as int) {
                Err(f) => Err(f),
                Ok(m) => Ok(if plus { -(h * 3600 + m * 60) } else { h * 3600 + m * 60 }),
            },
        },
    }
}

/// The UTC timestamp (in whole seconds) that a `createdAt` text denotes, or why it denotes none.
pub open spec fn spec_parse_created_at(s: Seq<char>) -> Result<int, ReadFailure> {
    match created_at_captures(s) {
        None => Err(ReadFailure::NoMatch),
        Some(c) => match date_fields(c) {
            Err(f) => Err(f),
            Ok((y, mo, d, h, mi, se)) => match offset_value(c.offset) {
                Err(f) => Err(f),
                Ok(x) => Ok(civil_timestamp(y, mo, d, h, mi, se) + x),
            },
        },
    }
}

/// The largest number of seconds a chrono `TimeDelta` holds: `i64::MAX` milliseconds.
pub open spec fn max_delta_seconds() -> int {
    9223372036854775
}

/// The texts on which reading the timestamp runs to an end: the matched date exists, and
/// the offset neither overflows nor moves the time out of chrono's range. (On the other
/// texts the reading panics.)
pub open spec fn created_at_defined(s: Seq<char>) -> bool {
    match created_at_captures(s) {
        None => true,
        Some(c) => match date_fields(c) {
            Err(_) => true,
            Ok((y, mo, d, h, mi, se)) => {
                &&& valid_ymd_hms(y, mo, d, h, mi, se)
                &&& match offset_value(c.offset) {
                    Err(_) => true,
                    Ok(x) => -max_delta_seconds() <= x <= max_delta_seconds()
                        && timestamp_in_range(civil_timestamp(y, mo, d, h, mi, se) + x),
                }
            },
        },
    }
}

/// The ASCII digit for a number from 0 to 9.
pub open spec fn digit_char(n: int) -> char {
    (n + 48) as char
}

/// A number below 100 written with two digits.
pub open spec fn two_digits(n: int) -> Seq<char> {
    seq![digit_char(n / 10), digit_char(n % 10)]
}

/// A number below 10000 written with four digits.
pub open spec fn four_digits(n: int) -> Seq<char> {
    seq![digit_char(n / 1000), digit_char((n / 100) % 10), digit_char((n / 10) % 10), digit_char(n % 10)]
}

/// `YYYY-MM-DDTHH:MM:SS`, a date and a time of day.
pub open spec fn iso_date_time_text(y: int, mo: int, d: int, h: int, mi: int, se: int) -> Seq<char> {
    four_digits(y) + seq!['-'] + two_digits(mo) + seq!['-'] + two_digits(d) + seq!['T'] + two_digits(h)
        + seq![':'] + two_digits(mi) + seq![':'] + two_digits(se)
}

/// The optional fraction of a second: nothing, or `.` followed by its digits.
pub open spec fn fraction_text(frac: Seq<char>) -> Seq<char> {
    if frac.len() == 0 {
        Seq::empty()
    } else {
        seq!['.'] + frac
    }
}

/// An offset from UTC, written `+HH:MM` or `-HH:MM`.
pub open spec fn offset_text(plus: bool, oh: int, om: int) -> Seq<char> {
    seq![if plus { '+' } else { '-' }] + two_digits(oh) + seq![':'] + two_digits(om)
}

/// The seconds by which a local time with offset `+HH:MM` is ahead of UTC (behind it for `-`).
pub open spec fn offset_seconds(plus: bool, oh: int, om: int) -> int {
    if plus {
        oh * 3600 + om * 60
    } else {
        -(oh * 3600 + om * 60)
    }
}

/// What may follow the seconds (and their fraction) of a timestamp.
pub enum TimeTail {
    /// Nothing.
    Bare,
    /// `Z`, for UTC.
    Zulu,
    /// An offset `+HH:MM` (`true`) or `-HH:MM` (`false`), with its hours and minutes.
    Offset(bool, int, int),
}

/// The text of a tail.
pub open spec fn tail_text(t: TimeTail) -> Seq<char> {
    match t {
        TimeTail::Bare => Seq::empty(),
        TimeTail::Zulu => seq!['Z'],
        TimeTail::Offset(plus, oh, om) => offset_text(plus, oh, om),
    }
}

/// The seconds by which the written time is ahead of UTC.
pub open spec fn tail_seconds(t: TimeTail) -> int {
    match t {
        TimeTail::Offset(plus, oh, om) => offset_seconds(plus, oh, om),
        _ => 0,
    }
}

/// The offset of a tail is written with two digits for its hours and two for its minutes.
pub open spec fn tail_two_digit(t: TimeTail) -> bool {
    match t {
        TimeTail::Offset(_, oh, om) => 0 <= oh < 100 && 0 <= om < 100,
        _ => true,
    }
}

/// `YYYY-MM-DDTHH:MM:SS[.fraction][Z|+HH:MM|-HH:MM]`, after leading digits `lead` that
/// widen the year (the pattern takes the last four digits before the `-` as the year).
pub open spec fn timestamp_text(
    lead: Seq<char>,
    y: int,
    mo: int,
    d: int,
    h: int,
    mi: int,
    se: int,
    frac: Seq<char>,
    tail: TimeTail,
) -> Seq<char> {
    lead + iso_date_time_text(y, mo, d, h, mi, se) + fraction_text(frac) + tail_text(tail)
}

proof fn lemma_digit_char(n: int)
    requires
        0 <= n <= 9,
    ensures
        is_ascii_digit(digit_char(n)),
        is_decimal_digit(digit_char(n)),
        (digit_char(n) as int) - ('0' as int) == n,
{
}

proof fn lemma_two_digits_value(n: int)
    requires
        0 <= n < 100,
    ensures
        all_ascii_digits(two_digits(n)),
        decimal_value(two_digits(n)) == n,
{
    let s = two_digits(n);
    lemma_digit_char(n / 10);
    lemma_digit_char(n % 10);
    let s1 = s.drop_last();
    assert(s1.drop_last() =~= Seq::<char>::empty());
    assert(s1 =~= seq![digit_char(n / 10)]);
    assert(decimal_value(s1.drop_last()) == 0);
    assert(decimal_value(s1) == n / 10);
    assert(decimal_value(s) == (n / 10) * 10 + n % 10);
}

proof fn lemma_four_digits_value(n: int)
    requires
        0 <= n < 10000,
    ensures
        all_ascii_digits(four_digits(n)),
        decimal_value(four_digits(n)) == n,
{
    let s = four_digits(n);
    lemma_digit_char(n / 1000);
    lemma_digit_char((n / 100) % 10);
    lemma_digit_char((n / 10) % 10);
    lemma_digit_char(n % 10);
    let s3 = s.drop_last();
    let s2 = s3.drop_last();
    let s1 = s2.drop_last();
    assert(s1.drop_last() =~= Seq::<char>::empty());
    assert(s1 =~= seq![digit_char(n / 1000)]);
    assert(s2 =~= seq![digit_char(n / 1000), digit_char((n / 100) % 10)]);
    assert(s3 =~= seq![digit_char(n / 1000), digit_char((n / 100) % 10), digit_char((n / 10) % 10)]);
    assert(decimal_value(s1.drop_last()) == 0);
    assert(decimal_value(s1) == n / 1000);
    assert(decimal_value(s2) == (n / 1000) * 10 + (n / 100) % 10);
    assert((n / 1000) * 10 + (n / 100) % 10 == n / 100);
    assert(decimal_value(s3) == (n / 100) * 10 + (n / 10) % 10);
    assert((n / 100) * 10 + (n / 10) % 10 == n / 10);
    assert(decimal_value(s) == (n / 10) * 10 + n % 10);
}

/// An ASCII digit is a decimal digit of the pattern.
proof fn lemma_ascii_digit_is_decimal(c: char)
    requires
        is_ascii_digit(c),
    ensures
        is_decimal_digit(c),
{
}

/// A run of decimal digits from `j` that stops at `k` ends at `k`.
proof fn lemma_run_end_of_digits(s: Seq<char>, j: int, k: int)
    requires
        0 <= j <= k <= s.len(),
        forall|p: int| j <= p < k ==> is_decimal_digit(#[trigger] s[p]),
        k == s.len() || !is_decimal_digit(s[k]),
    ensures
        run_end(s, j) == k,
    decreases k - j,
{
    if j < k {
        lemma_run_end_of_digits(s, j + 1, k);
    }
}

/// The first match from `i` on is at `p` when the pattern matches there and nowhere between.
proof fn lemma_first_match_at(s: Seq<char>, i: int, p: int)
    requires
        0 <= i <= p < s.len(),
        head_matches_at(s, p),
        forall|j: int| i <= j < p ==> !head_matches_at(s, j),
    ensures
        first_match_from(s, i) == Some(p),
    decreases p - i,
{
    if i < p {
        lemma_first_match_at(s, i + 1, p);
    }
}

/// A text made of ASCII digits `lead`, then `YYYY-MM-DDTHH:MM:SS`, then anything, matches
/// the pattern first right after `lead`, and its six date and time groups read as the
/// numbers written.
proof fn lemma_date_time_prefix(lead: Seq<char>, y: int, mo: int, d: int, h: int, mi: int, se: int, rest: Seq<char>)
    requires
        all_ascii_digits(lead),
        0 <= y < 10000,
        valid_ymd_hms(y, mo, d, h, mi, se),
    ensures
        ({
            let s = lead + iso_date_time_text(y, mo, d, h, mi, se) + rest;
            let l = lead.len() as int;
            &&& first_match_from(s, 0) == Some(l)
            &&& time_pos(s, l) == l + 10
            &&& date_fields(captures_at(s, l)) == Ok::<(int, int, int, int, int, int), ReadFailure>((y, mo, d, h, mi, se))
        }),
{
    let base = iso_date_time_text(y, mo, d, h, mi, se);
    let s = lead + base + rest;
    let l = lead.len() as int;
    let yy = four_digits(y);
    let mm = two_digits(mo);
    let dd = two_digits(d);
    let hh = two_digits(h);
    let nn = two_digits(mi);
    let ss = two_digits(se);
    lemma_four_digits_value(y);
    lemma_two_digits_value(mo);
    lemma_two_digits_value(d);
    lemma_two_digits_value(h);
    lemma_two_digits_value(mi);
    lemma_two_digits_value(se);
    lemma_digit_char(y / 1000);
    lemma_digit_char((y / 100) % 10);
    lemma_digit_char((y / 10) % 10);
    lemma_digit_char(y % 10);
    lemma_digit_char(mo / 10);
    lemma_digit_char(mo % 10);
    lemma_digit_char(d / 10);
    lemma_digit_char(d % 10);
    lemma_digit_char(h / 10);
    lemma_digit_char(h % 10);
    lemma_digit_char(mi / 10);
    lemma_digit_char(mi % 10);
    lemma_digit_char(se / 10);
    lemma_digit_char(se % 10);
    assert(base =~= seq![
        yy[0], yy[1], yy[2], yy[3], '-', mm[0], mm[1], '-', dd[0], dd[1], 'T', hh[0], hh[1], ':',
        nn[0], nn[1], ':', ss[0], ss[1],
    ]);
    assert forall|k: int| 0 <= k < 19 implies s[l + k] == base[k] by {}
    assert forall|k: int| 0 <= k < l implies s[k] == lead[k] by {}
    assert forall|j: int| 0 <= j < l implies !head_matches_at(s, j) by {
        if j + 4 < l {
            assert(is_ascii_digit(lead[j + 4]));
        } else {
            assert(s[j + 4] == base[j + 4 - l]);
        }
    }
    assert(day_len(s, l) == 2);
    assert(time_pos(s, l) == l + 10);
    assert(head_matches_at(s, l));
    lemma_first_match_at(s, 0, l);
    assert(s.subrange(l, l + 4) =~= yy);
    assert(s.subrange(l + 5, l + 7) =~= mm);
    assert(s.subrange(l + 8, l + 10) =~= dd);
    assert(s.subrange(l + 11, l + 13) =~= hh);
    assert(s.subrange(l + 14, l + 16) =~= nn);
    assert(s.subrange(l + 17, l + 19) =~= ss);
    lemma_read_digits_value(yy, i32::MAX as int);
    lemma_read_digits_value(mm, u32::MAX as int);
    lemma_read_digits_value(dd, u32::MAX as int);
    lemma_read_digits_value(hh, u32::MAX as int);
    lemma_read_digits_value(nn, u32::MAX as int);
    lemma_read_digits_value(ss, u32::MAX as int);
}

/// A fraction written right after `prefix`, and followed by no decimal digit, ends where
/// its digits end.
proof fn lemma_fraction_then(prefix: Seq<char>, frac: Seq<char>, rest: Seq<char>)
    requires
        all_ascii_digits(frac),
        rest.len() == 0 || (!is_decimal_digit(rest[0]) && rest[0] != '.'),
    ensures
        fraction_end(prefix + fraction_text(frac) + rest, prefix.len() as int) == prefix.len()
            + fraction_text(frac).len(),
{
    let s = prefix + fraction_text(frac) + rest;
    let e = prefix.len() as int;
    let f = e + fraction_text(frac).len();
    if frac.len() == 0 {
        assert(fraction_text(frac).len() == 0);
        if rest.len() > 0 {
            assert(s[e] == rest[0]);
        }
    } else {
        assert(s[e] == '.');
        assert forall|p: int| e + 1 <= p < f implies is_decimal_digit(#[trigger] s[p]) by {
            assert(s[p] == frac[p - e - 1]);
            lemma_ascii_digit_is_decimal(frac[p - e - 1]);
        }
        assert(s[e + 1] == frac[0]);
        lemma_ascii_digit_is_decimal(frac[0]);
        if rest.len() > 0 {
            assert(s[f] == rest[0]);
        }
        lemma_run_end_of_digits(s, e + 1, f);
    }
}

/// An offset written right after `prefix` is found there, and it moves the time back by
/// the seconds it is ahead of UTC.
proof fn lemma_offset_suffix(prefix: Seq<char>, plus: bool, oh: int, om: int)
    requires
        0 <= oh < 100,
        0 <= om < 100,
    ensures
        ({
            let s = prefix + offset_text(plus, oh, om);
            let f = prefix.len() as int;
            &&& offset_at(s, f) == Some((plus, two_digits(oh), two_digits(om)))
            &&& offset_value(offset_at(s, f)) == Ok::<int, ReadFailure>(-offset_seconds(plus, oh, om))
        }),
{
    let ot = offset_text(plus, oh, om);
    let s = prefix + ot;
    let f = prefix.len() as int;
    let oo = two_digits(oh);
    let pp = two_digits(om);
    lemma_two_digits_value(oh);
    lemma_two_digits_value(om);
    lemma_digit_char(oh / 10);
    lemma_digit_char(oh % 10);
    lemma_digit_char(om / 10);
    lemma_digit_char(om % 10);
    let sign = if plus { '+' } else { '-' };
    assert(ot =~= seq![sign, oo[0], oo[1], ':', pp[0], pp[1]]);
    assert forall|k: int| 0 <= k < 6 implies s[f + k] == ot[k] by {}
    assert(s.len() == f + 6);
    lemma_run_end_of_digits(s, f + 1, f + 3);
    lemma_run_end_of_digits(s, f + 4, f + 6);
    assert(s.subrange(f + 1, f + 3) =~= oo);
    assert(s.subrange(f + 4, f + 6) =~= pp);
    lemma_read_digits_value(oo, i64::MAX as int);
    lemma_read_digits_value(pp, i64::MAX as int);
}

/// A tail written right after `prefix` starts with no decimal digit, and the offset found
/// there moves the time back by the seconds the tail is ahead of UTC.
proof fn lemma_tail_after(prefix: Seq<char>, tail: TimeTail)
    requires
        tail_two_digit(tail),
    ensures
        tail_text(tail).len() == 0 || (!is_decimal_digit(tail_text(tail)[0]) && tail_text(tail)[0] != '.'),
        offset_value(offset_at(prefix + tail_text(tail), prefix.len() as int)) == Ok::<int, ReadFailure>(
            -tail_seconds(tail),
        ),
{
    let s = prefix + tail_text(tail);
    let f = prefix.len() as int;
    match tail {
        TimeTail::Bare => {
            assert(s =~= prefix);
        },
        TimeTail::Zulu => {
            assert(s[f] == 'Z');
            assert(!is_decimal_digit('Z'));
        },
        TimeTail::Offset(plus, oh, om) => {
            lemma_offset_suffix(prefix, plus, oh, om);
            let c = if plus { '+' } else { '-' };
            assert(tail_text(tail)[0] == c);
            assert(!is_decimal_digit('+'));
            assert(!is_decimal_digit('-'));
        },
    }
}

/// A timestamp written as `YYYY-MM-DDTHH:MM:SS`, with or without a fraction of a second,
/// and with nothing, `Z` or an offset after it, reads as the UTC instant it names: the
/// fraction is dropped and the offset is taken off the written time. Leading digits only
/// widen the year: the pattern reads its last four. This holds wherever that instant lies
/// in the supported range (outside it, reading panics).
#[verifier::rlimit(30)]
pub proof fn lemma_reads_timestamp_text(
    lead: Seq<char>,
    y: int,
    mo: int,
    d: int,
    h: int,
    mi: int,
    se: int,
    frac: Seq<char>,
    tail: TimeTail,
)
    requires
        all_ascii_digits(lead),
        0 <= y < 10000,
        valid_ymd_hms(y, mo, d, h, mi, se),
        all_ascii_digits(frac),
        tail_two_digit(tail),
        timestamp_in_range(civil_timestamp(y, mo, d, h, mi, se) - tail_seconds(tail)),
    ensures
        created_at_defined(timestamp_text(lead, y, mo, d, h, mi, se, frac, tail)),
        spec_parse_created_at(timestamp_text(lead, y, mo, d, h, mi, se, frac, tail)) == Ok::<int, ReadFailure>(
            civil_timestamp(y, mo, d, h, mi, se) - tail_seconds(tail),
        ),
{
    let base = iso_date_time_text(y, mo, d, h, mi, se);
    let ft = fraction_text(frac);
    let tt = tail_text(tail);
    let s = timestamp_text(lead, y, mo, d, h, mi, se, frac, tail);
    let l = lead.len() as int;
    assert(base.len() == 19);
    assert(s =~= lead + base + (ft + tt));
    lemma_date_time_prefix(lead, y, mo, d, h, mi, se, ft + tt);
    lemma_tail_after(lead + base + ft, tail);
    assert(s =~= (lead + base) + ft + tt);
    lemma_fraction_then(lead + base, frac, tt);
    assert(s =~= (lead + base + ft) + tt);
    let f: int = l + 19 + ft.len() as int;
    assert(fraction_end(s, l + 19) == f);
    let c = captures_at(s, l);
    assert(c.offset == offset_at(s, f));
    assert(created_at_captures(s) == Some(c));
    assert(offset_value(c.offset) == Ok::<int, ReadFailure>(-tail_seconds(tail)));
}

/// A fraction of a second changes nothing: a timestamp reads the same with and without it.
pub proof fn lemma_fraction_dropped(
    lead: Seq<char>,
    y: int,
    mo: int,
    d: int,
    h: int,
    mi: int,
    se: int,
    frac: Seq<char>,
    tail: TimeTail,
)
    requires
        all_ascii_digits(lead),
        0 <= y < 10000,
        valid_ymd_hms(y, mo, d, h, mi, se),
        all_ascii_digits(frac),
        tail_two_digit(tail),
        timestamp_in_range(civil_timestamp(y, mo, d, h, mi, se) - tail_seconds(tail)),
    ensures
        spec_parse_created_at(timestamp_text(lead, y, mo, d, h, mi, se, frac, tail)) == spec_parse_created_at(
            timestamp_text(lead, y, mo, d, h, mi, se, Seq::empty(), tail),
        ),
{
    lemma_reads_timestamp_text(lead, y, mo, d, h, mi, se, frac, tail);
    lemma_reads_timestamp_text(lead, y, mo, d, h, mi, se, Seq::empty(), tail);
}

/// An offset is taken off the time written before it: where the date and time alone read
/// as `t`, with `+HH:MM` after them they read as `t` minus `HH:MM` (plus it for `-`).
pub proof fn lemma_offset_taken_off(
    lead: Seq<char>,
    y: int,
    mo: int,
    d: int,
    h: int,
    mi: int,
    se: int,
    frac: Seq<char>,
    plus: bool,
    oh: int,
    om: int,
)
    requires
        all_ascii_digits(lead),
        0 <= y < 10000,
        valid_ymd_hms(y, mo, d, h, mi, se),
        all_ascii_digits(frac),
        0 <= oh < 100,
        0 <= om < 100,
        timestamp_in_range(civil_timestamp(y, mo, d, h, mi, se) - offset_seconds(plus, oh, om)),
    ensures
        ({
            let t = spec_parse_created_at(timestamp_text(lead, y, mo, d, h, mi, se, frac, TimeTail::Bare));
            &&& t is Ok
            &&& spec_parse_created_at(timestamp_text(lead, y, mo, d, h, mi, se, frac, TimeTail::Offset(plus, oh, om)))
                == Ok::<int, ReadFailure>(t->Ok_0 - offset_seconds(plus, oh, om))
        }),
{
    lemma_civil_timestamp_in_range(y, mo, d, h, mi, se);
    lemma_reads_timestamp_text(lead, y, mo, d, h, mi, se, frac, TimeTail::Bare);
    lemma_reads_timestamp_text(lead, y, mo, d, h, mi, se, frac, TimeTail::Offset(plus, oh, om));
}

} // verus!
