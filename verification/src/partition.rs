//! The textual encoding of partition values, and its decoding into scalars.
//!
//! A partition value is recorded in the log as text: the empty text (or no
//! text at all) for null, the text itself for a string, an optionally signed
//! decimal numeral for the integer types, `true` or `false` in any case for a
//! boolean, `YYYY-MM-DD` for a date, and `YYYY-MM-DD HH:MM:SS` for a
//! timestamp, which may go on with `.` and up to six digits of the fraction
//! of the second.

use crate::error::{result_view, DeltaResult, Error};
use crate::expressions::{Scalar, ScalarView};
use crate::schema::{DataType, DataTypeView, PrimitiveType};
use vstd::prelude::*;
use vstd::string::*;
use vstd::utf8::is_ascii_chars;

verus! {

pub open spec fn is_digit(c: char) -> bool {
    '0' <= c <= '9'
}

/// The value of a decimal digit; zero for any other character.
pub open spec fn digit_value(c: char) -> int {
    if is_digit(c) {
        c as int - '0' as int
    } else {
        0
    }
}

pub open spec fn all_digits(s: Seq<char>) -> bool {
    forall|i: int| 0 <= i < s.len() ==> is_digit(#[trigger] s[i])
}

/// The number that a sequence of decimal digits denotes, most significant
/// digit first.
pub open spec fn digits_value(s: Seq<char>) -> int
    decreases s.len(),
{
    if s.len() == 0 {
        0
    } else {
        digits_value(s.drop_last()) * 10 + digit_value(s.last())
    }
}

/// The integer that a numeral denotes: an optional `+` or `-`, then one or
/// more decimal digits. `None` for any other text.
pub open spec fn parse_int_spec(s: Seq<char>) -> Option<int> {
    if s.len() > 0 && (s[0] == '-' || s[0] == '+') {
        let d = s.subrange(1, s.len() as int);
        if d.len() > 0 && all_digits(d) {
            Some(
                if s[0] == '-' {
                    -digits_value(d)
                } else {
                    digits_value(d)
                },
            )
        } else {
            None
        }
    } else if s.len() > 0 && all_digits(s) {
        Some(digits_value(s))
    } else {
        None
    }
}

/// The integer that a numeral denotes, if it lies between `lo` and `hi`.
pub open spec fn parse_int_in_spec(s: Seq<char>, lo: int, hi: int) -> Option<int> {
    match parse_int_spec(s) {
        Some(v) => if lo <= v <= hi {
            Some(v)
        } else {
            None
        },
        None => None,
    }
}

pub open spec fn ascii_lower(c: char) -> char {
    if 'A' <= c <= 'Z' {
        ((c as int) + 32) as char
    } else {
        c
    }
}

/// Whether `s` is `word` up to the case of ASCII letters.
pub open spec fn eq_ignore_ascii_case(s: Seq<char>, word: Seq<char>) -> bool {
    &&& s.len() == word.len()
    &&& forall|i: int| 0 <= i < s.len() ==> ascii_lower(#[trigger] s[i]) == ascii_lower(word[i])
}

pub open spec fn parse_bool_spec(s: Seq<char>) -> Option<bool> {
    if eq_ignore_ascii_case(s, seq!['t', 'r', 'u', 'e']) {
        Some(true)
    } else if eq_ignore_ascii_case(s, seq!['f', 'a', 'l', 's', 'e']) {
        Some(false)
    } else {
        None
    }
}

pub open spec fn is_leap_year(y: int) -> bool {
    y % 4 == 0 && (y % 100 != 0 || y % 400 == 0)
}

pub open spec fn days_in_month(y: int, m: int) -> int {
    if m == 2 {
        if is_leap_year(y) {
            29
        } else {
            28
        }
    } else if m == 4 || m == 6 || m == 9 || m == 11 {
        30
    } else {
        31
    }
}

/// The number of days of year `y` that precede the first day of month `m`.
pub open spec fn days_before_month(y: int, m: int) -> int
    decreases m,
{
    if m <= 1 {
        0
    } else {
        days_before_month(y, m - 1) + days_in_month(y, m - 1)
    }
}

/// The number of days from the first day of year 0 to the first day of year
/// `y`, in the proleptic Gregorian calendar, for `y >= 0`.
pub open spec fn days_before_year(y: int) -> int {
    365 * y + (y + 3) / 4 - (y + 99) / 100 + (y + 399) / 400
}

/// The number of days from 1970-01-01 to the given day.
pub open spec fn epoch_days(y: int, m: int, d: int) -> int {
    days_before_year(y) - days_before_year(1970) + days_before_month(y, m) + d - 1
}

/// The day that the ten characters `YYYY-MM-DD` of `s` from position `at` on
/// denote, as days since 1970-01-01. `None` where they have another shape or
/// name no day of the calendar.
pub open spec fn date_at(s: Seq<char>, at: int) -> Option<int> {
    if all_digits(s.subrange(at, at + 4)) && s[at + 4] == '-' && all_digits(
        s.subrange(at + 5, at + 7),
    ) && s[at + 7] == '-' && all_digits(s.subrange(at + 8, at + 10)) {
        let y = digits_value(s.subrange(at, at + 4));
        let m = digits_value(s.subrange(at + 5, at + 7));
        let d = digits_value(s.subrange(at + 8, at + 10));
        if 1 <= m <= 12 && 1 <= d <= days_in_month(y, m) {
            Some(epoch_days(y, m, d))
        } else {
            None
        }
    } else {
        None
    }
}

/// The day that the text `YYYY-MM-DD` denotes, as days since 1970-01-01.
/// `None` where the text has another shape or names no day of the calendar.
pub open spec fn parse_date_spec(s: Seq<char>) -> Option<int> {
    if s.len() == 10 {
        date_at(s, 0)
    } else {
        None
    }
}

/// The time of day that the eight characters `HH:MM:SS` of `s` from position
/// `at` on denote, in seconds since midnight.
pub open spec fn time_at(s: Seq<char>, at: int) -> Option<int> {
    if all_digits(s.subrange(at, at + 2)) && s[at + 2] == ':' && all_digits(
        s.subrange(at + 3, at + 5),
    ) && s[at + 5] == ':' && all_digits(s.subrange(at + 6, at + 8)) {
        let h = digits_value(s.subrange(at, at + 2));
        let m = digits_value(s.subrange(at + 3, at + 5));
        let sec = digits_value(s.subrange(at + 6, at + 8));
        if h < 24 && m < 60 && sec < 60 {
            Some((h * 60 + m) * 60 + sec)
        } else {
            None
        }
    } else {
        None
    }
}

/// The number of microseconds that one unit of a fraction of `digits` digits
/// stands for.
pub open spec fn fraction_scale(digits: int) -> int {
    if digits == 1 {
        100000
    } else if digits == 2 {
        10000
    } else if digits == 3 {
        1000
    } else if digits == 4 {
        100
    } else if digits == 5 {
        10
    } else {
        1
    }
}

/// The fraction of a second that `s` denotes from position `at` on, in
/// microseconds: nothing stands for none, and `.` with one to six digits
/// for that fraction.
pub open spec fn fraction_at(s: Seq<char>, at: int) -> Option<int> {
    if s.len() == at {
        Some(0)
    } else if s[at] == '.' && 1 <= s.len() - at - 1 <= 6 && all_digits(
        s.subrange(at + 1, s.len() as int),
    ) {
        Some(digits_value(s.subrange(at + 1, s.len() as int)) * fraction_scale(s.len() - at - 1))
    } else {
        None
    }
}

/// The instant that the text `YYYY-MM-DD HH:MM:SS`, with or without a
/// fraction of the second, denotes, in microseconds since 1970-01-01
/// 00:00:00.
pub open spec fn parse_timestamp_spec(s: Seq<char>) -> Option<int> {
    if s.len() >= 19 && s[10] == ' ' {
        match (date_at(s, 0), time_at(s, 11), fraction_at(s, 19)) {
            (Some(d), Some(t), Some(f)) => Some((d * 86400 + t) * 1000000 + f),
            _ => None,
        }
    } else {
        None
    }
}

pub open spec fn invalid(t: PrimitiveType) -> Result<ScalarView, Error> {
    Err(Error::InvalidPartitionValue(t))
}

/// The scalar of type `t` that the text `raw` encodes.
pub open spec fn parse_scalar_spec(t: PrimitiveType, raw: Seq<char>) -> Result<ScalarView, Error> {
    if raw.len() == 0 {
        Ok(ScalarView::Null(t))
    } else {
        match t {
            PrimitiveType::String => Ok(ScalarView::String(raw)),
            PrimitiveType::Long => match parse_int_in_spec(raw, i64::MIN as int, i64::MAX as int) {
                Some(v) => Ok(ScalarView::Long(v as i64)),
                None => invalid(t),
            },
            PrimitiveType::Integer => match parse_int_in_spec(
                raw,
                i32::MIN as int,
                i32::MAX as int,
            ) {
                Some(v) => Ok(ScalarView::Integer(v as i32)),
                None => invalid(t),
            },
            PrimitiveType::Short => match parse_int_in_spec(raw, i16::MIN as int, i16::MAX as int) {
                Some(v) => Ok(ScalarView::Short(v as i16)),
                None => invalid(t),
            },
            PrimitiveType::Byte => match parse_int_in_spec(raw, i8::MIN as int, i8::MAX as int) {
                Some(v) => Ok(ScalarView::Byte(v as i8)),
                None => invalid(t),
            },
            PrimitiveType::Boolean => match parse_bool_spec(raw) {
                Some(b) => Ok(ScalarView::Boolean(b)),
                None => invalid(t),
            },
            PrimitiveType::Date => match parse_date_spec(raw) {
                Some(d) => Ok(ScalarView::Date(d as i32)),
                None => invalid(t),
            },
            PrimitiveType::Timestamp => match parse_timestamp_spec(raw) {
                Some(v) => Ok(ScalarView::Timestamp(v as i64)),
                None => invalid(t),
            },
            PrimitiveType::TimestampNtz => match parse_timestamp_spec(raw) {
                Some(v) => Ok(ScalarView::TimestampNtz(v as i64)),
                None => invalid(t),
            },
        }
    }
}

/// The scalar that a recorded partition value stands for: the null of the
/// column's type where nothing was recorded, else the decoded text. Only a
/// primitive type can be the type of a partition column.
pub open spec fn parse_partition_value_spec(raw: Option<Seq<char>>, t: DataTypeView) -> Result<
    ScalarView,
    Error,
> {
    match t {
        DataTypeView::Primitive(p) => match raw {
            Some(text) => parse_scalar_spec(p, text),
            None => Ok(ScalarView::Null(p)),
        },
        _ => Err(Error::Generic),
    }
}

proof fn lemma_multiples_of_4(y: int)
    requires
        y >= 0,
    ensures
        (y + 4) / 4 - (y + 3) / 4 == if y % 4 == 0 {
            1int
        } else {
            0int
        },
{
}

proof fn lemma_multiples_of_100(y: int)
    requires
        y >= 0,
    ensures
        (y + 100) / 100 - (y + 99) / 100 == if y % 100 == 0 {
            1int
        } else {
            0int
        },
        y % 100 == 0 ==> y % 4 == 0,
{
}

proof fn lemma_multiples_of_400(y: int)
    requires
        y >= 0,
    ensures
        (y + 400) / 400 - (y + 399) / 400 == if y % 400 == 0 {
            1int
        } else {
            0int
        },
        y % 400 == 0 ==> y % 100 == 0,
{
}

/// Every year has 365 days, and a leap year one more.
pub proof fn lemma_year_length(y: int)
    requires
        y >= 0,
    ensures
        days_before_year(y + 1) - days_before_year(y) == if is_leap_year(y) {
            366int
        } else {
            365int
        },
{
    lemma_multiples_of_4(y);
    lemma_multiples_of_100(y);
    lemma_multiples_of_400(y);
    let fours = (y + 4) / 4 - (y + 3) / 4;
    let hundreds = (y + 100) / 100 - (y + 99) / 100;
    let four_hundreds = (y + 400) / 400 - (y + 399) / 400;
    assert(days_before_year(y + 1) - days_before_year(y) == 365 + fours - hundreds
        + four_hundreds);
}

/// A year's months make up the year: twelve months hold 365 days, or 366 in a
/// leap year.
pub proof fn lemma_months_fill_year(y: int)
    ensures
        days_before_month(y, 13) == if is_leap_year(y) {
            366int
        } else {
            365int
        },
{
    reveal_with_fuel(days_before_month, 14);
}

proof fn lemma_digits_value_bounds(s: Seq<char>)
    ensures
        0 <= digits_value(s),
    decreases s.len(),
{
    if s.len() > 0 {
        lemma_digits_value_bounds(s.drop_last());
    }
}

proof fn lemma_digits_value_prefix(s: Seq<char>, k: int)
    requires
        0 <= k <= s.len(),
    ensures
        0 <= digits_value(s.take(k)) <= digits_value(s),
    decreases s.len() - k,
{
    lemma_digits_value_bounds(s.take(k));
    if k == s.len() {
        assert(s.take(k) =~= s);
    } else {
        lemma_digits_value_prefix(s, k + 1);
        assert(s.take(k + 1).drop_last() =~= s.take(k));
    }
}

/// The digits of `bytes[from..to]` as a number, or `None` if one of them is no
/// digit or the number exceeds `limit`.
fn parse_digits(bytes: &[u8], from: usize, to: usize, limit: u128, Ghost(s): Ghost<Seq<char>>) -> (r:
    Option<u128>)
    requires
        from <= to <= bytes@.len(),
        bytes@.len() == s.len(),
        forall|i: int| 0 <= i < s.len() ==> s[i] as int == bytes@[i] as int,
        limit <= u128::MAX / 16,
    ensures
        r == if all_digits(s.subrange(from as int, to as int)) && digits_value(
            s.subrange(from as int, to as int),
        ) <= limit {
            Some(digits_value(s.subrange(from as int, to as int)) as u128)
        } else {
            None
        },
{
    let ghost d = s.subrange(from as int, to as int);
    let mut acc: u128 = 0;
    let mut i: usize = from;
    while i < to
        invariant
            from <= i <= to <= bytes@.len(),
            bytes@.len() == s.len(),
            forall|j: int| 0 <= j < s.len() ==> s[j] as int == bytes@[j] as int,
            d == s.subrange(from as int, to as int),
            all_digits(d.take(i - from)),
            acc == digits_value(d.take(i - from)),
            acc <= limit,
            limit <= u128::MAX / 16,
        decreases to - i,
    {
        let b: u8 = bytes[i];
        proof {
            assert(d[i - from] == s[i as int]);
            assert(d.take(i - from + 1).drop_last() =~= d.take(i - from));
            assert(d.take(i - from + 1).last() == d[i - from]);
        }
        if b < 48 || b > 57 {
            assert(!is_digit(d[i - from]));
            return None;
        }
        let next: u128 = acc * 10 + (b - 48) as u128;
        if next > limit {
            proof {
                lemma_digits_value_prefix(d, i - from + 1);
            }
            return None;
        }
        acc = next;
        assert(all_digits(d.take(i - from + 1))) by {
            assert forall|j: int| 0 <= j < i - from + 1 implies is_digit(
                #[trigger] d.take(i - from + 1)[j],
            ) by {
                if j < i - from {
                    assert(d.take(i - from)[j] == d[j]);
                }
            }
        }
        i += 1;
    }
    assert(d.take(to - from) =~= d);
    Some(acc)
}

/// Views the text as bytes when every character is ASCII.
fn ascii_bytes(raw: &str) -> (r: Option<&[u8]>)
    ensures
        r is Some <==> is_ascii_chars(raw@),
        r matches Some(b) ==> same_characters(b@, raw@),
{
    if raw.is_ascii() {
        let b = raw.as_bytes();
        proof {
            is_ascii_spec_bytes(raw);
            vstd::utf8::is_ascii_chars_nat_bound(raw@);
        }
        Some(b)
    } else {
        None
    }
}

/// Decodes an optionally signed decimal numeral whose value lies between `lo`
/// and `hi`.
pub fn parse_int_in(raw: &str, lo: i64, hi: i64) -> (r: Option<i64>)
    ensures
        match parse_int_in_spec(raw@, lo as int, hi as int) {
            Some(v) => r == Some(v as i64),
            None => r is None,
        },
{
    let Some(bytes) = ascii_bytes(raw) else {
        proof {
            let s = raw@;
            if parse_int_spec(s) is Some {
                assert forall|i: int| 0 <= i < s.len() implies '\0' <= #[trigger] s[i]
                    <= '\u{7f}' by {
                    if s[0] == '-' || s[0] == '+' {
                        if i > 0 {
                            assert(s.subrange(1, s.len() as int)[i - 1] == s[i]);
                        }
                    }
                }
            }
        }
        return None;
    };
    let n: usize = bytes.len();
    if n == 0 {
        return None;
    }
    let first: u8 = bytes[0];
    let negative: bool = first == 45;
    let start: usize = if first == 45 || first == 43 {
        1
    } else {
        0
    };
    if start == n {
        return None;
    }
    let limit: u128 = 9223372036854775808;
    let ghost d = raw@.subrange(start as int, n as int);
    proof {
        if start == 0 {
            assert(d =~= raw@);
        }
        lemma_digits_value_bounds(d);
        assert(raw@[0] as int == first as int);
        assert((raw@[0] == '-') == (first == 45));
        assert((raw@[0] == '+') == (first == 43));
    }
    match parse_digits(bytes, start, n, limit, Ghost(raw@)) {
        None => {
            proof {
                if all_digits(d) {
                    assert(digits_value(d) > limit);
                }
            }
            None
        },
        Some(magnitude) => {
            if negative {
                if magnitude == limit {
                    if lo == i64::MIN {
                        Some(i64::MIN)
                    } else {
                        None
                    }
                } else {
                    let v: i64 = -(magnitude as i64);
                    if lo <= v && v <= hi {
                        Some(v)
                    } else {
                        None
                    }
                }
            } else {
                if magnitude == limit {
                    None
                } else {
                    let v: i64 = magnitude as i64;
                    if lo <= v && v <= hi {
                        Some(v)
                    } else {
                        None
                    }
                }
            }
        },
    }
}

fn is_letter(b: u8, lower: u8) -> (r: bool)
    requires
        97 <= lower <= 122,
    ensures
        r == (b == lower || b == lower - 32),
{
    b == lower || b == lower - 32
}

/// Decodes `true` or `false`, written in any case.
pub fn parse_bool(raw: &str) -> (r: Option<bool>)
    ensures
        r == parse_bool_spec(raw@),
{
    let ghost s = raw@;
    let ghost t = seq!['t', 'r', 'u', 'e'];
    let ghost f = seq!['f', 'a', 'l', 's', 'e'];
    let Some(b) = ascii_bytes(raw) else {
        proof {
            if eq_ignore_ascii_case(s, t) {
                assert forall|i: int| 0 <= i < s.len() implies '\0' <= #[trigger] s[i]
                    <= '\u{7f}' by {
                    assert(ascii_lower(s[i]) == ascii_lower(t[i]));
                }
            }
            if eq_ignore_ascii_case(s, f) {
                assert forall|i: int| 0 <= i < s.len() implies '\0' <= #[trigger] s[i]
                    <= '\u{7f}' by {
                    assert(ascii_lower(s[i]) == ascii_lower(f[i]));
                }
            }
        }
        return None;
    };
    if b.len() == 4 {
        let r: bool = is_letter(b[0], 116) && is_letter(b[1], 114) && is_letter(b[2], 117)
            && is_letter(b[3], 101);
        proof {
            if r {
                assert(eq_ignore_ascii_case(s, t));
            } else {
                assert(ascii_lower(s[0]) == ascii_lower(t[0]) && ascii_lower(s[1]) == ascii_lower(
                    t[1],
                ) && ascii_lower(s[2]) == ascii_lower(t[2]) && ascii_lower(s[3]) == ascii_lower(
                    t[3],
                ) ==> false);
            }
        }
        if r {
            Some(true)
        } else {
            None
        }
    } else if b.len() == 5 {
        let r: bool = is_letter(b[0], 102) && is_letter(b[1], 97) && is_letter(b[2], 108)
            && is_letter(b[3], 115) && is_letter(b[4], 101);
        proof {
            if r {
                assert(eq_ignore_ascii_case(s, f));
            } else {
                assert(ascii_lower(s[0]) == ascii_lower(f[0]) && ascii_lower(s[1]) == ascii_lower(
                    f[1],
                ) && ascii_lower(s[2]) == ascii_lower(f[2]) && ascii_lower(s[3]) == ascii_lower(
                    f[3],
                ) && ascii_lower(s[4]) == ascii_lower(f[4]) ==> false);
            }
        }
        if r {
            Some(false)
        } else {
            None
        }
    } else {
        None
    }
}

/// The number of days of a year that precede the first day of month `m`.
fn month_offset(leap: bool, m: u128) -> (r: i64)
    requires
        1 <= m <= 12,
    ensures
        0 <= r <= 335,
        forall|y: int| is_leap_year(y) == leap ==> r == #[trigger] days_before_month(y, m as int),
{
    proof {
        reveal_with_fuel(days_before_month, 13);
    }
    let base: i64 = if m == 1 {
        0
    } else if m == 2 {
        31
    } else if m == 3 {
        59
    } else if m == 4 {
        90
    } else if m == 5 {
        120
    } else if m == 6 {
        151
    } else if m == 7 {
        181
    } else if m == 8 {
        212
    } else if m == 9 {
        243
    } else if m == 10 {
        273
    } else if m == 11 {
        304
    } else {
        334
    };
    if leap && m > 2 {
        base + 1
    } else {
        base
    }
}

/// Whether the text and the bytes are the same characters.
spec fn same_characters(b: Seq<u8>, s: Seq<char>) -> bool {
    b.len() == s.len() && forall|i: int| 0 <= i < s.len() ==> s[i] as int == b[i] as int
}

/// A run of digits holds ASCII characters only.
proof fn lemma_digits_are_ascii(s: Seq<char>, from: int, to: int)
    requires
        0 <= from <= to <= s.len(),
        all_digits(s.subrange(from, to)),
    ensures
        forall|i: int| from <= i < to ==> '\0' <= #[trigger] s[i] <= '\u{7f}',
{
    assert forall|i: int| from <= i < to implies '\0' <= #[trigger] s[i] <= '\u{7f}' by {
        assert(s.subrange(from, to)[i - from] == s[i]);
    }
}

/// The day that the ten bytes from `at` on denote.
fn date_of(b: &[u8], at: usize, Ghost(s): Ghost<Seq<char>>) -> (r: Option<i64>)
    requires
        at + 10 <= b@.len(),
        same_characters(b@, s),
    ensures
        match date_at(s, at as int) {
            Some(d) => r == Some(d as i64) && -1000000 < d < 3000000,
            None => r is None,
        },
{
    let n: usize = b.len();
    if b[at + 4] != 45 || b[at + 7] != 45 {
        return None;
    }
    proof {
        lemma_digits_value_small(s.subrange(at as int, at + 4));
        lemma_digits_value_small(s.subrange(at + 5, at + 7));
        lemma_digits_value_small(s.subrange(at + 8, at + 10));
    }
    let Some(y) = parse_digits(b, at, at + 4, 9999, Ghost(s)) else {
        return None;
    };
    let Some(m) = parse_digits(b, at + 5, at + 7, 99, Ghost(s)) else {
        return None;
    };
    let Some(d) = parse_digits(b, at + 8, at + 10, 99, Ghost(s)) else {
        return None;
    };
    if m < 1 || m > 12 || d < 1 {
        return None;
    }
    let leap: bool = y % 4 == 0 && (y % 100 != 0 || y % 400 == 0);
    let month_days: u128 = if m == 2 {
        if leap {
            29
        } else {
            28
        }
    } else if m == 4 || m == 6 || m == 9 || m == 11 {
        30
    } else {
        31
    };
    assert(y == digits_value(s.subrange(at as int, at + 4)));
    assert(m == digits_value(s.subrange(at + 5, at + 7)));
    assert(d == digits_value(s.subrange(at + 8, at + 10)));
    assert(leap == is_leap_year(y as int));
    assert(month_days == days_in_month(y as int, m as int));
    if d > month_days {
        return None;
    }
    let year: i64 = y as i64;
    let before_year: i64 = 365 * year + (year + 3) / 4 - (year + 99) / 100 + (year + 399) / 400;
    let offset: i64 = month_offset(leap, m);
    assert(offset == days_before_month(y as int, m as int));
    let days: i64 = before_year - 719528 + offset + (d as i64) - 1;
    assert(days == epoch_days(y as int, m as int, d as int));
    Some(days)
}

/// The time of day that the eight bytes from `at` on denote, in seconds.
fn time_of(b: &[u8], at: usize, Ghost(s): Ghost<Seq<char>>) -> (r: Option<i64>)
    requires
        at + 8 <= b@.len(),
        same_characters(b@, s),
    ensures
        match time_at(s, at as int) {
            Some(t) => r == Some(t as i64) && 0 <= t < 86400,
            None => r is None,
        },
{
    let n: usize = b.len();
    if b[at + 2] != 58 || b[at + 5] != 58 {
        return None;
    }
    proof {
        lemma_digits_value_small(s.subrange(at as int, at + 2));
        lemma_digits_value_small(s.subrange(at + 3, at + 5));
        lemma_digits_value_small(s.subrange(at + 6, at + 8));
    }
    let Some(h) = parse_digits(b, at, at + 2, 99, Ghost(s)) else {
        return None;
    };
    let Some(m) = parse_digits(b, at + 3, at + 5, 99, Ghost(s)) else {
        return None;
    };
    let Some(sec) = parse_digits(b, at + 6, at + 8, 99, Ghost(s)) else {
        return None;
    };
    if h >= 24 || m >= 60 || sec >= 60 {
        return None;
    }
    Some(((h * 60 + m) * 60 + sec) as i64)
}

/// The fraction of a second that the bytes from `at` on denote, in
/// microseconds.
fn fraction_of(b: &[u8], at: usize, Ghost(s): Ghost<Seq<char>>) -> (r: Option<i64>)
    requires
        at <= b@.len(),
        same_characters(b@, s),
    ensures
        match fraction_at(s, at as int) {
            Some(f) => r == Some(f as i64) && 0 <= f < 1000000,
            None => r is None,
        },
{
    let n: usize = b.len();
    if n == at {
        return Some(0);
    }
    if b[at] != 46 || n - at - 1 < 1 || n - at - 1 > 6 {
        return None;
    }
    let digits: usize = n - at - 1;
    proof {
        lemma_digits_value_limit(s.subrange(at + 1, n as int));
    }
    let Some(value) = parse_digits(b, at + 1, n, 999999, Ghost(s)) else {
        return None;
    };
    let scale: u128 = if digits == 1 {
        100000
    } else if digits == 2 {
        10000
    } else if digits == 3 {
        1000
    } else if digits == 4 {
        100
    } else if digits == 5 {
        10
    } else {
        1
    };
    assert(scale == fraction_scale(digits as int));
    assert(value * scale < 1000000) by (nonlinear_arith)
        requires
            (digits == 1 && value < 10 && scale == 100000) || (digits == 2 && value < 100 && scale
                == 10000) || (digits == 3 && value < 1000 && scale == 1000) || (digits == 4
                && value < 10000 && scale == 100) || (digits == 5 && value < 100000 && scale
                == 10) || (digits == 6 && value < 1000000 && scale == 1),
    ;
    Some((value * scale) as i64)
}

/// Decodes a day written as `YYYY-MM-DD` into days since 1970-01-01.
pub fn parse_date(raw: &str) -> (r: Option<i32>)
    ensures
        match parse_date_spec(raw@) {
            Some(d) => r == Some(d as i32) && i32::MIN <= d <= i32::MAX,
            None => r is None,
        },
{
    let ghost s = raw@;
    let Some(b) = ascii_bytes(raw) else {
        proof {
            if parse_date_spec(s) is Some {
                lemma_digits_are_ascii(s, 0, 4);
                lemma_digits_are_ascii(s, 5, 7);
                lemma_digits_are_ascii(s, 8, 10);
                assert forall|i: int| 0 <= i < s.len() implies '\0' <= #[trigger] s[i]
                    <= '\u{7f}' by {}
            }
        }
        return None;
    };
    if b.len() != 10 {
        return None;
    }
    match date_of(b, 0, Ghost(s)) {
        Some(days) => Some(days as i32),
        None => None,
    }
}

/// Decodes an instant written as `YYYY-MM-DD HH:MM:SS`, with or without a
/// fraction of the second, into microseconds since 1970-01-01 00:00:00.
pub fn parse_timestamp(raw: &str) -> (r: Option<i64>)
    ensures
        match parse_timestamp_spec(raw@) {
            Some(v) => r == Some(v as i64) && i64::MIN <= v <= i64::MAX,
            None => r is None,
        },
{
    let ghost s = raw@;
    let Some(b) = ascii_bytes(raw) else {
        proof {
            if parse_timestamp_spec(s) is Some {
                lemma_digits_are_ascii(s, 0, 4);
                lemma_digits_are_ascii(s, 5, 7);
                lemma_digits_are_ascii(s, 8, 10);
                lemma_digits_are_ascii(s, 11, 13);
                lemma_digits_are_ascii(s, 14, 16);
                lemma_digits_are_ascii(s, 17, 19);
                if s.len() > 19 {
                    lemma_digits_are_ascii(s, 20, s.len() as int);
                }
                assert forall|i: int| 0 <= i < s.len() implies '\0' <= #[trigger] s[i]
                    <= '\u{7f}' by {}
            }
        }
        return None;
    };
    if b.len() < 19 || b[10] != 32 {
        return None;
    }
    let Some(days) = date_of(b, 0, Ghost(s)) else {
        return None;
    };
    let Some(seconds) = time_of(b, 11, Ghost(s)) else {
        return None;
    };
    let Some(micros) = fraction_of(b, 19, Ghost(s)) else {
        return None;
    };
    Some((days * 86400 + seconds) * 1000000 + micros)
}

/// A run of up to six digits denotes a number below the next power of ten.
proof fn lemma_digits_value_limit(s: Seq<char>)
    requires
        s.len() <= 6,
    ensures
        0 <= digits_value(s),
        s.len() == 1 ==> digits_value(s) < 10,
        s.len() == 2 ==> digits_value(s) < 100,
        s.len() == 3 ==> digits_value(s) < 1000,
        s.len() == 4 ==> digits_value(s) < 10000,
        s.len() == 5 ==> digits_value(s) < 100000,
        s.len() == 6 ==> digits_value(s) < 1000000,
{
    reveal_with_fuel(digits_value, 7);
}

proof fn lemma_digits_value_small(s: Seq<char>)
    requires
        s.len() <= 4,
    ensures
        0 <= digits_value(s),
        s.len() == 2 ==> digits_value(s) <= 99,
        s.len() == 4 ==> digits_value(s) <= 9999,
{
    reveal_with_fuel(digits_value, 5);
}

impl PrimitiveType {
    /// Decodes the text of a partition value of this type. The empty text is
    /// the null of the type.
    pub fn parse_scalar(&self, raw: &str) -> (r: DeltaResult<Scalar>)
        ensures
            result_view(r) == parse_scalar_spec(*self, raw@),
    {
        if raw.is_empty() {
            return Ok(Scalar::Null(*self));
        }
        match self {
            PrimitiveType::String => Ok(Scalar::String(raw.to_owned())),
            PrimitiveType::Long => match parse_int_in(raw, i64::MIN, i64::MAX) {
                Some(v) => Ok(Scalar::Long(v)),
                None => Err(Error::InvalidPartitionValue(*self)),
            },
            PrimitiveType::Integer => match parse_int_in(raw, -2147483648, 2147483647) {
                Some(v) => Ok(Scalar::Integer(v as i32)),
                None => Err(Error::InvalidPartitionValue(*self)),
            },
            PrimitiveType::Short => match parse_int_in(raw, -32768, 32767) {
                Some(v) => Ok(Scalar::Short(v as i16)),
                None => Err(Error::InvalidPartitionValue(*self)),
            },
            PrimitiveType::Byte => match parse_int_in(raw, -128, 127) {
                Some(v) => Ok(Scalar::Byte(v as i8)),
                None => Err(Error::InvalidPartitionValue(*self)),
            },
            PrimitiveType::Boolean => match parse_bool(raw) {
                Some(v) => Ok(Scalar::Boolean(v)),
                None => Err(Error::InvalidPartitionValue(*self)),
            },
            PrimitiveType::Date => match parse_date(raw) {
                Some(v) => Ok(Scalar::Date(v)),
                None => Err(Error::InvalidPartitionValue(*self)),
            },
            PrimitiveType::Timestamp => match parse_timestamp(raw) {
                Some(v) => Ok(Scalar::Timestamp(v)),
                None => Err(Error::InvalidPartitionValue(*self)),
            },
            PrimitiveType::TimestampNtz => match parse_timestamp(raw) {
                Some(v) => Ok(Scalar::TimestampNtz(v)),
                None => Err(Error::InvalidPartitionValue(*self)),
            },
        }
    }
}

/// Decodes a recorded partition value of a column of type `data_type`:
/// `raw` is the text recorded for the column, or `None` if nothing was.
pub fn parse_partition_value(raw: Option<&String>, data_type: &DataType) -> (r: DeltaResult<Scalar>)
    ensures
        result_view(r) == parse_partition_value_spec(
            match raw {
                Some(text) => Some(text@),
                None => None,
            },
            data_type@,
        ),
{
    match data_type.as_primitive_opt() {
        Some(primitive) => match raw {
            Some(text) => primitive.parse_scalar(text.as_str()),
            None => Ok(Scalar::Null(primitive)),
        },
        None => Err(Error::Generic),
    }
}

} // verus!
