//! Decimal literals read as fixed-point integers.
//!
//! A literal is an optional sign, digits, and an optional point followed by
//! digits, with at least one digit in all. Read at a scale of `n` digits it is
//! the integer made of the whole digits followed by exactly `n` fractional
//! digits: missing ones count as zeros, further ones are dropped.

use crate::error::TrackError;
use vstd::prelude::*;

verus! {

/// Fractional digits kept of a coordinate: units of 1e-7 degree.
pub const COORDINATE_DIGITS: u32 = 7;

/// Fractional digits kept of an elevation: millimetres.
pub const ELEVATION_DIGITS: u32 = 3;

pub open spec fn is_digit(byte: u8) -> bool {
    48 <= byte <= 57
}

pub open spec fn all_digits(bytes: Seq<u8>) -> bool {
    forall|i: int| 0 <= i < bytes.len() ==> is_digit(#[trigger] bytes[i])
}

/// The number that a run of digits writes in base ten; zero for the empty run.
pub open spec fn digits_value(digits: Seq<u8>) -> nat
    decreases digits.len(),
{
    if digits.len() == 0 {
        0
    } else {
        digits_value(digits.drop_last()) * 10 + (digits.last() - 48) as nat
    }
}

/// Whether the literal opens with `+` or `-`.
pub open spec fn has_sign(text: Seq<u8>) -> bool {
    text.len() > 0 && (text[0] == 43 || text[0] == 45)
}

/// Whether the literal opens with `-`.
pub open spec fn is_negative(text: Seq<u8>) -> bool {
    text.len() > 0 && text[0] == 45
}

/// The literal without its sign.
pub open spec fn unsigned_part(text: Seq<u8>) -> Seq<u8> {
    if has_sign(text) {
        text.skip(1)
    } else {
        text
    }
}

/// Where the first `.` stands, or the length where there is none.
pub open spec fn point_index(body: Seq<u8>) -> int
    decreases body.len(),
{
    if body.len() == 0 || body[0] == 46 {
        0
    } else {
        1 + point_index(body.drop_first())
    }
}

/// What stands before the first `.`.
pub open spec fn whole_part(body: Seq<u8>) -> Seq<u8> {
    body.take(point_index(body))
}

/// What stands after the first `.`; empty where there is none.
pub open spec fn fraction_part(body: Seq<u8>) -> Seq<u8> {
    if point_index(body) < body.len() {
        body.skip(point_index(body) + 1)
    } else {
        Seq::empty()
    }
}

/// The grammar: digits around at most one point, at least one digit.
pub open spec fn is_decimal(text: Seq<u8>) -> bool {
    let body = unsigned_part(text);
    &&& all_digits(whole_part(body))
    &&& all_digits(fraction_part(body))
    &&& whole_part(body).len() + fraction_part(body).len() > 0
}

/// The whole digits followed by exactly `scale` fractional digits.
pub open spec fn scaled_digits(whole: Seq<u8>, fraction: Seq<u8>, scale: nat) -> Seq<u8> {
    whole + Seq::new(
        scale,
        |i: int|
            if i < fraction.len() {
                fraction[i]
            } else {
                48u8
            },
    )
}

/// The literal's absolute value in units of `10^-scale`, rounded toward zero.
pub open spec fn magnitude(text: Seq<u8>, scale: nat) -> nat {
    let body = unsigned_part(text);
    digits_value(scaled_digits(whole_part(body), fraction_part(body), scale))
}

/// The literal's value in units of `10^-scale`, rounded toward zero; `None`
/// where the text is no literal or the value does not fit an `i64`.
pub open spec fn decimal_value(text: Seq<u8>, scale: nat) -> Option<int> {
    if is_decimal(text) && magnitude(text, scale) <= i64::MAX {
        if is_negative(text) {
            Some(-(magnitude(text, scale) as int))
        } else {
            Some(magnitude(text, scale) as int)
        }
    } else {
        None
    }
}

/// The first `.` is inside the text or at its end, nothing before it is a
/// `.`, and where it is inside the text it is a `.`.
pub proof fn lemma_point_index(body: Seq<u8>)
    ensures
        0 <= point_index(body) <= body.len(),
        forall|j: int| 0 <= j < point_index(body) ==> body[j] != 46,
        point_index(body) < body.len() ==> body[point_index(body)] == 46,
    decreases body.len(),
{
    if body.len() == 0 || body[0] == 46 {
    } else {
        let rest = body.drop_first();
        lemma_point_index(rest);
        assert forall|j: int| 0 <= j < point_index(body) implies body[j] != 46 by {
            if j > 0 {
                assert(body[j] == rest[j - 1]);
            }
        }
        if point_index(body) < body.len() {
            assert(body[point_index(body)] == rest[point_index(rest)]);
        }
    }
}

/// Appending a digit multiplies by ten and adds the digit.
pub proof fn lemma_digits_value_step(digits: Seq<u8>, count: int)
    requires
        0 <= count < digits.len(),
    ensures
        digits_value(digits.take(count + 1)) == digits_value(digits.take(count)) * 10 + (
        digits[count] - 48) as nat,
{
    assert(digits.take(count + 1).drop_last() =~= digits.take(count));
}

/// A run of digits is worth at least as much as any of its prefixes.
pub proof fn lemma_digits_value_prefix(digits: Seq<u8>, count: int)
    requires
        all_digits(digits),
        0 <= count <= digits.len(),
    ensures
        digits_value(digits.take(count)) <= digits_value(digits),
    decreases digits.len(),
{
    if count == digits.len() {
        assert(digits.take(count) =~= digits);
    } else {
        let shorter = digits.drop_last();
        assert(is_digit(digits.last()));
        assert forall|i: int| 0 <= i < shorter.len() implies is_digit(#[trigger] shorter[i]) by {
            assert(shorter[i] == digits[i]);
        }
        lemma_digits_value_prefix(shorter, count);
        assert(shorter.take(count) =~= digits.take(count));
    }
}

/// Reads a decimal literal as a whole number of units of `10^-scale`,
/// dropping what lies beyond. Fails on anything that is no literal and on a
/// value that an `i64` cannot hold.
pub fn parse_decimal(text: &[u8], scale: u32) -> (result: Result<i64, TrackError>)
    ensures
        match decimal_value(text@, scale as nat) {
            Some(value) => result == Ok::<i64, TrackError>(value as i64) && value as i64 == value,
            None => result == Err::<i64, TrackError>(TrackError::InvalidNumericLiteral),
        },
{
    let length: usize = text.len();
    let negative: bool = length > 0 && text[0] == 45;
    let start: usize = if length > 0 && (text[0] == 43 || text[0] == 45) {
        1
    } else {
        0
    };
    let ghost body = unsigned_part(text@);
    let ghost whole = whole_part(body);
    let ghost fraction = fraction_part(body);
    let ghost scaled = scaled_digits(whole, fraction, scale as nat);
    proof {
        lemma_point_index(body);
        assert(body.len() == length - start);
        assert(forall|j: int| 0 <= j < body.len() ==> body[j] == text@[j + start]);
    }
    let mut acc: u128 = 0;
    let mut i: usize = start;
    loop
        invariant_except_break
            i - start <= point_index(body),
            forall|j: int| 0 <= j < i - start ==> is_digit(#[trigger] body[j]),
        invariant
            start <= i <= length,
            length == text@.len(),
            body.len() == length - start,
            forall|j: int| 0 <= j < body.len() ==> body[j] == text@[j + start],
            0 <= point_index(body) <= body.len(),
            forall|j: int| 0 <= j < point_index(body) ==> body[j] != 46,
            point_index(body) < body.len() ==> body[point_index(body)] == 46,
            whole == body.take(point_index(body)),
            scaled == scaled_digits(whole, fraction, scale as nat),
            body == unsigned_part(text@),
            fraction == fraction_part(body),
            acc == digits_value(scaled.take(i - start)),
            acc <= i64::MAX,
        ensures
            i - start == point_index(body),
            all_digits(whole),
        decreases length - i,
    {
        if i >= length || text[i] == 46 {
            proof {
                if i < length {
                    assert(body[i - start] == 46);
                }
                assert(i - start == point_index(body));
                assert forall|j: int| 0 <= j < whole.len() implies is_digit(
                    #[trigger] whole[j],
                ) by {
                    assert(whole[j] == body[j]);
                }
            }
            break ;
        }
        let byte: u8 = text[i];
        proof {
            assert(body[i - start] == byte);
            assert(i - start < point_index(body));
            assert(whole[i - start] == byte);
            assert(scaled[i - start] == byte);
            lemma_digits_value_step(scaled, i - start);
        }
        if byte < 48 || byte > 57 {
            assert(!is_digit(whole[i - start]));
            return Err(TrackError::InvalidNumericLiteral);
        }
        acc = acc * 10 + (byte - 48) as u128;
        if acc > i64::MAX as u128 {
            proof {
                if is_decimal(text@) {
                    assert(all_digits(scaled));
                    lemma_digits_value_prefix(scaled, i - start + 1);
                }
            }
            return Err(TrackError::InvalidNumericLiteral);
        }
        i = i + 1;
    }
    let whole_length: usize = i - start;
    let mut fraction_length: usize = 0;
    let mut taken: u32 = 0;
    proof {
        assert(whole.len() == whole_length);
        assert(taken as int <= scale);
    }
    if i < length {
        i = i + 1;
        let first: usize = i;
        proof {
            assert(fraction.len() == length - first);
            assert(forall|j: int| 0 <= j < fraction.len() ==> fraction[j] == text@[j + first]);
        }
        while i < length
            invariant
                first <= i <= length,
                length == text@.len(),
                fraction.len() == length - first,
                forall|j: int| 0 <= j < fraction.len() ==> fraction[j] == text@[j + first],
                whole.len() == whole_length,
                all_digits(whole),
                scaled == scaled_digits(whole, fraction, scale as nat),
                body == unsigned_part(text@),
                whole == whole_part(body),
                fraction == fraction_part(body),
                forall|j: int| 0 <= j < i - first ==> is_digit(#[trigger] fraction[j]),
                taken <= scale,
                taken as int == if i - first < scale as int {
                    i - first
                } else {
                    scale as int
                },
                acc == digits_value(scaled.take(whole_length + taken)),
                acc <= i64::MAX,
            decreases length - i,
        {
            let byte: u8 = text[i];
            assert(fraction[i - first] == byte);
            if byte < 48 || byte > 57 {
                assert(!is_digit(fraction[i - first]));
                return Err(TrackError::InvalidNumericLiteral);
            }
            if taken < scale {
                proof {
                    assert(scaled[whole_length + taken] == byte);
                    lemma_digits_value_step(scaled, whole_length + taken);
                }
                acc = acc * 10 + (byte - 48) as u128;
                if acc > i64::MAX as u128 {
                    proof {
                        if is_decimal(text@) {
                            assert(all_digits(scaled));
                            lemma_digits_value_prefix(scaled, whole_length + taken + 1);
                        }
                    }
                    return Err(TrackError::InvalidNumericLiteral);
                }
                taken = taken + 1;
            }
            i = i + 1;
        }
        fraction_length = length - first;
        assert(all_digits(fraction));
    } else {
        assert(fraction.len() == 0);
    }
    if whole_length == 0 && fraction_length == 0 {
        return Err(TrackError::InvalidNumericLiteral);
    }
    assert(is_decimal(text@));
    assert(all_digits(scaled));
    while taken < scale
        invariant
            taken <= scale,
            taken < scale ==> fraction.len() <= taken,
            whole.len() == whole_length,
            all_digits(scaled),
            is_decimal(text@),
            scaled == scaled_digits(whole, fraction, scale as nat),
            body == unsigned_part(text@),
            whole == whole_part(body),
            fraction == fraction_part(body),
            acc == digits_value(scaled.take(whole_length + taken)),
            acc <= i64::MAX,
        decreases scale - taken,
    {
        proof {
            assert(scaled[whole_length + taken] == 48);
            lemma_digits_value_step(scaled, whole_length + taken);
        }
        acc = acc * 10;
        if acc > i64::MAX as u128 {
            proof {
                lemma_digits_value_prefix(scaled, whole_length + taken + 1);
            }
            return Err(TrackError::InvalidNumericLiteral);
        }
        taken = taken + 1;
    }
    proof {
        assert(scaled.take(whole_length + scale) =~= scaled);
    }
    if negative {
        Ok(-(acc as i64))
    } else {
        Ok(acc as i64)
    }
}

} // verus!
