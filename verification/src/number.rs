//! Integer literals: a sign, an optional radix prefix, and digits, read as a
//! value of a given width.

use crate::error::IntErrorKind;
use crate::text::chars_of;
use vstd::prelude::*;

verus! {

/// The sign that stands before a number, or that none does.
#[derive(Copy, Clone, Debug, PartialEq, Eq, Structural)]
pub enum Sign {
    Positive,
    Negative,
}

/// What a character is worth as a digit: `0` to `9`, then the letters of
/// either case from ten on.
pub open spec fn digit_value(c: char) -> Option<nat> {
    if '0' <= c && c <= '9' {
        Some((c as u32 - '0' as u32) as nat)
    } else if 'a' <= c && c <= 'z' {
        Some((c as u32 - 'a' as u32 + 10) as nat)
    } else if 'A' <= c && c <= 'Z' {
        Some((c as u32 - 'A' as u32 + 10) as nat)
    } else {
        None
    }
}

/// Whether `c` is a digit of `radix`.
pub open spec fn is_digit_of(c: char, radix: nat) -> bool {
    digit_value(c) matches Some(d) && d < radix
}

/// The first position at or after `pos` that holds no digit of `radix`, or
/// the end of `digits`.
pub open spec fn digit_run(digits: Seq<char>, pos: int, radix: nat) -> int
    decreases digits.len() - pos,
{
    if 0 <= pos < digits.len() && is_digit_of(digits[pos], radix) {
        digit_run(digits, pos + 1, radix)
    } else {
        pos
    }
}

/// The number that `digits` spell in `radix`, most significant digit first.
/// A character that is no digit counts as zero.
pub open spec fn digits_value(digits: Seq<char>, radix: nat) -> nat
    decreases digits.len(),
{
    if digits.len() == 0 {
        0
    } else {
        let low = match digit_value(digits.last()) {
            Some(d) => d,
            None => 0,
        };
        digits_value(digits.drop_last(), radix) * radix + low
    }
}

/// `digits` read as a number in `radix` that may not exceed `max`.
///
/// The digits are taken from the left. The first that is no digit of the
/// radix makes the text invalid, unless the digits before it already spell a
/// number above `max`: then the overflow is what is reported.
pub open spec fn parse_digits(digits: Seq<char>, radix: nat, max: nat) -> Result<
    nat,
    IntErrorKind,
> {
    let run = digit_run(digits, 0, radix);
    if digits.len() == 0 {
        Err(IntErrorKind::Empty)
    } else if digits_value(digits.take(run), radix) > max {
        Err(IntErrorKind::PosOverflow)
    } else if run < digits.len() {
        Err(IntErrorKind::InvalidDigit)
    } else {
        Ok(digits_value(digits, radix))
    }
}

/// The radix that the first two characters of a literal select.
pub open spec fn radix_of(literal: Seq<char>) -> nat {
    if literal.len() >= 2 && literal[0] == '0' {
        if literal[1] == 'x' || literal[1] == 'X' {
            16
        } else if literal[1] == 'o' || literal[1] == 'O' {
            8
        } else if literal[1] == 'b' || literal[1] == 'B' {
            2
        } else {
            10
        }
    } else {
        10
    }
}

/// The literal without its radix prefix.
pub open spec fn digits_of(literal: Seq<char>) -> Seq<char> {
    if radix_of(literal) == 10 {
        literal
    } else {
        literal.skip(2)
    }
}

/// The first position at or after `pos` that holds no `0`, or the end.
pub open spec fn zero_run(digits: Seq<char>, pos: int) -> int
    decreases digits.len() - pos,
{
    if 0 <= pos < digits.len() && digits[pos] == '0' {
        zero_run(digits, pos + 1)
    } else {
        pos
    }
}

/// `digits` without leading zeros; a single `0` where nothing else is left.
pub open spec fn trim_zeros(digits: Seq<char>) -> Seq<char> {
    let rest = digits.skip(zero_run(digits, 0));
    if rest.len() == 0 {
        seq!['0']
    } else {
        rest
    }
}

/// The value of a literal for an unsigned type whose largest value is `max`.
///
/// A minus sign is never accepted. The radix prefix selects the radix, and
/// what follows it is read as digits.
pub open spec fn unsigned_value(sign: Sign, literal: Seq<char>, max: nat) -> Result<
    nat,
    IntErrorKind,
> {
    if sign == Sign::Negative {
        Err(IntErrorKind::InvalidDigit)
    } else {
        parse_digits(digits_of(literal), radix_of(literal), max)
    }
}

/// The value of a literal for a signed type whose largest value is `max`
/// and whose smallest is `-max - 1`.
///
/// Leading zeros are dropped first. With a minus sign the digits spell the
/// magnitude. Without one, decimal digits spell the value, and digits behind
/// a radix prefix spell the bits of the two's-complement representation: a
/// number above `max` that still fits the width stands for the negative
/// value with those bits.
pub open spec fn signed_value(sign: Sign, literal: Seq<char>, max: nat) -> Result<
    int,
    IntErrorKind,
> {
    let radix = radix_of(literal);
    let digits = trim_zeros(digits_of(literal));
    match sign {
        Sign::Negative => match parse_digits(digits, radix, max + 1) {
            Ok(magnitude) => Ok(-(magnitude as int)),
            Err(IntErrorKind::PosOverflow) => Err(IntErrorKind::NegOverflow),
            Err(e) => Err(e),
        },
        Sign::Positive => if radix == 10 {
            match parse_digits(digits, radix, max) {
                Ok(value) => Ok(value as int),
                Err(e) => Err(e),
            }
        } else {
            match parse_digits(digits, radix, 2 * max + 1) {
                Ok(bits) => Ok(
                    if bits <= max {
                        bits as int
                    } else {
                        bits - 2 * (max + 1)
                    },
                ),
                Err(e) => Err(e),
            }
        },
    }
}

/// A run of digits stays inside the text, holds digits only, and ends at
/// a character that is none.
pub proof fn lemma_digit_run(digits: Seq<char>, pos: int, radix: nat)
    requires
        0 <= pos <= digits.len(),
    ensures
        pos <= digit_run(digits, pos, radix) <= digits.len(),
        forall|i: int|
            pos <= i < digit_run(digits, pos, radix) ==> is_digit_of(#[trigger] digits[i], radix),
        digit_run(digits, pos, radix) < digits.len() ==> !is_digit_of(
            digits[digit_run(digits, pos, radix)],
            radix,
        ),
    decreases digits.len() - pos,
{
    if pos < digits.len() && is_digit_of(digits[pos], radix) {
        lemma_digit_run(digits, pos + 1, radix);
    }
}

/// A longer prefix never spells a smaller number.
pub proof fn lemma_prefix_value_grows(digits: Seq<char>, radix: nat, i: int, j: int)
    requires
        radix >= 1,
        0 <= i <= j <= digits.len(),
    ensures
        digits_value(digits.take(i), radix) <= digits_value(digits.take(j), radix),
    decreases j - i,
{
    if i < j {
        lemma_prefix_value_grows(digits, radix, i, j - 1);
        assert(digits.take(j).drop_last() =~= digits.take(j - 1));
        let shorter = digits_value(digits.take(j - 1), radix);
        assert(shorter * radix >= shorter) by (nonlinear_arith)
            requires
                radix >= 1,
        ;
    }
}

/// The worth of `c` as a digit of `radix`, if it is one.
pub fn to_digit(c: char, radix: u32) -> (r: Option<u32>)
    ensures
        match r {
            Some(d) => is_digit_of(c, radix as nat) && digit_value(c) == Some(d as nat),
            None => !is_digit_of(c, radix as nat),
        },
{
    let value: u32 = if '0' <= c && c <= '9' {
        c as u32 - '0' as u32
    } else if 'a' <= c && c <= 'z' {
        c as u32 - 'a' as u32 + 10
    } else if 'A' <= c && c <= 'Z' {
        c as u32 - 'A' as u32 + 10
    } else {
        return None;
    };
    if value < radix {
        Some(value)
    } else {
        None
    }
}

/// Reads `digits[start..]` as a number in `radix` that may not exceed `max`.
pub fn read_digits(digits: &[char], start: usize, radix: u32, max: u128) -> (r: Result<
    u128,
    IntErrorKind,
>)
    requires
        start <= digits@.len(),
        radix >= 1,
    ensures
        match parse_digits(digits@.skip(start as int), radix as nat, max as nat) {
            Ok(value) => r == Ok::<u128, IntErrorKind>(value as u128) && value <= max,
            Err(e) => r == Err::<u128, IntErrorKind>(e),
        },
{
    let ghost text = digits@.skip(start as int);
    let ghost base = radix as nat;
    let len = digits.len();
    if start == len {
        return Err(IntErrorKind::Empty);
    }
    let mut acc: u128 = 0;
    let mut i: usize = start;
    assert(text.take(0) =~= Seq::<char>::empty());
    while i < len
        invariant
            start <= i <= len,
            len == digits@.len(),
            start < len,
            radix >= 1,
            base == radix as nat,
            text == digits@.skip(start as int),
            digit_run(text, 0, base) == digit_run(text, i - start, base),
            acc == digits_value(text.take(i - start), base),
            acc <= max,
        decreases len - i,
    {
        let c = digits[i];
        assert(text[i - start] == c);
        let digit = match to_digit(c, radix) {
            Some(d) => d,
            None => {
                return Err(IntErrorKind::InvalidDigit);
            },
        };
        proof {
            assert(text.take(i - start + 1).drop_last() =~= text.take(i - start));
            lemma_digit_run(text, i - start + 1, base);
            lemma_prefix_value_grows(
                text,
                base,
                i - start + 1,
                digit_run(text, i - start + 1, base),
            );
        }
        let next = match acc.checked_mul(radix as u128) {
            Some(shifted) => shifted.checked_add(digit as u128),
            None => None,
        };
        match next {
            Some(value) => {
                if value > max {
                    return Err(IntErrorKind::PosOverflow);
                }
                acc = value;
            },
            None => {
                return Err(IntErrorKind::PosOverflow);
            },
        }
        i += 1;
    }
    assert(text.take(i - start) =~= text);
    Ok(acc)
}

/// The radix that the prefix of `literal` selects, and where its digits begin.
pub fn radix_prefix(literal: &[char]) -> (r: (u32, usize))
    ensures
        r.0 == radix_of(literal@),
        r.0 == 2 || r.0 == 8 || r.0 == 10 || r.0 == 16,
        r.1 <= literal@.len(),
        literal@.skip(r.1 as int) == digits_of(literal@),
{
    assert(literal@.skip(0) =~= literal@);
    if literal.len() >= 2 && literal[0] == '0' {
        let marker = literal[1];
        if marker == 'x' || marker == 'X' {
            (16, 2)
        } else if marker == 'o' || marker == 'O' {
            (8, 2)
        } else if marker == 'b' || marker == 'B' {
            (2, 2)
        } else {
            (10, 0)
        }
    } else {
        (10, 0)
    }
}

/// Reads a literal for an unsigned type whose largest value is `max`.
pub fn parse_unsigned(sign: Sign, literal: &str, max: u128) -> (r: Result<u128, IntErrorKind>)
    ensures
        match unsigned_value(sign, literal@, max as nat) {
            Ok(value) => r == Ok::<u128, IntErrorKind>(value as u128) && value <= max,
            Err(e) => r == Err::<u128, IntErrorKind>(e),
        },
{
    match sign {
        Sign::Negative => Err(IntErrorKind::InvalidDigit),
        Sign::Positive => {
            let chars = chars_of(literal);
            let (radix, start) = radix_prefix(chars.as_slice());
            read_digits(chars.as_slice(), start, radix, max)
        },
    }
}

/// A single zero spells zero in every radix.
pub proof fn lemma_parse_zero(radix: nat, max: nat)
    requires
        radix >= 1,
    ensures
        parse_digits(seq!['0'], radix, max) == Ok::<nat, IntErrorKind>(0),
{
    let zero = seq!['0'];
    assert(digit_value('0') == Some(0nat));
    assert(digit_run(zero, 1, radix) == 1);
    assert(digit_run(zero, 0, radix) == 1);
    assert(zero.take(1) =~= zero);
    assert(zero.drop_last() =~= Seq::<char>::empty());
    assert(digits_value(zero.drop_last(), radix) == 0);
    assert(digits_value(zero, radix) == 0 * radix + 0);
}

/// Reads a literal for a signed type whose largest value is `max` and whose
/// smallest is `-max - 1`.
pub fn parse_signed(sign: Sign, literal: &str, max: i128) -> (r: Result<i128, IntErrorKind>)
    requires
        max >= 0,
    ensures
        match signed_value(sign, literal@, max as nat) {
            Ok(value) => r == Ok::<i128, IntErrorKind>(value as i128) && -max - 1 <= value <= max,
            Err(e) => r == Err::<i128, IntErrorKind>(e),
        },
{
    let chars = chars_of(literal);
    let (radix, start) = radix_prefix(chars.as_slice());
    let ghost digits = digits_of(literal@);
    let len = chars.len();
    let mut first: usize = start;
    while first < len && chars[first] == '0'
        invariant
            start <= first <= len,
            len == chars@.len(),
            digits == chars@.skip(start as int),
            zero_run(digits, 0) == zero_run(digits, first - start),
        decreases len - first,
    {
        first += 1;
    }
    assert(digits.skip(first - start) =~= chars@.skip(first as int));
    if first == len {
        proof {
            lemma_parse_zero(radix as nat, max as nat);
            lemma_parse_zero(radix as nat, (max + 1) as nat);
            lemma_parse_zero(radix as nat, (2 * max + 1) as nat);
        }
        return Ok(0);
    }
    let limit = max as u128;
    match sign {
        Sign::Negative => match read_digits(chars.as_slice(), first, radix, limit + 1) {
            Ok(magnitude) => {
                if magnitude == 0 {
                    Ok(0)
                } else {
                    Ok(-((magnitude - 1) as i128) - 1)
                }
            },
            Err(IntErrorKind::PosOverflow) => Err(IntErrorKind::NegOverflow),
            Err(e) => Err(e),
        },
        Sign::Positive => {
            if radix == 10 {
                match read_digits(chars.as_slice(), first, radix, limit) {
                    Ok(value) => Ok(value as i128),
                    Err(e) => Err(e),
                }
            } else {
                let widest = 2 * limit + 1;
                match read_digits(chars.as_slice(), first, radix, widest) {
                    Ok(bits) => {
                        if bits <= limit {
                            Ok(bits as i128)
                        } else {
                            Ok(-((widest - bits) as i128) - 1)
                        }
                    },
                    Err(e) => Err(e),
                }
            }
        },
    }
}

} // verus!
