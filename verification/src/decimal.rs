//! Construction of a 256-bit value from a decimal numeral.
use vstd::prelude::*;
use crate::value::{limbs_to_nat, modulus, U256};

verus! {

/// Why a text was rejected as a decimal numeral of a 256-bit value.
#[derive(Clone, Copy, Debug, PartialEq, Eq, Structural)]
pub enum DecimalError {
    /// The text holds a character that is not one of `0` to `9`.
    InvalidCharacter,
    /// The numeral stands for a number of 2^256 or more.
    OutOfRange,
}

/// Whether `c` is one of the characters `0` to `9`.
pub open spec fn is_decimal_digit(c: char) -> bool {
    '0' <= c && c <= '9'
}

/// The number that a decimal digit stands for.
pub open spec fn digit_value(c: char) -> nat {
    (c as u32 - '0' as u32) as nat
}

/// Whether every character of `s` is a decimal digit.
pub open spec fn all_digits(s: Seq<char>) -> bool {
    forall|i: int| 0 <= i < s.len() ==> is_decimal_digit(#[trigger] s[i])
}

/// The number that a sequence of decimal digits stands for, most
/// significant digit first. The empty sequence stands for zero.
pub open spec fn decimal_value(s: Seq<char>) -> nat
    decreases s.len(),
{
    if s.len() == 0 {
        0
    } else {
        10 * decimal_value(s.drop_last()) + digit_value(s.last())
    }
}

/// Whether reading `s` from the left meets a character at `i` that is not
/// a digit, after digits that stand for a number below 2^256.
pub open spec fn stops_at_character(s: Seq<char>, i: int) -> bool {
    &&& 0 <= i < s.len()
    &&& !is_decimal_digit(s[i])
    &&& all_digits(s.take(i))
    &&& decimal_value(s.take(i)) < modulus()
}

/// What reading `s` as a decimal numeral gives: its number when every
/// character is a digit and the number is below 2^256; `InvalidCharacter`
/// when a character that is no digit is met before the digits read so far
/// reach 2^256; `OutOfRange` in every other case.
pub open spec fn decimal_outcome(s: Seq<char>) -> Result<nat, DecimalError> {
    if all_digits(s) && decimal_value(s) < modulus() {
        Ok(decimal_value(s))
    } else if exists|i: int| stops_at_character(s, i) {
        Err(DecimalError::InvalidCharacter)
    } else {
        Err(DecimalError::OutOfRange)
    }
}

/// Calls `ethereum_types::U256::from_dec_str` and hands back the four
/// limbs of what it parsed, least significant first, or its error. Not
/// proved: that the parser reads the text digit by digit from the left,
/// accepts exactly the texts made of the digits `0` to `9` whose number is
/// below 2^256 (the empty text as zero), reports `InvalidCharacter` for a
/// character that is no digit met while the number read so far is in
/// range, and `InvalidLength` once the number read so far leaves the range.
#[verifier::external_body]
fn parse_decimal_limbs(value: &str) -> (r: Result<[u64; 4], DecimalError>)
    ensures
        match decimal_outcome(value@) {
            Ok(number) => r is Ok && limbs_to_nat(
                r->Ok_0@[0],
                r->Ok_0@[1],
                r->Ok_0@[2],
                r->Ok_0@[3],
            ) == number,
            Err(error) => r == Err::<[u64; 4], DecimalError>(error),
        },
{
    match ethereum_types::U256::from_dec_str(value) {
        Ok(parsed) => Ok(parsed.0),
        Err(uint::FromDecStrErr::InvalidCharacter) => Err(DecimalError::InvalidCharacter),
        Err(uint::FromDecStrErr::InvalidLength) => Err(DecimalError::OutOfRange),
    }
}

impl U256 {
    /// Reads a decimal numeral. Succeeds exactly on the texts made of
    /// decimal digits whose number is below 2^256, with that number as the
    /// result; every other text is rejected with the error that
    /// `decimal_outcome` names.
    pub fn from_dec_str(value: &str) -> (r: Result<U256, DecimalError>)
        ensures
            match decimal_outcome(value@) {
                Ok(number) => r is Ok && r->Ok_0@ == number,
                Err(error) => r == Err::<U256, DecimalError>(error),
            },
    {
        match parse_decimal_limbs(value) {
            Ok(data) => Ok(U256::from_slice(&data)),
            Err(error) => Err(error),
        }
    }
}

} // verus!
