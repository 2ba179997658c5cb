//! Elias delta codes: a gamma code that tells how many bits the number has,
//! followed by those bits without the leading one.

use super::elias_gamma::{gamma_code, spec_gamma_code, MAX_BITS};
use super::{decoded, pow2_u64, spec_zig_zag_decode, zig_zag_decode};
use crate::parser::reader::{lemma_take_bits_bound, take_bits};
use crate::parser::{ParseError, ParseResult, Reader};
use vstd::arithmetic::power2::{lemma2_to64, lemma_pow2_strictly_increases, lemma_pow2_unfold, pow2};
use vstd::prelude::*;

verus! {

/// The Elias delta value at `pos`: a gamma code gives the length of a
/// number, the bits behind it give the number without its leading one, and
/// the value is one less than that number. A length above `MAX_BITS` is
/// malformed.
pub open spec fn spec_elias_delta(bits: Seq<bool>, pos: nat) -> Result<(u32, nat), ParseError> {
    match spec_gamma_code(bits, pos) {
        Ok((length, at)) => {
            if length > MAX_BITS {
                Err(ParseError::Corrupted)
            } else if at + length - 1 > bits.len() {
                Err(ParseError::UnexpectedEof)
            } else {
                Ok(
                    (
                        (pow2((length - 1) as nat) + take_bits(bits, at, (length - 1) as nat)
                            - 1) as u32,
                        (at + length - 1) as nat,
                    ),
                )
            }
        },
        Err(e) => Err(e),
    }
}

/// The signed Elias delta value at `pos`: the unsigned one, read as a
/// zig-zag code.
pub open spec fn spec_elias_delta_signed(bits: Seq<bool>, pos: nat) -> Result<
    (i32, nat),
    ParseError,
> {
    match spec_elias_delta(bits, pos) {
        Ok((value, end)) => Ok((spec_zig_zag_decode(value as nat) as i32, end)),
        Err(e) => Err(e),
    }
}

/// Reads an unsigned Elias delta value.
pub fn elias_delta(data: &mut Reader) -> (res: ParseResult<u32>)
    ensures
        decoded(*old(data), *final(data), res, spec_elias_delta(old(data).bits(), old(data).pos())),
{
    let mut cursor = *data;
    let length = gamma_code(&mut cursor)?;
    if length > MAX_BITS {
        return Err(ParseError::Corrupted);
    }
    let ghost at = cursor.pos();
    let low = cursor.read_bits(length - 1)?;
    proof {
        lemma_take_bits_bound(old(data).bits(), at, (length - 1) as nat);
        lemma_pow2_unfold(length as nat);
        lemma2_to64();
        if length < 32 {
            lemma_pow2_strictly_increases(length as nat, 32);
        }
    }
    let number = pow2_u64(length - 1) + (low as u64);
    *data = cursor;
    Ok((number - 1) as u32)
}

/// Reads a signed Elias delta value.
pub fn elias_delta_signed(data: &mut Reader) -> (res: ParseResult<i32>)
    ensures
        decoded(
            *old(data),
            *final(data),
            res,
            spec_elias_delta_signed(old(data).bits(), old(data).pos()),
        ),
{
    let value = elias_delta(data)?;
    Ok(zig_zag_decode(value))
}

} // verus!
