//! Numbers of fourteen bits, written negated as unsigned variable-byte
//! numbers.

use super::variable::{spec_variable, variable};
use super::{decoded, sign_extend, spec_sign_extend};
use crate::parser::{ParseError, ParseResult, Reader};
use vstd::prelude::*;

verus! {

/// The negated 14-bit number at `pos`: the low fourteen bits of the
/// unsigned variable-byte number there, read in two's complement and
/// negated.
pub open spec fn spec_negative_14_bit(bits: Seq<bool>, pos: nat) -> Result<(i32, nat), ParseError> {
    match spec_variable(bits, pos) {
        Ok((value, end)) => Ok(((-spec_sign_extend(value as nat, 14)) as i32, end)),
        Err(e) => Err(e),
    }
}

/// Reads a negated 14-bit number.
pub fn negative_14_bit(data: &mut Reader) -> (res: ParseResult<i32>)
    ensures
        decoded(
            *old(data),
            *final(data),
            res,
            spec_negative_14_bit(old(data).bits(), old(data).pos()),
        ),
        res matches Ok(value) ==> -8191 <= value <= 8192,
{
    let value = variable(data)?;
    proof {
        super::lemma_sign_extend(value as nat, 14);
        vstd::arithmetic::power2::lemma2_to64();
    }
    let extended = sign_extend(value as u64, 14);
    Ok((-extended) as i32)
}

} // verus!
