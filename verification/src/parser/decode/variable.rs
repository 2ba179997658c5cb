//! Variable-byte numbers: groups of eight bits, seven of payload each, the
//! least significant group first.

use super::{decoded, spec_zig_zag_decode, zig_zag_decode};
use crate::parser::reader::{lemma_take_bits_bound, take_bits};
use crate::parser::{ParseError, ParseResult, Reader};
use vstd::arithmetic::power2::lemma2_to64;
use vstd::prelude::*;

verus! {

/// The most groups that one number may take.
pub const MAX_GROUPS: u32 = 5;

/// The number written by the groups that start at `pos`, where `group`
/// groups of the same number stand before them, and the position behind its
/// last group. A group below 128 is the last. A group is missing where the
/// bits end first, and the number is malformed where the last group allowed
/// announces another.
pub open spec fn spec_variable_groups(bits: Seq<bool>, pos: nat, group: nat) -> Result<
    (nat, nat),
    ParseError,
>
    decreases MAX_GROUPS - group,
{
    if group >= MAX_GROUPS {
        Err(ParseError::Corrupted)
    } else if pos + 8 > bits.len() {
        Err(ParseError::UnexpectedEof)
    } else {
        let byte = take_bits(bits, pos, 8);
        if byte < 128 {
            Ok((byte, pos + 8))
        } else {
            match spec_variable_groups(bits, pos + 8, group + 1) {
                Ok((rest, end)) => Ok(((byte - 128 + 128 * rest) as nat, end)),
                Err(e) => Err(e),
            }
        }
    }
}

/// The unsigned variable-byte number at `pos`: what its groups write,
/// reduced to 32 bits.
pub open spec fn spec_variable(bits: Seq<bool>, pos: nat) -> Result<(u32, nat), ParseError> {
    match spec_variable_groups(bits, pos, 0) {
        Ok((value, end)) => Ok(((value % 0x1_0000_0000) as u32, end)),
        Err(e) => Err(e),
    }
}

/// The signed variable-byte number at `pos`: the unsigned one, read as a
/// zig-zag code.
pub open spec fn spec_variable_signed(bits: Seq<bool>, pos: nat) -> Result<(i32, nat), ParseError> {
    match spec_variable(bits, pos) {
        Ok((value, end)) => Ok((spec_zig_zag_decode(value as nat) as i32, end)),
        Err(e) => Err(e),
    }
}

/// What `groups` further groups can write at most, plus one.
spec fn groups_bound(groups: nat) -> nat
    decreases groups,
{
    if groups == 0 {
        1
    } else {
        128 * groups_bound((groups - 1) as nat)
    }
}

/// Reads the groups of one number, `group` of them having been read, and
/// returns what they write.
fn read_groups(data: &mut Reader, group: u32) -> (res: Result<u64, ParseError>)
    requires
        group <= MAX_GROUPS,
    ensures
        final(data).bytes() == old(data).bytes(),
        match spec_variable_groups(old(data).bits(), old(data).pos(), group as nat) {
            Ok((value, end)) => res == Ok::<u64, ParseError>(value as u64) && final(data).pos()
                == end && value < groups_bound((MAX_GROUPS - group) as nat),
            Err(e) => res == Err::<u64, ParseError>(e),
        },
    decreases MAX_GROUPS - group,
{
    if group >= MAX_GROUPS {
        return Err(ParseError::Corrupted);
    }
    let byte = data.read_bits(8)?;
    proof {
        lemma_take_bits_bound(old(data).bits(), old(data).pos(), 8);
        lemma2_to64();
        reveal_with_fuel(groups_bound, 6);
    }
    if byte < 128 {
        Ok(byte as u64)
    } else {
        let rest = read_groups(data, group + 1)?;
        Ok((byte - 128) as u64 + 128 * rest)
    }
}

/// Reads an unsigned variable-byte number.
pub fn variable(data: &mut Reader) -> (res: ParseResult<u32>)
    ensures
        decoded(*old(data), *final(data), res, spec_variable(old(data).bits(), old(data).pos())),
{
    let mut cursor = *data;
    let value = read_groups(&mut cursor, 0)?;
    proof {
        reveal_with_fuel(groups_bound, 6);
    }
    *data = cursor;
    Ok((value % 0x1_0000_0000) as u32)
}

/// Reads a signed variable-byte number.
pub fn variable_signed(data: &mut Reader) -> (res: ParseResult<i32>)
    ensures
        decoded(
            *old(data),
            *final(data),
            res,
            spec_variable_signed(old(data).bits(), old(data).pos()),
        ),
{
    let value = variable(data)?;
    Ok(zig_zag_decode(value))
}

} // verus!
