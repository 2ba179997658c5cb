//! Elias gamma codes: a run of zero bits that tells how many bits follow
//! the leading one of the number.

use super::{decoded, spec_zig_zag_decode, zig_zag_decode};
use crate::parser::reader::{lemma_take_bits_bound, take_bits};
use crate::parser::{ParseError, ParseResult, Reader};
use vstd::arithmetic::power2::{lemma2_to64, lemma_pow2_strictly_increases, pow2};
use vstd::prelude::*;

verus! {

/// The most bits that a coded number may have.
pub const MAX_BITS: u32 = 32;

/// Whether `bits` has a bit at `i` and that bit is zero.
pub open spec fn is_zero_bit(bits: Seq<bool>, i: int) -> bool {
    0 <= i < bits.len() && !bits[i]
}

/// How many zero bits stand at `pos` before a one bit, the end of the bits
/// or the `limit`-th of them.
pub open spec fn leading_zeros(bits: Seq<bool>, pos: nat, limit: nat) -> nat
    decreases limit,
{
    if limit == 0 || pos >= bits.len() || bits[pos as int] {
        0
    } else {
        1 + leading_zeros(bits, pos + 1, (limit - 1) as nat)
    }
}

/// The number that the gamma code at `pos` writes, which is at least one,
/// and the position behind the code. A run of `MAX_BITS` zero bits
/// announces a number of more than `MAX_BITS` bits, which is malformed.
pub open spec fn spec_gamma_code(bits: Seq<bool>, pos: nat) -> Result<(nat, nat), ParseError> {
    let zeros = leading_zeros(bits, pos, MAX_BITS as nat);
    if zeros >= MAX_BITS {
        Err(ParseError::Corrupted)
    } else if pos + 2 * zeros + 1 > bits.len() {
        Err(ParseError::UnexpectedEof)
    } else {
        Ok((take_bits(bits, pos + zeros, zeros + 1), pos + 2 * zeros + 1))
    }
}

/// The Elias gamma value at `pos`: one less than the number that the code
/// writes.
pub open spec fn spec_elias_gamma(bits: Seq<bool>, pos: nat) -> Result<(u32, nat), ParseError> {
    match spec_gamma_code(bits, pos) {
        Ok((number, end)) => Ok(((number - 1) as u32, end)),
        Err(e) => Err(e),
    }
}

/// The signed Elias gamma value at `pos`: the unsigned one, read as a
/// zig-zag code.
pub open spec fn spec_elias_gamma_signed(bits: Seq<bool>, pos: nat) -> Result<
    (i32, nat),
    ParseError,
> {
    match spec_elias_gamma(bits, pos) {
        Ok((value, end)) => Ok((spec_zig_zag_decode(value as nat) as i32, end)),
        Err(e) => Err(e),
    }
}

/// Bits that start with a one bit write a number that is not zero.
pub proof fn lemma_take_bits_leading_one(bits: Seq<bool>, pos: nat, n: nat)
    requires
        n >= 1,
        bits[pos as int],
    ensures
        take_bits(bits, pos, n) >= pow2((n - 1) as nat),
    decreases n,
{
    if n == 1 {
        lemma2_to64();
        assert(take_bits(bits, pos, 0) == 0);
    } else {
        lemma_take_bits_leading_one(bits, pos, (n - 1) as nat);
        vstd::arithmetic::power2::lemma_pow2_unfold((n - 1) as nat);
    }
}

/// The gamma code at `pos` writes a number from one up to `2^MAX_BITS - 1`.
pub proof fn lemma_gamma_code_range(bits: Seq<bool>, pos: nat)
    ensures
        spec_gamma_code(bits, pos) matches Ok((number, end)) ==> 1 <= number <= u32::MAX && pos
            < end <= bits.len(),
{
    let zeros = leading_zeros(bits, pos, MAX_BITS as nat);
    if spec_gamma_code(bits, pos) is Ok {
        lemma_leading_zeros(bits, pos, MAX_BITS as nat);
        lemma_take_bits_leading_one(bits, pos + zeros, zeros + 1);
        lemma_take_bits_bound(bits, pos + zeros, zeros + 1);
        vstd::arithmetic::power2::lemma_pow2_pos(zeros);
        lemma2_to64();
        if zeros + 1 < 32 {
            lemma_pow2_strictly_increases(zeros + 1, 32);
        }
    }
}

/// The bits counted by `leading_zeros` are zero, there are at most `limit`
/// of them, and where there are fewer and the bits go on, a one bit follows.
pub proof fn lemma_leading_zeros(bits: Seq<bool>, pos: nat, limit: nat)
    ensures
        leading_zeros(bits, pos, limit) <= limit,
        forall|i: int|
            pos <= i < pos + leading_zeros(bits, pos, limit) ==> #[trigger] is_zero_bit(bits, i),
        leading_zeros(bits, pos, limit) < limit && pos + leading_zeros(bits, pos, limit)
            < bits.len() ==> bits[(pos + leading_zeros(bits, pos, limit)) as int],
    decreases limit,
{
    if limit == 0 || pos >= bits.len() || bits[pos as int] {
    } else {
        lemma_leading_zeros(bits, pos + 1, (limit - 1) as nat);
        let rest = leading_zeros(bits, pos + 1, (limit - 1) as nat);
        assert forall|i: int| pos <= i < pos + 1 + rest implies #[trigger] is_zero_bit(bits, i) by {
            if i > pos {
                assert(pos + 1 <= i < pos + 1 + rest);
            }
        }
    }
}

/// Reads a gamma code and returns the number that it writes.
pub(crate) fn gamma_code(data: &mut Reader) -> (res: ParseResult<u32>)
    ensures
        final(data).bytes() == old(data).bytes(),
        match spec_gamma_code(old(data).bits(), old(data).pos()) {
            Ok((number, end)) => res == Ok::<u32, ParseError>(number as u32) && final(data).pos()
                == end && 1 <= number <= u32::MAX,
            Err(e) => res == Err::<u32, ParseError>(e) && final(data).pos() == old(data).pos(),
        },
{
    let mut cursor = *data;
    let mut zeros: u32 = 0;
    let mut found = false;
    while zeros < MAX_BITS && !found
        invariant
            zeros <= MAX_BITS,
            *data == *old(data),
            cursor.bytes() == old(data).bytes(),
            cursor.pos() == old(data).pos() + zeros,
            leading_zeros(old(data).bits(), old(data).pos(), MAX_BITS as nat) == zeros
                + leading_zeros(old(data).bits(), cursor.pos(), (MAX_BITS - zeros) as nat),
            found ==> zeros < MAX_BITS && cursor.pos() < old(data).bits().len() && old(
                data,
            ).bits()[cursor.pos() as int],
        decreases MAX_BITS - zeros + if found { 0int } else { 1int },
    {
        let mut probe = cursor;
        match probe.read_bit() {
            Ok(true) => {
                found = true;
            },
            Ok(false) => {
                cursor = probe;
                zeros = zeros + 1;
            },
            Err(e) => {
                return Err(e);
            },
        }
    }
    if !found {
        return Err(ParseError::Corrupted);
    }
    let number = cursor.read_bits(zeros + 1)?;
    proof {
        lemma_gamma_code_range(old(data).bits(), old(data).pos());
    }
    *data = cursor;
    Ok(number)
}

/// Reads an unsigned Elias gamma value.
pub fn elias_gamma(data: &mut Reader) -> (res: ParseResult<u32>)
    ensures
        decoded(*old(data), *final(data), res, spec_elias_gamma(old(data).bits(), old(data).pos())),
{
    let number = gamma_code(data)?;
    Ok(number - 1)
}

/// Reads a signed Elias gamma value.
pub fn elias_gamma_signed(data: &mut Reader) -> (res: ParseResult<i32>)
    ensures
        decoded(
            *old(data),
            *final(data),
            res,
            spec_elias_gamma_signed(old(data).bits(), old(data).pos()),
        ),
{
    let value = elias_gamma(data)?;
    Ok(zig_zag_decode(value))
}

} // verus!
