//! The integer codecs of data frames.
//!
//! Every codec reads from the current bit position of a [`Reader`] and
//! leaves the cursor directly behind what it has read. A codec that fails
//! reads nothing: the cursor stays where it was.

use super::reader::{lemma_take_bits_bound, take_bits};
use super::{ParseError, ParseResult, Reader};
use vstd::arithmetic::div_mod::{lemma_mod_bound, lemma_mod_multiples_vanish, lemma_small_mod};
use vstd::arithmetic::power2::{lemma2_to64, lemma2_to64_rest, lemma_pow2_pos, lemma_pow2_unfold, pow2};
use vstd::bits::lemma_u64_shl_is_mul;
use vstd::prelude::*;

pub mod elias_delta;
pub mod encode;
pub mod elias_gamma;
pub mod negative_14_bit;
pub mod tagged_16;
pub mod tagged_32;
pub mod tagged_variable;
pub mod variable;

pub use elias_delta::{elias_delta, elias_delta_signed};
pub use elias_gamma::{elias_gamma, elias_gamma_signed};
pub use negative_14_bit::negative_14_bit;
pub use tagged_16::tagged_16;
pub use tagged_32::tagged_32;
pub use tagged_variable::tagged_variable;
pub use variable::{variable, variable_signed};

verus! {

/// How the values of one field are written in a frame.
#[derive(Debug, Clone, Copy, PartialEq, Eq, Hash, Structural)]
pub enum Encoding {
    /// Signed variable byte
    VariableSigned,
    /// Unsigned variable byte
    Variable,
    /// Unsigned variable byte, but negated after decoding. Value fits in 14 bits
    Negative14Bit,
    EliasDelta,
    EliasDeltaSigned,
    TaggedVariable,
    Tagged32,
    /// 1 tag byte containing 4 2 bit tags, followed by 4 fields
    ///
    /// | Tag | Field width         |
    /// |-----|---------------------|
    /// | 0   | 0 (field value = 0) |
    /// | 1   | 4                   |
    /// | 2   | 8                   |
    /// | 3   | 16                  |
    Tagged16,
    /// Nothing is written to the log, assume value is 0
    Null,
    EliasGamma,
    EliasGammaSigned,
}

impl Encoding {
    /// The number that stands for this encoding in a header.
    pub open spec fn spec_tag(self) -> u8 {
        match self {
            Encoding::VariableSigned => 0,
            Encoding::Variable => 1,
            Encoding::Negative14Bit => 3,
            Encoding::EliasDelta => 4,
            Encoding::EliasDeltaSigned => 5,
            Encoding::TaggedVariable => 6,
            Encoding::Tagged32 => 7,
            Encoding::Tagged16 => 8,
            Encoding::Null => 9,
            Encoding::EliasGamma => 10,
            Encoding::EliasGammaSigned => 11,
        }
    }

    /// The encoding that `tag` stands for, if there is one.
    pub open spec fn spec_from_tag(tag: u8) -> Option<Encoding> {
        if tag == 0 {
            Some(Encoding::VariableSigned)
        } else if tag == 1 {
            Some(Encoding::Variable)
        } else if tag == 3 {
            Some(Encoding::Negative14Bit)
        } else if tag == 4 {
            Some(Encoding::EliasDelta)
        } else if tag == 5 {
            Some(Encoding::EliasDeltaSigned)
        } else if tag == 6 {
            Some(Encoding::TaggedVariable)
        } else if tag == 7 {
            Some(Encoding::Tagged32)
        } else if tag == 8 {
            Some(Encoding::Tagged16)
        } else if tag == 9 {
            Some(Encoding::Null)
        } else if tag == 10 {
            Some(Encoding::EliasGamma)
        } else if tag == 11 {
            Some(Encoding::EliasGammaSigned)
        } else {
            None
        }
    }

    /// The number that stands for this encoding in a header.
    pub fn tag(self) -> (tag: u8)
        ensures
            tag == self.spec_tag(),
            Self::spec_from_tag(tag) == Some(self),
    {
        match self {
            Encoding::VariableSigned => 0,
            Encoding::Variable => 1,
            Encoding::Negative14Bit => 3,
            Encoding::EliasDelta => 4,
            Encoding::EliasDeltaSigned => 5,
            Encoding::TaggedVariable => 6,
            Encoding::Tagged32 => 7,
            Encoding::Tagged16 => 8,
            Encoding::Null => 9,
            Encoding::EliasGamma => 10,
            Encoding::EliasGammaSigned => 11,
        }
    }

    /// The encoding that `tag` stands for; `None` for a number that stands
    /// for none.
    pub fn from_tag(tag: u8) -> (encoding: Option<Encoding>)
        ensures
            encoding == Self::spec_from_tag(tag),
            encoding matches Some(found) ==> found.spec_tag() == tag,
    {
        match tag {
            0 => Some(Encoding::VariableSigned),
            1 => Some(Encoding::Variable),
            3 => Some(Encoding::Negative14Bit),
            4 => Some(Encoding::EliasDelta),
            5 => Some(Encoding::EliasDeltaSigned),
            6 => Some(Encoding::TaggedVariable),
            7 => Some(Encoding::Tagged32),
            8 => Some(Encoding::Tagged16),
            9 => Some(Encoding::Null),
            10 => Some(Encoding::EliasGamma),
            11 => Some(Encoding::EliasGammaSigned),
            _ => None,
        }
    }
}

/// What a codec has done when it returns: given the reader `before` the call
/// and what the codec is `expected` to find there (a value and the position
/// behind it, or an error), the codec returned that value and left the
/// cursor at that position, or returned that error and left the cursor
/// where it was.
pub open spec fn decoded<T>(
    before: Reader,
    after: Reader,
    res: Result<T, ParseError>,
    expected: Result<(T, nat), ParseError>,
) -> bool {
    &&& after.bytes() == before.bytes()
    &&& match expected {
        Ok((value, end)) => res == Ok::<T, ParseError>(value) && after.pos() == end,
        Err(e) => res == Err::<T, ParseError>(e) && after.pos() == before.pos(),
    }
}

/// The same for a codec that returns several values: what it returned holds
/// the `expected` values in their order.
pub open spec fn decoded_all<T: View>(
    before: Reader,
    after: Reader,
    res: Result<T, ParseError>,
    expected: Result<(T::V, nat), ParseError>,
) -> bool {
    &&& after.bytes() == before.bytes()
    &&& match expected {
        Ok((values, end)) => (res matches Ok(found) && found@ == values) && after.pos() == end,
        Err(e) => res == Err::<T, ParseError>(e) && after.pos() == before.pos(),
    }
}

/// A codec is a function of the bytes under the reader and of the position
/// of its cursor: two calls that find the same there return the same, value
/// or error, and leave the cursor at the same position.
pub proof fn lemma_decoded_is_determined<T>(
    before: Reader,
    after: Reader,
    res: Result<T, ParseError>,
    other_before: Reader,
    other_after: Reader,
    other_res: Result<T, ParseError>,
    expected: Result<(T, nat), ParseError>,
)
    requires
        before.bytes() == other_before.bytes(),
        before.pos() == other_before.pos(),
        decoded(before, after, res, expected),
        decoded(other_before, other_after, other_res, expected),
    ensures
        res == other_res,
        after.bytes() == other_after.bytes(),
        after.pos() == other_after.pos(),
{
}

/// The same for a codec that returns several values.
pub proof fn lemma_decoded_all_is_determined<T: View>(
    before: Reader,
    after: Reader,
    res: Result<T, ParseError>,
    other_before: Reader,
    other_after: Reader,
    other_res: Result<T, ParseError>,
    expected: Result<(T::V, nat), ParseError>,
)
    requires
        before.bytes() == other_before.bytes(),
        before.pos() == other_before.pos(),
        decoded_all(before, after, res, expected),
        decoded_all(other_before, other_after, other_res, expected),
    ensures
        res is Ok <==> other_res is Ok,
        res matches Ok(found) ==> other_res matches Ok(other) && found@ == other@,
        res is Err ==> res == other_res,
        after.bytes() == other_after.bytes(),
        after.pos() == other_after.pos(),
{
}

/// The number that the low `width` bits of `x` write in two's complement.
pub open spec fn spec_sign_extend(x: nat, width: nat) -> int {
    let low = x % pow2(width);
    if width > 0 && low >= pow2((width - 1) as nat) {
        low - pow2(width)
    } else {
        low as int
    }
}

/// The signed number that the zig-zag code `value` stands for: even codes
/// are the numbers from zero up, odd codes those from minus one down.
pub open spec fn spec_zig_zag_decode(value: nat) -> int {
    if value % 2 == 0 {
        (value / 2) as int
    } else {
        -((value / 2) as int) - 1
    }
}

/// The zig-zag code of a signed number.
pub open spec fn spec_zig_zag_encode(value: int) -> nat {
    if value >= 0 {
        (2 * value) as nat
    } else {
        (-2 * value - 1) as nat
    }
}

/// The signed number written by the `width` bits at `pos`; zero where
/// `width` is zero.
pub open spec fn spec_signed_bits(bits: Seq<bool>, pos: nat, width: nat) -> int {
    spec_sign_extend(take_bits(bits, pos, width), width)
}

/// Sign extension yields a number of `width` bits in two's complement that
/// agrees with `x` on the low `width` bits.
pub proof fn lemma_sign_extend(x: nat, width: nat)
    requires
        width >= 1,
    ensures
        -pow2((width - 1) as nat) <= spec_sign_extend(x, width) < pow2((width - 1) as nat),
        spec_sign_extend(x, width) % (pow2(width) as int) == x % pow2(width),
{
    let m = pow2(width) as int;
    let low = (x % pow2(width)) as int;
    lemma_pow2_pos(width);
    lemma_pow2_unfold(width);
    lemma_mod_bound(x as int, m);
    lemma_small_mod(low as nat, m as nat);
    if low >= pow2((width - 1) as nat) {
        lemma_mod_multiples_vanish(-1, low, m);
    }
}

/// Decoding undoes encoding on every 32-bit signed number, and the codes
/// of those numbers are the 32-bit unsigned numbers.
pub proof fn lemma_zig_zag_round_trip(value: int)
    requires
        i32::MIN <= value <= i32::MAX,
    ensures
        spec_zig_zag_encode(value) <= u32::MAX,
        spec_zig_zag_decode(spec_zig_zag_encode(value)) == value,
{
}

/// Encoding undoes decoding on every 32-bit code, and what is decoded is a
/// 32-bit signed number.
pub proof fn lemma_zig_zag_decode_encode(code: nat)
    requires
        code <= u32::MAX,
    ensures
        i32::MIN <= spec_zig_zag_decode(code) <= i32::MAX,
        spec_zig_zag_encode(spec_zig_zag_decode(code)) == code,
{
}

/// Zero is its own code; the codes 1, `u32::MAX - 1` and `u32::MAX` stand
/// for -1, `i32::MAX` and `i32::MIN`.
pub proof fn lemma_zig_zag_bounds()
    ensures
        spec_zig_zag_decode(0) == 0,
        spec_zig_zag_decode(1) == -1,
        spec_zig_zag_decode(u32::MAX as nat) == i32::MIN,
        spec_zig_zag_decode((u32::MAX - 1) as nat) == i32::MAX,
{
}

/// Two to the power `e`.
pub(crate) fn pow2_u64(e: u32) -> (power: u64)
    requires
        e < 64,
    ensures
        power == pow2(e as nat),
{
    proof {
        vstd::bits::lemma_u64_pow2_no_overflow(e as nat);
        lemma_u64_shl_is_mul(1, e as u64);
    }
    1u64 << e
}

/// The value of a field that is not written to the log: zero. Nothing is
/// read.
pub fn null(data: &mut Reader) -> (res: ParseResult<i32>)
    ensures
        decoded(*old(data), *final(data), res, Ok::<(i32, nat), ParseError>((0i32, old(data).pos()))),
{
    Ok(0)
}

/// Reads the low `bits` bits of `from` as a number in two's complement.
pub fn sign_extend(from: u64, bits: u32) -> (res: i64)
    requires
        1 <= bits <= 64,
    ensures
        res == spec_sign_extend(from as nat, bits as nat),
{
    proof {
        lemma2_to64();
        lemma2_to64_rest();
        lemma_pow2_unfold(bits as nat);
    }
    if bits == 64 {
        proof {
            lemma_small_mod(from as nat, pow2(64));
        }
        if from >= 0x8000_0000_0000_0000 {
            ((from - 0x8000_0000_0000_0000) as i64) + i64::MIN
        } else {
            from as i64
        }
    } else {
        let half = pow2_u64(bits - 1);
        let modulus = pow2_u64(bits);
        let low = from % modulus;
        if low >= half {
            ((low - half) as i64) - (half as i64)
        } else {
            low as i64
        }
    }
}

/// The signed number that the zig-zag code `value` stands for.
pub fn zig_zag_decode(value: u32) -> (res: i32)
    ensures
        res == spec_zig_zag_decode(value as nat),
{
    let half = (value / 2) as i32;
    if value % 2 == 0 {
        half
    } else {
        -half - 1
    }
}

/// Reads `width` bits as a signed number. Where fewer bits are left,
/// nothing is read.
pub(crate) fn read_signed(data: &mut Reader, width: u32) -> (res: ParseResult<i32>)
    requires
        width <= 32,
    ensures
        final(data).bytes() == old(data).bytes(),
        match res {
            Ok(value) => {
                &&& old(data).pos() + width <= old(data).bits().len()
                &&& value == spec_signed_bits(old(data).bits(), old(data).pos(), width as nat)
                &&& final(data).pos() == old(data).pos() + width
                &&& width > 0 ==> -pow2((width - 1) as nat) <= value < pow2((width - 1) as nat)
                &&& width == 0 ==> value == 0
            },
            Err(e) => {
                &&& e == ParseError::UnexpectedEof
                &&& old(data).pos() + width > old(data).bits().len()
                &&& final(data).pos() == old(data).pos()
            },
        },
{
    let raw = data.read_bits(width)?;
    if width == 0 {
        proof {
            lemma2_to64();
        }
        Ok(0)
    } else {
        proof {
            lemma_sign_extend(raw as nat, width as nat);
            lemma2_to64();
            if width < 32 {
                vstd::arithmetic::power2::lemma_pow2_strictly_increases((width - 1) as nat, 31);
            }
        }
        Ok(sign_extend(raw as u64, width) as i32)
    }
}

} // verus!
