//! The codes that the decoders read, written down as sequences of bits, and
//! the proofs that decoding a code gives back the number that was encoded.
//!
//! Nothing here is executable: the encoders say which bits stand for a
//! number, so that the decoders can be held against them.

use super::elias_delta::{spec_elias_delta, spec_elias_delta_signed};
use super::elias_gamma::{
    is_zero_bit, leading_zeros, lemma_gamma_code_range, lemma_leading_zeros,
    lemma_take_bits_leading_one, spec_elias_gamma, spec_elias_gamma_signed, spec_gamma_code,
    MAX_BITS,
};
use super::tagged_16::{spec_field_width, spec_tagged_16};
use super::tagged_32::spec_tagged_32;
use super::tagged_variable::{spec_after, spec_tagged_variable};
use super::variable::{spec_variable, spec_variable_groups, spec_variable_signed, MAX_GROUPS};
use super::{
    lemma_sign_extend, lemma_zig_zag_decode_encode, lemma_zig_zag_round_trip, spec_sign_extend,
    spec_signed_bits, spec_zig_zag_encode,
};
use crate::parser::reader::{lemma_take_bits_bound, take_bits};
use crate::parser::ParseError;
use vstd::arithmetic::div_mod::{
    lemma_mod_bound, lemma_mod_breakdown, lemma_mod_multiples_vanish, lemma_small_mod,
};
use vstd::arithmetic::power2::{
    lemma2_to64, lemma_pow2_pos, lemma_pow2_strictly_increases, lemma_pow2_unfold, pow2,
};
use vstd::prelude::*;

verus! {

/// The low `width` bits of `value`, the most significant first.
pub open spec fn number_bits(value: nat, width: nat) -> Seq<bool>
    decreases width,
{
    if width == 0 {
        Seq::empty()
    } else {
        number_bits(value / 2, (width - 1) as nat).push(value % 2 == 1)
    }
}

/// Whether `code` stands in `bits` at `pos`.
pub open spec fn holds_at(bits: Seq<bool>, pos: nat, code: Seq<bool>) -> bool {
    &&& pos + code.len() <= bits.len()
    &&& forall|i: int| 0 <= i < code.len() ==> bits[pos + i] == #[trigger] code[i]
}

/// How many bits it takes to write `value`: none for zero.
pub open spec fn bit_length(value: nat) -> nat
    decreases value,
{
    if value == 0 {
        0
    } else {
        1 + bit_length(value / 2)
    }
}

pub proof fn lemma_number_bits_len(value: nat, width: nat)
    ensures
        number_bits(value, width).len() == width,
    decreases width,
{
    if width > 0 {
        lemma_number_bits_len(value / 2, (width - 1) as nat);
    }
}

/// Where two codes stand one behind the other, each of them stands there.
pub proof fn lemma_holds_at_parts(bits: Seq<bool>, pos: nat, first: Seq<bool>, second: Seq<bool>)
    requires
        holds_at(bits, pos, first + second),
    ensures
        holds_at(bits, pos, first),
        holds_at(bits, pos + first.len(), second),
{
    let whole = first + second;
    assert forall|i: int| 0 <= i < first.len() implies bits[pos + i] == #[trigger] first[i] by {
        assert(whole[i] == first[i]);
    }
    assert forall|i: int| 0 <= i < second.len() implies bits[pos + first.len() + i]
        == #[trigger] second[i] by {
        assert(whole[first.len() + i] == second[i]);
    }
}

/// Where the bits of a number stand, `take_bits` reads that number.
pub proof fn lemma_take_number_bits(bits: Seq<bool>, pos: nat, value: nat, width: nat)
    requires
        holds_at(bits, pos, number_bits(value, width)),
    ensures
        take_bits(bits, pos, width) == value % pow2(width),
    decreases width,
{
    lemma_number_bits_len(value, width);
    if width == 0 {
        lemma2_to64();
    } else {
        let shorter = number_bits(value / 2, (width - 1) as nat);
        lemma_number_bits_len(value / 2, (width - 1) as nat);
        assert forall|i: int| 0 <= i < shorter.len() implies bits[pos + i] == #[trigger] shorter[i] by {
            assert(number_bits(value, width)[i] == shorter[i]);
        }
        lemma_take_number_bits(bits, pos, value / 2, (width - 1) as nat);
        assert(number_bits(value, width)[width - 1] == (value % 2 == 1));
        lemma_pow2_pos((width - 1) as nat);
        lemma_pow2_unfold(width);
        lemma_mod_breakdown(value as int, 2, pow2((width - 1) as nat) as int);
    }
}

/// The bits of the number that `take_bits` reads are the bits that it read.
pub proof fn lemma_number_bits_of_take(bits: Seq<bool>, pos: nat, width: nat)
    requires
        pos + width <= bits.len(),
    ensures
        holds_at(bits, pos, number_bits(take_bits(bits, pos, width), width)),
    decreases width,
{
    let value = take_bits(bits, pos, width);
    lemma_number_bits_len(value, width);
    if width > 0 {
        lemma_number_bits_of_take(bits, pos, (width - 1) as nat);
        let shorter = take_bits(bits, pos, (width - 1) as nat);
        assert(value / 2 == shorter);
        assert((value % 2 == 1) == bits[pos + width - 1]);
        lemma_number_bits_len(shorter, (width - 1) as nat);
        assert forall|i: int| 0 <= i < width implies bits[pos + i] == #[trigger] number_bits(
            value,
            width,
        )[i] by {
            if i < width - 1 {
                assert(number_bits(shorter, (width - 1) as nat)[i] == bits[pos + i]);
            }
        }
    }
}

/// A number is below two to the power of its length, and, unless it is
/// zero, not below half of that.
pub proof fn lemma_bit_length(value: nat)
    ensures
        value < pow2(bit_length(value)),
        value > 0 ==> pow2((bit_length(value) - 1) as nat) <= value,
    decreases value,
{
    if value == 0 {
        lemma2_to64();
    } else {
        lemma_bit_length(value / 2);
        lemma_pow2_unfold(bit_length(value));
        if value / 2 > 0 {
            lemma_pow2_unfold((bit_length(value) - 1) as nat);
        } else {
            lemma2_to64();
        }
    }
}

/// The length of a number is the one exponent whose power of two is above
/// the number while half of it is not.
pub proof fn lemma_bit_length_is(value: nat, length: nat)
    requires
        length >= 1,
        pow2((length - 1) as nat) <= value < pow2(length),
    ensures
        bit_length(value) == length,
{
    lemma_bit_length(value);
    lemma_pow2_pos((length - 1) as nat);
    let found = bit_length(value);
    if found < length {
        if found < length - 1 {
            lemma_pow2_strictly_increases(found, (length - 1) as nat);
        }
    } else if found > length {
        if found - 1 > length {
            lemma_pow2_strictly_increases(length, (found - 1) as nat);
        }
    }
}

/// The bits of a number at its own length start with a one.
pub proof fn lemma_leading_bit(value: nat)
    requires
        value >= 1,
    ensures
        number_bits(value, bit_length(value)).len() == bit_length(value),
        number_bits(value, bit_length(value))[0],
    decreases value,
{
    lemma_number_bits_len(value, bit_length(value));
    if value >= 2 {
        lemma_leading_bit(value / 2);
        assert(number_bits(value, bit_length(value))[0] == number_bits(
            value / 2,
            bit_length(value / 2),
        )[0]);
    } else {
        assert(bit_length(value / 2) == 0);
        assert(number_bits(value, 1) == number_bits(value / 2, 0).push(value % 2 == 1));
    }
}

/// The variable-byte code of `value`: groups of seven bits from the least
/// significant up, each behind a bit that says whether another follows.
pub open spec fn spec_variable_encode(value: nat) -> Seq<bool>
    decreases value,
{
    if value < 128 {
        number_bits(value, 8)
    } else {
        number_bits(128 + value % 128, 8) + spec_variable_encode(value / 128)
    }
}

/// How many groups the variable-byte code of `value` has.
pub open spec fn variable_groups(value: nat) -> nat
    decreases value,
{
    if value < 128 {
        1
    } else {
        1 + variable_groups(value / 128)
    }
}

/// The code of `value` has eight bits for each group.
pub proof fn lemma_variable_encode_len(value: nat)
    ensures
        spec_variable_encode(value).len() == 8 * variable_groups(value),
    decreases value,
{
    lemma_number_bits_len(value, 8);
    lemma_number_bits_len(128 + value % 128, 8);
    if value >= 128 {
        lemma_variable_encode_len(value / 128);
    }
}

/// A number takes one group for every seven bits of its length, and one
/// group where it is zero.
pub proof fn lemma_variable_groups(value: nat)
    ensures
        variable_groups(value) == if value == 0 {
            1
        } else {
            (bit_length(value) + 6) / 7
        },
        value <= u32::MAX ==> variable_groups(value) <= MAX_GROUPS,
    decreases value,
{
    if value < 128 {
        reveal_with_fuel(bit_length, 9);
    } else {
        lemma_variable_groups(value / 128);
        reveal_with_fuel(bit_length, 8);
        assert(bit_length(value) == 7 + bit_length(value / 128));
    }
    if value <= u32::MAX {
        let second = value / 128;
        let third = second / 128;
        let fourth = third / 128;
        let fifth = fourth / 128;
        assert(fifth < 128);
        reveal_with_fuel(variable_groups, 6);
    }
}

/// Where the code of `value` stands and its groups are not too many, the
/// groups write `value`.
pub proof fn lemma_variable_groups_round_trip(bits: Seq<bool>, pos: nat, value: nat, group: nat)
    requires
        holds_at(bits, pos, spec_variable_encode(value)),
        group + variable_groups(value) <= MAX_GROUPS,
    ensures
        spec_variable_groups(bits, pos, group) == Ok::<(nat, nat), ParseError>(
            (value, pos + 8 * variable_groups(value)),
        ),
    decreases value,
{
    lemma2_to64();
    lemma_variable_encode_len(value);
    if value < 128 {
        lemma_take_number_bits(bits, pos, value, 8);
        lemma_small_mod(value, 256);
    } else {
        let first = number_bits(128 + value % 128, 8);
        lemma_number_bits_len(128 + value % 128, 8);
        lemma_holds_at_parts(bits, pos, first, spec_variable_encode(value / 128));
        lemma_take_number_bits(bits, pos, 128 + value % 128, 8);
        lemma_small_mod(128 + value % 128, 256);
        lemma_variable_groups_round_trip(bits, pos + 8, value / 128, group + 1);
    }
}

/// Decoding undoes encoding: wherever the variable-byte code of a 32-bit
/// number stands, `variable` reads that number and stops behind the code,
/// which has one byte for every seven bits of the number, and one byte for
/// zero.
pub proof fn lemma_variable_round_trip(bits: Seq<bool>, pos: nat, value: nat)
    requires
        value <= u32::MAX,
        holds_at(bits, pos, spec_variable_encode(value)),
    ensures
        spec_variable(bits, pos) == Ok::<(u32, nat), ParseError>(
            (value as u32, pos + spec_variable_encode(value).len()),
        ),
        spec_variable_encode(value).len() == 8 * if value == 0 {
            1
        } else {
            (bit_length(value) + 6) / 7
        },
{
    lemma_variable_groups(value);
    lemma_variable_encode_len(value);
    lemma_variable_groups_round_trip(bits, pos, value, 0);
}

/// The same for signed numbers, which are written as their zig-zag codes.
pub proof fn lemma_variable_signed_round_trip(bits: Seq<bool>, pos: nat, value: int)
    requires
        i32::MIN <= value <= i32::MAX,
        holds_at(bits, pos, spec_variable_encode(spec_zig_zag_encode(value))),
    ensures
        spec_variable_signed(bits, pos) == Ok::<(i32, nat), ParseError>(
            (value as i32, pos + spec_variable_encode(spec_zig_zag_encode(value)).len()),
        ),
{
    lemma_zig_zag_round_trip(value);
    lemma_variable_round_trip(bits, pos, spec_zig_zag_encode(value));
}

/// What `variable` has read is the code of the number that it returns,
/// unless the code was longer than it had to be: unless its groups wrote
/// more than 32 bits, or the last of several groups was zero.
pub proof fn lemma_variable_canonical(bits: Seq<bool>, pos: nat, group: nat)
    requires
        spec_variable_groups(bits, pos, group) matches Ok((value, end)) && end - pos == 8
            * variable_groups(value),
    ensures
        spec_variable_groups(bits, pos, group) matches Ok((value, end)) && holds_at(
            bits,
            pos,
            spec_variable_encode(value),
        ),
    decreases MAX_GROUPS - group,
{
    let byte = take_bits(bits, pos, 8);
    let (value, end) = spec_variable_groups(bits, pos, group)->Ok_0;
    lemma_number_bits_of_take(bits, pos, 8);
    lemma_number_bits_len(byte, 8);
    lemma_take_bits_bound(bits, pos, 8);
    lemma2_to64();
    if byte >= 128 {
        let (rest, rest_end) = spec_variable_groups(bits, pos + 8, group + 1)->Ok_0;
        lemma_variable_groups_end(bits, pos + 8, group + 1);
        assert(value / 128 == rest && value % 128 == byte - 128);
        if value < 128 {
            assert(false);
        }
        lemma_variable_canonical(bits, pos + 8, group + 1);
        lemma_variable_encode_len(rest);
        let first = number_bits(byte, 8);
        let code = spec_variable_encode(value);
        assert(code == first + spec_variable_encode(rest));
        assert forall|i: int| 0 <= i < code.len() implies bits[pos + i] == #[trigger] code[i] by {
            if i < 8 {
                assert(code[i] == first[i]);
            } else {
                assert(code[i] == spec_variable_encode(rest)[i - 8]);
                assert(bits[pos + 8 + (i - 8)] == spec_variable_encode(rest)[i - 8]);
            }
        }
    }
}

/// Groups that can be read take eight bits each, one at least.
pub proof fn lemma_variable_groups_end(bits: Seq<bool>, pos: nat, group: nat)
    ensures
        spec_variable_groups(bits, pos, group) matches Ok((value, end)) ==> pos + 8 <= end
            <= bits.len(),
    decreases MAX_GROUPS - group,
{
    if group < MAX_GROUPS && pos + 8 <= bits.len() && take_bits(bits, pos, 8) >= 128 {
        lemma_variable_groups_end(bits, pos + 8, group + 1);
    }
}

/// Re-encoding what `variable` has read and decoding it again gives the same
/// number from the same count of bits, unless the code that was read was
/// longer than it had to be.
pub proof fn lemma_variable_reencode(bits: Seq<bool>, pos: nat)
    requires
        spec_variable_groups(bits, pos, 0) matches Ok((value, end)) && value <= u32::MAX && end
            - pos == 8 * variable_groups(value),
    ensures
        spec_variable(bits, pos) matches Ok((value, end)) && spec_variable(
            spec_variable_encode(value as nat),
            0,
        ) == Ok::<(u32, nat), ParseError>((value, (end - pos) as nat)),
{
    let (value, end) = spec_variable_groups(bits, pos, 0)->Ok_0;
    lemma_variable_canonical(bits, pos, 0);
    lemma_variable_encode_len(value);
    let code = spec_variable_encode(value);
    assert(holds_at(code, 0, code));
    lemma_variable_round_trip(code, 0, value);
}

/// Where two codes stand one behind the other, they stand there as one.
pub proof fn lemma_holds_at_join(bits: Seq<bool>, pos: nat, first: Seq<bool>, second: Seq<bool>)
    requires
        holds_at(bits, pos, first),
        holds_at(bits, pos + first.len(), second),
    ensures
        holds_at(bits, pos, first + second),
{
    let whole = first + second;
    assert forall|i: int| 0 <= i < whole.len() implies bits[pos + i] == #[trigger] whole[i] by {
        if i < first.len() {
            assert(whole[i] == first[i]);
        } else {
            assert(whole[i] == second[i - first.len()]);
            assert(bits[pos + first.len() + (i - first.len())] == second[i - first.len()]);
        }
    }
}

/// `count` zero bits.
pub open spec fn zero_bits(count: nat) -> Seq<bool> {
    Seq::new(count, |i: int| false)
}

/// The gamma code of a number that is not zero: a zero bit for every bit of
/// the number but the first, then the number.
pub open spec fn spec_gamma_encode(number: nat) -> Seq<bool> {
    zero_bits((bit_length(number) - 1) as nat) + number_bits(number, bit_length(number))
}

/// The Elias gamma code of `value`: the gamma code of the number above it.
pub open spec fn spec_elias_gamma_encode(value: nat) -> Seq<bool> {
    spec_gamma_encode(value + 1)
}

/// The Elias delta code of `value`: the gamma code of the length of the
/// number above it, then that number without its leading one.
pub open spec fn spec_elias_delta_encode(value: nat) -> Seq<bool> {
    let length = bit_length(value + 1);
    spec_gamma_encode(length) + number_bits(
        (value + 1 - pow2((length - 1) as nat)) as nat,
        (length - 1) as nat,
    )
}

/// A run of `count` zero bits that a one bit ends before the limit is the
/// run that `leading_zeros` counts.
pub proof fn lemma_leading_zeros_is(bits: Seq<bool>, pos: nat, limit: nat, count: nat)
    requires
        count < limit,
        pos + count < bits.len(),
        forall|i: int| pos <= i < pos + count ==> #[trigger] is_zero_bit(bits, i),
        bits[(pos + count) as int],
    ensures
        leading_zeros(bits, pos, limit) == count,
    decreases count,
{
    if count > 0 {
        assert(is_zero_bit(bits, pos as int));
        assert forall|i: int| pos + 1 <= i < pos + 1 + (count - 1) implies #[trigger] is_zero_bit(
            bits,
            i,
        ) by {}
        lemma_leading_zeros_is(bits, pos + 1, (limit - 1) as nat, (count - 1) as nat);
    }
}

/// The length of a 32-bit number is at most 32.
pub proof fn lemma_bit_length_u32(value: nat)
    requires
        value <= u32::MAX,
    ensures
        bit_length(value) <= 32,
{
    lemma_bit_length(value);
    lemma2_to64();
    if bit_length(value) > 33 {
        lemma_pow2_strictly_increases(32, (bit_length(value) - 1) as nat);
    }
}

/// Wherever the gamma code of a number from 1 to `u32::MAX` stands, the
/// decoder reads that number and stops behind the code, which is one bit
/// short of twice as long as the number.
pub proof fn lemma_gamma_code_round_trip(bits: Seq<bool>, pos: nat, number: nat)
    requires
        1 <= number <= u32::MAX,
        holds_at(bits, pos, spec_gamma_encode(number)),
    ensures
        spec_gamma_code(bits, pos) == Ok::<(nat, nat), ParseError>(
            (number, pos + spec_gamma_encode(number).len()),
        ),
        spec_gamma_encode(number).len() == 2 * bit_length(number) - 1,
{
    let width = bit_length(number);
    let zeros = (width - 1) as nat;
    lemma_bit_length(number);
    lemma_bit_length_u32(number);
    lemma_number_bits_len(number, width);
    lemma_holds_at_parts(bits, pos, zero_bits(zeros), number_bits(number, width));
    assert forall|i: int| pos <= i < pos + zeros implies #[trigger] is_zero_bit(bits, i) by {
        assert(bits[pos + (i - pos)] == zero_bits(zeros)[i - pos]);
    }
    lemma_leading_bit(number);
    assert(bits[pos + zeros + 0int] == number_bits(number, width)[0]);
    lemma_leading_zeros_is(bits, pos, MAX_BITS as nat, zeros);
    lemma_take_number_bits(bits, pos + zeros, number, width);
    lemma_small_mod(number, pow2(width));
}

/// What the decoder of gamma codes has read is the gamma code of the
/// number that it returns.
pub proof fn lemma_gamma_code_canonical(bits: Seq<bool>, pos: nat)
    requires
        spec_gamma_code(bits, pos) is Ok,
    ensures
        spec_gamma_code(bits, pos) matches Ok((number, end)) && holds_at(
            bits,
            pos,
            spec_gamma_encode(number),
        ) && end == pos + spec_gamma_encode(number).len() && 1 <= number <= u32::MAX,
{
    let zeros = leading_zeros(bits, pos, MAX_BITS as nat);
    let (number, end) = spec_gamma_code(bits, pos)->Ok_0;
    lemma_gamma_code_range(bits, pos);
    lemma_leading_zeros(bits, pos, MAX_BITS as nat);
    lemma_take_bits_leading_one(bits, pos + zeros, zeros + 1);
    lemma_take_bits_bound(bits, pos + zeros, zeros + 1);
    lemma_bit_length_is(number, zeros + 1);
    lemma_number_bits_of_take(bits, pos + zeros, zeros + 1);
    lemma_number_bits_len(number, zeros + 1);
    assert forall|i: int| 0 <= i < zeros implies bits[pos + i] == #[trigger] zero_bits(zeros)[i] by {
        assert(is_zero_bit(bits, pos + i));
    }
    lemma_holds_at_join(bits, pos, zero_bits(zeros), number_bits(number, zeros + 1));
}

/// Wherever the Elias gamma code of a number below `u32::MAX` stands,
/// `elias_gamma` reads that number and stops behind the code.
pub proof fn lemma_elias_gamma_round_trip(bits: Seq<bool>, pos: nat, value: nat)
    requires
        value < u32::MAX,
        holds_at(bits, pos, spec_elias_gamma_encode(value)),
    ensures
        spec_elias_gamma(bits, pos) == Ok::<(u32, nat), ParseError>(
            (value as u32, pos + spec_elias_gamma_encode(value).len()),
        ),
{
    lemma_gamma_code_round_trip(bits, pos, value + 1);
}

/// The same for signed numbers, which are written as their zig-zag codes.
pub proof fn lemma_elias_gamma_signed_round_trip(bits: Seq<bool>, pos: nat, value: int)
    requires
        i32::MIN < value <= i32::MAX,
        holds_at(bits, pos, spec_elias_gamma_encode(spec_zig_zag_encode(value))),
    ensures
        spec_elias_gamma_signed(bits, pos) == Ok::<(i32, nat), ParseError>(
            (value as i32, pos + spec_elias_gamma_encode(spec_zig_zag_encode(value)).len()),
        ),
{
    lemma_zig_zag_round_trip(value);
    lemma_elias_gamma_round_trip(bits, pos, spec_zig_zag_encode(value));
}

/// What `elias_gamma` has read is the code of the number that it returns:
/// re-encoding that number and decoding it again gives the same number from
/// the same count of bits.
pub proof fn lemma_elias_gamma_reencode(bits: Seq<bool>, pos: nat)
    requires
        spec_elias_gamma(bits, pos) is Ok,
    ensures
        spec_elias_gamma(bits, pos) matches Ok((value, end)) && holds_at(
            bits,
            pos,
            spec_elias_gamma_encode(value as nat),
        ) && spec_elias_gamma(spec_elias_gamma_encode(value as nat), 0) == Ok::<
            (u32, nat),
            ParseError,
        >((value, (end - pos) as nat)),
{
    lemma_gamma_code_canonical(bits, pos);
    let value = spec_elias_gamma(bits, pos)->Ok_0.0;
    let code = spec_elias_gamma_encode(value as nat);
    assert(holds_at(code, 0, code));
    lemma_elias_gamma_round_trip(code, 0, value as nat);
}

/// Wherever the Elias delta code of a number below `u32::MAX` stands,
/// `elias_delta` reads that number and stops behind the code.
pub proof fn lemma_elias_delta_round_trip(bits: Seq<bool>, pos: nat, value: nat)
    requires
        value < u32::MAX,
        holds_at(bits, pos, spec_elias_delta_encode(value)),
    ensures
        spec_elias_delta(bits, pos) == Ok::<(u32, nat), ParseError>(
            (value as u32, pos + spec_elias_delta_encode(value).len()),
        ),
{
    let number = value + 1;
    let length = bit_length(number);
    let low = (number - pow2((length - 1) as nat)) as nat;
    lemma_bit_length(number);
    lemma_bit_length_u32(number);
    lemma_pow2_unfold(length);
    lemma_number_bits_len(low, (length - 1) as nat);
    lemma_holds_at_parts(
        bits,
        pos,
        spec_gamma_encode(length),
        number_bits(low, (length - 1) as nat),
    );
    lemma_gamma_code_round_trip(bits, pos, length);
    let at = pos + spec_gamma_encode(length).len();
    lemma_take_number_bits(bits, at, low, (length - 1) as nat);
    lemma_pow2_pos((length - 1) as nat);
    lemma_small_mod(low, pow2((length - 1) as nat));
}

/// The same for signed numbers, which are written as their zig-zag codes.
pub proof fn lemma_elias_delta_signed_round_trip(bits: Seq<bool>, pos: nat, value: int)
    requires
        i32::MIN < value <= i32::MAX,
        holds_at(bits, pos, spec_elias_delta_encode(spec_zig_zag_encode(value))),
    ensures
        spec_elias_delta_signed(bits, pos) == Ok::<(i32, nat), ParseError>(
            (value as i32, pos + spec_elias_delta_encode(spec_zig_zag_encode(value)).len()),
        ),
{
    lemma_zig_zag_round_trip(value);
    lemma_elias_delta_round_trip(bits, pos, spec_zig_zag_encode(value));
}

/// What `elias_delta` has read is the code of the number that it returns:
/// re-encoding that number and decoding it again gives the same number from
/// the same count of bits.
pub proof fn lemma_elias_delta_reencode(bits: Seq<bool>, pos: nat)
    requires
        spec_elias_delta(bits, pos) is Ok,
    ensures
        spec_elias_delta(bits, pos) matches Ok((value, end)) && holds_at(
            bits,
            pos,
            spec_elias_delta_encode(value as nat),
        ) && spec_elias_delta(spec_elias_delta_encode(value as nat), 0) == Ok::<
            (u32, nat),
            ParseError,
        >((value, (end - pos) as nat)),
{
    lemma_gamma_code_canonical(bits, pos);
    let (length, at) = spec_gamma_code(bits, pos)->Ok_0;
    let (value, end) = spec_elias_delta(bits, pos)->Ok_0;
    let low = take_bits(bits, at, (length - 1) as nat);
    let number = pow2((length - 1) as nat) + low;
    lemma_take_bits_bound(bits, at, (length - 1) as nat);
    lemma_pow2_unfold(length);
    lemma2_to64();
    if length < 32 {
        lemma_pow2_strictly_increases(length, 32);
    }
    lemma_bit_length_is(number, length);
    assert(value as nat + 1 == number);
    lemma_number_bits_of_take(bits, at, (length - 1) as nat);
    lemma_number_bits_len(low, (length - 1) as nat);
    lemma_holds_at_join(
        bits,
        pos,
        spec_gamma_encode(length),
        number_bits(low, (length - 1) as nat),
    );
    let code = spec_elias_delta_encode(value as nat);
    assert(holds_at(code, 0, code));
    lemma_elias_delta_round_trip(code, 0, value as nat);
}

/// The same for `variable_signed`, `elias_gamma_signed` and
/// `elias_delta_signed`: the signed number that was read is written again as
/// the code that was read, so that decoding it again gives the same number
/// from the same count of bits. For variable-byte numbers this holds unless
/// the code that was read was longer than it had to be.
pub proof fn lemma_signed_reencode(bits: Seq<bool>, pos: nat)
    ensures
        spec_variable_groups(bits, pos, 0) matches Ok((raw, end)) && raw <= u32::MAX && end - pos
            == 8 * variable_groups(raw) ==> (spec_variable_signed(bits, pos) matches Ok(
            (value, end),
        ) && spec_variable_signed(spec_variable_encode(spec_zig_zag_encode(value as int)), 0)
            == Ok::<(i32, nat), ParseError>((value, (end - pos) as nat))),
        spec_elias_gamma_signed(bits, pos) matches Ok((value, end)) ==> spec_elias_gamma_signed(
            spec_elias_gamma_encode(spec_zig_zag_encode(value as int)),
            0,
        ) == Ok::<(i32, nat), ParseError>((value, (end - pos) as nat)),
        spec_elias_delta_signed(bits, pos) matches Ok((value, end)) ==> spec_elias_delta_signed(
            spec_elias_delta_encode(spec_zig_zag_encode(value as int)),
            0,
        ) == Ok::<(i32, nat), ParseError>((value, (end - pos) as nat)),
{
    if let Ok((raw, end)) = spec_variable_groups(bits, pos, 0) {
        if raw <= u32::MAX && end - pos == 8 * variable_groups(raw) {
            lemma_variable_reencode(bits, pos);
            lemma_zig_zag_decode_encode(raw);
        }
    }
    if let Ok((code, end)) = spec_elias_gamma(bits, pos) {
        lemma_elias_gamma_reencode(bits, pos);
        lemma_zig_zag_decode_encode(code as nat);
    }
    if let Ok((code, end)) = spec_elias_delta(bits, pos) {
        lemma_elias_delta_reencode(bits, pos);
        lemma_zig_zag_decode_encode(code as nat);
    }
}

/// The low `width` bits of a signed number in two's complement, the most
/// significant first.
pub open spec fn signed_bits(value: int, width: nat) -> Seq<bool> {
    number_bits((value % (pow2(width) as int)) as nat, width)
}

/// A signed number that `width` bits can hold is read back from its bits.
pub proof fn lemma_signed_bits_round_trip(bits: Seq<bool>, pos: nat, value: int, width: nat)
    requires
        holds_at(bits, pos, signed_bits(value, width)),
        if width == 0 {
            value == 0
        } else {
            -pow2((width - 1) as nat) <= value < pow2((width - 1) as nat)
        },
    ensures
        spec_signed_bits(bits, pos, width) == value,
{
    let modulus = pow2(width) as int;
    lemma_pow2_pos(width);
    lemma_mod_bound(value, modulus);
    let low = (value % modulus) as nat;
    lemma_take_number_bits(bits, pos, low, width);
    lemma_small_mod(low, modulus as nat);
    if width == 0 {
        lemma2_to64();
    } else {
        lemma_pow2_unfold(width);
        lemma_pow2_pos((width - 1) as nat);
        if value >= 0 {
            lemma_small_mod(value as nat, modulus as nat);
        } else {
            lemma_mod_multiples_vanish(1, value, modulus);
            lemma_small_mod((value + modulus) as nat, modulus as nat);
        }
    }
}

/// Where four codes stand one behind another, each of them stands there.
pub proof fn lemma_holds_at_four(
    bits: Seq<bool>,
    pos: nat,
    a: Seq<bool>,
    b: Seq<bool>,
    c: Seq<bool>,
    d: Seq<bool>,
)
    requires
        holds_at(bits, pos, a + b + c + d),
    ensures
        holds_at(bits, pos, a),
        holds_at(bits, pos + a.len(), b),
        holds_at(bits, pos + a.len() + b.len(), c),
        holds_at(bits, pos + a.len() + b.len() + c.len(), d),
{
    lemma_holds_at_parts(bits, pos, a + b + c, d);
    lemma_holds_at_parts(bits, pos, a + b, c);
    lemma_holds_at_parts(bits, pos, a, b);
}

/// The tag of the narrowest field that holds `value`.
pub open spec fn spec_tag_16(value: int) -> nat {
    if value == 0 {
        0
    } else if -8 <= value < 8 {
        1
    } else if -128 <= value < 128 {
        2
    } else {
        3
    }
}

/// The four tags of a group of 16-bit numbers.
pub open spec fn spec_tags_16(values: Seq<i16>) -> Seq<bool> {
    number_bits(spec_tag_16(values[0] as int), 2) + number_bits(spec_tag_16(values[1] as int), 2)
        + number_bits(spec_tag_16(values[2] as int), 2) + number_bits(
        spec_tag_16(values[3] as int),
        2,
    )
}

/// The field of a number in a group of 16-bit numbers, as narrow as the
/// number allows.
pub open spec fn spec_field_16(value: i16) -> Seq<bool> {
    signed_bits(value as int, spec_field_width(spec_tag_16(value as int)))
}

/// The code of a group of four 16-bit numbers: the tags, then the fields,
/// each as narrow as its number allows.
pub open spec fn spec_tagged_16_encode(values: Seq<i16>) -> Seq<bool> {
    spec_tags_16(values) + (spec_field_16(values[0]) + spec_field_16(values[1]) + spec_field_16(
        values[2],
    ) + spec_field_16(values[3]))
}

/// A number is read back from its field.
pub proof fn lemma_field_16_round_trip(bits: Seq<bool>, pos: nat, value: i16)
    requires
        holds_at(bits, pos, spec_field_16(value)),
    ensures
        spec_signed_bits(bits, pos, spec_field_width(spec_tag_16(value as int))) == value,
        spec_field_16(value).len() == spec_field_width(spec_tag_16(value as int)),
{
    let width = spec_field_width(spec_tag_16(value as int));
    lemma2_to64();
    lemma_pow2_pos(width);
    lemma_mod_bound(value as int, pow2(width) as int);
    lemma_number_bits_len((value as int % (pow2(width) as int)) as nat, width);
    lemma_signed_bits_round_trip(bits, pos, value as int, width);
}

/// Wherever the code of four 16-bit numbers stands, `tagged_16` reads those
/// numbers and stops behind the code.
pub proof fn lemma_tagged_16_round_trip(bits: Seq<bool>, pos: nat, values: Seq<i16>)
    requires
        values.len() == 4,
        holds_at(bits, pos, spec_tagged_16_encode(values)),
    ensures
        spec_tagged_16(bits, pos) == Ok::<(Seq<i16>, nat), ParseError>(
            (values, pos + spec_tagged_16_encode(values).len()),
        ),
{
    lemma2_to64();
    let t0 = spec_tag_16(values[0] as int);
    let t1 = spec_tag_16(values[1] as int);
    let t2 = spec_tag_16(values[2] as int);
    let t3 = spec_tag_16(values[3] as int);
    let fields = spec_field_16(values[0]) + spec_field_16(values[1]) + spec_field_16(values[2])
        + spec_field_16(values[3]);
    lemma_number_bits_len(t0, 2);
    lemma_number_bits_len(t1, 2);
    lemma_number_bits_len(t2, 2);
    lemma_number_bits_len(t3, 2);
    lemma_holds_at_parts(bits, pos, spec_tags_16(values), fields);
    lemma_holds_at_four(
        bits,
        pos,
        number_bits(t0, 2),
        number_bits(t1, 2),
        number_bits(t2, 2),
        number_bits(t3, 2),
    );
    lemma_take_number_bits(bits, pos, t0, 2);
    lemma_take_number_bits(bits, pos + 2, t1, 2);
    lemma_take_number_bits(bits, pos + 4, t2, 2);
    lemma_take_number_bits(bits, pos + 6, t3, 2);
    lemma_small_mod(t0, 4);
    lemma_small_mod(t1, 4);
    lemma_small_mod(t2, 4);
    lemma_small_mod(t3, 4);
    lemma_holds_at_four(
        bits,
        pos + 8,
        spec_field_16(values[0]),
        spec_field_16(values[1]),
        spec_field_16(values[2]),
        spec_field_16(values[3]),
    );
    let s0 = pos + 8;
    lemma_field_16_round_trip(bits, s0, values[0]);
    let s1 = s0 + spec_field_16(values[0]).len();
    lemma_field_16_round_trip(bits, s1, values[1]);
    let s2 = s1 + spec_field_16(values[1]).len();
    lemma_field_16_round_trip(bits, s2, values[2]);
    let s3 = s2 + spec_field_16(values[2]).len();
    lemma_field_16_round_trip(bits, s3, values[3]);
    assert(spec_tagged_16(bits, pos) is Ok);
    assert(spec_tagged_16(bits, pos)->Ok_0.0 =~= values);
}

/// Re-encoding what `tagged_16` has read and decoding it again gives the
/// same numbers from the same count of bits, unless a field that was read
/// was wider than its number needs.
pub proof fn lemma_tagged_16_reencode(bits: Seq<bool>, pos: nat)
    requires
        spec_tagged_16(bits, pos) matches Ok((values, end)) && forall|i: int|
            0 <= i < 4 ==> take_bits(bits, (pos + 2 * i) as nat, 2) == spec_tag_16(
                #[trigger] values[i] as int,
            ),
    ensures
        spec_tagged_16(bits, pos) matches Ok((values, end)) && spec_tagged_16(
            spec_tagged_16_encode(values),
            0,
        ) == Ok::<(Seq<i16>, nat), ParseError>((values, (end - pos) as nat)),
{
    let (values, end) = spec_tagged_16(bits, pos)->Ok_0;
    let code = spec_tagged_16_encode(values);
    assert(holds_at(code, 0, code));
    lemma_tagged_16_round_trip(code, 0, values);
    lemma2_to64();
    assert(take_bits(bits, (pos + 2 * 0) as nat, 2) == spec_tag_16(values[0] as int));
    assert(take_bits(bits, (pos + 2 * 1) as nat, 2) == spec_tag_16(values[1] as int));
    assert(take_bits(bits, (pos + 2 * 2) as nat, 2) == spec_tag_16(values[2] as int));
    assert(take_bits(bits, (pos + 2 * 3) as nat, 2) == spec_tag_16(values[3] as int));
    lemma_code_16_len(values);
}

/// The code of a group of 16-bit numbers has eight bits of tags and the
/// bits of its fields.
pub proof fn lemma_code_16_len(values: Seq<i16>)
    ensures
        spec_tagged_16_encode(values).len() == 8 + spec_field_width(
            spec_tag_16(values[0] as int),
        ) + spec_field_width(spec_tag_16(values[1] as int)) + spec_field_width(
            spec_tag_16(values[2] as int),
        ) + spec_field_width(spec_tag_16(values[3] as int)),
{
    lemma_number_bits_len(spec_tag_16(values[0] as int), 2);
    lemma_number_bits_len(spec_tag_16(values[1] as int), 2);
    lemma_number_bits_len(spec_tag_16(values[2] as int), 2);
    lemma_number_bits_len(spec_tag_16(values[3] as int), 2);
    lemma_field_16_len(values[0]);
    lemma_field_16_len(values[1]);
    lemma_field_16_len(values[2]);
    lemma_field_16_len(values[3]);
}

/// The field of a number is as wide as its tag says.
pub proof fn lemma_field_16_len(value: i16)
    ensures
        spec_field_16(value).len() == spec_field_width(spec_tag_16(value as int)),
{
    let width = spec_field_width(spec_tag_16(value as int));
    lemma_pow2_pos(width);
    lemma_mod_bound(value as int, pow2(width) as int);
    lemma_number_bits_len((value as int % (pow2(width) as int)) as nat, width);
}

/// The bits of a signed number are as many as were asked for.
pub proof fn lemma_signed_bits_len(value: int, width: nat)
    ensures
        signed_bits(value, width).len() == width,
{
    lemma_pow2_pos(width);
    lemma_mod_bound(value, pow2(width) as int);
    lemma_number_bits_len((value % (pow2(width) as int)) as nat, width);
}

/// The tag of the shortest group that holds three 32-bit numbers.
pub open spec fn spec_tag_32(values: Seq<i32>) -> nat {
    if values[1] == 0 && values[2] == 0 && -2 <= values[0] < 2 {
        0
    } else if values[2] == 0 && -8 <= values[0] < 8 && -8 <= values[1] < 8 {
        1
    } else if -32 <= values[0] < 32 && -32 <= values[1] < 32 && -32 <= values[2] < 32 {
        2
    } else {
        3
    }
}

/// Whether `value` is a signed number of `bytes` bytes.
pub open spec fn fits_bytes(value: i32, bytes: nat) -> bool {
    -pow2((8 * bytes - 1) as nat) <= value < pow2((8 * bytes - 1) as nat)
}

/// The selector of the narrowest fields of whole bytes that hold three
/// 32-bit numbers: one less than the count of bytes.
pub open spec fn spec_selector_32(values: Seq<i32>) -> nat {
    if fits_bytes(values[0], 1) && fits_bytes(values[1], 1) && fits_bytes(values[2], 1) {
        0
    } else if fits_bytes(values[0], 2) && fits_bytes(values[1], 2) && fits_bytes(values[2], 2) {
        1
    } else if fits_bytes(values[0], 3) && fits_bytes(values[1], 3) && fits_bytes(values[2], 3) {
        2
    } else {
        3
    }
}

/// The code of a group of three 32-bit numbers, as short as the numbers
/// allow.
pub open spec fn spec_tagged_32_encode(values: Seq<i32>) -> Seq<bool> {
    let tag = spec_tag_32(values);
    if tag == 0 {
        number_bits(0, 2) + signed_bits(values[0] as int, 2)
    } else if tag == 1 {
        number_bits(1, 2) + signed_bits(values[0] as int, 4) + signed_bits(values[1] as int, 4)
    } else if tag == 2 {
        number_bits(2, 2) + signed_bits(values[0] as int, 6) + signed_bits(values[1] as int, 6)
            + signed_bits(values[2] as int, 6)
    } else {
        let selector = spec_selector_32(values);
        let width = 8 * (selector + 1);
        number_bits(3, 2) + number_bits(selector, 2) + (signed_bits(values[0] as int, width)
            + signed_bits(values[1] as int, width) + signed_bits(values[2] as int, width))
    }
}

/// Wherever the code of three 32-bit numbers stands, `tagged_32` reads
/// those numbers and stops behind the code.
pub proof fn lemma_tagged_32_round_trip(bits: Seq<bool>, pos: nat, values: Seq<i32>)
    requires
        values.len() == 3,
        holds_at(bits, pos, spec_tagged_32_encode(values)),
    ensures
        spec_tagged_32(bits, pos) == Ok::<(Seq<i32>, nat), ParseError>(
            (values, pos + spec_tagged_32_encode(values).len()),
        ),
        spec_tagged_32_encode(values).len() == if spec_tag_32(values) == 0 {
            4
        } else if spec_tag_32(values) == 1 {
            10
        } else if spec_tag_32(values) == 2 {
            20
        } else {
            4 + 24 * (spec_selector_32(values) + 1)
        },
{
    lemma2_to64();
    let tag = spec_tag_32(values);
    let a = values[0] as int;
    let b = values[1] as int;
    let c = values[2] as int;
    lemma_number_bits_len(tag, 2);
    lemma_small_mod(tag, 4);
    if tag == 0 {
        lemma_signed_bits_len(a, 2);
        lemma_holds_at_parts(bits, pos, number_bits(0, 2), signed_bits(a, 2));
        lemma_take_number_bits(bits, pos, 0, 2);
        lemma_signed_bits_round_trip(bits, pos + 2, a, 2);
    } else if tag == 1 {
        lemma_signed_bits_len(a, 4);
        lemma_signed_bits_len(b, 4);
        lemma_holds_at_parts(bits, pos, number_bits(1, 2) + signed_bits(a, 4), signed_bits(b, 4));
        lemma_holds_at_parts(bits, pos, number_bits(1, 2), signed_bits(a, 4));
        lemma_take_number_bits(bits, pos, 1, 2);
        lemma_signed_bits_round_trip(bits, pos + 2, a, 4);
        lemma_signed_bits_round_trip(bits, pos + 6, b, 4);
    } else if tag == 2 {
        lemma_signed_bits_len(a, 6);
        lemma_signed_bits_len(b, 6);
        lemma_signed_bits_len(c, 6);
        lemma_holds_at_four(
            bits,
            pos,
            number_bits(2, 2),
            signed_bits(a, 6),
            signed_bits(b, 6),
            signed_bits(c, 6),
        );
        lemma_take_number_bits(bits, pos, 2, 2);
        lemma_signed_bits_round_trip(bits, pos + 2, a, 6);
        lemma_signed_bits_round_trip(bits, pos + 8, b, 6);
        lemma_signed_bits_round_trip(bits, pos + 14, c, 6);
    } else {
        let selector = spec_selector_32(values);
        let width = 8 * (selector + 1);
        let fields = signed_bits(a, width) + signed_bits(b, width) + signed_bits(c, width);
        lemma_number_bits_len(selector, 2);
        lemma_small_mod(selector, 4);
        lemma_signed_bits_len(a, width);
        lemma_signed_bits_len(b, width);
        lemma_signed_bits_len(c, width);
        lemma_holds_at_parts(bits, pos, number_bits(3, 2) + number_bits(selector, 2), fields);
        lemma_holds_at_parts(bits, pos, number_bits(3, 2), number_bits(selector, 2));
        lemma_holds_at_parts(
            bits,
            pos + 4,
            signed_bits(a, width) + signed_bits(b, width),
            signed_bits(c, width),
        );
        lemma_holds_at_parts(bits, pos + 4, signed_bits(a, width), signed_bits(b, width));
        lemma_take_number_bits(bits, pos, 3, 2);
        lemma_take_number_bits(bits, pos + 2, selector, 2);
        lemma_signed_bits_round_trip(bits, pos + 4, a, width);
        lemma_signed_bits_round_trip(bits, pos + 4 + width, b, width);
        lemma_signed_bits_round_trip(bits, pos + 4 + 2 * width, c, width);
    }
    assert(spec_tagged_32(bits, pos) is Ok);
    assert(spec_tagged_32(bits, pos)->Ok_0.0 =~= values);
}

/// Re-encoding what `tagged_32` has read and decoding it again gives the
/// same numbers from the same count of bits, unless the group that was read
/// was longer than its numbers need.
pub proof fn lemma_tagged_32_reencode(bits: Seq<bool>, pos: nat)
    requires
        spec_tagged_32(bits, pos) matches Ok((values, end)) && take_bits(bits, pos, 2)
            == spec_tag_32(values) && (spec_tag_32(values) == 3 ==> take_bits(bits, pos + 2, 2)
            == spec_selector_32(values)),
    ensures
        spec_tagged_32(bits, pos) matches Ok((values, end)) && spec_tagged_32(
            spec_tagged_32_encode(values),
            0,
        ) == Ok::<(Seq<i32>, nat), ParseError>((values, (end - pos) as nat)),
{
    let (values, end) = spec_tagged_32(bits, pos)->Ok_0;
    let code = spec_tagged_32_encode(values);
    assert(holds_at(code, 0, code));
    lemma_tagged_32_round_trip(code, 0, values);
}

/// The code of a run of signed numbers: their variable-byte codes one
/// behind another.
pub open spec fn spec_tagged_variable_encode(values: Seq<i32>) -> Seq<bool>
    decreases values.len(),
{
    if values.len() == 0 {
        Seq::empty()
    } else {
        spec_variable_encode(spec_zig_zag_encode(values[0] as int)) + spec_tagged_variable_encode(
            values.drop_first(),
        )
    }
}

/// Wherever the code of a run of signed numbers stands, `tagged_variable`
/// reads those numbers, given their count, and stops behind the code.
pub proof fn lemma_tagged_variable_round_trip(bits: Seq<bool>, pos: nat, values: Seq<i32>)
    requires
        holds_at(bits, pos, spec_tagged_variable_encode(values)),
    ensures
        spec_tagged_variable(bits, pos, values.len()) == Ok::<(Seq<i32>, nat), ParseError>(
            (values, pos + spec_tagged_variable_encode(values).len()),
        ),
    decreases values.len(),
{
    if values.len() == 0 {
        assert(values =~= Seq::empty());
    } else {
        let first = spec_variable_encode(spec_zig_zag_encode(values[0] as int));
        let rest = values.drop_first();
        lemma_holds_at_parts(bits, pos, first, spec_tagged_variable_encode(rest));
        lemma_variable_signed_round_trip(bits, pos, values[0] as int);
        lemma_tagged_variable_round_trip(bits, pos + first.len(), rest);
        assert(seq![values[0]] + rest =~= values);
    }
}

/// Whether each of the `count` variable-byte codes at `pos` is as short as
/// its number allows.
pub open spec fn shortest_codes(bits: Seq<bool>, pos: nat, count: nat) -> bool
    decreases count,
{
    count == 0 || (spec_variable_groups(bits, pos, 0) matches Ok((raw, end)) && raw <= u32::MAX
        && end - pos == 8 * variable_groups(raw) && shortest_codes(bits, end, (count - 1) as nat))
}

/// What `tagged_variable` has read is the code of the numbers that it
/// returns, unless one of the codes was longer than it had to be.
pub proof fn lemma_tagged_variable_canonical(bits: Seq<bool>, pos: nat, count: nat)
    requires
        pos <= bits.len(),
        shortest_codes(bits, pos, count),
        spec_tagged_variable(bits, pos, count) is Ok,
    ensures
        spec_tagged_variable(bits, pos, count) matches Ok((values, end)) && values.len() == count
            && holds_at(bits, pos, spec_tagged_variable_encode(values)) && end == pos
            + spec_tagged_variable_encode(values).len(),
    decreases count,
{
    if count > 0 {
        let (raw, next) = spec_variable_groups(bits, pos, 0)->Ok_0;
        let (first, _) = spec_variable_signed(bits, pos)->Ok_0;
        lemma_variable_canonical(bits, pos, 0);
        lemma_variable_groups_end(bits, pos, 0);
        lemma_variable_encode_len(raw);
        lemma_zig_zag_decode_encode(raw);
        lemma_tagged_variable_canonical(bits, next, (count - 1) as nat);
        let (rest, end) = spec_tagged_variable(bits, next, (count - 1) as nat)->Ok_0;
        let values = seq![first] + rest;
        assert(values.drop_first() =~= rest);
        assert(values[0] == first);
        lemma_holds_at_join(
            bits,
            pos,
            spec_variable_encode(raw),
            spec_tagged_variable_encode(rest),
        );
    }
}

/// Re-encoding what `tagged_variable` has read and decoding it again gives
/// the same numbers from the same count of bits, unless one of the codes
/// that were read was longer than it had to be.
pub proof fn lemma_tagged_variable_reencode(bits: Seq<bool>, pos: nat, count: nat)
    requires
        pos <= bits.len(),
        shortest_codes(bits, pos, count),
        spec_tagged_variable(bits, pos, count) is Ok,
    ensures
        spec_tagged_variable(bits, pos, count) matches Ok((values, end)) && spec_tagged_variable(
            spec_tagged_variable_encode(values),
            0,
            count,
        ) == Ok::<(Seq<i32>, nat), ParseError>((values, (end - pos) as nat)),
{
    lemma_tagged_variable_canonical(bits, pos, count);
    let values = spec_tagged_variable(bits, pos, count)->Ok_0.0;
    let code = spec_tagged_variable_encode(values);
    assert(holds_at(code, 0, code));
    lemma_tagged_variable_round_trip(code, 0, values);
}

} // verus!
