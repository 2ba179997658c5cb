//! Groups of three 32-bit numbers behind a two-bit tag.

use super::{decoded_all, read_signed, spec_signed_bits};
use crate::parser::reader::{lemma_take_bits_bound, take_bits};
use crate::parser::{ParseError, ParseResult, Reader};
use vstd::arithmetic::power2::lemma2_to64;
use vstd::prelude::*;

verus! {

/// The group at `pos`. The tag says how many fields are written and how
/// wide: one of two bits, two of four bits or three of six bits. With the
/// last tag two more bits select a width of one to four bytes for each of
/// three fields. Fields that are not written are zero.
pub open spec fn spec_tagged_32(bits: Seq<bool>, pos: nat) -> Result<(Seq<i32>, nat), ParseError> {
    if pos + 2 > bits.len() {
        Err(ParseError::UnexpectedEof)
    } else {
        let tag = take_bits(bits, pos, 2);
        if tag == 0 {
            if pos + 4 > bits.len() {
                Err(ParseError::UnexpectedEof)
            } else {
                Ok((seq![spec_signed_bits(bits, pos + 2, 2) as i32, 0i32, 0i32], pos + 4))
            }
        } else if tag == 1 {
            if pos + 10 > bits.len() {
                Err(ParseError::UnexpectedEof)
            } else {
                Ok(
                    (
                        seq![
                            spec_signed_bits(bits, pos + 2, 4) as i32,
                            spec_signed_bits(bits, pos + 6, 4) as i32,
                            0i32,
                        ],
                        pos + 10,
                    ),
                )
            }
        } else if tag == 2 {
            if pos + 20 > bits.len() {
                Err(ParseError::UnexpectedEof)
            } else {
                Ok(
                    (
                        seq![
                            spec_signed_bits(bits, pos + 2, 6) as i32,
                            spec_signed_bits(bits, pos + 8, 6) as i32,
                            spec_signed_bits(bits, pos + 14, 6) as i32,
                        ],
                        pos + 20,
                    ),
                )
            }
        } else if pos + 4 > bits.len() {
            Err(ParseError::UnexpectedEof)
        } else {
            let width = 8 * (take_bits(bits, pos + 2, 2) + 1);
            if pos + 4 + 3 * width > bits.len() {
                Err(ParseError::UnexpectedEof)
            } else {
                Ok(
                    (
                        seq![
                            spec_signed_bits(bits, pos + 4, width) as i32,
                            spec_signed_bits(bits, pos + 4 + width, width) as i32,
                            spec_signed_bits(bits, pos + 4 + 2 * width, width) as i32,
                        ],
                        pos + 4 + 3 * width,
                    ),
                )
            }
        }
    }
}

/// Reads a group of three tagged 32-bit numbers.
pub fn tagged_32(data: &mut Reader) -> (res: ParseResult<[i32; 3]>)
    ensures
        decoded_all(*old(data), *final(data), res, spec_tagged_32(old(data).bits(), old(data).pos())),
{
    let mut cursor = *data;
    let tag = cursor.read_bits(2)?;
    proof {
        lemma_take_bits_bound(old(data).bits(), old(data).pos(), 2);
        lemma2_to64();
    }
    let fields = match tag {
        0 => {
            let f0 = read_signed(&mut cursor, 2)?;
            [f0, 0, 0]
        },
        1 => {
            let f0 = read_signed(&mut cursor, 4)?;
            let f1 = read_signed(&mut cursor, 4)?;
            [f0, f1, 0]
        },
        2 => {
            let f0 = read_signed(&mut cursor, 6)?;
            let f1 = read_signed(&mut cursor, 6)?;
            let f2 = read_signed(&mut cursor, 6)?;
            [f0, f1, f2]
        },
        _ => {
            let selector = cursor.read_bits(2)?;
            proof {
                lemma_take_bits_bound(old(data).bits(), old(data).pos() + 2, 2);
            }
            let width: u32 = 8 * (selector + 1);
            let f0 = read_signed(&mut cursor, width)?;
            let f1 = read_signed(&mut cursor, width)?;
            let f2 = read_signed(&mut cursor, width)?;
            [f0, f1, f2]
        },
    };
    *data = cursor;
    assert(fields@ =~= seq![fields[0], fields[1], fields[2]]);
    Ok(fields)
}

} // verus!
