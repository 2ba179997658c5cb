//! Groups of four 16-bit numbers behind one byte of tags.

use super::{decoded_all, read_signed, spec_signed_bits};
use crate::parser::reader::{lemma_take_bits_bound, take_bits};
use crate::parser::{ParseError, ParseResult, Reader};
use crate::LogVersion;
use vstd::arithmetic::power2::lemma2_to64;
use vstd::prelude::*;

verus! {

/// How many bits the field of a tag takes.
pub open spec fn spec_field_width(tag: nat) -> nat {
    if tag == 0 {
        0
    } else if tag == 1 {
        4
    } else if tag == 2 {
        8
    } else {
        16
    }
}

/// The group at `pos`: four tags of two bits each, the tag of the first
/// field first, then the four fields, each as wide as its tag says.
pub open spec fn spec_tagged_16(bits: Seq<bool>, pos: nat) -> Result<(Seq<i16>, nat), ParseError> {
    if pos + 8 > bits.len() {
        Err(ParseError::UnexpectedEof)
    } else {
        let w0 = spec_field_width(take_bits(bits, pos, 2));
        let w1 = spec_field_width(take_bits(bits, pos + 2, 2));
        let w2 = spec_field_width(take_bits(bits, pos + 4, 2));
        let w3 = spec_field_width(take_bits(bits, pos + 6, 2));
        let start0 = pos + 8;
        let start1 = start0 + w0;
        let start2 = start1 + w1;
        let start3 = start2 + w2;
        let end = start3 + w3;
        if end > bits.len() {
            Err(ParseError::UnexpectedEof)
        } else {
            Ok(
                (
                    seq![
                        spec_signed_bits(bits, start0, w0) as i16,
                        spec_signed_bits(bits, start1, w1) as i16,
                        spec_signed_bits(bits, start2, w2) as i16,
                        spec_signed_bits(bits, start3, w3) as i16,
                    ],
                    end,
                ),
            )
        }
    }
}

fn field_width(tag: u32) -> (width: u32)
    ensures
        width == spec_field_width(tag as nat),
        width <= 16,
{
    match tag {
        0 => 0,
        1 => 4,
        2 => 8,
        _ => 16,
    }
}

fn read_field(data: &mut Reader, tag: u32) -> (res: ParseResult<i16>)
    ensures
        final(data).bytes() == old(data).bytes(),
        match res {
            Ok(value) => {
                let width = spec_field_width(tag as nat);
                &&& old(data).pos() + width <= old(data).bits().len()
                &&& value == spec_signed_bits(old(data).bits(), old(data).pos(), width) as i16
                &&& final(data).pos() == old(data).pos() + width
            },
            Err(e) => {
                &&& e == ParseError::UnexpectedEof
                &&& old(data).pos() + spec_field_width(tag as nat) > old(data).bits().len()
            },
        },
{
    let width = field_width(tag);
    let value = read_signed(data, width)?;
    proof {
        lemma2_to64();
    }
    Ok(value as i16)
}

/// Reads a group of four tagged 16-bit numbers. Both versions of the format
/// lay the group out in the same way.
pub fn tagged_16(version: LogVersion, data: &mut Reader) -> (res: ParseResult<[i16; 4]>)
    ensures
        decoded_all(*old(data), *final(data), res, spec_tagged_16(old(data).bits(), old(data).pos())),
{
    match version {
        LogVersion::V1 | LogVersion::V2 => {
            let mut cursor = *data;
            let t0 = cursor.read_bits(2)?;
            let t1 = cursor.read_bits(2)?;
            let t2 = cursor.read_bits(2)?;
            let t3 = cursor.read_bits(2)?;
            let f0 = read_field(&mut cursor, t0)?;
            let f1 = read_field(&mut cursor, t1)?;
            let f2 = read_field(&mut cursor, t2)?;
            let f3 = read_field(&mut cursor, t3)?;
            *data = cursor;
            let fields = [f0, f1, f2, f3];
            assert(fields@ =~= seq![f0, f1, f2, f3]);
            Ok(fields)
        },
    }
}

} // verus!
