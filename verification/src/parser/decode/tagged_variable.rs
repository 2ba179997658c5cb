//! Runs of signed variable-byte numbers whose length the frame definition
//! gives.

use super::decoded_all;
use super::variable::{spec_variable_signed, variable_signed};
use crate::parser::{ParseError, ParseResult, Reader};
use vstd::prelude::*;

verus! {

/// The `count` signed variable-byte numbers that stand one behind another
/// at `pos`.
pub open spec fn spec_tagged_variable(bits: Seq<bool>, pos: nat, count: nat) -> Result<
    (Seq<i32>, nat),
    ParseError,
>
    decreases count,
{
    if count == 0 {
        Ok((Seq::empty(), pos))
    } else {
        match spec_variable_signed(bits, pos) {
            Ok((first, next)) => spec_after(
                seq![first],
                spec_tagged_variable(bits, next, (count - 1) as nat),
            ),
            Err(e) => Err(e),
        }
    }
}

/// The numbers `found` so far put before those that `rest` holds.
pub open spec fn spec_after(found: Seq<i32>, rest: Result<(Seq<i32>, nat), ParseError>) -> Result<
    (Seq<i32>, nat),
    ParseError,
> {
    match rest {
        Ok((values, end)) => Ok((found + values, end)),
        Err(e) => Err(e),
    }
}

/// Reads `count` signed variable-byte numbers.
pub fn tagged_variable(data: &mut Reader, count: usize) -> (res: ParseResult<Vec<i32>>)
    ensures
        decoded_all(
            *old(data),
            *final(data),
            res,
            spec_tagged_variable(old(data).bits(), old(data).pos(), count as nat),
        ),
{
    let mut cursor = *data;
    let mut values: Vec<i32> = Vec::new();
    let mut i: usize = 0;
    let ghost bits = old(data).bits();
    let ghost whole = spec_tagged_variable(bits, old(data).pos(), count as nat);
    proof {
        if whole is Ok {
            assert(Seq::<i32>::empty() + whole->Ok_0.0 =~= whole->Ok_0.0);
        }
    }
    while i < count
        invariant
            i <= count,
            *data == *old(data),
            cursor.bytes() == old(data).bytes(),
            bits == old(data).bits(),
            values@.len() == i,
            whole == spec_tagged_variable(bits, old(data).pos(), count as nat),
            whole == spec_after(
                values@,
                spec_tagged_variable(bits, cursor.pos(), (count - i) as nat),
            ),
        decreases count - i,
    {
        let ghost before = cursor.pos();
        proof {
            assert(spec_tagged_variable(bits, before, (count - i) as nat) == match spec_variable_signed(
                bits,
                before,
            ) {
                Ok((first, next)) => spec_after(
                    seq![first],
                    spec_tagged_variable(bits, next, (count - i - 1) as nat),
                ),
                Err(e) => Err(e),
            });
        }
        let value = variable_signed(&mut cursor)?;
        proof {
            let rest = spec_tagged_variable(bits, cursor.pos(), (count - i - 1) as nat);
            if rest is Ok {
                assert(values@ + (seq![value] + rest->Ok_0.0) =~= values@.push(value)
                    + rest->Ok_0.0);
            }
        }
        values.push(value);
        i = i + 1;
    }
    proof {
        assert(values@ + Seq::<i32>::empty() =~= values@);
    }
    *data = cursor;
    Ok(values)
}

} // verus!
