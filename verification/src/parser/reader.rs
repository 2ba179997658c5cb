//! A cursor over the bytes of a log that can be read byte by byte or bit by
//! bit, most significant bit first.

use super::text::find_byte;
use super::ParseError;
use vstd::arithmetic::power2::{
    lemma2_to64, lemma2_to64_rest, lemma_pow2_strictly_increases, lemma_pow2_unfold, pow2,
};
use vstd::prelude::*;

verus! {

/// The `i`-th bit of `data`, counting from the most significant bit of the
/// first byte.
pub open spec fn bit_at(data: Seq<u8>, i: int) -> bool {
    (data[i / 8] >> ((7 - i % 8) as u8)) & 1u8 == 1u8
}

/// The bits of `data` in the order in which they are read.
pub open spec fn bits_of(data: Seq<u8>) -> Seq<bool> {
    Seq::new(8 * data.len(), |i: int| bit_at(data, i))
}

/// The number written by the `n` bits of `bits` that start at `pos`, the
/// first of them being the most significant.
pub open spec fn take_bits(bits: Seq<bool>, pos: nat, n: nat) -> nat
    decreases n,
{
    if n == 0 {
        0
    } else {
        2 * take_bits(bits, pos, (n - 1) as nat) + if bits[pos + n - 1] {
            1nat
        } else {
            0nat
        }
    }
}

/// `n` bits write a number below `2^n`.
pub proof fn lemma_take_bits_bound(bits: Seq<bool>, pos: nat, n: nat)
    ensures
        take_bits(bits, pos, n) < pow2(n),
    decreases n,
{
    if n == 0 {
        lemma2_to64();
    } else {
        lemma_take_bits_bound(bits, pos, (n - 1) as nat);
        lemma_pow2_unfold(n);
    }
}

/// A byte is the sum of its bits, each at its place.
proof fn lemma_byte_is_its_bits(b: u8)
    by (bit_vector)
    ensures
        b == 128 * ((b >> 7u8) & 1u8) + 64 * ((b >> 6u8) & 1u8) + 32 * ((b >> 5u8) & 1u8) + 16 * ((b
            >> 4u8) & 1u8) + 8 * ((b >> 3u8) & 1u8) + 4 * ((b >> 2u8) & 1u8) + 2 * ((b >> 1u8) & 1u8)
            + ((b >> 0u8) & 1u8),
        (b >> 7u8) & 1u8 <= 1,
        (b >> 6u8) & 1u8 <= 1,
        (b >> 5u8) & 1u8 <= 1,
        (b >> 4u8) & 1u8 <= 1,
        (b >> 3u8) & 1u8 <= 1,
        (b >> 2u8) & 1u8 <= 1,
        (b >> 1u8) & 1u8 <= 1,
        (b >> 0u8) & 1u8 <= 1,
{
}

/// Read as eight bits, a byte of the data is the number that it is: the two
/// ways of reading agree on every byte.
pub proof fn lemma_take_byte(data: Seq<u8>, index: nat)
    requires
        index < data.len(),
    ensures
        take_bits(bits_of(data), 8 * index, 8) == data[index as int],
{
    let bits = bits_of(data);
    let b = data[index as int];
    lemma_byte_is_its_bits(b);
    assert forall|i: int| 0 <= i < 8 implies #[trigger] bits[8 * index + i] == ((b >> ((7 - i) as u8))
        & 1u8 == 1u8) by {
        assert((8 * index + i) / 8 == index);
        assert((8 * index + i) % 8 == i);
    }
    assert(bits[8 * index + 0int] == ((b >> 7u8) & 1u8 == 1u8));
    assert(bits[8 * index + 1int] == ((b >> 6u8) & 1u8 == 1u8));
    assert(bits[8 * index + 2int] == ((b >> 5u8) & 1u8 == 1u8));
    assert(bits[8 * index + 3int] == ((b >> 4u8) & 1u8 == 1u8));
    assert(bits[8 * index + 4int] == ((b >> 3u8) & 1u8 == 1u8));
    assert(bits[8 * index + 5int] == ((b >> 2u8) & 1u8 == 1u8));
    assert(bits[8 * index + 6int] == ((b >> 1u8) & 1u8 == 1u8));
    assert(bits[8 * index + 7int] == ((b >> 0u8) & 1u8 == 1u8));
    reveal_with_fuel(take_bits, 9);
}

/// A cursor over a byte slice.
///
/// The cursor stands at a bit position. Reading bits moves it bit by bit;
/// reading bytes or lines first moves it up to the next byte boundary.
#[derive(Debug, Clone, Copy)]
pub struct Reader<'data> {
    data: &'data [u8],
    index: usize,
    bit: u8,
}

impl<'data> Reader<'data> {
    #[verifier::type_invariant]
    spec fn well_formed(self) -> bool {
        &&& self.index <= self.data@.len()
        &&& self.bit < 8
        &&& self.bit > 0 ==> self.index < self.data@.len()
    }

    /// The bytes under the cursor, all of them.
    pub closed spec fn bytes(self) -> Seq<u8> {
        self.data@
    }

    /// The bits under the cursor, all of them.
    pub open spec fn bits(self) -> Seq<bool> {
        bits_of(self.bytes())
    }

    /// The position of the cursor, in bits from the start.
    pub closed spec fn pos(self) -> nat {
        (8 * self.index + self.bit) as nat
    }

    /// The index of the byte that a byte-wise read would return next.
    pub open spec fn byte_pos(self) -> int {
        (self.pos() as int + 7) / 8
    }

    /// A cursor at the start of `data`.
    pub fn new(data: &'data [u8]) -> (reader: Self)
        ensures
            reader.bytes() == data@,
            reader.pos() == 0,
    {
        Reader { data, index: 0, bit: 0 }
    }

    /// Moves the cursor up to the next byte boundary, if it is not on one.
    pub fn byte_align(&mut self)
        ensures
            final(self).bytes() == old(self).bytes(),
            final(self).pos() == 8 * old(self).byte_pos(),
    {
        proof {
            use_type_invariant(&*self);
        }
        let len = self.data.len();
        if self.bit > 0 {
            *self = Reader { data: self.data, index: self.index + 1, bit: 0 };
        }
    }

    /// Whether the cursor is at the end of the data for byte-wise reads.
    pub fn is_empty(&self) -> (empty: bool)
        ensures
            empty == (self.byte_pos() >= self.bytes().len()),
    {
        proof {
            use_type_invariant(self);
        }
        let len = self.data.len();
        if self.bit > 0 {
            self.index + 1 >= len
        } else {
            self.index >= len
        }
    }

    /// The next byte, without moving the cursor.
    pub fn peek(&self) -> (byte: Option<u8>)
        ensures
            byte == if self.byte_pos() < self.bytes().len() {
                Some(self.bytes()[self.byte_pos()])
            } else {
                None
            },
    {
        proof {
            use_type_invariant(self);
        }
        let len = self.data.len();
        let at: usize = if self.bit > 0 {
            self.index + 1
        } else {
            self.index
        };
        if at < len {
            Some(self.data[at])
        } else {
            None
        }
    }

    /// Reads the next byte. At the end of the data nothing is read and the
    /// cursor stays.
    pub fn read_u8(&mut self) -> (byte: Option<u8>)
        ensures
            final(self).bytes() == old(self).bytes(),
            byte == if old(self).byte_pos() < old(self).bytes().len() {
                Some(old(self).bytes()[old(self).byte_pos()])
            } else {
                None
            },
            final(self).pos() == if byte is Some {
                8 * (old(self).byte_pos() + 1)
            } else {
                old(self).pos() as int
            },
    {
        proof {
            use_type_invariant(&*self);
        }
        let len = self.data.len();
        let at: usize = if self.bit > 0 {
            self.index + 1
        } else {
            self.index
        };
        if at < len {
            let byte = self.data[at];
            *self = Reader { data: self.data, index: at + 1, bit: 0 };
            Some(byte)
        } else {
            None
        }
    }

    /// Reads up to the next line feed and returns what stands before it;
    /// the cursor then stands behind the line feed. Where no line feed
    /// follows, nothing is read and the cursor stays.
    pub fn read_line(&mut self) -> (line: Option<&'data [u8]>)
        ensures
            final(self).bytes() == old(self).bytes(),
            match line {
                Some(line) => {
                    let end = find_byte(old(self).bytes(), 0x0A, old(self).byte_pos());
                    &&& end < old(self).bytes().len()
                    &&& line@ == old(self).bytes().subrange(old(self).byte_pos(), end)
                    &&& final(self).pos() == 8 * (end + 1)
                },
                None => {
                    &&& find_byte(old(self).bytes(), 0x0A, old(self).byte_pos()) == old(
                        self,
                    ).bytes().len()
                    &&& final(self).pos() == old(self).pos()
                },
            },
    {
        proof {
            use_type_invariant(&*self);
        }
        let data = self.data;
        let len = data.len();
        let start: usize = if self.bit > 0 {
            self.index + 1
        } else {
            self.index
        };
        let mut end: usize = start;
        while end < data.len() && data[end] != 0x0A
            invariant
                start <= end <= data@.len(),
                find_byte(data@, 0x0A, start as int) == find_byte(data@, 0x0A, end as int),
            decreases data@.len() - end,
        {
            end = end + 1;
        }
        if end < data.len() {
            *self = Reader { data, index: end + 1, bit: 0 };
            Some(vstd::slice::slice_subrange(data, start, end))
        } else {
            None
        }
    }

    /// Reads one bit.
    pub fn read_bit(&mut self) -> (res: Result<bool, ParseError>)
        ensures
            final(self).bytes() == old(self).bytes(),
            match res {
                Ok(bit) => {
                    &&& old(self).pos() < old(self).bits().len()
                    &&& bit == old(self).bits()[old(self).pos() as int]
                    &&& final(self).pos() == old(self).pos() + 1
                },
                Err(e) => {
                    &&& e == ParseError::UnexpectedEof
                    &&& old(self).pos() >= old(self).bits().len()
                    &&& final(self).pos() == old(self).pos()
                },
            },
    {
        proof {
            use_type_invariant(&*self);
        }
        if self.index >= self.data.len() {
            return Err(ParseError::UnexpectedEof);
        }
        let byte = self.data[self.index];
        let shift: u8 = 7 - self.bit;
        let bit = (byte >> shift) & 1u8 == 1u8;
        proof {
            let p = old(self).pos() as int;
            assert(p / 8 == self.index && p % 8 == self.bit);
        }
        if self.bit == 7 {
            *self = Reader { data: self.data, index: self.index + 1, bit: 0 };
        } else {
            *self = Reader { data: self.data, index: self.index, bit: self.bit + 1 };
        }
        Ok(bit)
    }

    /// Reads `n` bits as one number, the first bit read being the most
    /// significant. Where fewer than `n` bits are left, nothing is read and
    /// the cursor stays.
    pub fn read_bits(&mut self, n: u32) -> (res: Result<u32, ParseError>)
        requires
            n <= 32,
        ensures
            final(self).bytes() == old(self).bytes(),
            match res {
                Ok(value) => {
                    &&& old(self).pos() + n <= old(self).bits().len()
                    &&& value == take_bits(old(self).bits(), old(self).pos(), n as nat)
                    &&& final(self).pos() == old(self).pos() + n
                },
                Err(e) => {
                    &&& e == ParseError::UnexpectedEof
                    &&& old(self).pos() + n > old(self).bits().len()
                    &&& final(self).pos() == old(self).pos()
                },
            },
    {
        let mut cursor = *self;
        let mut value: u64 = 0;
        let mut i: u32 = 0;
        proof {
            lemma2_to64();
        }
        while i < n
            invariant
                i <= n <= 32,
                cursor.bytes() == old(self).bytes(),
                cursor.pos() == old(self).pos() + i,
                value == take_bits(old(self).bits(), old(self).pos(), i as nat),
                value < pow2(i as nat),
                *self == *old(self),
            decreases n - i,
        {
            proof {
                lemma_pow2_strictly_increases(i as nat, 33);
                lemma2_to64_rest();
                lemma_pow2_unfold((i + 1) as nat);
            }
            match cursor.read_bit() {
                Ok(bit) => {
                    value = 2 * value + if bit {
                        1
                    } else {
                        0
                    };
                },
                Err(e) => {
                    return Err(e);
                },
            }
            i = i + 1;
        }
        proof {
            if n < 32 {
                lemma_pow2_strictly_increases(n as nat, 32);
            }
            use_type_invariant(&cursor);
        }
        *self = cursor;
        Ok(value as u32)
    }
}

} // verus!
