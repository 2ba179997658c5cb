//! Text as it stands in headers: UTF-8 strings that are searched, split and
//! compared byte by byte.

use vstd::prelude::*;
use vstd::string::StringSliceAdditionalSpecFns;
use vstd::utf8::{
    encode_utf8_valid_utf8, is_char_boundary, is_char_boundary_iff_not_is_continuation_byte,
    is_char_boundary_start_end_of_seq, pop_first_scalar, valid_first_scalar, valid_utf8,
    valid_utf8_split,
};

verus! {

/// The index of the first `b` in `s` at or after `from`, or the length of
/// `s` where there is none.
pub open spec fn find_byte(s: Seq<u8>, b: u8, from: int) -> int
    decreases s.len() - from,
{
    if from < 0 || from >= s.len() {
        s.len() as int
    } else if s[from] == b {
        from
    } else {
        find_byte(s, b, from + 1)
    }
}

/// What `find_byte` returns lies between `from` and the end, holds `b`
/// unless it is the end, and nothing before it does.
pub proof fn lemma_find_byte(s: Seq<u8>, b: u8, from: int)
    requires
        0 <= from <= s.len(),
    ensures
        from <= find_byte(s, b, from) <= s.len(),
        find_byte(s, b, from) < s.len() ==> s[find_byte(s, b, from)] == b,
        forall|k: int| from <= k < find_byte(s, b, from) ==> s[k] != b,
    decreases s.len() - from,
{
    if from < s.len() && s[from] != b {
        lemma_find_byte(s, b, from + 1);
    }
}

/// The parts of `s` between the bytes `sep`, in their order. There is
/// always a first part, and every `sep` starts another.
pub open spec fn split(s: Seq<u8>, sep: u8) -> Seq<Seq<u8>>
    decreases s.len(),
{
    let at = find_byte(s, sep, 0);
    if 0 <= at < s.len() {
        seq![s.subrange(0, at)] + split(s.subrange(at + 1, s.len() as int), sep)
    } else {
        seq![s]
    }
}

/// The bytes of each of `items`.
pub open spec fn texts(items: Seq<&str>) -> Seq<Seq<u8>> {
    Seq::new(items.len(), |i: int| items[i].spec_bytes())
}

/// An ASCII capital letter as a small letter; every other byte as it is.
pub open spec fn lower_byte(b: u8) -> u8 {
    if 0x41 <= b <= 0x5A {
        (b + 0x20) as u8
    } else {
        b
    }
}

/// `s` with its ASCII capital letters made small.
pub open spec fn lower(s: Seq<u8>) -> Seq<u8> {
    Seq::new(s.len(), |i: int| lower_byte(s[i]))
}

/// Whether `s` is made of decimal digits, at least one.
pub open spec fn is_digits(s: Seq<u8>) -> bool {
    s.len() > 0 && forall|i: int| 0 <= i < s.len() ==> 0x30 <= #[trigger] s[i] <= 0x39
}

/// The number that the decimal digits `s` write.
pub open spec fn digits_value(s: Seq<u8>) -> nat
    decreases s.len(),
{
    if s.len() == 0 {
        0
    } else {
        (10 * digits_value(s.drop_last()) + (s.last() - 0x30)) as nat
    }
}

/// The number that `s` writes in decimal, if it writes one that is not above
/// `max`: digits, at least one, with or without a plus sign before them.
pub open spec fn spec_parse_number(s: Seq<u8>, max: nat) -> Option<nat> {
    let digits = if s.len() > 0 && s[0] == 0x2B {
        s.subrange(1, s.len() as int)
    } else {
        s
    };
    if is_digits(digits) && digits_value(digits) <= max {
        Some(digits_value(digits))
    } else {
        None
    }
}

/// A prefix of digits writes no more than the whole.
pub proof fn lemma_digits_value_grows(s: Seq<u8>, k: int)
    requires
        0 <= k <= s.len(),
        forall|i: int| 0 <= i < s.len() ==> 0x30 <= #[trigger] s[i] <= 0x39,
    ensures
        digits_value(s.subrange(0, k)) <= digits_value(s),
    decreases s.len() - k,
{
    if k == s.len() {
        assert(s.subrange(0, k) =~= s);
    } else {
        lemma_digits_value_grows(s, k + 1);
        assert(s.subrange(0, k + 1).drop_last() =~= s.subrange(0, k));
    }
}

/// In UTF-8 text an ASCII byte is a character of its own: the text can be
/// cut before it and behind it.
pub proof fn lemma_ascii_is_boundary(bytes: Seq<u8>, i: int)
    requires
        valid_utf8(bytes),
        0 <= i < bytes.len(),
        bytes[i] < 0x80,
    ensures
        is_char_boundary(bytes, i),
        is_char_boundary(bytes, i + 1),
{
    is_char_boundary_iff_not_is_continuation_byte(bytes, i);
    if i + 1 == bytes.len() {
        is_char_boundary_start_end_of_seq(bytes);
    } else {
        valid_utf8_split(bytes, i);
        let tail = bytes.subrange(i, bytes.len() as int);
        let rest = pop_first_scalar(tail);
        assert(tail[0] == bytes[i]);
        assert(valid_utf8(rest));
        assert(rest =~= bytes.subrange(i + 1, bytes.len() as int));
        assert(rest[0] == bytes[i + 1]);
        assert(valid_first_scalar(rest));
        is_char_boundary_iff_not_is_continuation_byte(bytes, i + 1);
    }
}

/// Reads `bytes` as UTF-8 text; `None` where they are not.
///
/// Calls `core::str::from_utf8`. Believed of it: it accepts exactly the
/// byte strings that are well-formed UTF-8, and the text that it returns is
/// made of the bytes that it was given.
#[verifier::external_body]
pub(crate) fn utf8_text<'a>(bytes: &'a [u8]) -> (text: Option<&'a str>)
    ensures
        text is Some <==> valid_utf8(bytes@),
        text matches Some(s) ==> s.spec_bytes() == bytes@,
{
    match core::str::from_utf8(bytes) {
        Ok(text) => Some(text),
        Err(_) => None,
    }
}

/// Whether two byte strings are the same.
pub fn same_bytes(a: &[u8], b: &[u8]) -> (same: bool)
    ensures
        same == (a@ == b@),
{
    if a.len() != b.len() {
        return false;
    }
    let mut i: usize = 0;
    while i < a.len()
        invariant
            i <= a@.len() == b@.len(),
            a@.subrange(0, i as int) == b@.subrange(0, i as int),
        decreases a@.len() - i,
    {
        if a[i] != b[i] {
            return false;
        }
        assert(a@.subrange(0, i + 1) =~= a@.subrange(0, i as int).push(a@[i as int]));
        assert(b@.subrange(0, i + 1) =~= b@.subrange(0, i as int).push(b@[i as int]));
        i = i + 1;
    }
    assert(a@ =~= a@.subrange(0, i as int));
    assert(b@ =~= b@.subrange(0, i as int));
    true
}

/// Whether two texts are the same.
pub fn same_text(a: &str, b: &str) -> (same: bool)
    ensures
        same == (a.spec_bytes() == b.spec_bytes()),
{
    same_bytes(a.as_bytes(), b.as_bytes())
}

/// Whether `a`, with its ASCII capital letters made small, is `b`.
pub fn is_lower(a: &str, b: &str) -> (same: bool)
    ensures
        same == (lower(a.spec_bytes()) == b.spec_bytes()),
{
    let left = a.as_bytes();
    let right = b.as_bytes();
    if left.len() != right.len() {
        return false;
    }
    let mut i: usize = 0;
    while i < left.len()
        invariant
            left@ == a.spec_bytes(),
            right@ == b.spec_bytes(),
            i <= left@.len() == right@.len(),
            forall|k: int| 0 <= k < i ==> lower_byte(#[trigger] left@[k]) == right@[k],
        decreases left@.len() - i,
    {
        let byte = left[i];
        let small = if 0x41 <= byte && byte <= 0x5A {
            byte + 0x20
        } else {
            byte
        };
        if small != right[i] {
            assert(lower(left@)[i as int] != right@[i as int]);
            return false;
        }
        i = i + 1;
    }
    assert(lower(left@) =~= right@);
    true
}

/// The index of the first `b` in `bytes` at or after `from`, or the length
/// of `bytes`.
pub fn find(bytes: &[u8], b: u8, from: usize) -> (at: usize)
    requires
        from <= bytes@.len(),
    ensures
        at == find_byte(bytes@, b, from as int),
        from <= at <= bytes@.len(),
{
    let mut at: usize = from;
    while at < bytes.len() && bytes[at] != b
        invariant
            from <= at <= bytes@.len(),
            find_byte(bytes@, b, from as int) == find_byte(bytes@, b, at as int),
        decreases bytes@.len() - at,
    {
        at = at + 1;
    }
    at
}

/// Cuts `text` at the ASCII byte that stands at `at`: what is before it and
/// what is behind it.
pub fn cut<'a>(text: &'a str, at: usize) -> (parts: (&'a str, &'a str))
    requires
        at < text.spec_bytes().len(),
        text.spec_bytes()[at as int] < 0x80,
    ensures
        parts.0.spec_bytes() == text.spec_bytes().subrange(0, at as int),
        parts.1.spec_bytes() == text.spec_bytes().subrange(
            at + 1,
            text.spec_bytes().len() as int,
        ),
{
    proof {
        encode_utf8_valid_utf8(text@);
        lemma_ascii_is_boundary(text.spec_bytes(), at as int);
    }
    let (head, tail) = text.split_at(at);
    proof {
        encode_utf8_valid_utf8(tail@);
        assert(tail.spec_bytes()[0] == text.spec_bytes()[at as int]);
        lemma_ascii_is_boundary(tail.spec_bytes(), 0);
    }
    let (_, rest) = tail.split_at(1);
    assert(rest.spec_bytes() =~= text.spec_bytes().subrange(
        at + 1,
        text.spec_bytes().len() as int,
    ));
    (head, rest)
}

/// Cuts `text` at its first `sep`; `None` where it holds none.
pub fn split_once<'a>(text: &'a str, sep: u8) -> (parts: Option<(&'a str, &'a str)>)
    requires
        sep < 0x80,
    ensures
        match parts {
            Some((head, tail)) => {
                let at = find_byte(text.spec_bytes(), sep, 0);
                &&& 0 <= at < text.spec_bytes().len()
                &&& head.spec_bytes() == text.spec_bytes().subrange(0, at)
                &&& tail.spec_bytes() == text.spec_bytes().subrange(
                    at + 1,
                    text.spec_bytes().len() as int,
                )
            },
            None => find_byte(text.spec_bytes(), sep, 0) == text.spec_bytes().len(),
        },
{
    let bytes = text.as_bytes();
    let at = find(bytes, sep, 0);
    proof {
        lemma_find_byte(bytes@, sep, 0);
    }
    if at < bytes.len() {
        Some(cut(text, at))
    } else {
        None
    }
}

/// The parts of `text` between its `sep` bytes.
pub fn split_all<'a>(text: &'a str, sep: u8) -> (parts: Vec<&'a str>)
    requires
        sep < 0x80,
    ensures
        texts(parts@) == split(text.spec_bytes(), sep),
{
    let mut parts: Vec<&'a str> = Vec::new();
    let mut rest = text;
    let ghost whole = split(text.spec_bytes(), sep);
    loop
        invariant_except_break
            whole =~= texts(parts@) + split(rest.spec_bytes(), sep),
        invariant
            sep < 0x80,
            whole == split(text.spec_bytes(), sep),
        ensures
            texts(parts@) == whole,
        decreases rest.spec_bytes().len(),
    {
        let ghost before = texts(parts@);
        match split_once(rest, sep) {
            Some((head, tail)) => {
                parts.push(head);
                proof {
                    assert(texts(parts@) =~= before.push(head.spec_bytes()));
                    assert(before + (seq![head.spec_bytes()] + split(tail.spec_bytes(), sep))
                        =~= texts(parts@) + split(tail.spec_bytes(), sep));
                }
                rest = tail;
            },
            None => {
                parts.push(rest);
                proof {
                    assert(texts(parts@) =~= before + seq![rest.spec_bytes()]);
                    assert(whole =~= texts(parts@));
                }
                break ;
            },
        }
    }
    parts
}

/// Reads `text` as a decimal number that is not above `max`.
pub fn parse_number(text: &str, max: u32) -> (number: Option<u32>)
    ensures
        number == match spec_parse_number(text.spec_bytes(), max as nat) {
            Some(value) => Some(value as u32),
            None => None,
        },
{
    let bytes = text.as_bytes();
    let start: usize = if bytes.len() > 0 && bytes[0] == 0x2B {
        1
    } else {
        0
    };
    if start == bytes.len() {
        return None;
    }
    let ghost digits = bytes@.subrange(start as int, bytes@.len() as int);
    assert(start == 0 ==> digits =~= bytes@);
    let mut value: u64 = 0;
    let mut i: usize = start;
    while i < bytes.len()
        invariant
            start <= i <= bytes@.len(),
            start < bytes@.len(),
            bytes@ == text.spec_bytes(),
            digits == if bytes@[0] == 0x2B {
                bytes@.subrange(1, bytes@.len() as int)
            } else {
                bytes@
            },
            digits.len() == bytes@.len() - start,
            forall|k: int| 0 <= k < i - start ==> 0x30 <= #[trigger] digits[k] <= 0x39,
            value == digits_value(digits.subrange(0, i - start)),
            value <= max,
        decreases bytes@.len() - i,
    {
        let byte = bytes[i];
        if byte < 0x30 || byte > 0x39 {
            assert(digits[i - start] == byte);
            return None;
        }
        value = 10 * value + (byte - 0x30) as u64;
        proof {
            assert(digits[i - start] == byte);
            assert(digits.subrange(0, i + 1 - start).drop_last() =~= digits.subrange(0, i - start));
        }
        if value > max as u64 {
            proof {
                if is_digits(digits) {
                    lemma_digits_value_grows(digits, i + 1 - start);
                }
            }
            return None;
        }
        i = i + 1;
    }
    assert(digits.subrange(0, i - start) =~= digits);
    Some(value as u32)
}

} // verus!
