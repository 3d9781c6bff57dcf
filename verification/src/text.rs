//! Pieces of text, numbers in text, and text that is put together.

use vstd::prelude::*;
use vstd::string::StringSliceAdditionalSpecFns;
use vstd::utf8::{decode_utf8, encode_utf8, is_char_boundary, is_continuation_byte, valid_utf8};

use crate::trusted::text::string_push;

verus! {

/// The characters that the bytes of `text` from `from` up to `to` stand for.
pub open spec fn piece(text: Seq<u8>, from: int, to: int) -> Seq<char> {
    decode_utf8(text.subrange(from, to))
}

/// Whether the bytes of `text` from `from` up to `to` are a piece of it:
/// the two places lie in the text, in this order, and neither lies inside
/// the encoding of a character.
pub open spec fn is_piece(text: Seq<u8>, from: int, to: int) -> bool {
    &&& 0 <= from <= to <= text.len()
    &&& is_char_boundary(text, from)
    &&& is_char_boundary(text, to)
}

/// In valid UTF-8 a place before the end is the start of a character
/// exactly when its byte continues none.
proof fn lemma_boundary(bytes: Seq<u8>, index: int)
    requires
        valid_utf8(bytes),
        0 <= index <= bytes.len(),
    ensures
        is_char_boundary(bytes, index) <==> (index == bytes.len() || !is_continuation_byte(
            bytes[index],
        )),
{
    if index == bytes.len() {
        vstd::utf8::is_char_boundary_start_end_of_seq(bytes);
    } else {
        vstd::utf8::is_char_boundary_iff_not_is_continuation_byte(bytes, index);
    }
}

/// The head of a text up to the start of a character has the character
/// starts of the text.
proof fn lemma_boundary_in_head(bytes: Seq<u8>, to: int, index: int)
    requires
        valid_utf8(bytes),
        0 <= index <= to <= bytes.len(),
        is_char_boundary(bytes, to),
    ensures
        valid_utf8(bytes.subrange(0, to)),
        is_char_boundary(bytes.subrange(0, to), index) <==> is_char_boundary(bytes, index),
{
    vstd::utf8::valid_utf8_split(bytes, to);
    lemma_boundary(bytes, index);
    lemma_boundary(bytes, to);
    lemma_boundary(bytes.subrange(0, to), index);
}

/// The piece of `text` from the byte `from` up to the byte `to`; `None`
/// where these are not the bounds of a piece.
pub fn slice<'a>(text: &'a str, from: usize, to: usize) -> (found: Option<&'a str>)
    ensures
        match found {
            Some(part) => is_piece(text.spec_bytes(), from as int, to as int) && part@ == piece(
                text.spec_bytes(),
                from as int,
                to as int,
            ) && part.spec_bytes() == text.spec_bytes().subrange(from as int, to as int),
            None => !is_piece(text.spec_bytes(), from as int, to as int),
        },
{
    let ghost bytes = text.spec_bytes();
    proof {
        vstd::utf8::encode_utf8_valid_utf8(text@);
    }
    if from <= to && to <= text.as_bytes().len() && text.is_char_boundary(from)
        && text.is_char_boundary(to) {
        let (head, _) = text.split_at(to);
        proof {
            lemma_boundary_in_head(bytes, to as int, from as int);
        }
        let (_, part) = head.split_at(from);
        proof {
            assert(part.spec_bytes() =~= bytes.subrange(from as int, to as int));
            vstd::utf8::encode_utf8_decode_utf8(part@);
        }
        Some(part)
    } else {
        None
    }
}

/// Whether `byte` is an ASCII digit.
pub open spec fn is_digit(byte: u8) -> bool {
    0x30 <= byte <= 0x39
}

/// The number that the digits `digits` write, the first of them weighing
/// most.
pub open spec fn number(digits: Seq<u8>) -> nat
    decreases digits.len(),
{
    if digits.len() == 0 {
        0
    } else {
        number(digits.drop_last()) * 10 + (digits.last() - 0x30) as nat
    }
}

/// Whether `digits` holds ASCII digits and nothing else.
pub open spec fn all_digits(digits: Seq<u8>) -> bool {
    forall|i: int| 0 <= i < digits.len() ==> is_digit(#[trigger] digits[i])
}

/// `text` without the plus sign that may stand before a number.
pub open spec fn unsigned(text: Seq<u8>) -> Seq<u8> {
    if text.len() > 0 && text[0] == 0x2b {
        text.skip(1)
    } else {
        text
    }
}

/// The `Id` that `text` writes: `text` is made of digits, after a plus sign
/// or without one, has one digit at least, and its number fits in 32 bits.
pub open spec fn id_written(text: Seq<u8>) -> Option<u32> {
    let digits = unsigned(text);
    if digits.len() > 0 && all_digits(digits) && number(digits) <= u32::MAX {
        Some(number(digits) as u32)
    } else {
        None
    }
}

/// A number grows with every digit that is added to it.
proof fn lemma_number_grows(digits: Seq<u8>, upto: int)
    requires
        0 <= upto <= digits.len(),
        all_digits(digits),
    ensures
        number(digits.take(upto)) <= number(digits),
    decreases digits.len() - upto,
{
    if upto < digits.len() {
        lemma_number_grows(digits, upto + 1);
        assert(digits.take(upto + 1).drop_last() =~= digits.take(upto));
    } else {
        assert(digits.take(upto) =~= digits);
    }
}

/// Reads an `Id` as `u32::from_str` reads it: decimal digits, a plus sign
/// before them if one likes, nothing else.
pub fn parse_id(text: &[u8]) -> (id: Option<u32>)
    ensures
        id == id_written(text@),
{
    let n: usize = text.len();
    let start: usize = if n > 0 && text[0] == 0x2b {
        1
    } else {
        0
    };
    let ghost digits = unsigned(text@);
    if start == n {
        return None;
    }
    let mut value: u64 = 0;
    let mut i: usize = start;
    proof {
        assert(digits.take(0) =~= Seq::<u8>::empty());
    }
    while i < n
        invariant
            start <= i <= n,
            n == text@.len(),
            digits == unsigned(text@),
            digits.len() == n - start,
            forall|k: int| 0 <= k < digits.len() ==> digits[k] == text@[start + k],
            forall|k: int| 0 <= k < i - start ==> is_digit(#[trigger] digits[k]),
            value == number(digits.take(i - start)),
            value <= u32::MAX,
        decreases n - i,
    {
        let byte: u8 = text[i];
        proof {
            assert(digits[i - start] == byte);
            assert(digits.take(i - start + 1).drop_last() =~= digits.take(i - start));
        }
        if byte < 0x30 || byte > 0x39 {
            proof {
                assert(!is_digit(digits[i - start]));
                assert(!all_digits(digits));
            }
            return None;
        }
        value = value * 10 + (byte - 0x30) as u64;
        proof {
            assert(digits.take(i - start + 1).last() == byte);
            assert(value == number(digits.take(i - start + 1)));
        }
        if value > u32::MAX as u64 {
            proof {
                if all_digits(digits) {
                    lemma_number_grows(digits, i - start + 1);
                }
            }
            return None;
        }
        i = i + 1;
    }
    proof {
        assert(digits.take(n - start) =~= digits);
    }
    Some(value as u32)
}

/// The digits that write `n`, without a leading zero but for zero itself.
pub open spec fn decimal(n: nat) -> Seq<char>
    decreases n,
{
    if n < 10 {
        seq![(0x30 + n) as char]
    } else {
        decimal(n / 10).push((0x30 + n % 10) as char)
    }
}

/// Appends `n` in decimal digits.
pub fn push_decimal(text: &mut String, n: u32)
    ensures
        final(text)@ == old(text)@ + decimal(n as nat),
    decreases n,
{
    if n >= 10 {
        push_decimal(text, n / 10);
    }
    let digit: u8 = (n % 10) as u8;
    string_push(text, (0x30 + digit) as char);
    proof {
        if n >= 10 {
            assert(final(text)@ =~= old(text)@ + decimal(n as nat));
        } else {
            assert(final(text)@ =~= old(text)@ + decimal(n as nat));
        }
    }
}

/// Whether two texts are the same, character for character.
pub fn same_text(a: &str, b: &str) -> (same: bool)
    ensures
        same == (a@ == b@),
{
    let left: &[u8] = a.as_bytes();
    let right: &[u8] = b.as_bytes();
    proof {
        vstd::utf8::encode_utf8_decode_utf8(a@);
        vstd::utf8::encode_utf8_decode_utf8(b@);
    }
    if left.len() != right.len() {
        return false;
    }
    let mut i: usize = 0;
    while i < left.len()
        invariant
            i <= left@.len(),
            left@.len() == right@.len(),
            left@ == encode_utf8(a@),
            right@ == encode_utf8(b@),
            decode_utf8(encode_utf8(a@)) == a@,
            decode_utf8(encode_utf8(b@)) == b@,
            forall|k: int| 0 <= k < i ==> left@[k] == right@[k],
        decreases left@.len() - i,
    {
        if left[i] != right[i] {
            return false;
        }
        i = i + 1;
    }
    assert(left@ =~= right@);
    true
}

} // verus!
