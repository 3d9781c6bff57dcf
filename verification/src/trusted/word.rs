//! Words of at most fifteen bytes, held in `arrayvec::ArrayString`.

use arrayvec::ArrayString;
use vstd::prelude::*;
use vstd::string::StringSliceAdditionalSpecFns;

use crate::db::order::lex_lt;

verus! {

/// `arrayvec::ArrayString`, of which nothing is seen from here: what a
/// word holds is told by `word_bytes`.
#[verifier::external_type_specification]
#[verifier::external_body]
pub struct ExArrayString<const CAP: usize>(ArrayString<CAP>);

/// A normalized word, or a key of the same size.
pub type Word = ArrayString<15>;

/// The bytes that a word holds, first to last.
pub uninterp spec fn word_bytes(word: ArrayString<15>) -> Seq<u8>;

/// `ArrayString::new`: a word that holds nothing.
#[verifier::external_body]
pub(crate) fn word_new() -> (word: Word)
    ensures
        word_bytes(word) == Seq::<u8>::empty(),
{
    ArrayString::new()
}

/// `ArrayString::len`: the number of bytes held, which is never more than
/// the capacity of fifteen.
#[verifier::external_body]
pub(crate) fn word_len(word: &Word) -> (len: usize)
    ensures
        len == word_bytes(*word).len(),
        len <= 15,
{
    word.len()
}

/// `ArrayString::push` with an ASCII character, which takes one byte. The
/// call panics when the word is full, so a full word is not admitted.
#[verifier::external_body]
pub(crate) fn word_push(word: &mut Word, byte: u8)
    requires
        word_bytes(*old(word)).len() < 15,
        byte < 128,
    ensures
        word_bytes(*final(word)) == word_bytes(*old(word)).push(byte),
{
    word.push(char::from(byte))
}

/// `<` on `ArrayString`, which compares as `str` does: byte by byte.
#[verifier::external_body]
pub(crate) fn word_lt(a: &Word, b: &Word) -> (lt: bool)
    ensures
        lt == lex_lt(word_bytes(*a), word_bytes(*b)),
{
    a < b
}

/// `str::starts_with` on the text of `word`, with the text of `prefix` as
/// the pattern.
#[verifier::external_body]
pub(crate) fn word_starts_with(word: &Word, prefix: &Word) -> (starts: bool)
    ensures
        starts == word_bytes(*prefix).is_prefix_of(word_bytes(*word)),
{
    word.as_str().starts_with(prefix.as_str())
}

/// `ArrayString::from`: a word with the bytes of `text`, where they are
/// fifteen at most; with more of them the call fails.
#[verifier::external_body]
pub(crate) fn word_from_str(text: &str) -> (word: Option<Word>)
    ensures
        text.spec_bytes().len() <= 15 ==> word is Some && word_bytes(word->0) == text.spec_bytes(),
        text.spec_bytes().len() > 15 ==> word is None,
{
    ArrayString::from(text).ok()
}

/// `ArrayString::as_str`: the text that the word holds.
#[verifier::external_body]
pub(crate) fn word_as_str(word: &Word) -> (text: &str)
    ensures
        text.spec_bytes() == word_bytes(*word),
{
    word.as_str()
}

} // verus!
