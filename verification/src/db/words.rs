//! The words of a text: what is indexed of a name, and what is looked for
//! of a query.

use vstd::prelude::*;
use vstd::string::StringSliceAdditionalSpecFns;

use crate::trusted::word::{word_bytes, word_len, word_new, word_push, Word};

verus! {

/// Whether `byte` is ASCII whitespace: space, tab, line feed, form feed or
/// carriage return.
pub open spec fn is_space(byte: u8) -> bool {
    byte == 0x20 || byte == 0x09 || byte == 0x0a || byte == 0x0c || byte == 0x0d
}

/// Whether `byte` is an ASCII letter.
pub open spec fn is_letter(byte: u8) -> bool {
    (0x41 <= byte <= 0x5a) || (0x61 <= byte <= 0x7a)
}

/// The lower-case form of an ASCII letter.
pub open spec fn lower(byte: u8) -> u8 {
    if byte <= 0x5a {
        (byte + 0x20) as u8
    } else {
        byte
    }
}

/// The ASCII letters of `token` in lower case, everything else dropped.
pub open spec fn letters(token: Seq<u8>) -> Seq<u8>
    decreases token.len(),
{
    if token.len() == 0 {
        Seq::empty()
    } else if is_letter(token.last()) {
        letters(token.drop_last()).push(lower(token.last()))
    } else {
        letters(token.drop_last())
    }
}

/// The word that stands for `token`: its letters in lower case, cut after
/// the fifteenth.
pub open spec fn normalize(token: Seq<u8>) -> Seq<u8> {
    let all = letters(token);
    if all.len() > 15 {
        all.take(15)
    } else {
        all
    }
}

/// The length of the run of bytes at the start of `bytes` that are not
/// whitespace.
pub open spec fn token_len(bytes: Seq<u8>) -> int
    decreases bytes.len(),
{
    if bytes.len() == 0 || is_space(bytes[0]) {
        0
    } else {
        1 + token_len(bytes.skip(1))
    }
}

/// The words of a text: the text is split at whitespace, every token is
/// normalized, and tokens without a letter are dropped.
pub open spec fn words_of(bytes: Seq<u8>) -> Seq<Seq<u8>>
    decreases bytes.len(),
{
    if bytes.len() == 0 {
        Seq::empty()
    } else if is_space(bytes[0]) {
        words_of(bytes.skip(1))
    } else {
        let len = token_len(bytes);
        let word = normalize(bytes.take(len));
        proof {
            lemma_token_len_bounds(bytes);
        }
        if word.len() > 0 {
            seq![word] + words_of(bytes.skip(len))
        } else {
            words_of(bytes.skip(len))
        }
    }
}

/// The bytes of each of `words`.
pub open spec fn texts(words: Seq<Word>) -> Seq<Seq<u8>> {
    words.map_values(|word: Word| word_bytes(word))
}

/// A run of bytes without whitespace that ends at whitespace or at the end
/// of the text is the token at its start.
proof fn lemma_token_len(bytes: Seq<u8>, len: int)
    requires
        0 <= len <= bytes.len(),
        forall|k: int| 0 <= k < len ==> !is_space(bytes[k]),
        len == bytes.len() || is_space(bytes[len]),
    ensures
        token_len(bytes) == len,
    decreases len,
{
    if len > 0 {
        lemma_token_len(bytes.skip(1), len - 1);
    }
}

/// A token is at least one byte long and leaves a shorter text behind.
pub proof fn lemma_token_len_bounds(bytes: Seq<u8>)
    ensures
        0 <= token_len(bytes) <= bytes.len(),
        bytes.len() > 0 && !is_space(bytes[0]) ==> token_len(bytes) > 0,
    decreases bytes.len(),
{
    if bytes.len() > 0 && !is_space(bytes[0]) {
        lemma_token_len_bounds(bytes.skip(1));
    }
}

/// Whether `byte` is ASCII whitespace.
fn is_space_byte(byte: u8) -> (space: bool)
    ensures
        space == is_space(byte),
{
    byte == 0x20 || byte == 0x09 || byte == 0x0a || byte == 0x0c || byte == 0x0d
}

/// The words of `text`, in the order in which they stand in it.
pub(crate) fn words_in(text: &str) -> (words: Vec<Word>)
    ensures
        texts(words@) == words_of(text.spec_bytes()),
{
    let bytes: &[u8] = text.as_bytes();
    let n: usize = bytes.len();
    let mut words: Vec<Word> = Vec::new();
    let mut i: usize = 0;
    proof {
        assert(bytes@.skip(0) =~= bytes@);
        assert(texts(words@) =~= Seq::<Seq<u8>>::empty());
    }
    while i < n
        invariant
            n == bytes@.len(),
            i <= n,
            words_of(bytes@) == texts(words@) + words_of(bytes@.skip(i as int)),
        decreases n - i,
    {
        let ghost rest = bytes@.skip(i as int);
        if is_space_byte(bytes[i]) {
            proof {
                assert(rest.skip(1) =~= bytes@.skip(i + 1));
            }
            i = i + 1;
        } else {
            let mut word: Word = word_new();
            let mut j: usize = i;
            proof {
                assert(bytes@.subrange(i as int, j as int) =~= Seq::<u8>::empty());
            }
            while j < n && !is_space_byte(bytes[j])
                invariant
                    n == bytes@.len(),
                    i <= j <= n,
                    forall|k: int| i <= k < j ==> !is_space(bytes@[k]),
                    word_bytes(word) == normalize(bytes@.subrange(i as int, j as int)),
                    word_bytes(word).len() < 15 ==> word_bytes(word) == letters(
                        bytes@.subrange(i as int, j as int),
                    ),
                    word_bytes(word).len() >= 15 ==> letters(
                        bytes@.subrange(i as int, j as int),
                    ).len() >= 15,
                decreases n - j,
            {
                let byte: u8 = bytes[j];
                let ghost token = bytes@.subrange(i as int, j as int);
                let ghost longer = bytes@.subrange(i as int, j + 1);
                proof {
                    assert(longer.drop_last() =~= token);
                    assert(longer.last() == byte);
                }
                if word_len(&word) < 15 {
                    if byte >= 0x41 && byte <= 0x5a {
                        word_push(&mut word, byte + 0x20);
                    } else if byte >= 0x61 && byte <= 0x7a {
                        word_push(&mut word, byte);
                    }
                }
                proof {
                    if letters(longer).len() > 15 {
                        assert(letters(longer).take(15) =~= letters(token).take(15));
                    } else if letters(longer).len() == 15 {
                        assert(letters(longer).take(15) =~= letters(longer));
                    }
                }
                j = j + 1;
            }
            proof {
                assert forall|k: int| 0 <= k < j - i implies !is_space(rest[k]) by {
                    assert(rest[k] == bytes@[i + k]);
                }
                lemma_token_len(rest, j - i);
                assert(rest.take(j - i) =~= bytes@.subrange(i as int, j as int));
                assert(rest.skip(j - i) =~= bytes@.skip(j as int));
            }
            if word_len(&word) > 0 {
                proof {
                    assert(texts(words@.push(word)) =~= texts(words@) + seq![word_bytes(word)]);
                }
                words.push(word);
            }
            i = j;
        }
    }
    proof {
        assert(bytes@.skip(n as int) =~= Seq::<u8>::empty());
    }
    words
}

/// The words of a query that count: the first ten.
pub open spec fn query_words(bytes: Seq<u8>) -> Seq<Seq<u8>> {
    let words = words_of(bytes);
    if words.len() > 10 {
        words.take(10)
    } else {
        words
    }
}

} // verus!
