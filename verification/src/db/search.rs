//! A posting index over the words of entity names, with approximate,
//! prefix-aware and order-sensitive scoring.

use vstd::prelude::*;
use vstd::string::StringSliceAdditionalSpecFns;

use crate::db::order::{
    lemma_lex_asymmetric, lemma_lex_irreflexive, lemma_lex_le_le, lemma_lex_le_lt,
    lemma_prefix_between, lemma_prefix_le, lex_le, lex_lt,
};
use crate::db::words::{query_words, texts, words_in, words_of};
use crate::trusted::fxmap::{
    scores, scores_get, scores_insert, scores_into_vec, scores_new, ScoreMap,
};
use crate::trusted::word::{word_bytes, word_len, word_lt, word_starts_with, Word};
use crate::types::tags::EntityId;
use crate::types::Id;

verus! {

/// What a search result names: an entity by its `Id`, or an effect by its
/// key.
#[derive(Debug, Clone, Copy)]
pub enum SearchId<'a> {
    Champion(Id),
    Spell(Id),
    Equip(Id),
    Relic(Id),
    AbilityGroup(Id),
    Effect(&'a str),
    Condition(&'a str),
    Damage(&'a str),
}

/// What can be named in a search result.
pub trait Searchable {
    /// What names `self` in a search result.
    fn search_id(&self) -> SearchId<'_>;
}

/// One entry of the index: a word, the entity in whose text it stands, and
/// the place of the word in that text.
pub struct Posting {
    pub word: Seq<u8>,
    pub eid: EntityId,
    pub pos: u32,
}

/// Whether the words of `postings` never descend.
pub open spec fn ordered(postings: Seq<Posting>) -> bool {
    forall|i: int, j: int|
        0 <= i <= j < postings.len() ==> lex_le(
            (#[trigger] postings[i]).word,
            (#[trigger] postings[j]).word,
        )
}

/// The postings that a text with the words `words` adds for `eid`: one for
/// each word, with the place of the word counted from zero. Places are kept
/// in 32 bits.
pub open spec fn entries_for(words: Seq<Seq<u8>>, eid: EntityId) -> Seq<Posting> {
    Seq::new(words.len(), |k: int| Posting { word: words[k], eid, pos: k as u32 })
}

/// Whether a query word finds a posting: the word of the posting is the
/// query word or begins with it.
pub open spec fn hits(word: Seq<u8>, held: Seq<u8>) -> bool {
    word.is_prefix_of(held)
}

/// The score of a posting with the word `held` at place `pos` for the query
/// word `word` at place `order`: eight for each byte of the query word and a
/// bonus of seven, less the bytes that `held` is longer (four at most), less
/// the distance between the two places.
pub open spec fn score(word: Seq<u8>, order: int, held: Seq<u8>, pos: int) -> int {
    let extra = held.len() - word.len();
    let apart = if order >= pos {
        order - pos
    } else {
        pos - order
    };
    8 * word.len() + 7 - (if extra < 4 {
        extra
    } else {
        4
    }) - apart
}

/// The best score that the first `upto` postings give to `eid` for the
/// query word `word` at place `order`; `None` where none of them is found.
pub open spec fn best(
    postings: Seq<Posting>,
    upto: int,
    word: Seq<u8>,
    order: int,
    eid: EntityId,
) -> Option<int>
    decreases upto,
{
    if upto <= 0 {
        None
    } else {
        let before = best(postings, upto - 1, word, order, eid);
        let posting = postings[upto - 1];
        if posting.eid == eid && hits(word, posting.word) {
            let here = score(word, order, posting.word, posting.pos as int);
            match before {
                Some(b) => if b >= here {
                    Some(b)
                } else {
                    Some(here)
                },
                None => Some(here),
            }
        } else {
            before
        }
    }
}

/// The sum over the first `upto` query words of the best score that each
/// gives to `eid`; a word that finds nothing for `eid` adds nothing.
pub open spec fn total(postings: Seq<Posting>, words: Seq<Seq<u8>>, upto: int, eid: EntityId) -> int
    decreases upto,
{
    if upto <= 0 {
        0
    } else {
        total(postings, words, upto - 1, eid) + (match best(
            postings,
            postings.len() as int,
            words[upto - 1],
            upto - 1,
            eid,
        ) {
            Some(b) => b,
            None => 0,
        })
    }
}

/// Whether one of the first `upto` query words finds a posting of `eid`.
pub open spec fn found(postings: Seq<Posting>, words: Seq<Seq<u8>>, upto: int, eid: EntityId) -> bool
    decreases upto,
{
    if upto <= 0 {
        false
    } else {
        found(postings, words, upto - 1, eid) || best(
            postings,
            postings.len() as int,
            words[upto - 1],
            upto - 1,
            eid,
        ) is Some
    }
}

/// The score that an entity must reach: eight for each byte of the first
/// `upto` query words.
pub open spec fn threshold(words: Seq<Seq<u8>>, upto: int) -> int
    decreases upto,
{
    if upto <= 0 {
        0
    } else {
        threshold(words, upto - 1) + 8 * words[upto - 1].len()
    }
}

/// Whether `ranked` is an answer to the query `words` over `postings`: it
/// holds each entity that a query word finds and whose total reaches the
/// threshold, once, with its total, and the totals never ascend.
pub open spec fn is_ranking(
    postings: Seq<Posting>,
    words: Seq<Seq<u8>>,
    ranked: Seq<(EntityId, i32)>,
) -> bool {
    let n = words.len() as int;
    &&& forall|j: int|
        0 <= j < ranked.len() ==> {
            let eid = (#[trigger] ranked[j]).0;
            &&& found(postings, words, n, eid)
            &&& ranked[j].1 == total(postings, words, n, eid)
            &&& ranked[j].1 >= threshold(words, n)
        }
    &&& forall|eid: EntityId|
        #[trigger] found(postings, words, n, eid) && total(postings, words, n, eid) >= threshold(
            words,
            n,
        ) ==> exists|j: int| 0 <= j < ranked.len() && (#[trigger] ranked[j]).0 == eid
    &&& forall|i: int, j: int|
        0 <= i < j < ranked.len() ==> (#[trigger] ranked[i]).0 != (#[trigger] ranked[j]).0
    &&& forall|i: int, j: int|
        0 <= i <= j < ranked.len() ==> (#[trigger] ranked[i]).1 >= (#[trigger] ranked[j]).1
}

/// Where a word of the index stands: in the text of which entity, and at
/// which place.
#[derive(Debug, Clone, Copy)]
struct Entry {
    eid: EntityId,
    ord: u32,
}

/// The postings of all indexed texts in one array, ordered by word.
#[derive(Debug)]
pub struct SearchIndex {
    table: Vec<(Word, Entry)>,
}

/// The posting that a row of the index stands for.
spec fn posting_of(row: (Word, Entry)) -> Posting {
    Posting { word: word_bytes(row.0), eid: row.1.eid, pos: row.1.ord }
}

/// The postings that the rows of the index stand for.
spec fn postings_of(table: Seq<(Word, Entry)>) -> Seq<Posting> {
    table.map_values(|row: (Word, Entry)| posting_of(row))
}

impl View for SearchIndex {
    type V = Seq<Posting>;

    closed spec fn view(&self) -> Seq<Posting> {
        postings_of(self.table@)
    }
}

impl Default for SearchIndex {
    fn default() -> (index: SearchIndex)
        ensures
            index@ == Seq::<Posting>::empty(),
    {
        let index = SearchIndex { table: Vec::new() };
        assert(index@ =~= Seq::<Posting>::empty());
        index
    }
}

/// The first row of `table` whose word does not come before `word`.
fn lower_bound(table: &Vec<(Word, Entry)>, word: &Word) -> (index: usize)
    requires
        ordered(postings_of(table@)),
    ensures
        index <= table@.len(),
        forall|i: int| 0 <= i < index ==> lex_lt(postings_of(table@)[i].word, word_bytes(*word)),
        forall|i: int|
            index <= i < table@.len() ==> lex_le(word_bytes(*word), postings_of(table@)[i].word),
{
    let ghost held = postings_of(table@);
    let mut lo: usize = 0;
    let mut hi: usize = table.len();
    while lo < hi
        invariant
            lo <= hi <= table@.len(),
            held == postings_of(table@),
            ordered(held),
            forall|i: int| 0 <= i < lo ==> lex_lt(held[i].word, word_bytes(*word)),
            forall|i: int| hi <= i < held.len() ==> lex_le(word_bytes(*word), held[i].word),
        decreases hi - lo,
    {
        let mid: usize = lo + (hi - lo) / 2;
        assert(held[mid as int].word == word_bytes(table@[mid as int].0));
        if word_lt(&table[mid].0, word) {
            proof {
                assert forall|i: int| 0 <= i < mid + 1 implies lex_lt(
                    held[i].word,
                    word_bytes(*word),
                ) by {
                    assert(lex_le(held[i].word, held[mid as int].word));
                    lemma_lex_le_lt(held[i].word, held[mid as int].word, word_bytes(*word));
                }
            }
            lo = mid + 1;
        } else {
            proof {
                assert forall|i: int| mid <= i < held.len() implies lex_le(
                    word_bytes(*word),
                    held[i].word,
                ) by {
                    assert(lex_le(held[mid as int].word, held[i].word));
                    lemma_lex_le_le(word_bytes(*word), held[mid as int].word, held[i].word);
                }
            }
            hi = mid;
        }
    }
    lo
}

/// The end of the run of rows from `start` on whose words begin with `word`.
fn prefix_end(table: &Vec<(Word, Entry)>, start: usize, word: &Word) -> (end: usize)
    requires
        ordered(postings_of(table@)),
        start <= table@.len(),
        forall|i: int| 0 <= i < start ==> lex_lt(postings_of(table@)[i].word, word_bytes(*word)),
        forall|i: int|
            start <= i < table@.len() ==> lex_le(word_bytes(*word), postings_of(table@)[i].word),
    ensures
        start <= end <= table@.len(),
        forall|i: int|
            0 <= i < table@.len() ==> (hits(word_bytes(*word), postings_of(table@)[i].word) <==> start
                <= i < end),
{
    let ghost held = postings_of(table@);
    let ghost w = word_bytes(*word);
    let mut lo: usize = start;
    let mut hi: usize = table.len();
    while lo < hi
        invariant
            start <= lo <= hi <= table@.len(),
            held == postings_of(table@),
            w == word_bytes(*word),
            ordered(held),
            forall|i: int| start <= i < held.len() ==> lex_le(w, held[i].word),
            forall|i: int| start <= i < lo ==> hits(w, held[i].word),
            forall|i: int| hi <= i < held.len() ==> !hits(w, held[i].word),
        decreases hi - lo,
    {
        let mid: usize = lo + (hi - lo) / 2;
        assert(held[mid as int].word == word_bytes(table@[mid as int].0));
        if word_starts_with(&table[mid].0, word) {
            proof {
                assert forall|i: int| start <= i < mid + 1 implies hits(w, held[i].word) by {
                    assert(lex_le(held[i].word, held[mid as int].word));
                    lemma_prefix_between(w, held[i].word, held[mid as int].word);
                }
            }
            lo = mid + 1;
        } else {
            proof {
                assert forall|i: int| mid <= i < held.len() implies !hits(w, held[i].word) by {
                    if hits(w, held[i].word) {
                        assert(lex_le(held[mid as int].word, held[i].word));
                        lemma_prefix_between(w, held[mid as int].word, held[i].word);
                    }
                }
            }
            hi = mid;
        }
    }
    proof {
        assert forall|i: int| 0 <= i < start implies !hits(w, held[i].word) by {
            if hits(w, held[i].word) {
                lemma_prefix_le(w, held[i].word);
            }
        }
    }
    lo
}

impl SearchIndex {
    /// The rows are in the order of their words.
    #[verifier::type_invariant]
    spec fn sorted(self) -> bool {
        ordered(postings_of(self.table@))
    }

    /// Adds a posting for every word of `text`. The index stays ordered by
    /// word; where words are equal nothing is promised on their order.
    pub fn insert(&mut self, text: &str, eid: EntityId)
        ensures
            ordered(final(self)@),
            final(self)@.to_multiset() == old(self)@.to_multiset().add(
                entries_for(words_of(text.spec_bytes()), eid).to_multiset(),
            ),
    {
        proof {
            use_type_invariant(&*self);
        }
        let words: Vec<Word> = words_in(text);
        let ghost added = entries_for(words_of(text.spec_bytes()), eid);
        let ghost start = self@;
        let mut table: Vec<(Word, Entry)> = Vec::new();
        std::mem::swap(&mut table, &mut self.table);
        let mut k: usize = 0;
        proof {
            assert(added.take(0) =~= Seq::<Posting>::empty());
            added.take(0).to_multiset_ensures();
            vstd::multiset::lemma_multiset_empty_len(added.take(0).to_multiset());
            assert(start.to_multiset().add(added.take(0).to_multiset()) =~= start.to_multiset());
        }
        while k < words.len()
            invariant
                k <= words@.len(),
                texts(words@) == words_of(text.spec_bytes()),
                added == entries_for(words_of(text.spec_bytes()), eid),
                ordered(postings_of(table@)),
                postings_of(table@).to_multiset() == start.to_multiset().add(
                    added.take(k as int).to_multiset(),
                ),
            decreases words@.len() - k,
        {
            let word: Word = words[k];
            let entry = Entry { eid, ord: #[verifier::truncate] (k as u32) };
            let index: usize = lower_bound(&table, &word);
            let ghost before = postings_of(table@);
            let ghost posting = posting_of((word, entry));
            table.insert(index, (word, entry));
            proof {
                let after = postings_of(table@);
                assert(after =~= before.insert(index as int, posting));
                assert(texts(words@)[k as int] == word_bytes(word));
                assert(added[k as int] == posting);
                assert(added.take(k + 1) =~= added.take(k as int).push(posting));
                vstd::seq_lib::to_multiset_insert(before, index as int, posting);
                vstd::seq_lib::to_multiset_build(added.take(k as int), posting);
                assert(after.to_multiset() =~= start.to_multiset().add(
                    added.take(k + 1).to_multiset(),
                ));
                assert forall|i: int, j: int| 0 <= i <= j < after.len() implies lex_le(
                    (#[trigger] after[i]).word,
                    (#[trigger] after[j]).word,
                ) by {
                    if i == j {
                        lemma_lex_irreflexive(after[i].word);
                    } else if j < index {
                    } else if j == index {
                        assert(after[i] == before[i]);
                        lemma_lex_asymmetric(before[i].word, posting.word);
                    } else if i < index {
                        assert(after[j] == before[j - 1]);
                    } else if i == index {
                        assert(after[j] == before[j - 1]);
                    } else {
                        assert(after[i] == before[i - 1]);
                        assert(after[j] == before[j - 1]);
                    }
                }
            }
            k = k + 1;
        }
        proof {
            assert(added.take(k as int) =~= added);
        }
        self.table = table;
    }

    /// How many bytes the postings take, one row of the index for each; the
    /// largest number there is where that is more than a number can hold.
    pub fn size(&self) -> (bytes: usize)
        ensures
            bytes == (if self@.len() * vstd::layout::size_of::<(Word, Entry)>() <= usize::MAX {
                self@.len() * vstd::layout::size_of::<(Word, Entry)>()
            } else {
                usize::MAX as nat
            }),
    {
        match self.table.len().checked_mul(std::mem::size_of::<(Word, Entry)>()) {
            Some(bytes) => bytes,
            None => usize::MAX,
        }
    }

    /// How many postings the index holds. Whatever it holds is in the order
    /// of the words.
    pub fn len(&self) -> (n: usize)
        ensures
            n == self@.len(),
            ordered(self@),
    {
        proof {
            use_type_invariant(self);
        }
        self.table.len()
    }
}

/// The key under which the best score of `eid` for the query word at place
/// `order` is kept.
spec fn pair_key(eid: EntityId, order: int) -> int {
    eid.rank() * 16 + order
}

/// What `held` holds for `key`.
spec fn kept(held: Map<u64, i64>, key: int) -> Option<int> {
    if 0 <= key <= u64::MAX && held.contains_key(key as u64) {
        Some(held[key as u64] as int)
    } else {
        None
    }
}

/// The best score of `eid` for the query word at place `order` when the
/// words before `done` are through and the word at `done` has been held
/// against the first `upto` postings.
spec fn cell(
    postings: Seq<Posting>,
    words: Seq<Seq<u8>>,
    done: int,
    upto: int,
    eid: EntityId,
    order: int,
) -> Option<int> {
    if order < done {
        best(postings, postings.len() as int, words[order], order, eid)
    } else if order == done {
        best(postings, upto, words[order], order, eid)
    } else {
        None
    }
}

/// The running total of `eid` at the same moment; `None` while nothing was
/// found for it.
spec fn row(postings: Seq<Posting>, words: Seq<Seq<u8>>, done: int, upto: int, eid: EntityId) -> Option<
    int,
> {
    let now = best(postings, upto, words[done], done, eid);
    if found(postings, words, done, eid) || now is Some {
        Some(
            total(postings, words, done, eid) + (match now {
                Some(b) => b,
                None => 0,
            }),
        )
    } else {
        None
    }
}

/// Whether `held` keeps the best score of every entity for every query
/// word at that moment.
spec fn cells_ok(
    held: Map<u64, i64>,
    postings: Seq<Posting>,
    words: Seq<Seq<u8>>,
    done: int,
    upto: int,
) -> bool {
    forall|eid: EntityId, order: int|
        0 <= order < 16 ==> kept(held, pair_key(eid, order)) == #[trigger] cell(
            postings,
            words,
            done,
            upto,
            eid,
            order,
        )
}

/// Whether `held` keeps the running total of every entity at that moment.
spec fn rows_ok(
    held: Map<u64, i64>,
    postings: Seq<Posting>,
    words: Seq<Seq<u8>>,
    done: int,
    upto: int,
) -> bool {
    forall|eid: EntityId|
        kept(held, eid.rank()) == #[trigger] row(postings, words, done, upto, eid)
}

/// Postings that the word does not find change no best score.
proof fn lemma_best_skips(postings: Seq<Posting>, from: int, upto: int, word: Seq<u8>)
    requires
        0 <= from <= upto <= postings.len(),
        forall|k: int| from <= k < upto ==> !hits(word, postings[k].word),
    ensures
        forall|order: int, eid: EntityId| #[trigger]
            best(postings, upto, word, order, eid) == best(postings, from, word, order, eid),
    decreases upto - from,
{
    if from < upto {
        lemma_best_skips(postings, from, upto - 1, word);
        assert forall|order: int, eid: EntityId| #[trigger]
            best(postings, upto, word, order, eid) == best(postings, from, word, order, eid) by {
            assert(best(postings, upto - 1, word, order, eid) == best(
                postings,
                from,
                word,
                order,
                eid,
            ));
        }
    }
}

/// A best score is the score of one of the postings, so it lies within the
/// bounds of a score.
proof fn lemma_best_bounds(
    postings: Seq<Posting>,
    upto: int,
    word: Seq<u8>,
    order: int,
    eid: EntityId,
)
    requires
        0 <= upto <= postings.len(),
        0 <= order < 16,
        word.len() <= 15,
    ensures
        best(postings, upto, word, order, eid) matches Some(b) ==> -0x1_0000_0000 <= b <= 8
            * word.len() + 7,
    decreases upto,
{
    if upto > 0 {
        lemma_best_bounds(postings, upto - 1, word, order, eid);
    }
}

/// A total is a sum of best scores, one for each word at most.
proof fn lemma_total_bounds(postings: Seq<Posting>, words: Seq<Seq<u8>>, upto: int, eid: EntityId)
    requires
        0 <= upto <= words.len(),
        upto <= 10,
        forall|i: int| 0 <= i < upto ==> (#[trigger] words[i]).len() <= 15,
    ensures
        -0x1_0000_0000 * upto <= total(postings, words, upto, eid) <= threshold(words, upto) + 7
            * upto,
        0 <= threshold(words, upto) <= 120 * upto,
        !found(postings, words, upto, eid) ==> total(postings, words, upto, eid) == 0,
    decreases upto,
{
    if upto > 0 {
        lemma_total_bounds(postings, words, upto - 1, eid);
        lemma_best_bounds(postings, postings.len() as int, words[upto - 1], upto - 1, eid);
    }
}

/// The score of the row `held` at place `pos` for the query word `word` at
/// place `order`.
fn score_of(word: &Word, order: usize, held: &Word, pos: u32) -> (here: i64)
    requires
        order < 16,
        hits(word_bytes(*word), word_bytes(*held)),
    ensures
        here == score(word_bytes(*word), order as int, word_bytes(*held), pos as int),
        -0x1_0000_0000 <= here <= 8 * word_bytes(*word).len() + 7,
        word_bytes(*word).len() <= 15,
{
    let len: usize = word_len(word);
    let extra: usize = word_len(held) - len;
    let penalty: i64 = if extra < 4 {
        extra as i64
    } else {
        4
    };
    let apart: i64 = if order as i64 >= pos as i64 {
        order as i64 - pos as i64
    } else {
        pos as i64 - order as i64
    };
    8 * (len as i64) + 7 - penalty - apart
}

/// Takes the score `here` of one posting of `eid` into account: where it
/// beats the best score that was kept for `eid` and the query word at
/// `order`, it takes its place and the total of `eid` grows by the
/// difference.
fn note(entries: &mut ScoreMap, sums: &mut ScoreMap, eid: EntityId, order: usize, here: i64)
    requires
        order < 16,
        -0x1_0000_0000 <= here <= 0x1_0000_0000,
        kept(scores(*old(entries)), pair_key(eid, order as int)) matches Some(b) ==> -0x1_0000_0000
            <= b <= 0x1_0000_0000,
        kept(scores(*old(sums)), eid.rank()) matches Some(t) ==> -0x100_0000_0000 <= t
            <= 0x100_0000_0000,
        kept(scores(*old(entries)), pair_key(eid, order as int)) is Some ==> kept(
            scores(*old(sums)),
            eid.rank(),
        ) is Some,
    ensures
        match kept(scores(*old(entries)), pair_key(eid, order as int)) {
            Some(b) => if here > b {
                &&& scores(*final(entries)) == scores(*old(entries)).insert(
                    pair_key(eid, order as int) as u64,
                    here,
                )
                &&& scores(*final(sums)) == scores(*old(sums)).insert(
                    eid.rank() as u64,
                    (kept(scores(*old(sums)), eid.rank())->0 + here - b) as i64,
                )
            } else {
                &&& scores(*final(entries)) == scores(*old(entries))
                &&& scores(*final(sums)) == scores(*old(sums))
            },
            None => {
                &&& scores(*final(entries)) == scores(*old(entries)).insert(
                    pair_key(eid, order as int) as u64,
                    here,
                )
                &&& scores(*final(sums)) == scores(*old(sums)).insert(
                    eid.rank() as u64,
                    ((match kept(scores(*old(sums)), eid.rank()) {
                        Some(t) => t,
                        None => 0,
                    }) + here) as i64,
                )
            },
        },
{
    proof {
        EntityId::lemma_of_rank(eid);
    }
    let rank: u64 = eid.key();
    let key: u64 = rank * 16 + order as u64;
    match scores_get(entries, key) {
        Some(b) => {
            if here > b {
                scores_insert(entries, key, here);
                match scores_get(sums, rank) {
                    Some(t) => {
                        scores_insert(sums, rank, t + here - b);
                    },
                    None => {},
                }
            }
        },
        None => {
            scores_insert(entries, key, here);
            match scores_get(sums, rank) {
                Some(t) => {
                    scores_insert(sums, rank, t + here);
                },
                None => {
                    scores_insert(sums, rank, here);
                },
            }
        },
    }
}

/// Whether `entry` was made of one of `pairs`: of its key the entity, of its
/// score the total.
spec fn made_of(pairs: Seq<(u64, i64)>, upto: int, entry: (EntityId, i32)) -> bool {
    exists|i: int|
        0 <= i < upto && (#[trigger] pairs[i]).0 == entry.0.rank() && pairs[i].1 == entry.1
}

/// Whether one of `ranked` stands for the entity with the rank `key`.
spec fn ranks(ranked: Seq<(EntityId, i32)>, key: u64) -> bool {
    exists|j: int| 0 <= j < ranked.len() && (#[trigger] ranked[j]).0.rank() == key
}

/// Whether `key` is the rank of an entity.
spec fn is_rank(key: u64) -> bool {
    exists|eid: EntityId| eid.rank() == key
}

/// Whether the totals of `ranked` never ascend.
spec fn descending(ranked: Seq<(EntityId, i32)>) -> bool {
    forall|i: int, j: int|
        0 <= i <= j < ranked.len() ==> (#[trigger] ranked[i]).1 >= (#[trigger] ranked[j]).1
}

/// Whether `ranked` holds what the first `upto` of `pairs` give: each
/// entity among them whose total reaches `threshold`, once.
spec fn drawn_from(
    pairs: Seq<(u64, i64)>,
    upto: int,
    threshold: int,
    ranked: Seq<(EntityId, i32)>,
) -> bool {
    &&& forall|j: int|
        0 <= j < ranked.len() ==> made_of(pairs, upto, #[trigger] ranked[j]) && ranked[j].1
            >= threshold
    &&& forall|i: int|
        0 <= i < upto && (#[trigger] pairs[i]).1 >= threshold && is_rank(pairs[i].0) ==> ranks(
            ranked,
            pairs[i].0,
        )
    &&& apart(ranked)
}

/// Puts `entry` where the totals stay in descending order.
fn place(ranked: &mut Vec<(EntityId, i32)>, entry: (EntityId, i32)) -> (at: usize)
    requires
        descending(old(ranked)@),
    ensures
        at <= old(ranked)@.len(),
        final(ranked)@ == old(ranked)@.insert(at as int, entry),
        descending(final(ranked)@),
{
    let value: i32 = entry.1;
    let ghost before = ranked@;
    let mut lo: usize = 0;
    let mut hi: usize = ranked.len();
    while lo < hi
        invariant
            lo <= hi <= ranked@.len(),
            ranked@ == before,
            descending(before),
            forall|i: int| 0 <= i < lo ==> (#[trigger] ranked@[i]).1 >= value,
            forall|i: int| hi <= i < ranked@.len() ==> (#[trigger] ranked@[i]).1 < value,
        decreases hi - lo,
    {
        let mid: usize = lo + (hi - lo) / 2;
        if ranked[mid].1 >= value {
            lo = mid + 1;
        } else {
            hi = mid;
        }
    }
    ranked.insert(lo, entry);
    proof {
        let after = ranked@;
        let at = lo as int;
        assert forall|i: int, j: int| 0 <= i <= j < after.len() implies (#[trigger] after[i]).1 >= (
        #[trigger] after[j]).1 by {
            let a = if i < at {
                i
            } else {
                i - 1
            };
            let b = if j < at {
                j
            } else {
                j - 1
            };
            if i == at && j == at {
            } else if i == at {
                assert(after[j] == before[b]);
            } else if j == at {
                assert(after[i] == before[a]);
            } else {
                assert(after[i] == before[a]);
                assert(after[j] == before[b]);
            }
        }
    }
    lo
}

/// Whether no two of `pairs` have the same key.
spec fn keys_differ(pairs: Seq<(u64, i64)>) -> bool {
    forall|i: int, j: int|
        0 <= i < j < pairs.len() ==> (#[trigger] pairs[i]).0 != (#[trigger] pairs[j]).0
}

/// An entry that is made of the pair at `upto` stands for another entity
/// than an entry that is made of a pair before it.
proof fn lemma_made_apart(
    pairs: Seq<(u64, i64)>,
    upto: int,
    earlier: (EntityId, i32),
    entry: (EntityId, i32),
)
    requires
        0 <= upto < pairs.len(),
        keys_differ(pairs),
        made_of(pairs, upto, earlier),
        entry.0.rank() == pairs[upto].0,
    ensures
        earlier.0 != entry.0,
{
    let i = choose|i: int|
        0 <= i < upto && (#[trigger] pairs[i]).0 == earlier.0.rank() && pairs[i].1 == earlier.1;
    assert(pairs[i].0 != pairs[upto].0);
}

/// The entries of a list with one more put in are made of pairs, where
/// those of the list are and the one more is made of the next pair.
proof fn lemma_made_with(
    pairs: Seq<(u64, i64)>,
    upto: int,
    threshold: int,
    before: Seq<(EntityId, i32)>,
    at: int,
    entry: (EntityId, i32),
)
    requires
        0 <= upto < pairs.len(),
        0 <= at <= before.len(),
        forall|j: int|
            0 <= j < before.len() ==> made_of(pairs, upto, #[trigger] before[j]) && before[j].1
                >= threshold,
        entry.0.rank() == pairs[upto].0,
        entry.1 == pairs[upto].1,
        entry.1 >= threshold,
    ensures
        forall|j: int|
            0 <= j < before.len() + 1 ==> made_of(
                pairs,
                upto + 1,
                #[trigger] before.insert(at, entry)[j],
            ) && before.insert(at, entry)[j].1 >= threshold,
{
    let after = before.insert(at, entry);
    assert forall|j: int| 0 <= j < after.len() implies made_of(pairs, upto + 1, #[trigger] after[j])
        && after[j].1 >= threshold by {
        if j < at {
            assert(after[j] == before[j]);
            let i = choose|i: int|
                0 <= i < upto && (#[trigger] pairs[i]).0 == before[j].0.rank() && pairs[i].1
                    == before[j].1;
            assert(0 <= i < upto + 1 && pairs[i].0 == after[j].0.rank() && pairs[i].1 == after[j].1);
        } else if j == at {
            assert(after[j] == entry);
            assert(0 <= upto < upto + 1 && pairs[upto].0 == after[j].0.rank() && pairs[upto].1
                == after[j].1);
        } else {
            assert(after[j] == before[j - 1]);
            let i = choose|i: int|
                0 <= i < upto && (#[trigger] pairs[i]).0 == before[j - 1].0.rank() && pairs[i].1
                    == before[j - 1].1;
            assert(0 <= i < upto + 1 && pairs[i].0 == after[j].0.rank() && pairs[i].1 == after[j].1);
        }
    }
}

/// An entity that a list stands for is stood for by the list with one more
/// put in, and so is the entity of the one more.
proof fn lemma_ranks_with(before: Seq<(EntityId, i32)>, at: int, entry: (EntityId, i32), key: u64)
    requires
        0 <= at <= before.len(),
        ranks(before, key) || entry.0.rank() == key,
    ensures
        ranks(before.insert(at, entry), key),
{
    let after = before.insert(at, entry);
    if entry.0.rank() == key {
        assert(after[at].0.rank() == key);
    } else {
        let j = choose|j: int| 0 <= j < before.len() && (#[trigger] before[j]).0.rank() == key;
        if j < at {
            assert(after[j] == before[j]);
            assert(after[j].0.rank() == key);
        } else {
            assert(after[j + 1] == before[j]);
            assert(after[j + 1].0.rank() == key);
        }
    }
}

/// Whether no two of `ranked` stand for the same entity.
spec fn apart(ranked: Seq<(EntityId, i32)>) -> bool {
    forall|i: int, j: int|
        0 <= i < j < ranked.len() ==> (#[trigger] ranked[i]).0 != (#[trigger] ranked[j]).0
}

/// A list whose entries stand for different entities still does so with one
/// more put in that stands for yet another.
proof fn lemma_apart_with(before: Seq<(EntityId, i32)>, at: int, entry: (EntityId, i32))
    requires
        0 <= at <= before.len(),
        apart(before),
        forall|k: int| 0 <= k < before.len() ==> (#[trigger] before[k]).0 != entry.0,
    ensures
        apart(before.insert(at, entry)),
{
    let after = before.insert(at, entry);
    assert forall|i: int, j: int| 0 <= i < j < after.len() implies (#[trigger] after[i]).0 != (
    #[trigger] after[j]).0 by {
        if i == at {
            assert(after[j] == before[j - 1]);
        } else if j == at {
            assert(after[i] == before[i]);
        } else if j < at {
            assert(after[i] == before[i]);
            assert(after[j] == before[j]);
        } else if i < at {
            assert(after[i] == before[i]);
            assert(after[j] == before[j - 1]);
        } else {
            assert(after[i] == before[i - 1]);
            assert(after[j] == before[j - 1]);
        }
    }
}

/// An entry made of the next pair keeps `drawn_from` when it is put in.
proof fn lemma_drawn_with(
    pairs: Seq<(u64, i64)>,
    upto: int,
    threshold: int,
    before: Seq<(EntityId, i32)>,
    at: int,
    entry: (EntityId, i32),
)
    requires
        0 <= upto < pairs.len(),
        0 <= at <= before.len(),
        drawn_from(pairs, upto, threshold, before),
        keys_differ(pairs),
        entry.0.rank() == pairs[upto].0,
        entry.1 == pairs[upto].1,
        entry.1 >= threshold,
    ensures
        drawn_from(pairs, upto + 1, threshold, before.insert(at, entry)),
{
    let after = before.insert(at, entry);
    lemma_made_with(pairs, upto, threshold, before, at, entry);
    assert forall|i: int|
        0 <= i < upto + 1 && (#[trigger] pairs[i]).1 >= threshold && is_rank(
            pairs[i].0,
        ) implies ranks(after, pairs[i].0) by {
        lemma_ranks_with(before, at, entry, pairs[i].0);
    }
    assert forall|k: int| 0 <= k < before.len() implies (#[trigger] before[k]).0 != entry.0 by {
        lemma_made_apart(pairs, upto, before[k], entry);
    }
    lemma_apart_with(before, at, entry);
}

/// A pair that stands for no entity, or whose total stays under the
/// threshold, leaves `drawn_from` as it is.
proof fn lemma_drawn_without(
    pairs: Seq<(u64, i64)>,
    upto: int,
    threshold: int,
    ranked: Seq<(EntityId, i32)>,
)
    requires
        0 <= upto < pairs.len(),
        drawn_from(pairs, upto, threshold, ranked),
        pairs[upto].1 < threshold || !is_rank(pairs[upto].0),
    ensures
        drawn_from(pairs, upto + 1, threshold, ranked),
{
    assert forall|j: int| 0 <= j < ranked.len() implies made_of(
        pairs,
        upto + 1,
        #[trigger] ranked[j],
    ) by {
        assert(made_of(pairs, upto, ranked[j]));
    }
}

/// The entities among `pairs` whose total reaches `threshold`, the best
/// first.
fn rank_pairs(pairs: Vec<(u64, i64)>, threshold: i64) -> (ranked: Vec<(EntityId, i32)>)
    requires
        0 <= threshold,
        forall|i: int|
            0 <= i < pairs@.len() && is_rank((#[trigger] pairs@[i]).0) ==> pairs@[i].1 <= i32::MAX,
        keys_differ(pairs@),
    ensures
        drawn_from(pairs@, pairs@.len() as int, threshold as int, ranked@),
        descending(ranked@),
{
    let mut ranked: Vec<(EntityId, i32)> = Vec::new();
    let mut m: usize = 0;
    while m < pairs.len()
        invariant
            m <= pairs@.len(),
            0 <= threshold,
            forall|i: int|
                0 <= i < pairs@.len() && is_rank((#[trigger] pairs@[i]).0) ==> pairs@[i].1
                    <= i32::MAX,
            keys_differ(pairs@),
            drawn_from(pairs@, m as int, threshold as int, ranked@),
            descending(ranked@),
        decreases pairs@.len() - m,
    {
        let key: u64 = pairs[m].0;
        let sum: i64 = pairs[m].1;
        let ghost before = ranked@;
        match EntityId::from_key(key) {
            Some(eid) => {
                proof {
                    EntityId::lemma_rank_of(key as int);
                    assert(is_rank(key));
                }
                if sum >= threshold {
                    let at: usize = place(&mut ranked, (eid, sum as i32));
                    proof {
                        lemma_drawn_with(
                            pairs@,
                            m as int,
                            threshold as int,
                            before,
                            at as int,
                            (eid, sum as i32),
                        );
                    }
                } else {
                    proof {
                        lemma_drawn_without(pairs@, m as int, threshold as int, before);
                    }
                }
            },
            None => {
                proof {
                    if is_rank(key) {
                        let eid = choose|eid: EntityId| eid.rank() == key;
                        EntityId::lemma_of_rank(eid);
                    }
                    lemma_drawn_without(pairs@, m as int, threshold as int, before);
                }
            },
        }
        m = m + 1;
    }
    ranked
}

impl SearchIndex {
    /// The words of `text`, in the order in which they stand in it.
    pub fn split_words(text: &str) -> (words: Vec<Word>)
        ensures
            texts(words@) == words_of(text.spec_bytes()),
    {
        words_in(text)
    }

    /// The entities that `query` finds, each with its total score, the best
    /// first. Where totals are equal nothing is promised on their order.
    pub fn find(&self, query: &str) -> (ranked: Vec<(EntityId, i32)>)
        ensures
            is_ranking(self@, query_words(query.spec_bytes()), ranked@),
    {
        proof {
            use_type_invariant(self);
        }
        let words: Vec<Word> = words_in(query);
        let n: usize = if words.len() < 10 {
            words.len()
        } else {
            10
        };
        let ghost held = self@;
        let ghost asked = query_words(query.spec_bytes());
        proof {
            assert(asked =~= texts(words@).take(n as int));
        }
        let mut entries: ScoreMap = scores_new();
        let mut sums: ScoreMap = scores_new();
        let mut threshold: i64 = 0;
        let mut i: usize = 0;
        while i < n
            invariant
                i <= n <= 10,
                n == asked.len(),
                n <= words@.len(),
                held == self@,
                held == postings_of(self.table@),
                ordered(held),
                forall|k: int| 0 <= k < n ==> #[trigger] asked[k] == word_bytes(words@[k]),
                forall|k: int| 0 <= k < i ==> (#[trigger] asked[k]).len() <= 15,
                threshold == crate::db::search::threshold(asked, i as int),
                cells_ok(scores(entries), held, asked, i as int, 0),
                rows_ok(scores(sums), held, asked, i as int, 0),
            decreases n - i,
        {
            let word: Word = words[i];
            let ghost w = word_bytes(word);
            let len: usize = word_len(&word);
            proof {
                lemma_total_bounds(held, asked, i as int, EntityId::Champion(0));
            }
            threshold = threshold + 8 * (len as i64);
            let start: usize = lower_bound(&self.table, &word);
            let end: usize = prefix_end(&self.table, start, &word);
            proof {
                lemma_best_skips(held, 0, start as int, w);
                assert(cells_ok(scores(entries), held, asked, i as int, start as int)) by {
                    assert forall|eid: EntityId, order: int| 0 <= order < 16 implies kept(
                        scores(entries),
                        pair_key(eid, order),
                    ) == #[trigger] cell(held, asked, i as int, start as int, eid, order) by {
                        assert(cell(held, asked, i as int, 0, eid, order) == cell(
                            held,
                            asked,
                            i as int,
                            start as int,
                            eid,
                            order,
                        ));
                    }
                }
                assert(rows_ok(scores(sums), held, asked, i as int, start as int)) by {
                    assert forall|eid: EntityId| kept(scores(sums), eid.rank()) == #[trigger] row(
                        held,
                        asked,
                        i as int,
                        start as int,
                        eid,
                    ) by {
                        assert(row(held, asked, i as int, 0, eid) == row(
                            held,
                            asked,
                            i as int,
                            start as int,
                            eid,
                        ));
                    }
                }
            }
            let mut k: usize = start;
            while k < end
                invariant
                    start <= k <= end <= held.len(),
                    i < n <= 10,
                    n == asked.len(),
                    held == postings_of(self.table@),
                    w == word_bytes(word),
                    w == asked[i as int],
                    w.len() <= 15,
                    forall|j: int| 0 <= j < i ==> (#[trigger] asked[j]).len() <= 15,
                    forall|j: int| 0 <= j < held.len() ==> (hits(w, held[j].word) <==> start <= j < end),
                    cells_ok(scores(entries), held, asked, i as int, k as int),
                    rows_ok(scores(sums), held, asked, i as int, k as int),
                decreases end - k,
            {
                let row_k: (Word, Entry) = self.table[k];
                let ghost posting = held[k as int];
                let eid: EntityId = row_k.1.eid;
                proof {
                    assert(posting == posting_of(row_k));
                    assert(hits(w, posting.word));
                }
                let here: i64 = score_of(&word, i, &row_k.0, row_k.1.ord);
                let ghost entries_before = scores(entries);
                let ghost sums_before = scores(sums);
                proof {
                    let c = cell(held, asked, i as int, k as int, eid, i as int);
                    let r = row(held, asked, i as int, k as int, eid);
                    lemma_best_bounds(held, k as int, w, i as int, eid);
                    lemma_total_bounds(held, asked, i as int, eid);
                    EntityId::lemma_of_rank(eid);
                }
                note(&mut entries, &mut sums, eid, i, here);
                proof {
                    let e_now = scores(entries);
                    let s_now = scores(sums);
                    assert forall|other: EntityId, order: int| 0 <= order < 16 implies kept(
                        e_now,
                        pair_key(other, order),
                    ) == #[trigger] cell(held, asked, i as int, k + 1, other, order) by {
                        let was = cell(held, asked, i as int, k as int, other, order);
                        EntityId::lemma_of_rank(other);
                        if pair_key(other, order) == pair_key(eid, i as int) {
                            EntityId::lemma_rank_injective(other, eid);
                        }
                    }
                    assert forall|other: EntityId| kept(s_now, other.rank()) == #[trigger] row(
                        held,
                        asked,
                        i as int,
                        k + 1,
                        other,
                    ) by {
                        let was = row(held, asked, i as int, k as int, other);
                        let c = cell(held, asked, i as int, k as int, eid, i as int);
                        EntityId::lemma_of_rank(other);
                        if other.rank() == eid.rank() {
                            EntityId::lemma_rank_injective(other, eid);
                        }
                    }
                }
                k = k + 1;
            }
            proof {
                lemma_best_skips(held, end as int, held.len() as int, w);
                assert forall|eid: EntityId, order: int| 0 <= order < 16 implies kept(
                    scores(entries),
                    pair_key(eid, order),
                ) == #[trigger] cell(held, asked, i + 1, 0, eid, order) by {
                    let was = cell(held, asked, i as int, end as int, eid, order);
                }
                assert forall|eid: EntityId| kept(scores(sums), eid.rank()) == #[trigger] row(
                    held,
                    asked,
                    i + 1,
                    0,
                    eid,
                ) by {
                    let was = row(held, asked, i as int, end as int, eid);
                }
            }
            i = i + 1;
        }
        let pairs: Vec<(u64, i64)> = scores_into_vec(sums);
        proof {
            lemma_total_bounds(held, asked, n as int, EntityId::Champion(0));
            assert forall|j: int|
                0 <= j < pairs@.len() && is_rank((#[trigger] pairs@[j]).0) implies pairs@[j].1
                <= i32::MAX by {
                let key = pairs@[j].0;
                assert(scores(sums).contains_pair(key, pairs@[j].1));
                let eid = choose|eid: EntityId| eid.rank() == key;
                let r = row(held, asked, n as int, 0, eid);
                lemma_total_bounds(held, asked, n as int, eid);
            }
        }
        let ranked: Vec<(EntityId, i32)> = rank_pairs(pairs, threshold);
        proof {
            assert forall|j: int| 0 <= j < ranked@.len() implies ({
                let eid = (#[trigger] ranked@[j]).0;
                &&& found(held, asked, n as int, eid)
                &&& ranked@[j].1 == total(held, asked, n as int, eid)
                &&& ranked@[j].1 >= crate::db::search::threshold(asked, n as int)
            }) by {
                let eid = ranked@[j].0;
                assert(made_of(pairs@, pairs@.len() as int, ranked@[j]));
                let r = row(held, asked, n as int, 0, eid);
                EntityId::lemma_of_rank(eid);
            }
            assert forall|eid: EntityId| #[trigger]
                found(held, asked, n as int, eid) && total(held, asked, n as int, eid)
                    >= crate::db::search::threshold(asked, n as int) implies exists|j: int|
                0 <= j < ranked@.len() && (#[trigger] ranked@[j]).0 == eid by {
                let r = row(held, asked, n as int, 0, eid);
                EntityId::lemma_of_rank(eid);
                let key = eid.rank() as u64;
                assert(scores(sums).contains_key(key));
                let at = choose|at: int| 0 <= at < pairs@.len() && (#[trigger] pairs@[at]).0 == key;
                assert(scores(sums).contains_pair(pairs@[at].0, pairs@[at].1));
                assert(is_rank(key));
                assert(ranks(ranked@, key));
                let j = choose|j: int| 0 <= j < ranked@.len() && (#[trigger] ranked@[j]).0.rank() == key;
                EntityId::lemma_rank_injective(ranked@[j].0, eid);
            }
        }
        ranked
    }
}

/// A best score is never below the score of a posting that it covers, and
/// never above what an exact match at the same place scores.
pub proof fn lemma_best_covers(
    postings: Seq<Posting>,
    upto: int,
    word: Seq<u8>,
    order: int,
    eid: EntityId,
    at: int,
)
    requires
        0 <= at < upto <= postings.len(),
        postings[at].eid == eid,
        hits(word, postings[at].word),
    ensures
        best(postings, upto, word, order, eid) matches Some(b) && b >= score(
            word,
            order,
            postings[at].word,
            postings[at].pos as int,
        ),
    decreases upto,
{
    if at < upto - 1 {
        lemma_best_covers(postings, upto - 1, word, order, eid, at);
    }
}

/// No best score is above eight for each byte of the query word and the
/// bonus of seven.
pub proof fn lemma_best_at_most(
    postings: Seq<Posting>,
    upto: int,
    word: Seq<u8>,
    order: int,
    eid: EntityId,
)
    requires
        0 <= upto <= postings.len(),
    ensures
        best(postings, upto, word, order, eid) matches Some(b) ==> b <= 8 * word.len() + 7,
    decreases upto,
{
    if upto > 0 {
        lemma_best_at_most(postings, upto - 1, word, order, eid);
    }
}

/// The postings that `insert` adds are held afterwards.
pub proof fn lemma_inserted_is_held(
    before: Seq<Posting>,
    words: Seq<Seq<u8>>,
    eid: EntityId,
    after: Seq<Posting>,
    k: int,
)
    requires
        after.to_multiset() == before.to_multiset().add(entries_for(words, eid).to_multiset()),
        0 <= k < words.len(),
    ensures
        after.contains(Posting { word: words[k], eid, pos: k as u32 }),
{
    let added = entries_for(words, eid);
    let posting = Posting { word: words[k], eid, pos: k as u32 };
    assert(added[k] == posting);
    assert(added.contains(posting));
    added.to_multiset_ensures();
    after.to_multiset_ensures();
    assert(after.to_multiset().count(posting) > 0);
}

/// A query of one word that is the whole name of an indexed entity ranks
/// that entity with the score of an exact match, and no entity above it: it
/// is the first of the answer, or shares the first score.
pub proof fn lemma_exact_name_ranks_first(
    postings: Seq<Posting>,
    word: Seq<u8>,
    eid: EntityId,
    ranked: Seq<(EntityId, i32)>,
)
    requires
        postings.contains(Posting { word, eid, pos: 0 }),
        is_ranking(postings, seq![word], ranked),
    ensures
        exists|j: int|
            0 <= j < ranked.len() && (#[trigger] ranked[j]).0 == eid && ranked[j].1 == 8
                * word.len() + 7,
        forall|j: int| 0 <= j < ranked.len() ==> (#[trigger] ranked[j]).1 <= 8 * word.len() + 7,
        ranked.len() > 0,
        ranked[0].1 == 8 * word.len() + 7,
{
    let words = seq![word];
    let n = postings.len() as int;
    let posting = Posting { word, eid, pos: 0 };
    let at = choose|at: int| 0 <= at < postings.len() && postings[at] == posting;
    assert(word =~= word.subrange(0, word.len() as int));
    lemma_best_covers(postings, n, word, 0, eid, at);
    lemma_best_at_most(postings, n, word, 0, eid);
    assert(total(postings, words, 0, eid) == 0);
    assert(found(postings, words, 1, eid));
    assert(threshold(words, 0) == 0);
    assert(threshold(words, 1) == 8 * word.len());
    assert(total(postings, words, 1, eid) == 8 * word.len() + 7);
    let count = words.len() as int;
    assert(count == 1);
    assert(found(postings, words, count, eid) && total(postings, words, count, eid) >= threshold(
        words,
        count,
    ));
    assert(exists|j: int| 0 <= j < ranked.len() && (#[trigger] ranked[j]).0 == eid);
    let j = choose|j: int| 0 <= j < ranked.len() && (#[trigger] ranked[j]).0 == eid;
    assert(ranked[j].1 == 8 * word.len() + 7);
    assert forall|i: int| 0 <= i < ranked.len() implies (#[trigger] ranked[i]).1 <= 8 * word.len()
        + 7 by {
        let other = ranked[i].0;
        lemma_best_at_most(postings, n, word, 0, other);
        assert(total(postings, words, 0, other) == 0);
        assert(total(postings, words, 1, other) <= 8 * word.len() + 7);
    }
    assert(ranked[0].1 >= ranked[j].1);
}

/// A word of the index that is longer than the query word that finds it
/// scores strictly lower than an exact match at the same place: lower by
/// the bytes that it is longer, and by four where it is longer by more than
/// that. It still reaches the threshold of the query word where the two
/// places are at most three apart.
pub proof fn lemma_longer_word_scores_lower(word: Seq<u8>, held: Seq<u8>, order: int, pos: int)
    requires
        hits(word, held),
        held.len() > word.len(),
    ensures
        score(word, order, held, pos) < score(word, order, word, pos),
        score(word, order, word, pos) - score(word, order, held, pos) <= 4,
        held.len() - word.len() >= 4 ==> score(word, order, word, pos) - score(
            word,
            order,
            held,
            pos,
        ) == 4,
        -3 <= order - pos <= 3 ==> score(word, order, held, pos) >= 8 * word.len(),
{
}

} // verus!
