//! Effects: damage types, conditions and mechanics that descriptions name.

use vstd::prelude::*;
use vstd::string::StringSliceAdditionalSpecFns;
use vstd::utf8::encode_utf8;

use crate::db::autoindex::AutoIndexItem;
use crate::db::search::{SearchId, Searchable};
use crate::db::table::TableItem;
use crate::trusted::text::{ascii_lowercase, lower_char};
use crate::trusted::word::{word_as_str, word_bytes, word_from_str, word_new, Word};
use crate::types::tags::{EntityId, Tags};
use crate::types::Id;

verus! {

/// What kind of thing an effect is.
#[derive(Debug, Clone, Copy, PartialEq, Eq, Structural)]
pub enum EffectKind {
    Other,
    Damage,
    Condition,
}

/// An effect under its key, which is held in lower case and in fifteen
/// bytes at most.
#[derive(Debug)]
pub struct Effect {
    pub id: Id,
    pub key: Word,
    pub name: String,
    pub desc: String,
    pub kind: EffectKind,
    pub tags: Tags,
}

impl TableItem for Effect {
    open spec fn spec_id(&self) -> Id {
        self.id
    }

    fn id(&self) -> (id: Id) {
        self.id
    }
}

/// The lower-case form of a key.
pub open spec fn lower_key(raw: Seq<char>) -> Seq<char> {
    raw.map_values(|c: char| lower_char(c))
}

/// A key takes as many bytes in lower case as it takes as it is.
pub proof fn lemma_lower_key_len(raw: Seq<char>)
    ensures
        encode_utf8(lower_key(raw)).len() == encode_utf8(raw).len(),
    decreases raw.len(),
{
    if raw.len() > 0 {
        lemma_lower_key_len(raw.drop_first());
        assert(lower_key(raw).drop_first() =~= lower_key(raw.drop_first()));
        assert(lower_key(raw)[0] == lower_char(raw[0]));
    }
}

impl AutoIndexItem for Effect {
    open spec fn accepts(raw: Seq<char>) -> bool {
        encode_utf8(raw).len() <= 15
    }

    open spec fn normal(raw: Seq<char>) -> Seq<char> {
        lower_key(raw)
    }

    open spec fn fits(key: Seq<char>) -> bool {
        encode_utf8(key).len() <= 15
    }

    proof fn lemma_normal_fits(raw: Seq<char>) {
        lemma_lower_key_len(raw);
    }

    open spec fn made(id: Id, key: Seq<char>, item: Self) -> bool {
        &&& item.id == id
        &&& word_bytes(item.key) == encode_utf8(key)
        &&& item.name@ == Seq::<char>::empty()
        &&& item.desc@ == Seq::<char>::empty()
        &&& item.kind == EffectKind::Other
        &&& item.tags@ == Seq::<EntityId>::empty()
    }

    fn make_key(key: &str) -> (made: String) {
        ascii_lowercase(key)
    }

    fn create(id: Id, key: String) -> (item: Self) {
        let held: Word = match word_from_str(key.as_str()) {
            Some(word) => word,
            None => word_new(),
        };
        Effect {
            id,
            key: held,
            name: String::new(),
            desc: String::new(),
            kind: EffectKind::Other,
            tags: Tags::default(),
        }
    }
}

impl Effect {
    /// The key of an effect, brought to its normal form; `None` for a key
    /// of more than fifteen bytes, which no effect can hold.
    pub fn normal_key(key: &str) -> (made: Option<String>)
        ensures
            Self::accepts(key@) ==> made is Some && made->0@ == Self::normal(key@),
            !Self::accepts(key@) ==> made is None,
    {
        if key.as_bytes().len() <= 15 {
            Some(Self::make_key(key))
        } else {
            None
        }
    }
}

impl Searchable for Effect {
    fn search_id(&self) -> (sid: SearchId<'_>)
        ensures
            match self.kind {
                EffectKind::Condition => sid matches SearchId::Condition(key) && key.spec_bytes()
                    == word_bytes(self.key),
                EffectKind::Damage => sid matches SearchId::Damage(key) && key.spec_bytes()
                    == word_bytes(self.key),
                EffectKind::Other => sid matches SearchId::Effect(key) && key.spec_bytes()
                    == word_bytes(self.key),
            },
    {
        let key: &str = word_as_str(&self.key);
        match self.kind {
            EffectKind::Condition => SearchId::Condition(key),
            EffectKind::Damage => SearchId::Damage(key),
            EffectKind::Other => SearchId::Effect(key),
        }
    }
}

} // verus!
