//! The rewriting of descriptions: every mention of an ability, a condition,
//! a mechanic or a damage type becomes a link, and what a link leads to is
//! noted for tagging.

use vstd::prelude::*;
use vstd::string::{StringExecFns, StringSliceAdditionalSpecFns};
use vstd::utf8::{decode_utf8, encode_utf8};

use crate::db::autoindex::{AutoIndexItem, AutoIndexTable};
use crate::db::table::Table;
use crate::text::{
    decimal, id_written, is_piece, parse_id, piece, push_decimal, same_text, slice,
};
use crate::trusted::pattern::{captures_all, regex_captures, spans_of, Span};
use crate::trusted::word::{word_as_str, word_bytes};
use crate::types::{Ability, Effect, Id};

verus! {

/// What a description refers to.
#[derive(Debug, Clone, Copy, PartialEq, Eq, Structural)]
pub enum TagId {
    Effect(Id),
    AbilityGroup(Id),
}

/// Why a mention leads nowhere.
#[derive(Debug, Clone, Copy, PartialEq, Eq, Structural)]
pub enum Issue {
    /// A damage type that the catalog does not hold.
    UnknownDamage,
    /// A marker that is closed as another kind than it is opened.
    MismatchedClose,
    /// A marker of an ability without a `value`.
    MissingValue,
    /// A marker of an ability whose `value` is no `Id`.
    InvalidValue,
    /// A marker of an ability that the catalog does not hold, or that has
    /// no group.
    UnknownAbility,
}

/// The markers `<ability ..>..</ability>`, `<condition ..>..</condition>`
/// and `<mechanic ..>..</mechanic>`, and the ten damage types before
/// `damage` or `attack`. Groups one to four are the opening kind, the
/// attributes, the label and the closing kind of a marker; group five is a
/// damage type.
pub const MARKERS: &'static str =
    "(?x)
    <(ability|condition|mechanic) ([^>]+)>
        ([^<]+)
    </(ability|condition|mechanic)>
    |
    (Acid|Disease|Electricity|Fire|Frost|Magical|Physical|Poison|Psychic|Sonic)\\s(?:damage|attack)
    ";

/// The attribute `value` of a marker; group one is what it is set to.
pub const VALUE: &'static str = "\\bvalue=([^ >]+)";

/// One rewriting: the bytes from `start` up to `end` give way to `link`.
#[derive(Debug)]
pub struct Patch {
    pub start: usize,
    pub end: usize,
    pub link: String,
    pub tag: Option<TagId>,
    pub issue: Option<Issue>,
}

/// A patch with its link as characters.
pub struct PatchView {
    pub start: int,
    pub end: int,
    pub link: Seq<char>,
    pub tag: Option<TagId>,
    pub issue: Option<Issue>,
}

impl View for Patch {
    type V = PatchView;

    open spec fn view(&self) -> PatchView {
        PatchView {
            start: self.start as int,
            end: self.end as int,
            link: self.link@,
            tag: self.tag,
            issue: self.issue,
        }
    }
}

/// A link that leads nowhere.
pub open spec fn placeholder(label: Seq<char>) -> Seq<char> {
    "["@ + label + "](*)"@
}

/// A link to the effect with the key `key`.
pub open spec fn effect_link(label: Seq<char>, key: Seq<char>) -> Seq<char> {
    "["@ + label + "](/effect/"@ + key + ")"@
}

/// A link to the group `group` of abilities.
pub open spec fn ability_link(label: Seq<char>, group: Id) -> Seq<char> {
    "["@ + label + "](/ability/"@ + decimal(group as nat) + ")"@
}

/// The text of group `k` of a match, where the group has a place and the
/// place is a piece of the text.
pub open spec fn part(text: Seq<u8>, groups: Seq<Span>, k: int) -> Option<Seq<char>> {
    if 0 <= k < groups.len() {
        match groups[k] {
            Some((start, end)) => if is_piece(text, start as int, end as int) {
                Some(piece(text, start as int, end as int))
            } else {
                None
            },
            None => None,
        }
    } else {
        None
    }
}

/// The text of group `k` of a match.
pub fn part_of<'a>(text: &'a str, groups: &Vec<Span>, k: usize) -> (found: Option<&'a str>)
    ensures
        match found {
            Some(held) => {
                &&& part(text.spec_bytes(), groups@, k as int) == Some(held@)
                &&& groups@[k as int] matches Some(span)
                &&& held.spec_bytes() == text.spec_bytes().subrange(span.0 as int, span.1 as int)
            },
            None => part(text.spec_bytes(), groups@, k as int) is None,
        },
{
    if k < groups.len() {
        match groups[k] {
            Some((start, end)) => slice(text, start, end),
            None => None,
        }
    } else {
        None
    }
}

/// What `value` is set to among the attributes `attrs` of a marker.
pub open spec fn value_of(attrs: Seq<char>) -> Option<Seq<char>> {
    match regex_captures(VALUE@, attrs) {
        Some(found) => if found.len() > 0 {
            part(encode_utf8(attrs), found[0], 1)
        } else {
            None
        },
        None => None,
    }
}

/// What `value` is set to among the attributes `attrs` of a marker.
pub fn value_in<'a>(attrs: &'a str) -> (value: Option<&'a str>)
    ensures
        match value {
            Some(held) => value_of(attrs@) == Some(held@),
            None => value_of(attrs@) is None,
        },
{
    match captures_all(VALUE, attrs) {
        Some(found) => {
            if found.len() > 0 {
                assert(spans_of(found@)[0] == found@[0]@);
                part_of(attrs, &found[0], 1)
            } else {
                None
            }
        },
        None => None,
    }
}

/// The patch for a mention of a damage type: the type alone gives way to a
/// link to its effect, or to a placeholder where the catalog holds no
/// effect under its key. `None` where the match names no damage type.
pub open spec fn damage_patch(
    effects: AutoIndexTable<Effect>,
    text: Seq<u8>,
    groups: Seq<Span>,
) -> Option<PatchView> {
    match part(text, groups, 5) {
        Some(word) => {
            let held = if Effect::accepts(word) {
                effects.lookup(Effect::normal(word))
            } else {
                None
            };
            let (start, end) = groups[5]->0;
            Some(
                match held {
                    Some(effect) => PatchView {
                        start: start as int,
                        end: end as int,
                        link: effect_link(word, decode_utf8(word_bytes(effect.key))),
                        tag: Some(TagId::Effect(effect.id)),
                        issue: None,
                    },
                    None => PatchView {
                        start: start as int,
                        end: end as int,
                        link: placeholder(word),
                        tag: None,
                        issue: Some(Issue::UnknownDamage),
                    },
                },
            )
        },
        None => None,
    }
}

/// Where a marker of the kinds `open` and `close` with `value` among its
/// attributes leads: to the group of an ability that the catalog holds, or
/// nowhere.
pub open spec fn target(
    abilities: Table<Ability>,
    open: Seq<char>,
    close: Seq<char>,
    value: Option<Seq<char>>,
) -> (Option<Id>, Option<Issue>) {
    if open != close {
        (None, Some(Issue::MismatchedClose))
    } else if open == "ability"@ {
        match value {
            Some(written) => match id_written(encode_utf8(written)) {
                Some(id) => match abilities.lookup(id) {
                    Some(ability) => if ability.group != u32::MAX {
                        (Some(ability.group), None)
                    } else {
                        (None, Some(Issue::UnknownAbility))
                    },
                    None => (None, Some(Issue::UnknownAbility)),
                },
                None => (None, Some(Issue::InvalidValue)),
            },
            None => (None, Some(Issue::MissingValue)),
        }
    } else {
        (None, None)
    }
}

/// The patch for a marker: the whole marker gives way to a link with its
/// label, which leads to the group of the ability that `value` names, or
/// nowhere. `None` where the match is no marker.
pub open spec fn marker_patch(
    abilities: Table<Ability>,
    text: Seq<u8>,
    groups: Seq<Span>,
    value: Option<Seq<char>>,
) -> Option<PatchView> {
    match (
        part(text, groups, 0),
        part(text, groups, 1),
        part(text, groups, 3),
        part(text, groups, 4),
    ) {
        (Some(_), Some(open), Some(label), Some(close)) => {
            let (start, end) = groups[0]->0;
            let (group, issue) = target(abilities, open, close, value);
            Some(
                match group {
                    Some(id) => PatchView {
                        start: start as int,
                        end: end as int,
                        link: ability_link(label, id),
                        tag: Some(TagId::AbilityGroup(id)),
                        issue,
                    },
                    None => PatchView {
                        start: start as int,
                        end: end as int,
                        link: placeholder(label),
                        tag: None,
                        issue,
                    },
                },
            )
        },
        _ => None,
    }
}

/// A link that leads nowhere.
fn placeholder_for(label: &str) -> (link: String)
    ensures
        link@ == placeholder(label@),
{
    let mut link: String = String::new();
    link.append("[");
    link.append(label);
    link.append("](*)");
    assert(link@ =~= placeholder(label@));
    link
}

/// The patch for a mention of a damage type.
pub fn damage_patch_of(effects: &AutoIndexTable<Effect>, text: &str, groups: &Vec<Span>) -> (patch:
    Option<Patch>)
    ensures
        match patch {
            Some(made) => damage_patch(*effects, text.spec_bytes(), groups@) == Some(made@),
            None => damage_patch(*effects, text.spec_bytes(), groups@) is None,
        },
{
    match part_of(text, groups, 5) {
        Some(word) => {
            let (start, end) = match groups[5] {
                Some(span) => span,
                None => (0, 0),
            };
            let held: Option<&Effect> = match Effect::normal_key(word) {
                Some(key) => effects.get_by_key(key.as_str()),
                None => None,
            };
            match held {
                Some(effect) => {
                    let key: &str = word_as_str(&effect.key);
                    proof {
                        vstd::utf8::encode_utf8_decode_utf8(key@);
                    }
                    let mut link: String = String::new();
                    link.append("[");
                    link.append(word);
                    link.append("](/effect/");
                    link.append(key);
                    link.append(")");
                    assert(link@ =~= effect_link(word@, key@));
                    Some(
                        Patch {
                            start,
                            end,
                            link,
                            tag: Some(TagId::Effect(effect.id)),
                            issue: None,
                        },
                    )
                },
                None => Some(
                    Patch {
                        start,
                        end,
                        link: placeholder_for(word),
                        tag: None,
                        issue: Some(Issue::UnknownDamage),
                    },
                ),
            }
        },
        None => None,
    }
}

/// Where a marker leads.
pub fn target_of(abilities: &Table<Ability>, open: &str, close: &str, value: Option<&str>) -> (found:
    (Option<Id>, Option<Issue>))
    ensures
        found == target(
            *abilities,
            open@,
            close@,
            match value {
                Some(written) => Some(written@),
                None => None,
            },
        ),
{
    if !same_text(open, close) {
        (None, Some(Issue::MismatchedClose))
    } else if same_text(open, "ability") {
        match value {
            Some(written) => match parse_id(written.as_bytes()) {
                Some(id) => match abilities.get(id) {
                    Some(ability) => if ability.group != u32::MAX {
                        (Some(ability.group), None)
                    } else {
                        (None, Some(Issue::UnknownAbility))
                    },
                    None => (None, Some(Issue::UnknownAbility)),
                },
                None => (None, Some(Issue::InvalidValue)),
            },
            None => (None, Some(Issue::MissingValue)),
        }
    } else {
        (None, None)
    }
}

/// The patch for a marker whose attribute `value` is `value`.
pub fn marker_patch_of(
    abilities: &Table<Ability>,
    text: &str,
    groups: &Vec<Span>,
    value: Option<&str>,
) -> (patch: Option<Patch>)
    ensures
        match patch {
            Some(made) => marker_patch(
                *abilities,
                text.spec_bytes(),
                groups@,
                match value {
                    Some(written) => Some(written@),
                    None => None,
                },
            ) == Some(made@),
            None => marker_patch(
                *abilities,
                text.spec_bytes(),
                groups@,
                match value {
                    Some(written) => Some(written@),
                    None => None,
                },
            ) is None,
        },
{
    let whole = part_of(text, groups, 0);
    let open = part_of(text, groups, 1);
    let label = part_of(text, groups, 3);
    let close = part_of(text, groups, 4);
    match (whole, open, label, close) {
        (Some(_), Some(open), Some(label), Some(close)) => {
            let (start, end) = match groups[0] {
                Some(span) => span,
                None => (0, 0),
            };
            let (group, issue) = target_of(abilities, open, close, value);
            match group {
                Some(id) => {
                    let mut link: String = String::new();
                    link.append("[");
                    link.append(label);
                    link.append("](/ability/");
                    push_decimal(&mut link, id);
                    link.append(")");
                    assert(link@ =~= ability_link(label@, id));
                    Some(Patch { start, end, link, tag: Some(TagId::AbilityGroup(id)), issue })
                },
                None => Some(
                    Patch { start, end, link: placeholder_for(label), tag: None, issue },
                ),
            }
        },
        _ => None,
    }
}

/// The patch for one match of `MARKERS`: that of a damage type where the
/// match names one, and else that of a marker, with the `value` that stands
/// among its attributes.
pub open spec fn patch_for(
    effects: AutoIndexTable<Effect>,
    abilities: Table<Ability>,
    text: Seq<u8>,
    groups: Seq<Span>,
) -> Option<PatchView> {
    if part(text, groups, 5) is Some {
        damage_patch(effects, text, groups)
    } else {
        marker_patch(
            abilities,
            text,
            groups,
            match part(text, groups, 2) {
                Some(attrs) => value_of(attrs),
                None => None,
            },
        )
    }
}

/// The patch for one match of `MARKERS`.
pub fn patch_of(
    effects: &AutoIndexTable<Effect>,
    abilities: &Table<Ability>,
    text: &str,
    groups: &Vec<Span>,
) -> (patch: Option<Patch>)
    ensures
        match patch {
            Some(made) => patch_for(*effects, *abilities, text.spec_bytes(), groups@) == Some(made@),
            None => patch_for(*effects, *abilities, text.spec_bytes(), groups@) is None,
        },
{
    if part_of(text, groups, 5).is_some() {
        damage_patch_of(effects, text, groups)
    } else {
        let value: Option<&str> = match part_of(text, groups, 2) {
            Some(attrs) => value_in(attrs),
            None => None,
        };
        marker_patch_of(abilities, text, groups, value)
    }
}

/// Where the last of `patches` ends; the start of the text where there is
/// none.
pub open spec fn end_of(patches: Seq<PatchView>) -> int {
    if patches.len() == 0 {
        0
    } else {
        patches.last().end
    }
}

/// The patches for the first `upto` matches of `found`, in the order of the
/// matches. A match without a patch is passed over, and so is one that
/// starts before the patch before it ends.
pub open spec fn patches_for(
    effects: AutoIndexTable<Effect>,
    abilities: Table<Ability>,
    text: Seq<u8>,
    found: Seq<Seq<Span>>,
    upto: int,
) -> Seq<PatchView>
    decreases upto,
{
    if upto <= 0 {
        Seq::empty()
    } else {
        let before = patches_for(effects, abilities, text, found, upto - 1);
        match patch_for(effects, abilities, text, found[upto - 1]) {
            Some(patch) => if patch.start >= end_of(before) {
                before.push(patch)
            } else {
                before
            },
            None => before,
        }
    }
}

/// Whether `patches` stand one after the other in `text`, each on a piece
/// of it.
pub open spec fn in_order(text: Seq<u8>, patches: Seq<PatchView>) -> bool {
    &&& forall|i: int|
        0 <= i < patches.len() ==> is_piece(text, (#[trigger] patches[i]).start, patches[i].end)
    &&& forall|i: int, j: int|
        0 <= i < j < patches.len() ==> (#[trigger] patches[i]).end <= (#[trigger] patches[j]).start
}

/// The text up to the end of the first `upto` patches, each patch with its
/// link in the place of what it covers.
pub open spec fn spliced_upto(text: Seq<u8>, patches: Seq<PatchView>, upto: int) -> Seq<char>
    decreases upto,
{
    if upto <= 0 {
        Seq::empty()
    } else {
        spliced_upto(text, patches, upto - 1) + piece(
            text,
            end_of(patches.take(upto - 1)),
            patches[upto - 1].start,
        ) + patches[upto - 1].link
    }
}

/// The whole text with every patch applied.
pub open spec fn spliced(text: Seq<u8>, patches: Seq<PatchView>) -> Seq<char> {
    spliced_upto(text, patches, patches.len() as int) + piece(
        text,
        end_of(patches),
        text.len() as int,
    )
}

/// What `patches` lead to, in their order.
pub open spec fn tags_of(patches: Seq<PatchView>) -> Seq<TagId>
    decreases patches.len(),
{
    if patches.len() == 0 {
        Seq::empty()
    } else {
        match patches.last().tag {
            Some(tag) => tags_of(patches.drop_last()).push(tag),
            None => tags_of(patches.drop_last()),
        }
    }
}

/// The views of `patches`.
pub open spec fn views(patches: Seq<Patch>) -> Seq<PatchView> {
    patches.map_values(|patch: Patch| patch@)
}

/// The text with every one of `patches` applied.
pub fn splice(text: &str, patches: &Vec<Patch>) -> (out: String)
    requires
        in_order(text.spec_bytes(), views(patches@)),
    ensures
        out@ == spliced(text.spec_bytes(), views(patches@)),
{
    let ghost bytes = text.spec_bytes();
    let ghost all = views(patches@);
    let mut out: String = String::new();
    let mut last: usize = 0;
    let mut k: usize = 0;
    proof {
        assert(all.take(0) =~= Seq::<PatchView>::empty());
        vstd::utf8::encode_utf8_valid_utf8(text@);
        vstd::utf8::is_char_boundary_start_end_of_seq(bytes);
    }
    while k < patches.len()
        invariant
            k <= patches@.len(),
            bytes == text.spec_bytes(),
            all == views(patches@),
            in_order(bytes, all),
            last == end_of(all.take(k as int)),
            last <= bytes.len(),
            is_piece(bytes, last as int, last as int),
            out@ == spliced_upto(bytes, all, k as int),
        decreases patches@.len() - k,
    {
        let patch: &Patch = &patches[k];
        proof {
            assert(all[k as int] == patch@);
            assert(is_piece(bytes, patch.start as int, patch.end as int));
            if k > 0 {
                assert(all.take(k as int).last() == all[k - 1]);
                assert(all[k - 1].end <= all[k as int].start);
            }
        }
        match slice(text, last, patch.start) {
            Some(between) => {
                out.append(between);
            },
            None => {
                assert(false);
            },
        }
        out.append(patch.link.as_str());
        last = patch.end;
        proof {
            assert(all.take(k + 1).last() == all[k as int]);
        }
        k = k + 1;
    }
    proof {
        assert(all.take(k as int) =~= all);
        vstd::utf8::encode_utf8_valid_utf8(text@);
        vstd::utf8::is_char_boundary_start_end_of_seq(bytes);
    }
    match slice(text, last, text.as_bytes().len()) {
        Some(rest) => {
            out.append(rest);
        },
        None => {
            assert(false);
        },
    }
    out
}

/// A description with its mentions turned into links, and what the links
/// lead to.
#[derive(Debug)]
pub struct Fixed {
    pub text: String,
    pub tags: Vec<TagId>,
    pub patches: Vec<Patch>,
}

/// What the rewriting makes of `text` when `found` is what `MARKERS` finds
/// in it: nothing where no match has a patch, and else the text with the
/// patches applied, and the targets of the patches.
pub open spec fn fixed(
    effects: AutoIndexTable<Effect>,
    abilities: Table<Ability>,
    text: Seq<u8>,
    found: Option<Seq<Seq<Span>>>,
) -> Option<(Seq<char>, Seq<TagId>)> {
    match found {
        Some(matches) => {
            let patches = patches_for(effects, abilities, text, matches, matches.len() as int);
            if patches.len() > 0 {
                Some((spliced(text, patches), tags_of(patches)))
            } else {
                None
            }
        },
        None => None,
    }
}

/// The patches for the matches `found`, in order.
pub fn patches_of(
    effects: &AutoIndexTable<Effect>,
    abilities: &Table<Ability>,
    text: &str,
    found: &Vec<Vec<Span>>,
) -> (made: (Vec<Patch>, Vec<TagId>))
    ensures
        views(made.0@) == patches_for(
            *effects,
            *abilities,
            text.spec_bytes(),
            spans_of(found@),
            found@.len() as int,
        ),
        in_order(text.spec_bytes(), views(made.0@)),
        made.1@ == tags_of(views(made.0@)),
{
    let ghost bytes = text.spec_bytes();
    let ghost matches = spans_of(found@);
    let mut patches: Vec<Patch> = Vec::new();
    let mut tags: Vec<TagId> = Vec::new();
    let mut last: usize = 0;
    let mut k: usize = 0;
    proof {
        assert(views(patches@) =~= Seq::<PatchView>::empty());
    }
    while k < found.len()
        invariant
            k <= found@.len(),
            bytes == text.spec_bytes(),
            matches == spans_of(found@),
            views(patches@) == patches_for(*effects, *abilities, bytes, matches, k as int),
            in_order(bytes, views(patches@)),
            last == end_of(views(patches@)),
            tags@ == tags_of(views(patches@)),
        decreases found@.len() - k,
    {
        assert(matches[k as int] == found@[k as int]@);
        let ghost before = views(patches@);
        match patch_of(effects, abilities, text, &found[k]) {
            Some(patch) => {
                if patch.start >= last {
                    proof {
                        assert(views(patches@.push(patch)) =~= before.push(patch@));
                        assert(before.push(patch@).drop_last() =~= before);
                        lemma_patch_is_piece(*effects, *abilities, bytes, matches[k as int]);
                        assert forall|i: int, j: int|
                            0 <= i < j < before.len() + 1 implies (#[trigger] before.push(
                            patch@,
                        )[i]).end <= (#[trigger] before.push(patch@)[j]).start by {
                            if j == before.len() {
                                assert(before[i].end <= before.last().end) by {
                                    if i < before.len() - 1 {
                                        assert(before[i].end <= before[before.len() - 1].start);
                                    }
                                }
                            }
                        }
                    }
                    last = patch.end;
                    match patch.tag {
                        Some(tag) => {
                            tags.push(tag);
                        },
                        None => {},
                    }
                    patches.push(patch);
                }
            },
            None => {},
        }
        k = k + 1;
    }
    (patches, tags)
}

/// A patch covers a piece of the text, so that it starts no later than it
/// ends.
pub proof fn lemma_patch_is_piece(
    effects: AutoIndexTable<Effect>,
    abilities: Table<Ability>,
    text: Seq<u8>,
    groups: Seq<Span>,
)
    ensures
        patch_for(effects, abilities, text, groups) matches Some(patch) ==> is_piece(
            text,
            patch.start,
            patch.end,
        ),
{
}

/// Rewrites the description `desc`: every mention that `MARKERS` finds
/// gives way to a link. `None` where there is nothing to rewrite.
pub fn fix_desc(effects: &AutoIndexTable<Effect>, abilities: &Table<Ability>, desc: &str) -> (out:
    Option<Fixed>)
    ensures
        match out {
            Some(made) => fixed(
                *effects,
                *abilities,
                desc.spec_bytes(),
                regex_captures(MARKERS@, desc@),
            ) == Some((made.text@, made.tags@)),
            None => fixed(*effects, *abilities, desc.spec_bytes(), regex_captures(MARKERS@, desc@))
                is None,
        },
{
    match captures_all(MARKERS, desc) {
        Some(found) => {
            let (patches, tags) = patches_of(effects, abilities, desc, &found);
            if patches.len() > 0 {
                let text: String = splice(desc, &patches);
                Some(Fixed { text, tags, patches })
            } else {
                None
            }
        },
        None => None,
    }
}

/// A marker that leads nowhere gives way to a placeholder with its label,
/// and nothing is tagged for it.
pub proof fn lemma_unresolved_is_placeholder(
    abilities: Table<Ability>,
    text: Seq<u8>,
    groups: Seq<Span>,
    value: Option<Seq<char>>,
)
    requires
        marker_patch(abilities, text, groups, value) is Some,
        target(abilities, part(text, groups, 1)->0, part(text, groups, 4)->0, value).0 is None,
    ensures
        marker_patch(abilities, text, groups, value)->0.link == placeholder(
            part(text, groups, 3)->0,
        ),
        marker_patch(abilities, text, groups, value)->0.tag is None,
{
}

/// What is tagged for a description is what one of its patches leads to:
/// a patch that leads nowhere adds no tag.
pub proof fn lemma_tags_are_targets(patches: Seq<PatchView>, tag: TagId)
    requires
        tags_of(patches).contains(tag),
    ensures
        exists|k: int| 0 <= k < patches.len() && (#[trigger] patches[k]).tag == Some(tag),
    decreases patches.len(),
{
    if patches.len() > 0 {
        let rest = patches.drop_last();
        if patches.last().tag == Some(tag) {
            assert(patches[patches.len() - 1].tag == Some(tag));
        } else {
            assert(tags_of(rest).contains(tag)) by {
                let at = choose|at: int| 0 <= at < tags_of(patches).len() && tags_of(patches)[at] == tag;
                if patches.last().tag is Some {
                    assert(tags_of(rest)[at] == tag);
                }
            }
            lemma_tags_are_targets(rest, tag);
            let k = choose|k: int| 0 <= k < rest.len() && (#[trigger] rest[k]).tag == Some(tag);
            assert(patches[k] == rest[k]);
        }
    }
}

} // verus!
