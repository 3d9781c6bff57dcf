//! Taking a spell, a piece of equipment or a relic of the feed into the
//! catalog.

use vstd::prelude::*;

use crate::db::autoindex::AutoIndexTable;
use crate::db::enum_table::EnumTable;
use crate::db::table::{Table, TableItem};
use crate::parser::feed::FeedRune;
use crate::parser::fold::{folded, BuildError};
use crate::parser::linking::{enroll, enrolled, side_step, side_with_all, sides_of, Siding};
use crate::trusted::lists::{sides_held, sides_slice, Sides};
use crate::types::champ::MAX_FACTIONS;
use crate::types::tags::EntityId;
use crate::types::{Faction, Id, Rune, RuneKind, RuneSet};

verus! {

/// The table of one kind of runes, and the tables that every rune is taken
/// into: the factions, the expansions and the artists.
pub type Shelf<C> = (
    Table<Rune<C>>,
    EnumTable<Faction>,
    AutoIndexTable<RuneSet>,
    AutoIndexTable<RuneSet>,
);

/// Whether every table of `shelf` is well formed, and every rune.
pub open spec fn shelved<C>(shelf: Shelf<C>) -> bool {
    &&& shelf.0.wf()
    &&& shelf.1.wf()
    &&& shelf.2.wf()
    &&& shelf.3.wf()
    &&& forall|i: int| 0 <= i < shelf.0.items().len() ==> (#[trigger] shelf.0.items()[i]).wf()
}

/// The rune of `entry` as an entity: with the `Id` that the rune which is
/// stored under the `Id` of `entry` has for itself, or else the `Id` of
/// `entry`.
pub open spec fn rune_owner<C: RuneKind>(runes: Table<Rune<C>>, entry: FeedRune<C>) -> EntityId {
    C::entity(
        match runes.lookup(entry.core.spec_id()) {
            Some(rune) => rune.core.spec_id(),
            None => entry.core.spec_id(),
        },
    )
}

/// The factions that the rune of `entry` has before `entry` is taken in.
pub open spec fn rune_sides<C: RuneKind>(runes: Table<Rune<C>>, entry: FeedRune<C>) -> Seq<Faction> {
    match runes.lookup(entry.core.spec_id()) {
        Some(rune) => sides_held(rune.factions),
        None => Seq::empty(),
    }
}

/// Whether `outcome` is what taking the rune `entry` in makes of `before`.
/// The rune is the one that is stored under the `Id` of `entry`, or else a
/// new one. Its factions are added to the ones it has, and it tags each of
/// them; it tags its expansion and its artist, which are made where they
/// are new; and at the end it is stored with all of that. A third faction,
/// or a table that is full, ends the building.
#[verifier::opaque]
pub open spec fn rune_added<C: RuneKind>(
    before: Shelf<C>,
    entry: FeedRune<C>,
    outcome: Result<Shelf<C>, BuildError>,
) -> bool {
    exists|sided: Result<Siding, BuildError>| #[trigger]
        folded(
            side_step(rune_owner(before.0, entry), MAX_FACTIONS as int),
            (before.1, rune_sides(before.0, entry)),
            entry.factions@,
            sided,
        ) && rune_stored(before, entry, sided, outcome)
}

/// Whether `outcome` is what comes of the rest when the factions of the
/// rune of `entry` have led to `sided`: the rune tags its expansion and its
/// artist, and is stored.
pub open spec fn rune_stored<C: RuneKind>(
    before: Shelf<C>,
    entry: FeedRune<C>,
    sided: Result<Siding, BuildError>,
    outcome: Result<Shelf<C>, BuildError>,
) -> bool {
    let id = entry.core.spec_id();
    let owner = rune_owner(before.0, entry);
    match sided {
        Ok(last) => if before.2.items().len() > u32::MAX || before.3.items().len() > u32::MAX {
            outcome == Err::<Shelf<C>, BuildError>(BuildError::CapacityViolation)
        } else {
            &&& outcome matches Ok(after)
            &&& after.1 == last.0
            &&& enrolled(before.2, entry.rune_set@, owner, after.2)
            &&& enrolled(before.3, entry.artist@, owner, after.3)
            &&& after.0.lookup(id) matches Some(rune)
            &&& after.0.is_put(&before.0, id, rune)
            &&& rune.core == (match before.0.lookup(id) {
                Some(was) => was.core,
                None => entry.core,
            })
            &&& sides_held(rune.factions) == last.1
            &&& after.2.lookup(entry.rune_set@) matches Some(set) && rune.expansion == set.id
            &&& after.3.lookup(entry.artist@) matches Some(set) && rune.artist == set.id
        },
        Err(error) => outcome == Err::<Shelf<C>, BuildError>(error),
    }
}

/// Factions that lead to `sided`, and a rest that leads from there to
/// `outcome`, are the taking in of the rune.
proof fn lemma_rune_added<C: RuneKind>(
    before: Shelf<C>,
    entry: FeedRune<C>,
    sided: Result<Siding, BuildError>,
    outcome: Result<Shelf<C>, BuildError>,
)
    requires
        folded(
            side_step(rune_owner(before.0, entry), MAX_FACTIONS as int),
            (before.1, rune_sides(before.0, entry)),
            entry.factions@,
            sided,
        ),
        rune_stored(before, entry, sided, outcome),
    ensures
        rune_added(before, entry, outcome),
{
    reveal(rune_added);
}

/// The factions that the rune with the `Id` `id` has so far, and the `Id`
/// that it has for itself.
fn rune_held<C: RuneKind>(runes: &Table<Rune<C>>, id: Id) -> (found: (Vec<Faction>, Id))
    requires
        runes.wf(),
        forall|i: int| 0 <= i < runes.items().len() ==> (#[trigger] runes.items()[i]).wf(),
    ensures
        found.0@.len() <= MAX_FACTIONS,
        match runes.lookup(id) {
            Some(rune) => found.0@ == sides_held(rune.factions) && found.1 == rune.core.spec_id(),
            None => found.0@ == Seq::<Faction>::empty() && found.1 == id,
        },
{
    match runes.get(id) {
        Some(rune) => {
            proof {
                runes.lemma_wf(id);
                assert(*rune == runes.items()[runes.slot_of(id)->0]);
            }
            (vstd::slice::slice_to_vec(sides_slice(&rune.factions)), rune.core.id())
        },
        None => (Vec::new(), id),
    }
}

/// Stores the rune with the core `core`, the factions `sides`, the
/// expansion `expansion` and the artist `artist`: in the place of the rune
/// that is stored under the `Id` of `core` where there is one, whose own
/// core is kept.
pub fn store_rune<C: RuneKind>(
    runes: &mut Table<Rune<C>>,
    core: C,
    sides: Vec<Faction>,
    expansion: Id,
    artist: Id,
)
    requires
        old(runes).wf(),
        sides@.len() <= MAX_FACTIONS,
        forall|i: int| 0 <= i < old(runes).items().len() ==> (#[trigger] old(runes).items()[i]).wf(),
    ensures
        final(runes).wf(),
        forall|i: int|
            0 <= i < final(runes).items().len() ==> (#[trigger] final(runes).items()[i]).wf(),
        final(runes).lookup(core.spec_id()) matches Some(rune) && {
            &&& rune.core == (match old(runes).lookup(core.spec_id()) {
                Some(held) => held.core,
                None => core,
            })
            &&& sides_held(rune.factions) == sides@
            &&& rune.expansion == expansion
            &&& rune.artist == artist
            &&& final(runes).is_put(old(runes), core.spec_id(), rune)
        },
{
    let ghost before = *runes;
    let ghost id = core.spec_id();
    proof {
        if before.slot_of(id) is Some {
            before.lemma_wf(id);
        }
    }
    let held: Sides = sides_of(&sides);
    let rune: &mut Rune<C> = runes.entry(core);
    rune.factions = held;
    rune.expansion = expansion;
    rune.artist = artist;
    proof {
        let after = *runes;
        after.lemma_wf(id);
        let slot = after.slot_of(id)->0;
        assert forall|i: int| 0 <= i < after.items().len() implies (#[trigger] after.items()[i]).wf() by {
            if i != slot {
                assert(after.items()[i] == before.items()[i]);
            }
        }
    }
}

/// Takes the rune `entry` of the feed into its table and into the tables of
/// factions, expansions and artists.
pub fn add_rune<C: RuneKind>(
    runes: &mut Table<Rune<C>>,
    factions: &mut EnumTable<Faction>,
    expansions: &mut AutoIndexTable<RuneSet>,
    artists: &mut AutoIndexTable<RuneSet>,
    entry: FeedRune<C>,
) -> (done: Result<(), BuildError>)
    requires
        shelved((*old(runes), *old(factions), *old(expansions), *old(artists))),
    ensures
        shelved((*final(runes), *final(factions), *final(expansions), *final(artists))),
        rune_added(
            (*old(runes), *old(factions), *old(expansions), *old(artists)),
            entry,
            match done {
                Ok(_) => Ok((*final(runes), *final(factions), *final(expansions), *final(artists))),
                Err(error) => Err(error),
            },
        ),
{
    let ghost before: Shelf<C> = (*runes, *factions, *expansions, *artists);
    let FeedRune { core, artist, factions: sides_of, rune_set } = entry;
    let id: Id = core.id();
    let (mut sides, own) = rune_held(runes, id);
    let owner: EntityId = C::entity_of(own);
    let count: usize = sides_of.len();
    assert(sides_of@.take(count as int) =~= sides_of@);
    let done = side_with_all(factions, &mut sides, MAX_FACTIONS, &sides_of, count, owner);
    let ghost sided: Result<Siding, BuildError> = match done {
        Ok(_) => Ok((*factions, sides@)),
        Err(error) => Err(error),
    };
    if let Err(error) = done {
        proof {
            lemma_rune_added(before, entry, sided, Err(error));
        }
        return Err(error);
    }
    let expansion: Id = match enroll(expansions, rune_set.as_str(), owner) {
        Ok(set) => set,
        Err(error) => {
            proof {
                lemma_rune_added(before, entry, sided, Err(error));
            }
            return Err(error);
        },
    };
    let artist_id: Id = match enroll(artists, artist.as_str(), owner) {
        Ok(set) => set,
        Err(error) => {
            proof {
                lemma_rune_added(before, entry, sided, Err(error));
            }
            return Err(error);
        },
    };
    store_rune(runes, core, sides, expansion, artist_id);
    proof {
        lemma_rune_added(before, entry, sided, Ok((*runes, *factions, *expansions, *artists)));
    }
    Ok(())
}

} // verus!
