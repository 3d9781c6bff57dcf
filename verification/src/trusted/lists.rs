//! Lists of fixed capacity, held in `arrayvec::ArrayVec`.

use arrayvec::ArrayVec;
use vstd::prelude::*;

use crate::types::enums::Faction;
use crate::types::Id;

verus! {

/// `arrayvec::ArrayVec`, of which nothing is seen from here: what a list
/// holds is told by the names below.
#[verifier::external_type_specification]
#[verifier::external_body]
#[verifier::reject_recursive_types(T)]
pub struct ExArrayVec<T, const CAP: usize>(ArrayVec<T, CAP>);

/// A list for the abilities that a champion starts with: 8 at most.
pub type StartingIds = ArrayVec<Id, 8>;

/// What a list of this kind holds, first to last.
pub uninterp spec fn starting_held(list: ArrayVec<Id, 8>) -> Seq<Id>;

/// `ArrayVec::new`: a list that holds nothing.
#[verifier::external_body]
pub(crate) fn starting_new() -> (list: StartingIds)
    ensures
        starting_held(list) == Seq::<Id>::empty(),
{
    ArrayVec::new()
}

/// `ArrayVec::push`: `item` is the last of the list from now on. The call
/// panics when the list is full, so a full list is not admitted.
#[verifier::external_body]
pub(crate) fn starting_push(list: &mut StartingIds, item: Id)
    requires
        starting_held(*old(list)).len() < 8,
    ensures
        starting_held(*final(list)) == starting_held(*old(list)).push(item),
{
    list.push(item)
}

/// `ArrayVec::as_slice`: what the list holds, which is never more than its
/// capacity of 8.
#[verifier::external_body]
pub(crate) fn starting_slice(list: &StartingIds) -> (items: &[Id])
    ensures
        items@ == starting_held(*list),
        items@.len() <= 8,
{
    list.as_slice()
}

/// A list for the abilities of one set of a champion: 4 at most.
pub type SetIds = ArrayVec<Id, 4>;

/// What a list of this kind holds, first to last.
pub uninterp spec fn set_held(list: ArrayVec<Id, 4>) -> Seq<Id>;

/// `ArrayVec::new`: a list that holds nothing.
#[verifier::external_body]
pub(crate) fn set_new() -> (list: SetIds)
    ensures
        set_held(list) == Seq::<Id>::empty(),
{
    ArrayVec::new()
}

/// `ArrayVec::push`: `item` is the last of the list from now on. The call
/// panics when the list is full, so a full list is not admitted.
#[verifier::external_body]
pub(crate) fn set_push(list: &mut SetIds, item: Id)
    requires
        set_held(*old(list)).len() < 4,
    ensures
        set_held(*final(list)) == set_held(*old(list)).push(item),
{
    list.push(item)
}

/// `ArrayVec::as_slice`: what the list holds, which is never more than its
/// capacity of 4.
#[verifier::external_body]
pub(crate) fn set_slice(list: &SetIds) -> (items: &[Id])
    ensures
        items@ == set_held(*list),
        items@.len() <= 4,
{
    list.as_slice()
}

/// A list for the classes, or the races, of a champion: 6 at most.
pub type GroupIds = ArrayVec<Id, 6>;

/// What a list of this kind holds, first to last.
pub uninterp spec fn group_held(list: ArrayVec<Id, 6>) -> Seq<Id>;

/// `ArrayVec::new`: a list that holds nothing.
#[verifier::external_body]
pub(crate) fn group_new() -> (list: GroupIds)
    ensures
        group_held(list) == Seq::<Id>::empty(),
{
    ArrayVec::new()
}

/// `ArrayVec::push`: `item` is the last of the list from now on. The call
/// panics when the list is full, so a full list is not admitted.
#[verifier::external_body]
pub(crate) fn group_push(list: &mut GroupIds, item: Id)
    requires
        group_held(*old(list)).len() < 6,
    ensures
        group_held(*final(list)) == group_held(*old(list)).push(item),
{
    list.push(item)
}

/// `ArrayVec::as_slice`: what the list holds, which is never more than its
/// capacity of 6.
#[verifier::external_body]
pub(crate) fn group_slice(list: &GroupIds) -> (items: &[Id])
    ensures
        items@ == group_held(*list),
        items@.len() <= 6,
{
    list.as_slice()
}

/// A list for the factions of a rune: 2 at most.
pub type Sides = ArrayVec<Faction, 2>;

/// What a list of this kind holds, first to last.
pub uninterp spec fn sides_held(list: ArrayVec<Faction, 2>) -> Seq<Faction>;

/// `ArrayVec::new`: a list that holds nothing.
#[verifier::external_body]
pub(crate) fn sides_new() -> (list: Sides)
    ensures
        sides_held(list) == Seq::<Faction>::empty(),
{
    ArrayVec::new()
}

/// `ArrayVec::push`: `item` is the last of the list from now on. The call
/// panics when the list is full, so a full list is not admitted.
#[verifier::external_body]
pub(crate) fn sides_push(list: &mut Sides, item: Faction)
    requires
        sides_held(*old(list)).len() < 2,
    ensures
        sides_held(*final(list)) == sides_held(*old(list)).push(item),
{
    list.push(item)
}

/// `ArrayVec::as_slice`: what the list holds, which is never more than its
/// capacity of 2.
#[verifier::external_body]
pub(crate) fn sides_slice(list: &Sides) -> (items: &[Faction])
    ensures
        items@ == sides_held(*list),
        items@.len() <= 2,
{
    list.as_slice()
}

} // verus!
