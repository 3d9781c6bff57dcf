//! Sorting by the standard library.

use vstd::prelude::*;

use crate::db::table::TableItem;

verus! {

/// Whether the `Id`s of `items` never descend.
pub open spec fn by_id<T: TableItem>(items: Seq<T>) -> bool {
    forall|i: int, j: int|
        0 <= i <= j < items.len() ==> (#[trigger] items[i]).spec_id() <= (#[trigger] items[j]).spec_id()
}

/// `slice::sort_unstable_by_key` with the `Id` for the key: the same items,
/// in the order of their `Id`s. Of items with the same `Id` nothing is
/// promised on their order.
#[verifier::external_body]
pub(crate) fn sort_by_id<T: TableItem>(items: &mut Vec<T>)
    ensures
        final(items)@.to_multiset() == old(items)@.to_multiset(),
        by_id(final(items)@),
{
    items.sort_unstable_by_key(|item| item.id());
}

} // verus!
