//! Abilities as the feed describes them, and as the catalog keeps them.

use vstd::prelude::*;
use vstd::std_specs::convert::FromSpecImpl;

use crate::db::table::TableItem;
use crate::types::Id;

verus! {

/// An ability as the feed describes it.
#[derive(Debug)]
pub struct AbilityCore {
    pub id: Id,
    pub ap_cost: u8,
    pub name: String,
    pub short_description: String,
    pub activation_type: u8,
    pub level: u8,
    pub cooldown: u8,
    pub nora_cost: i8,
    pub icon_name: String,
}

/// An ability with the group of its name. Until the group is known its
/// place holds `u32::MAX`.
#[derive(Debug)]
pub struct Ability {
    pub core: AbilityCore,
    pub group: Id,
}

impl From<AbilityCore> for Ability {
    fn from(core: AbilityCore) -> (ability: Ability)
        ensures
            ability.core == core,
            ability.group == u32::MAX,
    {
        Ability { core, group: u32::MAX }
    }
}

impl FromSpecImpl<AbilityCore> for Ability {
    open spec fn obeys_from_spec() -> bool {
        true
    }

    open spec fn from_spec(core: AbilityCore) -> Ability {
        Ability { core, group: u32::MAX }
    }
}

impl TableItem for Ability {
    open spec fn spec_id(&self) -> Id {
        self.core.id
    }

    fn id(&self) -> (id: Id) {
        self.core.id
    }
}

impl TableItem for AbilityCore {
    open spec fn spec_id(&self) -> Id {
        self.id
    }

    fn id(&self) -> (id: Id) {
        self.id
    }
}

} // verus!
