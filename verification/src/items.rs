//! Items that a zone may hold.

use vstd::prelude::*;
use vstd::string::StringExecFns;

verus! {

/// What every item has in common.
pub trait Item {

}

/// The key under which one instance of an item is known: its name and the
/// number of the instance.
#[derive(Debug, Clone, PartialEq, Eq, Hash)]
pub struct ItemKey {
    name: String,
    inst: u8,
}

impl ItemKey {
    /// The name of the item, as a sequence of characters.
    pub closed spec fn name_view(&self) -> Seq<char> {
        self.name@
    }

    /// The number of the instance.
    pub closed spec fn inst_view(&self) -> u8 {
        self.inst
    }

    /// The key of instance `inst` of the item called `name`.
    pub fn new(name: &str, inst: u8) -> (key: ItemKey)
        ensures
            key.name_view() == name@,
            key.inst_view() == inst,
    {
        ItemKey { name: String::from_str(name), inst }
    }

    /// The name of the item.
    pub fn name(&self) -> (name: &str)
        ensures
            name@ == self.name_view(),
    {
        self.name.as_str()
    }

    /// The number of the instance.
    pub fn inst(&self) -> (inst: u8)
        ensures
            inst == self.inst_view(),
    {
        self.inst
    }
}

} // verus!
