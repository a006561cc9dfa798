//! The zones of a level and the room of its boss.

use vstd::prelude::*;
use vstd::string::StringExecFns;
use crate::biome::Biome;
use crate::category::ZoneType;
use crate::items::ItemKey;

verus! {

/// What spawns enemies in a zone: which kind, and how many at a time.
#[derive(Debug, Clone, PartialEq, Eq)]
pub struct MobSpawner {
    pub mob: String,
    pub count: u8,
}

/// A single area of a level.
#[derive(Debug, Clone, PartialEq, Eq)]
pub struct Zone {
    pub name: String,
    pub welcome: String,
    pub desc: String,
    pub feild_type: ZoneType,
    pub enemies: Option<MobSpawner>,
    pub loot: Option<ItemKey>,
}

impl Zone {
    /// A zone called `name`: a wall without texts, enemies or loot.
    pub fn new(name: &str) -> (zone: Zone)
        ensures
            zone.name@ == name@,
            zone.welcome@ == Seq::<char>::empty(),
            zone.desc@ == Seq::<char>::empty(),
            zone.feild_type == ZoneType::Wall,
            zone.enemies is None,
            zone.loot is None,
    {
        Zone {
            name: String::from_str(name),
            welcome: String::new(),
            desc: String::new(),
            feild_type: ZoneType::Wall,
            enemies: None,
            loot: None,
        }
    }

    /// Gives the zone another name.
    pub fn name(&mut self, name: &str)
        ensures
            final(self).name@ == name@,
            final(self).welcome == old(self).welcome,
            final(self).desc == old(self).desc,
            final(self).feild_type == old(self).feild_type,
            final(self).enemies == old(self).enemies,
            final(self).loot == old(self).loot,
    {
        self.name = String::from_str(name);
    }

    /// Sets the text that greets the player who enters the zone.
    pub fn welcome(&mut self, welcome: &str)
        ensures
            final(self).welcome@ == welcome@,
            final(self).name == old(self).name,
            final(self).desc == old(self).desc,
            final(self).feild_type == old(self).feild_type,
            final(self).enemies == old(self).enemies,
            final(self).loot == old(self).loot,
    {
        self.welcome = String::from_str(welcome);
    }

    /// Sets the text that describes the zone.
    pub fn desc(&mut self, desc: &str)
        ensures
            final(self).desc@ == desc@,
            final(self).name == old(self).name,
            final(self).welcome == old(self).welcome,
            final(self).feild_type == old(self).feild_type,
            final(self).enemies == old(self).enemies,
            final(self).loot == old(self).loot,
    {
        self.desc = String::from_str(desc);
    }

    /// Sets the category of the zone.
    pub fn feild_type(&mut self, feild: ZoneType)
        ensures
            final(self).feild_type == feild,
            final(self).name == old(self).name,
            final(self).welcome == old(self).welcome,
            final(self).desc == old(self).desc,
            final(self).enemies == old(self).enemies,
            final(self).loot == old(self).loot,
    {
        self.feild_type = feild;
    }

    /// Puts an item into the zone, in place of the one it held.
    pub fn set_item(&mut self, item: ItemKey)
        ensures
            final(self).loot == Some(item),
            final(self).name == old(self).name,
            final(self).welcome == old(self).welcome,
            final(self).desc == old(self).desc,
            final(self).feild_type == old(self).feild_type,
            final(self).enemies == old(self).enemies,
    {
        self.loot = Some(item);
    }

    /// Sets what spawns enemies in the zone.
    pub fn set_enemies(&mut self, enemies: Option<MobSpawner>)
        ensures
            final(self).enemies == enemies,
            final(self).name == old(self).name,
            final(self).welcome == old(self).welcome,
            final(self).desc == old(self).desc,
            final(self).feild_type == old(self).feild_type,
            final(self).loot == old(self).loot,
    {
        self.enemies = enemies;
    }
}

/// The room of the boss. It is no zone of the grid: the only way in is the
/// portal in the boss-entry zone.
#[derive(Debug, Clone, PartialEq, Eq)]
pub struct BossRoom<B> {
    /// The name of the lair.
    pub name: String,
    /// The text that greets the player who enters.
    pub welcome: String,
    /// The text that describes the room.
    pub desc: String,
    /// The boss, once one is assigned and until it is killed.
    pub boss: Option<B>,
    /// The followers of the boss, if it has any.
    pub minions: Option<Vec<B>>,
}

/// The name that a boss room has in a biome: "The ", the biome and " Lair".
pub open spec fn lair_name(biome: Biome) -> Seq<char> {
    "The "@ + biome.label() + " Lair"@
}

/// The description that a boss room has in a biome.
pub open spec fn lair_desc(biome: Biome) -> Seq<char> {
    lair_name(biome)
        + " has been the final escapade of many adventures. will you meet the same fate?"@
}

impl<B> BossRoom<B> {
    /// The boss room of a level in `biome`, with its standard texts, the
    /// given boss and no minions.
    pub fn new(biome: Biome, boss: Option<B>) -> (room: BossRoom<B>)
        ensures
            room.name@ == lair_name(biome),
            room.welcome@
                == "This battle may be your last, can you slay the final boss of this zone, and leave here with life and limb?"@,
            room.desc@ == lair_desc(biome),
            room.boss == boss,
            room.minions is None,
    {
        let name = String::from_str("The ").concat(biome.name()).concat(" Lair");
        let desc = name.clone().concat(
            " has been the final escapade of many adventures. will you meet the same fate?",
        );
        BossRoom {
            name,
            welcome: String::from_str(
                "This battle may be your last, can you slay the final boss of this zone, and leave here with life and limb?",
            ),
            desc,
            boss,
            minions: None,
        }
    }

    /// Gives the room another name.
    pub fn name(&mut self, name: &str)
        ensures
            final(self).name@ == name@,
            final(self).welcome == old(self).welcome,
            final(self).desc == old(self).desc,
            final(self).boss == old(self).boss,
            final(self).minions == old(self).minions,
    {
        self.name = String::from_str(name);
    }

    /// Sets the text that greets the player who enters.
    pub fn welcome(&mut self, welcome: &str)
        ensures
            final(self).welcome@ == welcome@,
            final(self).name == old(self).name,
            final(self).desc == old(self).desc,
            final(self).boss == old(self).boss,
            final(self).minions == old(self).minions,
    {
        self.welcome = String::from_str(welcome);
    }

    /// Sets the text that describes the room.
    pub fn desc(&mut self, desc: &str)
        ensures
            final(self).desc@ == desc@,
            final(self).name == old(self).name,
            final(self).welcome == old(self).welcome,
            final(self).boss == old(self).boss,
            final(self).minions == old(self).minions,
    {
        self.desc = String::from_str(desc);
    }

    /// Sets the followers of the boss.
    pub fn set_minions(&mut self, minions: Option<Vec<B>>)
        ensures
            final(self).minions == minions,
            final(self).name == old(self).name,
            final(self).welcome == old(self).welcome,
            final(self).desc == old(self).desc,
            final(self).boss == old(self).boss,
    {
        self.minions = minions;
    }

    /// Puts a boss into the room, in place of the one it held.
    pub fn set_boss(&mut self, boss: B)
        ensures
            final(self).boss == Some(boss),
            final(self).name == old(self).name,
            final(self).welcome == old(self).welcome,
            final(self).desc == old(self).desc,
            final(self).minions == old(self).minions,
    {
        self.boss = Some(boss);
    }

    /// Takes the boss out of the room.
    pub fn kill_boss(&mut self)
        ensures
            final(self).boss is None,
            final(self).name == old(self).name,
            final(self).welcome == old(self).welcome,
            final(self).desc == old(self).desc,
            final(self).minions == old(self).minions,
    {
        self.boss = None;
    }
}

} // verus!
