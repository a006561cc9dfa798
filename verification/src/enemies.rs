//! The boss of a level.

use vstd::prelude::*;
use vstd::string::StringExecFns;
use crate::biome::Biome;
use crate::player::Stats;

verus! {

/// Whether an enemy has survived a blow.
#[derive(Debug, Clone, Copy, PartialEq, Eq, Structural, Hash)]
pub enum Lifeness {
    Alive,
    Dead,
}

/// The boss of a level.
#[derive(Debug, Clone, PartialEq, Eq)]
pub struct Boss {
    name: String,
    stats: Stats,
}

/// The strengths that every boss starts with.
pub open spec fn boss_stats() -> Stats {
    Stats { hp: 100, str: 15, mg_str: 15, def: 15, mg_def: 15, speed: 10 }
}

impl Boss {
    /// The name of the boss, as a sequence of characters.
    pub closed spec fn name_view(&self) -> Seq<char> {
        self.name@
    }

    /// The strengths of the boss.
    pub closed spec fn stats_view(&self) -> Stats {
        self.stats
    }

    /// The boss of a level in `biome`: it is called after the biome, and
    /// has the strengths that every boss starts with.
    pub fn new(biome: Biome) -> (boss: Boss)
        ensures
            boss.name_view() == biome.label() + " Boss"@,
            boss.stats_view() == boss_stats(),
    {
        Boss {
            name: String::from_str(biome.name()).concat(" Boss"),
            stats: Stats { hp: 100, str: 15, mg_str: 15, def: 15, mg_def: 15, speed: 10 },
        }
    }

    /// The name of the boss.
    pub fn get_name(&self) -> (name: String)
        ensures
            name@ == self.name_view(),
    {
        self.name.clone()
    }

    /// The strengths of the boss.
    pub fn stats(&self) -> (stats: Stats)
        ensures
            stats == self.stats_view(),
    {
        self.stats
    }
}

} // verus!
