//! The figures by which players and enemies are measured.

use vstd::prelude::*;
use vstd::string::StringExecFns;
use crate::chance::fresh_word;

verus! {

/// The strengths of a player or an enemy.
#[derive(Debug, Clone, Copy, PartialEq, Eq, Structural, Hash)]
pub struct Stats {
    /// Health.
    pub hp: u8,
    /// Strength: the physical damage dealt.
    pub str: u8,
    /// Magic strength: the damage that spells deal.
    pub mg_str: u8,
    /// Defence against physical damage.
    pub def: u8,
    /// Defence against magic.
    pub mg_def: u8,
    /// Speed: decides who acts first, and how often.
    pub speed: u8,
}

/// Where a piece of equipment is worn or held.
#[derive(Debug, Clone, Copy, PartialEq, Eq, Structural, Hash)]
pub enum EquipType {
    Helmet,
    Body,
    Pants,
    Hands,
    FullBody,
    Pendant,
    Title,
    Ring,
    WeaponHand,
    OffHand,
}

/// The name that a player without a name is given, as a number picks it.
pub open spec fn default_name_of(i: nat) -> Seq<char> {
    if i == 0 {
        "Calacuda"@
    } else if i == 1 {
        "Eragon"@
    } else if i == 2 {
        "Percy"@
    } else if i == 3 {
        "Peter"@
    } else if i == 4 {
        "Artemis"@
    } else if i == 5 {
        "Christopher"@
    } else if i == 6 {
        "Eoin"@
    } else if i == 7 {
        "Lloyd"@
    } else if i == 8 {
        "Rick"@
    } else {
        "Barry"@
    }
}

/// The name that a player without a name is given: one of ten, as the
/// random word picks it, each with the same weight.
pub fn default_name(word: u64) -> (name: &'static str)
    ensures
        name@ == default_name_of(word as nat % 10),
{
    match word % 10 {
        0 => "Calacuda",
        1 => "Eragon",
        2 => "Percy",
        3 => "Peter",
        4 => "Artemis",
        5 => "Christopher",
        6 => "Eoin",
        7 => "Lloyd",
        8 => "Rick",
        _ => "Barry",
    }
}

/// The strengths that a player starts with.
pub fn starting_stats() -> (stats: Stats)
    ensures
        stats == (Stats { hp: 20, str: 5, mg_str: 1, def: 4, mg_def: 2, speed: 4 }),
{
    Stats { hp: 20, str: 5, mg_str: 1, def: 4, mg_def: 2, speed: 4 }
}

/// The name of a new player: the one given, or where none is given one of
/// the ten that a player without a name may get, as chance picks it.
pub fn pick_name(given: Option<&str>) -> (name: String)
    ensures
        match given {
            Some(text) => name@ == text@,
            None => exists|i: nat| i < 10 && name@ == #[trigger] default_name_of(i),
        },
{
    match given {
        Some(text) => String::from_str(text),
        None => {
            let word = fresh_word();
            String::from_str(default_name(word))
        },
    }
}

} // verus!
