//! The biome of a level: the flavour of its texts.

use vstd::prelude::*;
use vstd::string::StrSliceExecFns;

verus! {

/// The kind of country a level lies in.
#[derive(Debug, Clone, Copy, PartialEq, Eq, Structural, Hash)]
pub enum Biome {
    Forest,
    Temple,
    Desert,
    Mountains,
    Ruins,
    Dungeon,
    Town,
}

impl Biome {
    /// The name of the biome as it is shown.
    pub open spec fn label(self) -> Seq<char> {
        match self {
            Biome::Forest => "Forest"@,
            Biome::Temple => "Temple"@,
            Biome::Desert => "Desert"@,
            Biome::Mountains => "Mountains"@,
            Biome::Ruins => "Ruins"@,
            Biome::Dungeon => "Dungeon"@,
            Biome::Town => "Town"@,
        }
    }

    /// The name of the biome as it is shown.
    pub fn name(&self) -> (s: &'static str)
        ensures
            s@ == self.label(),
    {
        match self {
            Biome::Forest => "Forest",
            Biome::Temple => "Temple",
            Biome::Desert => "Desert",
            Biome::Mountains => "Mountains",
            Biome::Ruins => "Ruins",
            Biome::Dungeon => "Dungeon",
            Biome::Town => "Town",
        }
    }
}

/// The number of a character when capital letters of the basic alphabet
/// count as their small ones.
pub open spec fn folded(c: char) -> int {
    if 'A' <= c && c <= 'Z' {
        c as int + 32
    } else {
        c as int
    }
}

/// Whether two texts are the same but for the case of basic letters.
pub open spec fn same_but_case(a: Seq<char>, b: Seq<char>) -> bool {
    a.len() == b.len() && forall|i: int| 0 <= i < a.len() ==> folded(#[trigger] a[i]) == folded(b[i])
}

/// Whether two characters are the same but for the case of basic letters.
pub fn same_letter(a: char, b: char) -> (r: bool)
    ensures
        r == (folded(a) == folded(b)),
{
    let x = a as u32;
    let y = b as u32;
    let fx = if 'A' <= a && a <= 'Z' {
        x + 32
    } else {
        x
    };
    let fy = if 'A' <= b && b <= 'Z' {
        y + 32
    } else {
        y
    };
    fx == fy
}

/// Whether two texts are the same but for the case of basic letters.
pub fn same_text(a: &str, b: &str) -> (r: bool)
    ensures
        r == same_but_case(a@, b@),
{
    let n = a.unicode_len();
    if n != b.unicode_len() {
        return false;
    }
    let mut i: usize = 0;
    while i < n
        invariant
            i <= n,
            n == a@.len(),
            n == b@.len(),
            forall|j: int| 0 <= j < i ==> folded(#[trigger] a@[j]) == folded(b@[j]),
        decreases n - i,
    {
        if !same_letter(a.get_char(i), b.get_char(i)) {
            return false;
        }
        i = i + 1;
    }
    true
}

/// No two biomes have the same name, even when the case of the letters is
/// passed over.
pub proof fn lemma_labels_differ(a: Biome, b: Biome)
    requires
        a != b,
    ensures
        !same_but_case(a.label(), b.label()),
{
    reveal_strlit("Forest");
    reveal_strlit("Temple");
    reveal_strlit("Desert");
    reveal_strlit("Mountains");
    reveal_strlit("Ruins");
    reveal_strlit("Dungeon");
    reveal_strlit("Town");
    if a.label().len() == b.label().len() {
        assert(folded(a.label()[0]) != folded(b.label()[0]));
    }
}

impl Biome {
    /// The biome that `text` names, whatever the case of its letters.
    pub fn parse(text: &str) -> (biome: Option<Biome>)
        ensures
            forall|b: Biome| (biome == Some(b)) == same_but_case(text@, #[trigger] b.label()),
    {
        proof {
            assert forall|a: Biome, b: Biome|
                same_but_case(text@, #[trigger] a.label()) && same_but_case(
                    text@,
                    #[trigger] b.label(),
                ) implies a == b by {
                if a != b {
                    lemma_labels_differ(a, b);
                    assert forall|i: int| 0 <= i < a.label().len() implies folded(
                        #[trigger] a.label()[i],
                    ) == folded(b.label()[i]) by {
                        assert(folded(text@[i]) == folded(a.label()[i]));
                    }
                }
            }
        }
        if same_text(text, Biome::Forest.name()) {
            Some(Biome::Forest)
        } else if same_text(text, Biome::Temple.name()) {
            Some(Biome::Temple)
        } else if same_text(text, Biome::Desert.name()) {
            Some(Biome::Desert)
        } else if same_text(text, Biome::Mountains.name()) {
            Some(Biome::Mountains)
        } else if same_text(text, Biome::Ruins.name()) {
            Some(Biome::Ruins)
        } else if same_text(text, Biome::Dungeon.name()) {
            Some(Biome::Dungeon)
        } else if same_text(text, Biome::Town.name()) {
            Some(Biome::Town)
        } else {
            None
        }
    }
}

} // verus!
