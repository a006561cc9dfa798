//! Which zone categories may stand beside which, per direction.

use vstd::prelude::*;
use crate::category::ZoneType;
use crate::domain::CategorySet;

verus! {

/// One of the four sides on which a cell has a neighbour.
#[derive(Debug, Clone, Copy, PartialEq, Eq, Structural, Hash)]
pub enum Direction {
    North,
    South,
    East,
    West,
}

impl Direction {
    /// Position of the direction in declaration order.
    pub open spec fn index(self) -> nat {
        match self {
            Direction::North => 0,
            Direction::South => 1,
            Direction::East => 2,
            Direction::West => 3,
        }
    }

    /// The direction at a given position; positions past the last give `West`.
    pub open spec fn at(i: nat) -> Direction {
        if i == 0 {
            Direction::North
        } else if i == 1 {
            Direction::South
        } else if i == 2 {
            Direction::East
        } else {
            Direction::West
        }
    }

    /// The step in x and in y that leads to the neighbour on this side.
    /// North is towards smaller y, West towards larger x.
    pub open spec fn offset(self) -> (int, int) {
        match self {
            Direction::North => (0, -1),
            Direction::South => (0, 1),
            Direction::East => (-1, 0),
            Direction::West => (1, 0),
        }
    }

    /// The side that faces this one.
    pub open spec fn reversed(self) -> Direction {
        match self {
            Direction::North => Direction::South,
            Direction::South => Direction::North,
            Direction::East => Direction::West,
            Direction::West => Direction::East,
        }
    }

    /// Position of the direction in declaration order.
    pub fn ordinal(self) -> (i: u8)
        ensures
            i == self.index(),
            i < 4,
    {
        match self {
            Direction::North => 0,
            Direction::South => 1,
            Direction::East => 2,
            Direction::West => 3,
        }
    }

    /// The direction at position `i`, if there is one.
    pub fn from_ordinal(i: u8) -> (d: Option<Direction>)
        ensures
            d == (if i < 4 { Some(Direction::at(i as nat)) } else { None }),
    {
        match i {
            0 => Some(Direction::North),
            1 => Some(Direction::South),
            2 => Some(Direction::East),
            3 => Some(Direction::West),
            _ => None,
        }
    }

    /// The side that faces this one.
    pub fn opposite(self) -> (d: Direction)
        ensures
            d == self.reversed(),
    {
        match self {
            Direction::North => Direction::South,
            Direction::South => Direction::North,
            Direction::East => Direction::West,
            Direction::West => Direction::East,
        }
    }
}

/// Where the table keeps the entry of a category and a direction.
pub open spec fn slot_of(c: ZoneType, d: Direction) -> int {
    (c.index() * 4 + d.index()) as int
}

/// A table of the categories that each category admits on each side.
///
/// An entry that was never registered admits nothing. An entry says nothing
/// of the opposite direction: that `a` admits `b` to its north does not
/// make `b` admit `a` to its south.
#[derive(Debug, Clone, Copy)]
pub struct AdjacencyRuleSet {
    slots: [Option<CategorySet>; 36],
}

impl View for AdjacencyRuleSet {
    type V = Map<(ZoneType, Direction), Set<ZoneType>>;

    closed spec fn view(&self) -> Map<(ZoneType, Direction), Set<ZoneType>> {
        Map::new(
            |k: (ZoneType, Direction)| self.slots@[slot_of(k.0, k.1)] is Some,
            |k: (ZoneType, Direction)| self.slots@[slot_of(k.0, k.1)]->0@,
        )
    }
}

/// What a table admits beside category `c` on side `d`: the registered set,
/// or nothing where none was registered.
pub open spec fn permitted(
    table: Map<(ZoneType, Direction), Set<ZoneType>>,
    c: ZoneType,
    d: Direction,
) -> Set<ZoneType> {
    if table.dom().contains((c, d)) {
        table[(c, d)]
    } else {
        Set::empty()
    }
}

/// What a table admits on side `d` of a cell that may still hold any
/// category of `from`: the union of what each of them admits.
pub open spec fn permitted_beside(
    table: Map<(ZoneType, Direction), Set<ZoneType>>,
    from: Set<ZoneType>,
    d: Direction,
) -> Set<ZoneType> {
    Set::new(|b: ZoneType| exists|a: ZoneType| from.contains(a) && #[trigger] permitted(table, a, d).contains(b))
}

/// The union over the members of `from` below position `i`.
pub open spec fn permitted_beside_below(
    table: Map<(ZoneType, Direction), Set<ZoneType>>,
    from: Set<ZoneType>,
    d: Direction,
    i: nat,
) -> Set<ZoneType> {
    Set::new(
        |b: ZoneType|
            exists|a: ZoneType|
                from.contains(a) && a.index() < i && #[trigger] permitted(table, a, d).contains(b),
    )
}

/// Widening the set of candidates widens what is admitted beside them.
pub proof fn lemma_permitted_beside_monotone(
    table: Map<(ZoneType, Direction), Set<ZoneType>>,
    small: Set<ZoneType>,
    large: Set<ZoneType>,
    d: Direction,
)
    requires
        small.subset_of(large),
    ensures
        permitted_beside(table, small, d).subset_of(permitted_beside(table, large, d)),
{
}

/// Beside a single category, exactly what that category admits is admitted.
pub proof fn lemma_permitted_beside_single(
    table: Map<(ZoneType, Direction), Set<ZoneType>>,
    a: ZoneType,
    d: Direction,
)
    ensures
        permitted_beside(table, set![a], d) == permitted(table, a, d),
{
}

impl AdjacencyRuleSet {
    /// A table in which nothing is registered.
    pub fn new() -> (rules: AdjacencyRuleSet)
        ensures
            rules@ == Map::<(ZoneType, Direction), Set<ZoneType>>::empty(),
    {
        AdjacencyRuleSet { slots: [None; 36] }
    }

    /// Registers `allowed` as what `category` admits on side `direction`.
    /// A set registered earlier for the same pair is replaced.
    pub fn allow(&mut self, category: ZoneType, direction: Direction, allowed: CategorySet)
        ensures
            final(self)@ == old(self)@.insert((category, direction), allowed@),
    {
        let i = (category.ordinal() as usize) * 4 + (direction.ordinal() as usize);
        self.slots[i] = Some(allowed);
    }

    /// What `category` admits on side `direction`: the registered set, or
    /// the empty set where none was registered.
    pub fn query(&self, category: ZoneType, direction: Direction) -> (allowed: CategorySet)
        ensures
            allowed@ == permitted(self@, category, direction),
    {
        let i = (category.ordinal() as usize) * 4 + (direction.ordinal() as usize);
        match self.slots[i] {
            Some(set) => set,
            None => CategorySet::empty(),
        }
    }

    /// Whether a set was registered for `category` on side `direction`.
    pub fn is_registered(&self, category: ZoneType, direction: Direction) -> (r: bool)
        ensures
            r == self@.dom().contains((category, direction)),
    {
        let i = (category.ordinal() as usize) * 4 + (direction.ordinal() as usize);
        self.slots[i].is_some()
    }

    /// What is admitted on side `direction` of a cell whose candidates are
    /// `from`: the union of what each candidate admits.
    pub fn query_any(&self, from: CategorySet, direction: Direction) -> (allowed: CategorySet)
        ensures
            allowed@ == permitted_beside(self@, from@, direction),
    {
        let mut allowed = CategorySet::empty();
        let mut i: u8 = 0;
        while i < 9
            invariant
                i <= 9,
                allowed@ == permitted_beside_below(self@, from@, direction, i as nat),
            decreases 9 - i,
        {
            let c = ZoneType::from_ordinal(i).unwrap();
            if from.contains(c) {
                allowed = allowed.union(self.query(c, direction));
            }
            i = i + 1;
        }
        allowed
    }
}

/// What a table admits after `category` was made to admit `allowed` on
/// side `direction`, and each member of `allowed` to admit `category` on the
/// side that faces it.
pub open spec fn allowed_both_ways(
    table: Map<(ZoneType, Direction), Set<ZoneType>>,
    category: ZoneType,
    direction: Direction,
    allowed: Set<ZoneType>,
) -> Map<(ZoneType, Direction), Set<ZoneType>> {
    Map::new(
        |k: (ZoneType, Direction)|
            table.dom().contains(k) || k == (category, direction) || (k.1 == direction.reversed()
                && allowed.contains(k.0)),
        |k: (ZoneType, Direction)|
            permitted(table, k.0, k.1).union(
                if k == (category, direction) {
                    allowed
                } else {
                    Set::empty()
                },
            ).union(
                if k.1 == direction.reversed() && allowed.contains(k.0) {
                    set![category]
                } else {
                    Set::empty()
                },
            ),
    )
}

/// The same, with only the members of `allowed` below position `i` made to
/// admit `category`.
pub open spec fn allowed_both_ways_below(
    table: Map<(ZoneType, Direction), Set<ZoneType>>,
    category: ZoneType,
    direction: Direction,
    allowed: Set<ZoneType>,
    i: nat,
) -> Map<(ZoneType, Direction), Set<ZoneType>> {
    Map::new(
        |k: (ZoneType, Direction)|
            table.dom().contains(k) || k == (category, direction) || (k.1 == direction.reversed()
                && allowed.contains(k.0) && k.0.index() < i),
        |k: (ZoneType, Direction)|
            permitted(table, k.0, k.1).union(
                if k == (category, direction) {
                    allowed
                } else {
                    Set::empty()
                },
            ).union(
                if k.1 == direction.reversed() && allowed.contains(k.0) && k.0.index() < i {
                    set![category]
                } else {
                    Set::empty()
                },
            ),
    )
}

/// What each category is declared to admit beside it, on every side.
pub open spec fn declared_neighbors(c: ZoneType) -> Set<ZoneType> {
    match c {
        ZoneType::Shelter => set![
            ZoneType::OpenPath,
            ZoneType::Coredor,
            ZoneType::Mountains,
            ZoneType::Sanctuary,
            ZoneType::BossEntry,
            ZoneType::Wall,
        ],
        ZoneType::OpenPath => set![
            ZoneType::Shelter,
            ZoneType::OpenPath,
            ZoneType::Coredor,
            ZoneType::Temple,
            ZoneType::Mountains,
            ZoneType::Sanctuary,
            ZoneType::TreasureRoom,
            ZoneType::BossEntry,
        ],
        ZoneType::Coredor => set![
            ZoneType::OpenPath,
            ZoneType::Coredor,
            ZoneType::Temple,
            ZoneType::Sanctuary,
            ZoneType::TreasureRoom,
            ZoneType::BossEntry,
        ],
        ZoneType::Temple => set![
            ZoneType::Shelter,
            ZoneType::OpenPath,
            ZoneType::Coredor,
            ZoneType::Temple,
            ZoneType::Mountains,
            ZoneType::Sanctuary,
            ZoneType::TreasureRoom,
        ],
        ZoneType::Mountains => set![
            ZoneType::OpenPath,
            ZoneType::Temple,
            ZoneType::Mountains,
            ZoneType::Sanctuary,
            ZoneType::BossEntry,
        ],
        ZoneType::Sanctuary => set![
            ZoneType::Shelter,
            ZoneType::OpenPath,
            ZoneType::Coredor,
            ZoneType::Temple,
            ZoneType::Mountains,
            ZoneType::TreasureRoom,
            ZoneType::BossEntry,
        ],
        ZoneType::TreasureRoom => set![ZoneType::Shelter, ZoneType::Coredor, ZoneType::Temple],
        ZoneType::BossEntry => set![
            ZoneType::Shelter,
            ZoneType::OpenPath,
            ZoneType::Coredor,
            ZoneType::Temple,
            ZoneType::Mountains,
        ],
        ZoneType::Wall => set![
            ZoneType::Shelter,
            ZoneType::OpenPath,
            ZoneType::Coredor,
            ZoneType::Temple,
            ZoneType::Mountains,
            ZoneType::Sanctuary,
            ZoneType::TreasureRoom,
            ZoneType::BossEntry,
            ZoneType::Wall,
        ],
    }
}

/// The standard rules: on every side each category admits exactly what it
/// was declared to admit. Nothing is added for the facing side: a wall
/// admits an open path beside it, an open path no wall.
pub open spec fn standard_table() -> Map<(ZoneType, Direction), Set<ZoneType>> {
    Map::new(|k: (ZoneType, Direction)| true, |k: (ZoneType, Direction)| declared_neighbors(k.0))
}

/// The standard rules as far as the categories below position `i` are
/// registered.
pub open spec fn standard_table_below(i: nat) -> Map<(ZoneType, Direction), Set<ZoneType>> {
    Map::new(
        |k: (ZoneType, Direction)| k.0.index() < i,
        |k: (ZoneType, Direction)| declared_neighbors(k.0),
    )
}

/// In the standard rules every pair of a category and a side is
/// registered with what the category was declared to admit. The rules are
/// not symmetric: a wall admits an open path, an open path no wall. A
/// treasure room admits a shelter, a corridor and a temple and nothing
/// else; a boss entry admits its five declared neighbours and nothing else.
pub proof fn lemma_standard_neighbors(a: ZoneType, d: Direction)
    ensures
        standard_table().dom().contains((a, d)),
        permitted(standard_table(), a, d) == declared_neighbors(a),
        permitted(standard_table(), ZoneType::Wall, d).contains(ZoneType::OpenPath),
        !permitted(standard_table(), ZoneType::OpenPath, d).contains(ZoneType::Wall),
        permitted(standard_table(), ZoneType::TreasureRoom, d) == set![
            ZoneType::Shelter,
            ZoneType::Coredor,
            ZoneType::Temple,
        ],
        permitted(standard_table(), ZoneType::BossEntry, d) == set![
            ZoneType::Shelter,
            ZoneType::OpenPath,
            ZoneType::Coredor,
            ZoneType::Temple,
            ZoneType::Mountains,
        ],
{
}

/// The declared neighbours of `c`.
pub fn declared(c: ZoneType) -> (s: CategorySet)
    ensures
        s@ == declared_neighbors(c),
{
    let none = CategorySet::empty();
    let s = match c {
        ZoneType::Shelter => none.with(ZoneType::OpenPath).with(ZoneType::Coredor).with(
            ZoneType::Mountains,
        ).with(ZoneType::Sanctuary).with(ZoneType::BossEntry).with(ZoneType::Wall),
        ZoneType::OpenPath => CategorySet::all().without(ZoneType::Wall),
        ZoneType::Coredor => none.with(ZoneType::OpenPath).with(ZoneType::Coredor).with(
            ZoneType::Temple,
        ).with(ZoneType::Sanctuary).with(ZoneType::TreasureRoom).with(ZoneType::BossEntry),
        ZoneType::Temple => CategorySet::all().without(ZoneType::BossEntry).without(ZoneType::Wall),
        ZoneType::Mountains => none.with(ZoneType::OpenPath).with(ZoneType::Temple).with(
            ZoneType::Mountains,
        ).with(ZoneType::Sanctuary).with(ZoneType::BossEntry),
        ZoneType::Sanctuary => CategorySet::all().without(ZoneType::Sanctuary).without(
            ZoneType::Wall,
        ),
        ZoneType::TreasureRoom => none.with(ZoneType::Shelter).with(ZoneType::Coredor).with(
            ZoneType::Temple,
        ),
        ZoneType::BossEntry => none.with(ZoneType::Shelter).with(ZoneType::OpenPath).with(
            ZoneType::Coredor,
        ).with(ZoneType::Temple).with(ZoneType::Mountains),
        ZoneType::Wall => CategorySet::all(),
    };
    s
}

impl AdjacencyRuleSet {
    /// Makes `category` admit `allowed` on side `direction`, in addition to
    /// what it admitted there, and makes each member of `allowed` admit
    /// `category` on the side that faces it.
    pub fn allow_both_ways(&mut self, category: ZoneType, direction: Direction, allowed: CategorySet)
        ensures
            final(self)@ == allowed_both_ways(old(self)@, category, direction, allowed@),
    {
        let back = direction.opposite();
        let here = self.query(category, direction).union(allowed);
        self.allow(category, direction, here);
        proof {
            assert(self@ =~~= allowed_both_ways_below(old(self)@, category, direction, allowed@, 0));
        }
        let mut i: u8 = 0;
        while i < 9
            invariant
                i <= 9,
                back == direction.reversed(),
                self@ == allowed_both_ways_below(
                    old(self)@,
                    category,
                    direction,
                    allowed@,
                    i as nat,
                ),
            decreases 9 - i,
        {
            let b = ZoneType::from_ordinal(i).unwrap();
            if allowed.contains(b) {
                let there = self.query(b, back).with(category);
                self.allow(b, back, there);
            }
            proof {
                assert(self@ =~~= allowed_both_ways_below(
                    old(self)@,
                    category,
                    direction,
                    allowed@,
                    (i + 1) as nat,
                ));
            }
            i = i + 1;
        }
    }

    /// The standard rules: on every side each category is registered with
    /// what it was declared to admit, and with nothing else.
    pub fn standard() -> (rules: AdjacencyRuleSet)
        ensures
            rules@ == standard_table(),
            forall|a: ZoneType, d: Direction| #[trigger] rules@.dom().contains((a, d)),
            forall|a: ZoneType, d: Direction| #[trigger]
                permitted(rules@, a, d) == declared_neighbors(a),
    {
        let mut rules = AdjacencyRuleSet::new();
        let mut i: u8 = 0;
        proof {
            assert(rules@ =~= standard_table_below(0));
        }
        while i < 9
            invariant
                i <= 9,
                rules@ == standard_table_below(i as nat),
            decreases 9 - i,
        {
            let c = ZoneType::from_ordinal(i).unwrap();
            let set = declared(c);
            rules.allow(c, Direction::North, set);
            rules.allow(c, Direction::South, set);
            rules.allow(c, Direction::East, set);
            rules.allow(c, Direction::West, set);
            proof {
                assert(rules@ =~= standard_table_below((i + 1) as nat));
            }
            i = i + 1;
        }
        proof {
            assert(rules@ =~= standard_table());
        }
        rules
    }

}

} // verus!
