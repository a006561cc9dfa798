//! Zone categories and finite sets of them.

use vstd::prelude::*;

verus! {

/// The kind of terrain a zone holds.
#[derive(Debug, Clone, Copy, PartialEq, Eq, Structural, Hash)]
pub enum ZoneType {
    Shelter,
    OpenPath,
    Coredor,
    Temple,
    Mountains,
    Sanctuary,
    TreasureRoom,
    BossEntry,
    Wall,
}

/// How many categories there are.
pub const CATEGORY_COUNT: u8 = 9;

impl ZoneType {
    /// Position of the category in declaration order.
    pub open spec fn index(self) -> nat {
        match self {
            ZoneType::Shelter => 0,
            ZoneType::OpenPath => 1,
            ZoneType::Coredor => 2,
            ZoneType::Temple => 3,
            ZoneType::Mountains => 4,
            ZoneType::Sanctuary => 5,
            ZoneType::TreasureRoom => 6,
            ZoneType::BossEntry => 7,
            ZoneType::Wall => 8,
        }
    }

    /// The category at a given position; positions past the last one give `Wall`.
    pub open spec fn at(i: nat) -> ZoneType {
        if i == 0 {
            ZoneType::Shelter
        } else if i == 1 {
            ZoneType::OpenPath
        } else if i == 2 {
            ZoneType::Coredor
        } else if i == 3 {
            ZoneType::Temple
        } else if i == 4 {
            ZoneType::Mountains
        } else if i == 5 {
            ZoneType::Sanctuary
        } else if i == 6 {
            ZoneType::TreasureRoom
        } else if i == 7 {
            ZoneType::BossEntry
        } else {
            ZoneType::Wall
        }
    }

    /// Position of the category in declaration order.
    pub fn ordinal(self) -> (i: u8)
        ensures
            i == self.index(),
            i < CATEGORY_COUNT,
    {
        match self {
            ZoneType::Shelter => 0,
            ZoneType::OpenPath => 1,
            ZoneType::Coredor => 2,
            ZoneType::Temple => 3,
            ZoneType::Mountains => 4,
            ZoneType::Sanctuary => 5,
            ZoneType::TreasureRoom => 6,
            ZoneType::BossEntry => 7,
            ZoneType::Wall => 8,
        }
    }

    /// The category at position `i`, if there is one.
    pub fn from_ordinal(i: u8) -> (c: Option<ZoneType>)
        ensures
            c == (if i < CATEGORY_COUNT { Some(ZoneType::at(i as nat)) } else { None }),
    {
        match i {
            0 => Some(ZoneType::Shelter),
            1 => Some(ZoneType::OpenPath),
            2 => Some(ZoneType::Coredor),
            3 => Some(ZoneType::Temple),
            4 => Some(ZoneType::Mountains),
            5 => Some(ZoneType::Sanctuary),
            6 => Some(ZoneType::TreasureRoom),
            7 => Some(ZoneType::BossEntry),
            8 => Some(ZoneType::Wall),
            _ => None,
        }
    }
}

/// Number of members of `s` whose position is below `i`.
pub open spec fn count_below(s: Set<ZoneType>, i: nat) -> nat
    decreases i,
{
    if i == 0 {
        0
    } else {
        count_below(s, (i - 1) as nat) + if s.contains(ZoneType::at((i - 1) as nat)) {
            1nat
        } else {
            0nat
        }
    }
}

/// The member of `s` that has `k` members before it, looking from position
/// `i` on; `Wall` when there is none.
pub open spec fn member_from(s: Set<ZoneType>, i: nat, k: nat) -> ZoneType
    decreases 9 - i,
{
    if i >= 9 {
        ZoneType::Wall
    } else if s.contains(ZoneType::at(i)) {
        if k == 0 {
            ZoneType::at(i)
        } else {
            member_from(s, i + 1, (k - 1) as nat)
        }
    } else {
        member_from(s, i + 1, k)
    }
}

/// The `k`-th member of `s` in declaration order, counting from zero.
pub open spec fn member_at(s: Set<ZoneType>, k: nat) -> ZoneType {
    member_from(s, 0, k)
}

/// The members of `s` below position `i`.
pub open spec fn members_below(s: Set<ZoneType>, i: nat) -> Set<ZoneType> {
    Set::new(|c: ZoneType| s.contains(c) && c.index() < i)
}

proof fn lemma_members_below_len(s: Set<ZoneType>, i: nat)
    requires
        i <= 9,
    ensures
        members_below(s, i).finite(),
        members_below(s, i).len() == count_below(s, i),
    decreases i,
{
    if i == 0 {
        assert(members_below(s, i) =~= Set::<ZoneType>::empty());
    } else {
        let j = (i - 1) as nat;
        lemma_members_below_len(s, j);
        let c = ZoneType::at(j);
        if s.contains(c) {
            assert(members_below(s, i) =~= members_below(s, j).insert(c));
        } else {
            assert(members_below(s, i) =~= members_below(s, j));
        }
    }
}

/// Every set of categories is finite, and counting position by position
/// gives its size.
pub proof fn lemma_category_set_len(s: Set<ZoneType>)
    ensures
        s.finite(),
        s.len() == count_below(s, 9),
        s.len() <= 9,
{
    lemma_members_below_len(s, 9);
    assert(members_below(s, 9) =~= s);
    lemma_count_below_bound(s, 9);
}

/// At most one member is counted per position.
pub proof fn lemma_count_below_bound(s: Set<ZoneType>, i: nat)
    ensures
        count_below(s, i) <= i,
    decreases i,
{
    if i > 0 {
        lemma_count_below_bound(s, (i - 1) as nat);
    }
}

/// Looking from position `i`, the `k`-th member is found whenever enough
/// members are left; it belongs to the set and has exactly
/// `count_below(s, i) + k` members before it.
pub proof fn lemma_member_from(s: Set<ZoneType>, i: nat, k: nat)
    requires
        i <= 9,
        count_below(s, i) + k < count_below(s, 9),
    ensures
        s.contains(member_from(s, i, k)),
        count_below(s, member_from(s, i, k).index()) == count_below(s, i) + k,
        member_from(s, i, k).index() >= i,
    decreases 9 - i,
{
    if i < 9 {
        if !s.contains(ZoneType::at(i)) {
            lemma_member_from(s, i + 1, k);
        } else if k > 0 {
            lemma_member_from(s, i + 1, (k - 1) as nat);
        }
    }
}

/// The `k`-th member of a set with more than `k` members belongs to it and
/// has exactly `k` members before it.
pub proof fn lemma_member_at(s: Set<ZoneType>, k: nat)
    requires
        k < s.len(),
    ensures
        s.contains(member_at(s, k)),
        count_below(s, member_at(s, k).index()) == k,
{
    lemma_category_set_len(s);
    lemma_member_from(s, 0, k);
}

} // verus!
