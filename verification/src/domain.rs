//! A set of zone categories packed into the low bits of a word.

use vstd::prelude::*;
use crate::category::{ZoneType, count_below, member_at, member_from, lemma_category_set_len};

verus! {

/// Whether bit `i` of `bits` is set.
pub open spec fn bit(bits: u16, i: u16) -> bool {
    (bits >> i) & 1 == 1
}

/// The bits that stand for categories.
pub const CATEGORY_MASK: u16 = 0x1FF;

proof fn lemma_bit_and(a: u16, b: u16, i: u16)
    by (bit_vector)
    requires
        i < 16,
    ensures
        bit(a & b, i) <==> bit(a, i) && bit(b, i),
{
}

proof fn lemma_bit_or(a: u16, b: u16, i: u16)
    by (bit_vector)
    requires
        i < 16,
    ensures
        bit(a | b, i) <==> bit(a, i) || bit(b, i),
{
}

proof fn lemma_bit_one(i: u16, j: u16)
    by (bit_vector)
    requires
        i < 16,
        j < 16,
    ensures
        bit(1u16 << i, j) <==> i == j,
{
}

proof fn lemma_bit_mask(i: u16)
    by (bit_vector)
    requires
        i < 16,
    ensures
        bit(0x1FFu16, i) <==> i < 9,
        !bit(0u16, i),
{
}

proof fn lemma_bit_clear(a: u16, i: u16, j: u16)
    by (bit_vector)
    requires
        i < 16,
        j < 16,
    ensures
        bit(a & !(1u16 << i), j) <==> bit(a, j) && i != j,
{
}

proof fn lemma_bits_bounded(a: u16, b: u16, i: u16)
    by (bit_vector)
    requires
        a <= 0x1FF,
        i < 9,
    ensures
        a & b <= 0x1FF,
        b & a <= 0x1FF,
        b <= 0x1FF ==> a | b <= 0x1FF,
        a | (1u16 << i) <= 0x1FF,
        1u16 << i <= 0x1FF,
{
}

proof fn lemma_bits_equal(a: u16, b: u16)
    by (bit_vector)
    requires
        a <= 0x1FF,
        b <= 0x1FF,
        bit(a, 0) == bit(b, 0),
        bit(a, 1) == bit(b, 1),
        bit(a, 2) == bit(b, 2),
        bit(a, 3) == bit(b, 3),
        bit(a, 4) == bit(b, 4),
        bit(a, 5) == bit(b, 5),
        bit(a, 6) == bit(b, 6),
        bit(a, 7) == bit(b, 7),
        bit(a, 8) == bit(b, 8),
    ensures
        a == b,
{
}

proof fn lemma_bits_subset(a: u16, b: u16)
    by (bit_vector)
    requires
        a <= 0x1FF,
        bit(a, 0) ==> bit(b, 0),
        bit(a, 1) ==> bit(b, 1),
        bit(a, 2) ==> bit(b, 2),
        bit(a, 3) ==> bit(b, 3),
        bit(a, 4) ==> bit(b, 4),
        bit(a, 5) ==> bit(b, 5),
        bit(a, 6) ==> bit(b, 6),
        bit(a, 7) ==> bit(b, 7),
        bit(a, 8) ==> bit(b, 8),
    ensures
        a & b == a,
{
}

/// A set of zone categories.
#[derive(Debug, Clone, Copy, PartialEq, Eq, Structural, Hash)]
pub struct CategorySet {
    bits: u16,
}

/// The categories that the low bits of a word stand for: the category at
/// position `i` is a member when bit `i` is set.
pub open spec fn members_of(bits: u16) -> Set<ZoneType> {
    Set::new(|c: ZoneType| bit(bits, c.index() as u16))
}

impl View for CategorySet {
    type V = Set<ZoneType>;

    closed spec fn view(&self) -> Set<ZoneType> {
        members_of(self.bits)
    }
}

proof fn lemma_bit_masked(a: u16, i: u16)
    by (bit_vector)
    requires
        i < 9,
    ensures
        bit(a & 0x1FF, i) == bit(a, i),
        a & 0x1FF <= 0x1FF,
{
}

impl CategorySet {
    #[verifier::type_invariant]
    spec fn well_formed(self) -> bool {
        self.bits <= CATEGORY_MASK
    }

    /// The set as a word: bit `i` is set when the category at position `i`
    /// is a member, and no other bit is.
    pub fn to_bits(&self) -> (bits: u16)
        ensures
            bits <= CATEGORY_MASK,
            members_of(bits) == self@,
    {
        proof {
            use_type_invariant(self);
        }
        self.bits
    }

    /// The set that the low bits of a word stand for.
    pub fn from_bits(bits: u16) -> (s: CategorySet)
        ensures
            s@ == members_of(bits),
    {
        proof {
            lemma_bit_masked(bits, 0);
            assert forall|c: ZoneType|
                bit(bits & CATEGORY_MASK, c.index() as u16) == bit(bits, c.index() as u16) by {
                lemma_bit_masked(bits, c.index() as u16);
            }
        }
        let s = CategorySet { bits: bits & CATEGORY_MASK };
        s
    }

    /// The set without members.
    pub fn empty() -> (s: CategorySet)
        ensures
            s@ == Set::<ZoneType>::empty(),
    {
        proof {
            assert forall|c: ZoneType| !bit(0u16, c.index() as u16) by {
                lemma_bit_mask(c.index() as u16);
            }
        }
        let s = CategorySet { bits: 0 };
        s
    }

    /// The set of all categories.
    pub fn all() -> (s: CategorySet)
        ensures
            s@ == Set::<ZoneType>::full(),
    {
        proof {
            assert forall|c: ZoneType| bit(0x1FFu16, c.index() as u16) by {
                lemma_bit_mask(c.index() as u16);
            }
        }
        let s = CategorySet { bits: CATEGORY_MASK };
        s
    }

    /// The set whose one member is `c`.
    pub fn only(c: ZoneType) -> (s: CategorySet)
        ensures
            s@ == set![c],
    {
        let i = c.ordinal();
        proof {
            lemma_bits_bounded(0, 0, i as u16);
            assert forall|d: ZoneType| bit(1u16 << (i as u16), d.index() as u16) <==> d == c by {
                lemma_bit_one(i as u16, d.index() as u16);
            }
        }
        let s = CategorySet { bits: 1u16 << (i as u16) };
        s
    }

    /// Whether `c` is a member.
    pub fn contains(&self, c: ZoneType) -> (r: bool)
        ensures
            r == self@.contains(c),
    {
        (self.bits >> (c.ordinal() as u16)) & 1 == 1
    }

    /// The set with `c` added.
    pub fn with(self, c: ZoneType) -> (s: CategorySet)
        ensures
            s@ == self@.insert(c),
    {
        let i = c.ordinal();
        proof {
            use_type_invariant(&self);
            lemma_bits_bounded(self.bits, 0, i as u16);
            assert forall|d: ZoneType|
                bit(self.bits | (1u16 << (i as u16)), d.index() as u16) <==> (bit(
                    self.bits,
                    d.index() as u16,
                ) || d == c) by {
                lemma_bit_or(self.bits, 1u16 << (i as u16), d.index() as u16);
                lemma_bit_one(i as u16, d.index() as u16);
            }
        }
        let s = CategorySet { bits: self.bits | (1u16 << (i as u16)) };
        s
    }

    /// The set with `c` taken out.
    pub fn without(self, c: ZoneType) -> (s: CategorySet)
        ensures
            s@ == self@.remove(c),
    {
        let i = c.ordinal();
        proof {
            use_type_invariant(&self);
            lemma_bits_bounded(self.bits, !(1u16 << (i as u16)), 0);
            assert forall|d: ZoneType|
                bit(self.bits & !(1u16 << (i as u16)), d.index() as u16) <==> (bit(
                    self.bits,
                    d.index() as u16,
                ) && d != c) by {
                lemma_bit_clear(self.bits, i as u16, d.index() as u16);
            }
        }
        let s = CategorySet { bits: self.bits & !(1u16 << (i as u16)) };
        s
    }

    /// The members common to both sets.
    pub fn intersect(self, other: CategorySet) -> (s: CategorySet)
        ensures
            s@ == self@.intersect(other@),
    {
        proof {
            use_type_invariant(&self);
            lemma_bits_bounded(self.bits, other.bits, 0);
            assert forall|d: ZoneType|
                bit(self.bits & other.bits, d.index() as u16) <==> (bit(self.bits, d.index() as u16)
                    && bit(other.bits, d.index() as u16)) by {
                lemma_bit_and(self.bits, other.bits, d.index() as u16);
            }
        }
        let s = CategorySet { bits: self.bits & other.bits };
        s
    }

    /// The members of either set.
    pub fn union(self, other: CategorySet) -> (s: CategorySet)
        ensures
            s@ == self@.union(other@),
    {
        proof {
            use_type_invariant(&self);
            use_type_invariant(&other);
            lemma_bits_bounded(self.bits, other.bits, 0);
            assert forall|d: ZoneType|
                bit(self.bits | other.bits, d.index() as u16) <==> (bit(self.bits, d.index() as u16)
                    || bit(other.bits, d.index() as u16)) by {
                lemma_bit_or(self.bits, other.bits, d.index() as u16);
            }
        }
        let s = CategorySet { bits: self.bits | other.bits };
        s
    }

    /// Whether the set has no member.
    pub fn is_empty(&self) -> (r: bool)
        ensures
            r <==> self@ =~= Set::<ZoneType>::empty(),
    {
        proof {
            use_type_invariant(self);
            self.lemma_view_bits();
            if self.bits == 0 {
                assert forall|c: ZoneType| !bit(0u16, c.index() as u16) by {
                    lemma_bit_mask(c.index() as u16);
                }
            }
            if self@ =~= Set::<ZoneType>::empty() {
                assert forall|i: u16| i < 9 implies !bit(0u16, i) by {
                    lemma_bit_mask(i);
                }
                lemma_bits_equal(self.bits, 0);
            }
        }
        self.bits == 0
    }

    /// Whether both sets have the same members.
    pub fn same_as(&self, other: &CategorySet) -> (r: bool)
        ensures
            r <==> self@ =~= other@,
    {
        proof {
            use_type_invariant(self);
            use_type_invariant(other);
            other.lemma_view_bits();
            if self@ =~= other@ {
                lemma_bits_equal(self.bits, other.bits);
            }
        }
        self.bits == other.bits
    }

    /// Whether every member is a member of `other` too.
    pub fn is_subset_of(&self, other: &CategorySet) -> (r: bool)
        ensures
            r == self@.subset_of(other@),
    {
        proof {
            use_type_invariant(self);
            other.lemma_view_bits();
            if self@.subset_of(other@) {
                lemma_bits_subset(self.bits, other.bits);
            }
            if self.bits & other.bits == self.bits {
                assert forall|d: ZoneType| self@.contains(d) implies other@.contains(d) by {
                    lemma_bit_and(self.bits, other.bits, d.index() as u16);
                }
            }
        }
        self.bits & other.bits == self.bits
    }

    /// How many members the set has.
    pub fn len(&self) -> (n: u8)
        ensures
            n == self@.len(),
            n <= 9,
    {
        let mut n: u8 = 0;
        let mut i: u8 = 0;
        while i < 9
            invariant
                i <= 9,
                n == count_below(self@, i as nat),
                n <= i,
                forall|j: u16| j < 9 ==> bit(self.bits, j) == self@.contains(ZoneType::at(j as nat)),
            decreases 9 - i,
        {
            if (self.bits >> (i as u16)) & 1 == 1 {
                n = n + 1;
            }
            i = i + 1;
        }
        proof {
            lemma_category_set_len(self@);
        }
        n
    }

    /// The `k`-th member in declaration order, counting from zero, if the
    /// set has more than `k` members.
    pub fn nth(&self, k: u8) -> (c: Option<ZoneType>)
        ensures
            c == (if k < self@.len() {
                Some(member_at(self@, k as nat))
            } else {
                None
            }),
    {
        if k >= self.len() {
            return None;
        }
        let mut left: u8 = k;
        let mut i: u8 = 0;
        proof {
            lemma_category_set_len(self@);
        }
        while i < 9
            invariant
                i <= 9,
                k < self@.len(),
                forall|j: u16| j < 9 ==> bit(self.bits, j) == self@.contains(ZoneType::at(j as nat)),
                member_at(self@, k as nat) == member_from(self@, i as nat, left as nat),
                count_below(self@, i as nat) + left < count_below(self@, 9),
            decreases 9 - i,
        {
            if (self.bits >> (i as u16)) & 1 == 1 {
                if left == 0 {
                    return ZoneType::from_ordinal(i);
                }
                left = left - 1;
            }
            i = i + 1;
        }
        None
    }

    /// The bits of the representation and the members of the view agree.
    proof fn lemma_view_bits(self)
        ensures
            forall|j: u16| j < 9 ==> bit(self.bits, j) == #[trigger] self@.contains(ZoneType::at(j as nat)),
            forall|c: ZoneType| bit(self.bits, c.index() as u16) == #[trigger] self@.contains(c),
            bit(self.bits, 0) == self@.contains(ZoneType::Shelter),
            bit(self.bits, 1) == self@.contains(ZoneType::OpenPath),
            bit(self.bits, 2) == self@.contains(ZoneType::Coredor),
            bit(self.bits, 3) == self@.contains(ZoneType::Temple),
            bit(self.bits, 4) == self@.contains(ZoneType::Mountains),
            bit(self.bits, 5) == self@.contains(ZoneType::Sanctuary),
            bit(self.bits, 6) == self@.contains(ZoneType::TreasureRoom),
            bit(self.bits, 7) == self@.contains(ZoneType::BossEntry),
            bit(self.bits, 8) == self@.contains(ZoneType::Wall),
    {
    }
}

} // verus!
