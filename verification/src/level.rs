//! A finished level, and the check that its boss portal can be reached.

use vstd::prelude::*;
use crate::biome::Biome;
use crate::category::ZoneType;
use crate::domain::CategorySet;
use crate::grid::{beside, flat, lemma_flat_bounds};
use crate::rules::{Direction, permitted};
use crate::reach::{connected, is_walk, marked, search};
use crate::zone::{BossRoom, Zone};

verus! {

/// A level: a grid of zones, the place where the player spawns, the place
/// of the portal to the boss, the room of the boss, and the biome.
#[derive(Debug, PartialEq, Eq)]
pub struct Level<B> {
    /// The zones, row by row: `zones[y][x]` is the zone in column `x` of
    /// row `y`.
    pub zones: Vec<Vec<Zone>>,
    /// The width and the height of the level.
    pub dim: (usize, usize),
    /// Where the player spawns.
    pub warp_in: (usize, usize),
    /// Where the portal to the room of the boss stands.
    pub boss_portal: (usize, usize),
    /// The room of the boss, reached only through the portal.
    pub boss_room: BossRoom<B>,
    /// The biome of the level.
    pub biome: Biome,
}

impl<B> Level<B> {
    /// Whether the level has `dim.1` rows of `dim.0` zones each.
    pub open spec fn shaped(&self) -> bool {
        &&& self.zones@.len() == self.dim.1
        &&& forall|y: int| 0 <= y < self.zones@.len() ==> (#[trigger] self.zones@[y])@.len() == self.dim.0
    }

    /// The category of the zone in column `x` of row `y`.
    pub open spec fn category_at(&self, x: int, y: int) -> ZoneType {
        self.zones@[y]@[x].feild_type
    }

    /// Which zones a search may pass: those whose category is in
    /// `traversable`.
    pub open spec fn open_at(&self, traversable: Set<ZoneType>) -> spec_fn(int, int) -> bool {
        |x: int, y: int| traversable.contains(self.category_at(x, y))
    }

    /// Whether the zone in column `x` of row `y` admits, on side `d`, the
    /// category of its neighbour there. A side on which the level ends
    /// always agrees.
    pub open spec fn side_agrees(
        &self,
        table: Map<(ZoneType, Direction), Set<ZoneType>>,
        x: int,
        y: int,
        d: Direction,
    ) -> bool {
        let n = beside(x, y, d);
        0 <= n.0 < self.dim.0 && 0 <= n.1 < self.dim.1 ==> permitted(
            table,
            self.category_at(x, y),
            d,
        ).contains(self.category_at(n.0, n.1))
    }

    /// Whether the level is consistent with the rules of `table`: every
    /// zone admits, on each side, the category of its neighbour there.
    pub open spec fn consistent_with(&self, table: Map<(ZoneType, Direction), Set<ZoneType>>) -> bool {
        forall|x: int, y: int, d: Direction|
            0 <= x < self.dim.0 && 0 <= y < self.dim.1 ==> #[trigger] self.side_agrees(table, x, y, d)
    }

    /// Whether the level is whole: it has its shape, the spawn and the
    /// portal lie on it at different places, the spawn is its one
    /// sanctuary and the portal its one boss entry.
    pub open spec fn well_formed(&self) -> bool {
        &&& self.shaped()
        &&& self.warp_in.0 < self.dim.0
        &&& self.warp_in.1 < self.dim.1
        &&& self.boss_portal.0 < self.dim.0
        &&& self.boss_portal.1 < self.dim.1
        &&& self.warp_in != self.boss_portal
        &&& forall|x: int, y: int|
            0 <= x < self.dim.0 && 0 <= y < self.dim.1 ==> ((#[trigger] self.category_at(x, y))
                == ZoneType::Sanctuary <==> (x, y) == (self.warp_in.0 as int, self.warp_in.1 as int))
                && (self.category_at(x, y) == ZoneType::BossEntry <==> (x, y) == (
                self.boss_portal.0 as int,
                self.boss_portal.1 as int,
            ))
    }

    /// The zone in column `x` of row `y`, if the level has one there.
    pub fn zone(&self, x: usize, y: usize) -> (zone: Option<&Zone>)
        ensures
            zone is Some == (y < self.zones@.len() && x < self.zones@[y as int]@.len()),
            zone is Some ==> *zone->0 == self.zones@[y as int]@[x as int],
    {
        if y < self.zones.len() && x < self.zones[y].len() {
            Some(&self.zones[y][x])
        } else {
            None
        }
    }

    /// Whether the level has `dim.1` rows of `dim.0` zones each.
    pub fn is_shaped(&self) -> (r: bool)
        ensures
            r == self.shaped(),
    {
        if self.zones.len() != self.dim.1 {
            return false;
        }
        let mut y: usize = 0;
        while y < self.zones.len()
            invariant
                y <= self.zones@.len(),
                self.zones@.len() == self.dim.1,
                forall|j: int| 0 <= j < y ==> (#[trigger] self.zones@[j])@.len() == self.dim.0,
            decreases self.zones@.len() - y,
        {
            if self.zones[y].len() != self.dim.0 {
                return false;
            }
            y = y + 1;
        }
        true
    }
}

/// Two maps that agree on the cells of the grid connect the same cells.
pub proof fn lemma_connected_agrees(
    one: spec_fn(int, int) -> bool,
    other: spec_fn(int, int) -> bool,
    w: nat,
    h: nat,
    from: (int, int),
    to: (int, int),
)
    requires
        forall|x: int, y: int| 0 <= x < w && 0 <= y < h ==> #[trigger] one(x, y) == other(x, y),
    ensures
        connected(one, w, h, from, to) == connected(other, w, h, from, to),
{
    if connected(one, w, h, from, to) {
        let path = choose|path: Seq<(int, int)>| #[trigger]
            is_walk(one, w, h, path) && path[0] == from && path.last() == to;
        assert(is_walk(other, w, h, path) && path[0] == from && path.last() == to);
    }
    if connected(other, w, h, from, to) {
        let path = choose|path: Seq<(int, int)>| #[trigger]
            is_walk(other, w, h, path) && path[0] == from && path.last() == to;
        assert(is_walk(one, w, h, path) && path[0] == from && path.last() == to);
    }
}

/// Two levels with the same zones, size and special places are whole
/// together, and connect the same zones: the boss room and the biome do
/// not bear on the grid.
pub proof fn lemma_same_grid<B>(
    one: &Level<B>,
    other: &Level<B>,
    traversable: Set<ZoneType>,
    from: (int, int),
    to: (int, int),
)
    requires
        one.zones == other.zones,
        one.dim == other.dim,
        one.warp_in == other.warp_in,
        one.boss_portal == other.boss_portal,
    ensures
        one.shaped() == other.shaped(),
        one.well_formed() == other.well_formed(),
        forall|table: Map<(ZoneType, Direction), Set<ZoneType>>| #[trigger]
            one.consistent_with(table) == other.consistent_with(table),
        connected(one.open_at(traversable), one.dim.0 as nat, one.dim.1 as nat, from, to) == connected(
            other.open_at(traversable),
            other.dim.0 as nat,
            other.dim.1 as nat,
            from,
            to,
        ),
{
    assert forall|x: int, y: int| #[trigger] one.category_at(x, y) == other.category_at(x, y) by {}
    assert forall|table: Map<(ZoneType, Direction), Set<ZoneType>>| #[trigger]
        one.consistent_with(table) == other.consistent_with(table) by {
        if one.consistent_with(table) {
            assert forall|x: int, y: int, d: Direction|
                0 <= x < other.dim.0 && 0 <= y < other.dim.1 implies #[trigger] other.side_agrees(
                table,
                x,
                y,
                d,
            ) by {
                assert(one.side_agrees(table, x, y, d));
            }
        }
        if other.consistent_with(table) {
            assert forall|x: int, y: int, d: Direction|
                0 <= x < one.dim.0 && 0 <= y < one.dim.1 implies #[trigger] one.side_agrees(
                table,
                x,
                y,
                d,
            ) by {
                assert(other.side_agrees(table, x, y, d));
            }
        }
    }
    if one.well_formed() {
        assert forall|x: int, y: int| 0 <= x < other.dim.0 && 0 <= y < other.dim.1 implies ((
        #[trigger] other.category_at(x, y)) == ZoneType::Sanctuary <==> (x, y) == (
            other.warp_in.0 as int,
            other.warp_in.1 as int,
        )) && (other.category_at(x, y) == ZoneType::BossEntry <==> (x, y) == (
            other.boss_portal.0 as int,
            other.boss_portal.1 as int,
        )) by {
            assert(one.category_at(x, y) == other.category_at(x, y));
        }
    }
    let a = one.open_at(traversable);
    let b = other.open_at(traversable);
    lemma_connected_agrees(a, b, one.dim.0 as nat, one.dim.1 as nat, from, to);
}

/// The check that one zone of a level can be reached from another through
/// zones of traversable categories.
#[derive(Debug, Clone, Copy, PartialEq, Eq)]
pub struct ReachabilityValidator {
    traversable: CategorySet,
}

impl ReachabilityValidator {
    /// The categories that a search may pass.
    pub closed spec fn traversable(&self) -> Set<ZoneType> {
        self.traversable@
    }

    /// Whether `to` can be reached from `from` in `level`: the level has
    /// its shape, its number of zones fits the machine, and a walk leads
    /// from `from` to `to` through zones of traversable categories.
    pub open spec fn reaches<B>(&self, level: &Level<B>, from: (usize, usize), to: (usize, usize)) -> bool {
        &&& level.shaped()
        &&& level.dim.0 * level.dim.1 <= usize::MAX
        &&& connected(
            level.open_at(self.traversable()),
            level.dim.0 as nat,
            level.dim.1 as nat,
            (from.0 as int, from.1 as int),
            (to.0 as int, to.1 as int),
        )
    }

    /// A validator that passes the categories of `traversable`.
    pub fn new(traversable: CategorySet) -> (validator: ReachabilityValidator)
        ensures
            validator.traversable() == traversable@,
    {
        ReachabilityValidator { traversable }
    }

    /// The validator that passes every category but `Wall`.
    pub fn standard() -> (validator: ReachabilityValidator)
        ensures
            validator.traversable() == Set::<ZoneType>::full().remove(ZoneType::Wall),
    {
        ReachabilityValidator { traversable: CategorySet::all().without(ZoneType::Wall) }
    }

    /// The categories that a search may pass.
    pub fn passes(&self) -> (set: CategorySet)
        ensures
            set@ == self.traversable(),
    {
        self.traversable
    }

    /// Whether the zone at `to` can be reached from the zone at `from`,
    /// moving between neighbours on the four sides through zones of
    /// traversable categories. The search is breadth first, stops when it
    /// finds `to`, and ends on every level.
    pub fn traverse<B>(&self, level: &Level<B>, from: (usize, usize), to: (usize, usize)) -> (r: bool)
        ensures
            r == self.reaches(level, from, to),
    {
        if !level.is_shaped() {
            return false;
        }
        let width = level.dim.0;
        let height = level.dim.1;
        if width.checked_mul(height).is_none() {
            return false;
        }
        let ghost w = width as nat;
        let ghost h = height as nat;
        let ghost free = level.open_at(self.traversable());
        let mut open: Vec<bool> = Vec::new();
        let mut y: usize = 0;
        while y < height
            invariant
                level.shaped(),
                width == level.dim.0,
                height == level.dim.1,
                w == width,
                h == height,
                free == level.open_at(self.traversable()),
                width * height <= usize::MAX,
                y <= height,
                open@.len() == y * width,
                forall|ox: int, oy: int|
                    0 <= ox < width && 0 <= oy < y ==> open@[#[trigger] flat(ox, oy, w)] == free(ox, oy),
            decreases height - y,
        {
            let mut x: usize = 0;
            proof {
                assert(y * width + width <= height * width) by (nonlinear_arith)
                    requires
                        y < height,
                ;
            }
            while x < width
                invariant
                    level.shaped(),
                    width == level.dim.0,
                    height == level.dim.1,
                    w == width,
                    h == height,
                    free == level.open_at(self.traversable()),
                    y < height,
                    x <= width,
                    y * width + width <= usize::MAX,
                    open@.len() == y * width + x,
                    forall|ox: int, oy: int|
                        0 <= ox < width && 0 <= oy < y ==> open@[#[trigger] flat(ox, oy, w)] == free(
                            ox,
                            oy,
                        ),
                    forall|ox: int| 0 <= ox < x ==> open@[#[trigger] flat(ox, y as int, w)] == free(ox, y as int),
                decreases width - x,
            {
                let mark = self.traversable.contains(level.zones[y][x].feild_type);
                open.push(mark);
                proof {
                    assert forall|ox: int, oy: int| 0 <= ox < width && 0 <= oy < y implies open@[#[trigger] flat(
                        ox,
                        oy,
                        w,
                    )] == free(ox, oy) by {
                        lemma_flat_bounds(ox, oy, w, y as nat);
                        assert(w * (y as nat) == y * width) by (nonlinear_arith)
                            requires
                                w == width,
                        ;
                    }
                }
                x = x + 1;
            }
            proof {
                assert((y + 1) * width == y * width + width) by (nonlinear_arith);
            }
            y = y + 1;
        }
        proof {
            lemma_connected_agrees(
                marked(open@, w),
                free,
                w,
                h,
                (from.0 as int, from.1 as int),
                (to.0 as int, to.1 as int),
            );
            assert(height * width == width * height) by (nonlinear_arith);
        }
        search(&open, width, height, from, to)
    }
}

} // verus!
