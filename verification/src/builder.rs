//! The builder of levels: it draws a size and the two special places,
//! seeds the grid, runs the solver, and tries again when the solver runs
//! into a contradiction or the portal cannot be reached.

use vstd::prelude::*;
use rand::rngs::StdRng;
use rand::{Rng, SeedableRng};
use crate::category::ZoneType;
use crate::chance::fresh_word;
use crate::choice::word_at;
use crate::domain::CategorySet;
use crate::grid::{
    Cell, CellState, GridState, flat, lemma_flat_bounds, lemma_flat_split, lemma_flat_unique,
};
use crate::biome::Biome;
use crate::level::{Level, ReachabilityValidator, lemma_connected_agrees, lemma_same_grid};
use crate::reach::connected;
use crate::zone::{BossRoom, Zone, lair_desc, lair_name};
use crate::rules::{AdjacencyRuleSet, Direction, standard_table};
use crate::solver::{Contradiction, GridSolver, agrees, consistent, run_of, word};

verus! {

/// The bounds within which a level is generated.
#[derive(Debug, Clone, Copy, PartialEq, Eq)]
pub struct Config {
    /// The smallest width that may be drawn.
    pub min_width: usize,
    /// The largest width that may be drawn.
    pub max_width: usize,
    /// The smallest height that may be drawn.
    pub min_height: usize,
    /// The largest height that may be drawn.
    pub max_height: usize,
    /// How many attempts may be made.
    pub max_attempts: u32,
    /// The seed of the random words.
    pub seed: u64,
    /// Where the player spawns, if that is not left to chance.
    pub spawn: Option<(usize, usize)>,
    /// Where the portal to the boss stands, if that is not left to chance.
    pub boss_portal: Option<(usize, usize)>,
}

/// The number of random words that one attempt is given on a grid of at
/// most `max_width` by `max_height` cells: four for the size and the two
/// places, and two for each cell.
pub open spec fn words_for(max_width: nat, max_height: nat) -> nat {
    2 * max_width * max_height + 4
}

/// Whether a grid of `max_width` by `max_height` cells, and the words for
/// it, fit the machine.
pub open spec fn fits_machine(max_width: nat, max_height: nat) -> bool {
    4 * max_width * max_height + 4 <= isize::MAX
}

impl Config {
    /// Whether the bounds can be worked with: at least one attempt; sizes
    /// that are not empty, with the smallest no larger than the largest;
    /// room for two cells in the smallest grid; fixed places that lie on
    /// the smallest grid and differ; and a largest grid that fits the
    /// machine.
    pub open spec fn valid(self) -> bool {
        &&& self.max_attempts >= 1
        &&& 1 <= self.min_width <= self.max_width
        &&& 1 <= self.min_height <= self.max_height
        &&& self.min_width * self.min_height >= 2
        &&& fits_machine(self.max_width as nat, self.max_height as nat)
        &&& self.spawn matches Some(s) ==> s.0 < self.min_width && s.1 < self.min_height
        &&& self.boss_portal matches Some(p) ==> p.0 < self.min_width && p.1 < self.min_height
        &&& self.spawn is Some && self.boss_portal is Some ==> self.spawn != self.boss_portal
    }

    /// Whether the bounds can be worked with.
    pub fn is_valid(&self) -> (r: bool)
        ensures
            r == self.valid(),
    {
        if self.max_attempts < 1 || self.min_width < 1 || self.min_width > self.max_width
            || self.min_height < 1 || self.min_height > self.max_height {
            return false;
        }
        let fits = match self.max_width.checked_mul(self.max_height) {
            None => false,
            Some(cells) => match cells.checked_mul(4) {
                None => false,
                Some(fourfold) => {
                    match fourfold.checked_add(4) {
                        None => false,
                        Some(all) => all <= isize::MAX as usize,
                    }
                },
            },
        };
        proof {
            assert(4 * self.max_width * self.max_height == (self.max_width * self.max_height) * 4)
                by (nonlinear_arith);
        }
        if !fits {
            return false;
        }
        proof {
            assert(self.min_width * self.min_height <= self.max_width * self.max_height)
                by (nonlinear_arith)
                requires
                    self.min_width <= self.max_width,
                    self.min_height <= self.max_height,
            ;
        }
        if self.min_width * self.min_height < 2 {
            return false;
        }
        let spawn_fits = match self.spawn {
            Some(s) => s.0 < self.min_width && s.1 < self.min_height,
            None => true,
        };
        let portal_fits = match self.boss_portal {
            Some(p) => p.0 < self.min_width && p.1 < self.min_height,
            None => true,
        };
        let apart = match (self.spawn, self.boss_portal) {
            (Some(s), Some(p)) => s.0 != p.0 || s.1 != p.1,
            _ => true,
        };
        spawn_fits && portal_fits && apart
    }
}

/// A number between `lo` and `hi`, both included, as `word` picks it.
pub open spec fn drawn_between(lo: nat, hi: nat, word: u64) -> nat {
    lo + word as nat % ((hi - lo + 1) as nat)
}

/// One of `cells` places as `word` picks it, each with the same weight;
/// where a place is to be avoided, one of the others.
pub open spec fn drawn_place(cells: nat, avoid: Option<nat>, word: u64) -> nat {
    match avoid {
        None => word as nat % cells,
        Some(taken) => {
            let p = word as nat % ((cells - 1) as nat);
            if p >= taken {
                p + 1
            } else {
                p
            }
        },
    }
}

/// What one attempt plans before it is checked: the size, the two special
/// places, and the category of each cell, row by row.
pub struct Plan {
    pub width: nat,
    pub height: nat,
    pub spawn: (nat, nat),
    pub portal: (nat, nat),
    pub categories: Seq<ZoneType>,
}

impl Plan {
    /// The category of the cell in column `x` of row `y`.
    pub open spec fn category_at(self, x: int, y: int) -> ZoneType {
        self.categories[flat(x, y, self.width)]
    }

    /// The plan as a grid whose cells are all collapsed.
    pub open spec fn as_grid(self) -> GridState {
        GridState {
            width: self.width,
            height: self.height,
            cells: Seq::new(self.categories.len(), |i: int| CellState::Resolved(self.categories[i])),
        }
    }

    /// Which cells a search may pass: those whose category is in
    /// `traversable`.
    pub open spec fn open_at(self, traversable: Set<ZoneType>) -> spec_fn(int, int) -> bool {
        |x: int, y: int| traversable.contains(self.category_at(x, y))
    }

    /// Whether the plan is whole: one category for each cell, the two
    /// special places on the grid and apart, the spawn its one sanctuary
    /// and the portal its one boss entry.
    pub open spec fn well_formed(self) -> bool {
        &&& self.categories.len() == self.width * self.height
        &&& self.spawn.0 < self.width
        &&& self.spawn.1 < self.height
        &&& self.portal.0 < self.width
        &&& self.portal.1 < self.height
        &&& self.spawn != self.portal
        &&& forall|i: int|
            0 <= i < self.categories.len() ==> (#[trigger] self.categories[i] == ZoneType::Sanctuary
                <==> i == flat(self.spawn.0 as int, self.spawn.1 as int, self.width))
        &&& forall|i: int|
            0 <= i < self.categories.len() ==> (#[trigger] self.categories[i] == ZoneType::BossEntry
                <==> i == flat(self.portal.0 as int, self.portal.1 as int, self.width))
    }
}

/// The width that an attempt draws: the first word decides.
pub open spec fn drawn_width(config: Config, words: Seq<u64>) -> nat {
    drawn_between(config.min_width as nat, config.max_width as nat, word_at(words, 0))
}

/// The height that an attempt draws: the second word decides.
pub open spec fn drawn_height(config: Config, words: Seq<u64>) -> nat {
    drawn_between(config.min_height as nat, config.max_height as nat, word_at(words, 1))
}

/// The place of the spawn: the fixed one, or the one that the third word
/// picks among all cells but a fixed portal.
pub open spec fn drawn_spawn(config: Config, words: Seq<u64>) -> nat {
    let w = drawn_width(config, words);
    let h = drawn_height(config, words);
    match config.spawn {
        Some(s) => flat(s.0 as int, s.1 as int, w) as nat,
        None => drawn_place(
            w * h,
            match config.boss_portal {
                Some(p) => Some(flat(p.0 as int, p.1 as int, w) as nat),
                None => None,
            },
            word_at(words, 2),
        ),
    }
}

/// The place of the portal: the fixed one, or the one that the fourth
/// word picks among all cells but the spawn.
pub open spec fn drawn_portal(config: Config, words: Seq<u64>) -> nat {
    let w = drawn_width(config, words);
    let h = drawn_height(config, words);
    match config.boss_portal {
        Some(p) => flat(p.0 as int, p.1 as int, w) as nat,
        None => drawn_place(w * h, Some(drawn_spawn(config, words)), word_at(words, 3)),
    }
}

/// What the cell at place `i` may be before solving begins: the spawn only
/// a sanctuary, the portal only a boss entry, every other cell anything
/// but these two.
pub open spec fn seeded_cell(i: int, spawn: nat, portal: nat) -> CellState {
    if i == spawn {
        CellState::Unresolved(set![ZoneType::Sanctuary])
    } else if i == portal {
        CellState::Unresolved(set![ZoneType::BossEntry])
    } else {
        CellState::Unresolved(
            Set::<ZoneType>::full().remove(ZoneType::Sanctuary).remove(ZoneType::BossEntry),
        )
    }
}

/// The grid of an attempt before solving begins.
pub open spec fn seeded_grid(config: Config, words: Seq<u64>) -> GridState {
    let w = drawn_width(config, words);
    let h = drawn_height(config, words);
    GridState {
        width: w,
        height: h,
        cells: Seq::new(
            w * h,
            |i: int| seeded_cell(i, drawn_spawn(config, words), drawn_portal(config, words)),
        ),
    }
}

/// What an attempt plans with the given words: the solver is run on the
/// seeded grid with the words from the fifth on. `None` stands for a
/// contradiction.
pub open spec fn plan_of(
    config: Config,
    table: Map<(ZoneType, Direction), Set<ZoneType>>,
    words: Seq<u64>,
) -> Option<Plan> {
    let w = drawn_width(config, words);
    let spawn = drawn_spawn(config, words);
    let portal = drawn_portal(config, words);
    match run_of(table, seeded_grid(config, words), words, 4) {
        None => None,
        Some(grid) => Some(
            Plan {
                width: w,
                height: drawn_height(config, words),
                spawn: ((spawn as int % (w as int)) as nat, (spawn as int / (w as int)) as nat),
                portal: ((portal as int % (w as int)) as nat, (portal as int / (w as int)) as nat),
                categories: Seq::new(grid.cells.len(), |i: int| grid.cells[i]->Resolved_0),
            },
        ),
    }
}

/// The size and the two special places of a valid configuration are as a
/// level needs them: the size within the bounds, the places on the grid
/// and apart.
pub proof fn lemma_draws(config: Config, words: Seq<u64>)
    requires
        config.valid(),
    ensures
        config.min_width <= drawn_width(config, words) <= config.max_width,
        config.min_height <= drawn_height(config, words) <= config.max_height,
        2 <= drawn_width(config, words) * drawn_height(config, words) <= config.max_width
            * config.max_height,
        drawn_spawn(config, words) < drawn_width(config, words) * drawn_height(config, words),
        drawn_portal(config, words) < drawn_width(config, words) * drawn_height(config, words),
        drawn_spawn(config, words) != drawn_portal(config, words),
{
    let w = drawn_width(config, words);
    let h = drawn_height(config, words);
    assert(config.min_width * config.min_height <= w * h) by (nonlinear_arith)
        requires
            config.min_width <= w,
            config.min_height <= h,
    ;
    assert(w * h <= config.max_width * config.max_height) by (nonlinear_arith)
        requires
            w <= config.max_width,
            h <= config.max_height,
    ;
    if let Some(s) = config.spawn {
        lemma_flat_bounds(s.0 as int, s.1 as int, w, h);
    }
    if let Some(p) = config.boss_portal {
        lemma_flat_bounds(p.0 as int, p.1 as int, w, h);
    }
    if let Some(s) = config.spawn {
        if let Some(p) = config.boss_portal {
            if flat(s.0 as int, s.1 as int, w) == flat(p.0 as int, p.1 as int, w) {
                lemma_flat_unique(s.0 as int, s.1 as int, p.0 as int, p.1 as int, w);
            }
        }
    }
}

/// A configuration whose smallest grid is a single cell is not valid: the
/// spawn and the portal would have to share the cell.
pub proof fn lemma_single_cell_is_refused(config: Config)
    requires
        config.min_width == 1,
        config.min_height == 1,
    ensures
        !config.valid(),
{
}

/// Generation is determined by the configuration, the rules and the
/// categories that may be passed: with the same seed and the same bounds
/// the same sizes are drawn, the same cells collapsed in the same order,
/// and the same plan made or the same failure met.
pub proof fn lemma_generation_is_determined(
    one: Config,
    other: Config,
    table: Map<(ZoneType, Direction), Set<ZoneType>>,
    traversable: Set<ZoneType>,
    k: nat,
)
    requires
        one == other,
    ensures
        attempt_words(one, k) == attempt_words(other, k),
        plan_of(one, table, attempt_words(one, k)) == plan_of(other, table, attempt_words(other, k)),
        generate_of(one, table, traversable) == generate_of(other, table, traversable),
{
}

/// A number between `lo` and `hi`, both included, as `word` picks it.
fn draw_between(lo: usize, hi: usize, word: u64) -> (r: usize)
    requires
        lo <= hi,
        hi < usize::MAX,
    ensures
        r == drawn_between(lo as nat, hi as nat, word),
        lo <= r <= hi,
{
    let span = hi - lo + 1;
    lo + (word % (span as u64)) as usize
}

/// One of `cells` places as `word` picks it; where a place is to be
/// avoided, one of the others.
fn draw_place(cells: usize, avoid: Option<usize>, word: u64) -> (r: usize)
    requires
        cells >= 2,
        avoid matches Some(a) ==> a < cells,
    ensures
        r == drawn_place(
            cells as nat,
            match avoid {
                Some(a) => Some(a as nat),
                None => None,
            },
            word,
        ),
        r < cells,
        avoid matches Some(a) ==> r != a,
{
    match avoid {
        None => (word % (cells as u64)) as usize,
        Some(taken) => {
            let p = (word % ((cells - 1) as u64)) as usize;
            if p >= taken {
                p + 1
            } else {
                p
            }
        },
    }
}

/// What one attempt planned: the size, the two special places, and the
/// category of each cell, row by row.
#[derive(Debug, PartialEq, Eq)]
pub struct Layout {
    pub width: usize,
    pub height: usize,
    pub spawn: (usize, usize),
    pub boss_portal: (usize, usize),
    pub categories: Vec<ZoneType>,
}

impl View for Layout {
    type V = Plan;

    open spec fn view(&self) -> Plan {
        Plan {
            width: self.width as nat,
            height: self.height as nat,
            spawn: (self.spawn.0 as nat, self.spawn.1 as nat),
            portal: (self.boss_portal.0 as nat, self.boss_portal.1 as nat),
            categories: self.categories@,
        }
    }
}

/// Why one attempt gave no level.
#[derive(Debug, Clone, Copy, PartialEq, Eq, Structural)]
pub enum AttemptError {
    /// The configuration cannot be worked with.
    InvalidConfiguration,
    /// The solver left some cell without a candidate.
    Contradiction,
    /// The portal cannot be reached from the spawn.
    Unreachable,
}

/// The builder of levels: the rules that the solver goes by and the check
/// that a level must pass.
#[derive(Debug, Clone, Copy)]
pub struct LevelBuilder {
    rules: AdjacencyRuleSet,
    validator: ReachabilityValidator,
}

impl LevelBuilder {
    /// The rules that the solver goes by.
    pub closed spec fn table(&self) -> Map<(ZoneType, Direction), Set<ZoneType>> {
        self.rules@
    }

    /// The categories that the reachability check may pass.
    pub closed spec fn traversable(&self) -> Set<ZoneType> {
        self.validator.traversable()
    }

    /// A builder that goes by the standard rules and passes every category
    /// but `Wall`. The standard rules hold what was declared and nothing
    /// for the facing side, so that an attempt ends in a contradiction
    /// wherever a cell is collapsed to a category that its neighbour was
    /// not declared to admit. Rules in which every declaration is made for
    /// the facing side too, as `allow_both_ways` registers them, leave
    /// fewer such categories.
    pub fn new() -> (builder: LevelBuilder)
        ensures
            builder.table() == standard_table(),
            builder.traversable() == Set::<ZoneType>::full().remove(ZoneType::Wall),
    {
        LevelBuilder { rules: AdjacencyRuleSet::standard(), validator: ReachabilityValidator::standard() }
    }

    /// A builder that goes by `rules` and checks with `validator`.
    pub fn with(rules: AdjacencyRuleSet, validator: ReachabilityValidator) -> (builder: LevelBuilder)
        ensures
            builder.table() == rules@,
            builder.traversable() == validator.traversable(),
    {
        LevelBuilder { rules, validator }
    }

    /// Plans one attempt with the given random words: draws the size and
    /// the two special places, seeds the grid, and runs the solver.
    pub fn plan(&self, config: &Config, words: &Vec<u64>) -> (r: Result<Layout, AttemptError>)
        ensures
            !config.valid() ==> r == Err::<Layout, AttemptError>(AttemptError::InvalidConfiguration),
            config.valid() ==> match plan_of(*config, self.table(), words@) {
                None => r == Err::<Layout, AttemptError>(AttemptError::Contradiction),
                Some(p) => r is Ok && r->Ok_0@ == p,
            },
            r is Ok ==> r->Ok_0@.well_formed() && consistent(self.table(), r->Ok_0@.as_grid()),
    {
        if !config.is_valid() {
            return Err(AttemptError::InvalidConfiguration);
        }
        proof {
            lemma_draws(*config, words@);
            assert(config.max_width < usize::MAX && config.max_height < usize::MAX) by (nonlinear_arith)
                requires
                    4 * config.max_width * config.max_height + 4 <= isize::MAX,
                    config.max_width >= 1,
                    config.max_height >= 1,
            ;
        }
        let width = draw_between(config.min_width, config.max_width, word(words, 0, 0));
        let height = draw_between(config.min_height, config.max_height, word(words, 1, 0));
        let ghost w = width as nat;
        let ghost h = height as nat;
        proof {
            assert(4 * (config.max_width * config.max_height) + 4 <= isize::MAX) by (nonlinear_arith)
                requires
                    4 * config.max_width * config.max_height + 4 <= isize::MAX,
            ;
            assert(4 * width * height <= 4 * (config.max_width * config.max_height)) by (nonlinear_arith)
                requires
                    width <= config.max_width,
                    height <= config.max_height,
            ;
            assert(width <= 4 * width * height && height <= 4 * width * height) by (nonlinear_arith)
                requires
                    width >= 1,
                    height >= 1,
            ;
        }
        let cells = width * height;
        let spawn = match config.spawn {
            Some(s) => {
                s.1 * width + s.0
            },
            None => {
                let avoid = match config.boss_portal {
                    Some(p) => {
                        Some(p.1 * width + p.0)
                    },
                    None => None,
                };
                draw_place(cells, avoid, word(words, 2, 0))
            },
        };
        let portal = match config.boss_portal {
            Some(p) => {
                p.1 * width + p.0
            },
            None => draw_place(cells, Some(spawn), word(words, 3, 0)),
        };
        let mut solver = GridSolver::initialize(self.rules, width, height);
        let ordinary = CategorySet::all().without(ZoneType::Sanctuary).without(ZoneType::BossEntry);
        let mut i: usize = 0;
        while i < cells
            invariant
                cells == width * height,
                w == width,
                h == height,
                i <= cells,
                spawn != portal,
                solver.well_formed(),
                !solver.contradicted(),
                solver.table() == self.rules@,
                solver@.width == w,
                solver@.height == h,
                solver@.cells.len() == cells,
                ordinary@ == Set::<ZoneType>::full().remove(ZoneType::Sanctuary).remove(
                    ZoneType::BossEntry,
                ),
                forall|j: int|
                    0 <= j < i ==> #[trigger] solver@.cells[j] == seeded_cell(j, spawn as nat, portal as nat),
                forall|j: int|
                    i <= j < cells ==> #[trigger] solver@.cells[j] == CellState::Unresolved(
                        Set::<ZoneType>::full(),
                    ),
            decreases cells - i,
        {
            proof {
                lemma_flat_split(i as int, w, h);
            }
            let allowed = if i == spawn {
                CategorySet::only(ZoneType::Sanctuary)
            } else if i == portal {
                CategorySet::only(ZoneType::BossEntry)
            } else {
                ordinary
            };
            solver.restrict(i % width, i / width, allowed);
            proof {
                let left = Set::<ZoneType>::full().intersect(allowed@);
                assert(left =~= allowed@);
                if i == spawn {
                    assert(left.contains(ZoneType::Sanctuary));
                } else if i != portal {
                    assert(left.contains(ZoneType::Wall));
                }
            }
            i = i + 1;
        }
        proof {
            assert(solver@ =~= seeded_grid(*config, words@));
        }
        let ghost seeded = solver@;
        match solver.run(words, 4) {
            Err(_) => Err(AttemptError::Contradiction),
            Ok(grid) => {
                let mut categories: Vec<ZoneType> = Vec::new();
                let mut k: usize = 0;
                while k < cells
                    invariant
                        grid.well_formed(),
                        grid@.fully_resolved(),
                        grid@.cells.len() == cells,
                        k <= cells,
                        categories@.len() == k,
                        forall|j: int| 0 <= j < k ==> #[trigger] categories@[j] == grid@.cells[j]->Resolved_0,
                    decreases cells - k,
                {
                    let c = match grid.at_place(k) {
                        Cell::Resolved(c) => c,
                        // A finished grid has no open cell.
                        Cell::Unresolved(_) => ZoneType::Wall,
                    };
                    categories.push(c);
                    k = k + 1;
                }
                proof {
                    lemma_flat_split(spawn as int, w, h);
                    lemma_flat_split(portal as int, w, h);
                }
                let layout = Layout {
                    width,
                    height,
                    spawn: (spawn % width, spawn / width),
                    boss_portal: (portal % width, portal / width),
                    categories,
                };
                proof {
                    let p = plan_of(*config, self.table(), words@)->0;
                    assert(layout@.categories =~= p.categories);
                    assert(layout@.as_grid() =~= grid@);
                    assert forall|j: int| 0 <= j < cells implies (#[trigger] layout@.categories[j]
                        == ZoneType::Sanctuary <==> j == spawn) && (layout@.categories[j]
                        == ZoneType::BossEntry <==> j == portal) by {
                        assert(grid@.domains()[j].subset_of(seeded.domains()[j]));
                        assert(grid@.domains()[j].contains(layout@.categories[j]));
                    }
                }
                Ok(layout)
            },
        }
    }
}

/// Why no level could be generated within the attempts allowed: what the
/// last attempt failed on.
#[derive(Debug, Clone, Copy, PartialEq, Eq, Structural)]
pub enum FailureCause {
    /// The solver ran into a contradiction.
    ContradictionExhausted,
    /// The portal could not be reached from the spawn.
    Unreachable,
}

/// Why `build` gave no level.
#[derive(Debug, Clone, Copy, PartialEq, Eq, Structural)]
pub enum GenerationError {
    /// The configuration cannot be worked with. No attempt was made.
    InvalidConfiguration,
    /// Every attempt allowed was made, and the last failed on `cause`.
    GenerationFailed { cause: FailureCause },
}

/// How an attempt ended, as far as the course of generation goes by it.
#[derive(Debug, Clone, Copy, PartialEq, Eq, Structural)]
pub enum Verdict {
    /// The grid was solved and the portal can be reached.
    Reachable,
    /// The solver ran into a contradiction.
    Contradiction,
    /// The grid was solved, but the portal cannot be reached.
    Unreachable,
}

/// Where generation stands.
#[derive(Debug, Clone, Copy, PartialEq, Eq, Structural)]
pub enum Pipeline {
    /// Nothing has been tried yet.
    Idle,
    /// The attempt with this number, counted from one, is under way.
    Generating { attempt: u32 },
    /// An attempt gave a level. The state is final.
    Done,
    /// Every attempt allowed has failed, the last on `cause`. The state is
    /// final.
    Failed { cause: FailureCause },
}

impl Pipeline {
    /// The state that follows when the attempt under way ends with
    /// `verdict` and `max_attempts` attempts are allowed: done on a level;
    /// on a failure the next attempt, or failed for good when that would
    /// be one more than allowed. Where no attempt is under way nothing
    /// follows.
    pub open spec fn after(self, verdict: Verdict, max_attempts: u32) -> Pipeline {
        match self {
            Pipeline::Generating { attempt } => match verdict {
                Verdict::Reachable => Pipeline::Done,
                Verdict::Contradiction => if attempt >= max_attempts {
                    Pipeline::Failed { cause: FailureCause::ContradictionExhausted }
                } else {
                    Pipeline::Generating { attempt: (attempt + 1) as u32 }
                },
                Verdict::Unreachable => if attempt >= max_attempts {
                    Pipeline::Failed { cause: FailureCause::Unreachable }
                } else {
                    Pipeline::Generating { attempt: (attempt + 1) as u32 }
                },
            },
            _ => self,
        }
    }

    /// Begins generation: from idle, the first attempt is under way. Any
    /// other state stays as it is.
    pub fn begin(self) -> (next: Pipeline)
        ensures
            next == (match self {
                Pipeline::Idle => Pipeline::Generating { attempt: 1 },
                _ => self,
            }),
    {
        match self {
            Pipeline::Idle => Pipeline::Generating { attempt: 1 },
            _ => self,
        }
    }

    /// The state that follows when the attempt under way ends with
    /// `verdict`.
    pub fn advance(self, verdict: Verdict, max_attempts: u32) -> (next: Pipeline)
        ensures
            next == self.after(verdict, max_attempts),
    {
        match self {
            Pipeline::Generating { attempt } => match verdict {
                Verdict::Reachable => Pipeline::Done,
                Verdict::Contradiction => if attempt >= max_attempts {
                    Pipeline::Failed { cause: FailureCause::ContradictionExhausted }
                } else {
                    Pipeline::Generating { attempt: attempt + 1 }
                },
                Verdict::Unreachable => if attempt >= max_attempts {
                    Pipeline::Failed { cause: FailureCause::Unreachable }
                } else {
                    Pipeline::Generating { attempt: attempt + 1 }
                },
            },
            _ => self,
        }
    }
}

/// How one attempt ends.
pub enum Attempt {
    /// The plan is solved and the portal can be reached.
    Done(Plan),
    /// The solver left some cell without a candidate.
    Contradiction,
    /// The plan is solved, but the portal cannot be reached.
    Unreachable,
}

/// Whether the portal of `plan` can be reached from its spawn through the
/// categories of `traversable`.
pub open spec fn plan_reachable(plan: Plan, traversable: Set<ZoneType>) -> bool {
    connected(
        plan.open_at(traversable),
        plan.width,
        plan.height,
        (plan.spawn.0 as int, plan.spawn.1 as int),
        (plan.portal.0 as int, plan.portal.1 as int),
    )
}

/// How an attempt with the given words ends.
pub open spec fn attempt_of(
    config: Config,
    table: Map<(ZoneType, Direction), Set<ZoneType>>,
    traversable: Set<ZoneType>,
    words: Seq<u64>,
) -> Attempt {
    match plan_of(config, table, words) {
        None => Attempt::Contradiction,
        Some(plan) => if plan_reachable(plan, traversable) {
            Attempt::Done(plan)
        } else {
            Attempt::Unreachable
        },
    }
}

/// The words with which the standard generator of the `rand` crate, seeded
/// with `seed`, fills a slice of `count` words.
pub uninterp spec fn seeded_words(seed: u64, count: nat) -> Seq<u64>;

/// The words that attempt number `k` is given, counting from zero: those of
/// the generator seeded with the seed of the configuration plus `k`, the
/// sum wrapping round at the largest seed.
pub open spec fn attempt_words(config: Config, k: nat) -> Seq<u64> {
    seeded_words(
        config.seed.wrapping_add(k as u64),
        words_for(config.max_width as nat, config.max_height as nat),
    )
}

/// How a generation ends.
pub enum Generated {
    /// An attempt was done: its plan.
    Level(Plan),
    /// Every attempt allowed failed, the last on this.
    Failed(FailureCause),
}

/// How a generation ends that has made `k` attempts in vain, the last of
/// which failed on `last`: attempts are made until one is done or the
/// number allowed is reached.
pub open spec fn generate_from(
    config: Config,
    table: Map<(ZoneType, Direction), Set<ZoneType>>,
    traversable: Set<ZoneType>,
    k: nat,
    last: FailureCause,
) -> Generated
    decreases config.max_attempts - k,
{
    if k >= config.max_attempts {
        Generated::Failed(last)
    } else {
        match attempt_of(config, table, traversable, attempt_words(config, k)) {
            Attempt::Done(plan) => Generated::Level(plan),
            Attempt::Contradiction => generate_from(
                config,
                table,
                traversable,
                k + 1,
                FailureCause::ContradictionExhausted,
            ),
            Attempt::Unreachable => generate_from(
                config,
                table,
                traversable,
                k + 1,
                FailureCause::Unreachable,
            ),
        }
    }
}

/// How a generation ends. With a valid configuration at least one attempt
/// is made, so that a failure has a cause.
pub open spec fn generate_of(
    config: Config,
    table: Map<(ZoneType, Direction), Set<ZoneType>>,
    traversable: Set<ZoneType>,
) -> Generated {
    generate_from(config, table, traversable, 0, FailureCause::ContradictionExhausted)
}

/// Every plan that generation gives has its portal within reach of its
/// spawn, whatever number of attempts went before.
pub proof fn lemma_generated_is_reachable(
    config: Config,
    table: Map<(ZoneType, Direction), Set<ZoneType>>,
    traversable: Set<ZoneType>,
    k: nat,
    last: FailureCause,
)
    ensures
        generate_from(config, table, traversable, k, last) matches Generated::Level(plan)
            ==> plan_reachable(plan, traversable),
    decreases config.max_attempts - k,
{
    if k < config.max_attempts {
        match attempt_of(config, table, traversable, attempt_words(config, k)) {
            Attempt::Done(plan) => {},
            Attempt::Contradiction => {
                lemma_generated_is_reachable(
                    config,
                    table,
                    traversable,
                    k + 1,
                    FailureCause::ContradictionExhausted,
                );
            },
            Attempt::Unreachable => {
                lemma_generated_is_reachable(
                    config,
                    table,
                    traversable,
                    k + 1,
                    FailureCause::Unreachable,
                );
            },
        }
    }
}

/// Generation fails only after as many attempts as are allowed, each of
/// which failed, and with the cause that the last of them failed on.
pub proof fn lemma_failure_has_used_every_attempt(
    config: Config,
    table: Map<(ZoneType, Direction), Set<ZoneType>>,
    traversable: Set<ZoneType>,
    k: nat,
    last: FailureCause,
)
    requires
        k <= config.max_attempts,
        generate_from(config, table, traversable, k, last) is Failed,
    ensures
        forall|j: nat|
            k <= j < config.max_attempts ==> !(#[trigger] attempt_of(
                config,
                table,
                traversable,
                attempt_words(config, j),
            ) is Done),
        k < config.max_attempts ==> generate_from(config, table, traversable, k, last)->Failed_0 == (
        match attempt_of(
            config,
            table,
            traversable,
            attempt_words(config, (config.max_attempts - 1) as nat),
        ) {
            Attempt::Unreachable => FailureCause::Unreachable,
            _ => FailureCause::ContradictionExhausted,
        }),
    decreases config.max_attempts - k,
{
    if k < config.max_attempts {
        match attempt_of(config, table, traversable, attempt_words(config, k)) {
            Attempt::Done(plan) => {},
            Attempt::Contradiction => {
                lemma_failure_has_used_every_attempt(
                    config,
                    table,
                    traversable,
                    k + 1,
                    FailureCause::ContradictionExhausted,
                );
            },
            Attempt::Unreachable => {
                lemma_failure_has_used_every_attempt(
                    config,
                    table,
                    traversable,
                    k + 1,
                    FailureCause::Unreachable,
                );
            },
        }
    }
}

/// Draws `count` words from the standard generator of the `rand` crate:
/// `StdRng::seed_from_u64` makes the generator from `seed`, and `Rng::fill`
/// fills a slice of `count` words from it. The generator is an algorithm
/// without any state but its seed, so that the words depend on `seed` and
/// `count` alone; they are given the name `seeded_words`, and nothing else
/// is claimed of them.
#[verifier::external_body]
fn draw_words(seed: u64, count: usize) -> (words: Vec<u64>)
    ensures
        words@ == seeded_words(seed, count as nat),
{
    let mut words = vec![0u64; count];
    StdRng::seed_from_u64(seed).fill(&mut words[..]);
    words
}

/// Whether `zone` is what the content factory made for `category` in
/// `biome`, with its category set to `category`.
pub open spec fn made_by<CF: Fn(ZoneType, Biome) -> Zone>(
    content: &CF,
    category: ZoneType,
    biome: Biome,
    zone: Zone,
) -> bool {
    exists|made: Zone| #[trigger]
        content.ensures((category, biome), made) && zone == (Zone {
            name: made.name,
            welcome: made.welcome,
            desc: made.desc,
            feild_type: category,
            enemies: made.enemies,
            loot: made.loot,
        })
}

/// Whether `level` realizes `plan` in `biome`: it has the size and the two
/// places of the plan, and each of its zones is what the content factory
/// made for the category that the plan gives the cell.
pub open spec fn furnished<B, CF: Fn(ZoneType, Biome) -> Zone>(
    level: &Level<B>,
    plan: Plan,
    biome: Biome,
    content: &CF,
) -> bool {
    &&& level.shaped()
    &&& level.dim.0 == plan.width
    &&& level.dim.1 == plan.height
    &&& level.warp_in.0 == plan.spawn.0
    &&& level.warp_in.1 == plan.spawn.1
    &&& level.boss_portal.0 == plan.portal.0
    &&& level.boss_portal.1 == plan.portal.1
    &&& level.biome == biome
    &&& forall|x: int, y: int|
        0 <= x < plan.width && 0 <= y < plan.height ==> made_by(
            content,
            plan.category_at(x, y),
            biome,
            #[trigger] level.zones@[y]@[x],
        )
}

/// Two levels that realize the same plan with a content factory that
/// makes one zone only for each category and biome are the same zone by
/// zone, and have the same size, the same places and the same biome.
pub proof fn lemma_same_plan_same_level<B, CF: Fn(ZoneType, Biome) -> Zone>(
    one: &Level<B>,
    other: &Level<B>,
    plan: Plan,
    biome: Biome,
    content: &CF,
)
    requires
        furnished(one, plan, biome, content),
        furnished(other, plan, biome, content),
        forall|c: ZoneType, b: Biome, first: Zone, second: Zone|
            content.ensures((c, b), first) && content.ensures((c, b), second) ==> first == second,
    ensures
        one.dim == other.dim,
        one.warp_in == other.warp_in,
        one.boss_portal == other.boss_portal,
        one.biome == other.biome,
        one.zones@.len() == other.zones@.len(),
        forall|x: int, y: int|
            0 <= x < plan.width && 0 <= y < plan.height ==> #[trigger] one.zones@[y]@[x]
                == other.zones@[y]@[x],
{
}

/// A level that realizes a whole plan whose grid is consistent with the
/// rules is consistent with them too: every zone admits, on each side, the
/// category of its neighbour there.
pub proof fn lemma_furnished_is_consistent<B, CF: Fn(ZoneType, Biome) -> Zone>(
    level: &Level<B>,
    plan: Plan,
    biome: Biome,
    content: &CF,
    table: Map<(ZoneType, Direction), Set<ZoneType>>,
)
    requires
        furnished(level, plan, biome, content),
        plan.well_formed(),
        consistent(table, plan.as_grid()),
    ensures
        level.consistent_with(table),
{
    let g = plan.as_grid();
    assert forall|x: int, y: int, d: Direction|
        0 <= x < level.dim.0 && 0 <= y < level.dim.1 implies #[trigger] level.side_agrees(table, x, y, d) by {
        let n = crate::grid::beside(x, y, d);
        lemma_flat_bounds(x, y, plan.width, plan.height);
        assert(made_by(content, plan.category_at(x, y), biome, level.zones@[y]@[x]));
        assert(agrees(table, g, x, y, d));
        if 0 <= n.0 < level.dim.0 && 0 <= n.1 < level.dim.1 {
            lemma_flat_bounds(n.0, n.1, plan.width, plan.height);
            assert(made_by(content, plan.category_at(n.0, n.1), biome, level.zones@[n.1]@[n.0]));
        }
    }
}

/// Whether `room` is the boss room of a level in `biome` as it is first
/// made: with the standard texts and without minions.
pub open spec fn standard_room<B>(room: &BossRoom<B>, biome: Biome) -> bool {
    &&& room.name@ == lair_name(biome)
    &&& room.welcome@
        == "This battle may be your last, can you slay the final boss of this zone, and leave here with life and limb?"@
    &&& room.desc@ == lair_desc(biome)
    &&& room.minions is None
}

/// Makes the level that `layout` plans: one zone from the content factory
/// for each cell, with the category of the cell, and an empty boss room.
fn realize<B, CF: Fn(ZoneType, Biome) -> Zone>(layout: &Layout, biome: Biome, content: &CF) -> (level:
    Level<B>)
    requires
        layout@.well_formed(),
        forall|c: ZoneType, b: Biome| content.requires((c, b)),
    ensures
        furnished(&level, layout@, biome, content),
        standard_room(&level.boss_room, biome),
        level.boss_room.boss is None,
        level.well_formed(),
{
    let width = layout.width;
    let height = layout.height;
    let ghost w = width as nat;
    let ghost h = height as nat;
    let ghost plan = layout@;
    assert(layout.categories.len() <= usize::MAX);
    let mut zones: Vec<Vec<Zone>> = Vec::new();
    let mut y: usize = 0;
    while y < height
        invariant
            plan == layout@,
            plan.categories.len() == w * h,
            w * h <= usize::MAX,
            width == layout.width,
            height == layout.height,
            w == width,
            h == height,
            y <= height,
            zones@.len() == y,
            forall|c: ZoneType, b: Biome| content.requires((c, b)),
            forall|j: int| 0 <= j < y ==> (#[trigger] zones@[j])@.len() == width,
            forall|ox: int, oy: int|
                0 <= ox < w && 0 <= oy < y ==> made_by(
                    content,
                    plan.category_at(ox, oy),
                    biome,
                    #[trigger] zones@[oy]@[ox],
                ) && zones@[oy]@[ox].feild_type == plan.category_at(ox, oy),
        decreases height - y,
    {
        let mut row: Vec<Zone> = Vec::new();
        let mut x: usize = 0;
        while x < width
            invariant
                plan == layout@,
                plan.categories.len() == w * h,
                w * h <= usize::MAX,
                width == layout.width,
                height == layout.height,
                w == width,
                h == height,
                y < height,
                x <= width,
                row@.len() == x,
                forall|c: ZoneType, b: Biome| content.requires((c, b)),
                forall|ox: int|
                    0 <= ox < x ==> made_by(
                        content,
                        plan.category_at(ox, y as int),
                        biome,
                        #[trigger] row@[ox],
                    ) && row@[ox].feild_type == plan.category_at(ox, y as int),
            decreases width - x,
        {
            proof {
                lemma_flat_bounds(x as int, y as int, w, h);
            }
            let category = layout.categories[y * width + x];
            let made = content(category, biome);
            let mut zone = made;
            zone.feild_type(category);
            row.push(zone);
            x = x + 1;
        }
        zones.push(row);
        y = y + 1;
    }
    let level = Level {
        zones,
        dim: (width, height),
        warp_in: layout.spawn,
        boss_portal: layout.boss_portal,
        boss_room: BossRoom::new(biome, None),
        biome,
    };
    proof {
        assert forall|ox: int, oy: int| 0 <= ox < level.dim.0 && 0 <= oy < level.dim.1 implies ((
        #[trigger] level.category_at(ox, oy)) == ZoneType::Sanctuary <==> (ox, oy) == (
            level.warp_in.0 as int,
            level.warp_in.1 as int,
        )) && (level.category_at(ox, oy) == ZoneType::BossEntry <==> (ox, oy) == (
            level.boss_portal.0 as int,
            level.boss_portal.1 as int,
        )) by {
            lemma_flat_bounds(ox, oy, w, h);
            let i = flat(ox, oy, w);
            if i == flat(plan.spawn.0 as int, plan.spawn.1 as int, w) {
                lemma_flat_unique(ox, oy, plan.spawn.0 as int, plan.spawn.1 as int, w);
            }
            if i == flat(plan.portal.0 as int, plan.portal.1 as int, w) {
                lemma_flat_unique(ox, oy, plan.portal.0 as int, plan.portal.1 as int, w);
            }
        }
    }
    level
}

impl LevelBuilder {
    /// Whether the portal of `level` can be reached from its spawn through
    /// the categories that the builder's check passes.
    pub open spec fn reachable<B>(&self, level: &Level<B>) -> bool {
        &&& level.shaped()
        &&& level.dim.0 * level.dim.1 <= usize::MAX
        &&& connected(
            level.open_at(self.traversable()),
            level.dim.0 as nat,
            level.dim.1 as nat,
            (level.warp_in.0 as int, level.warp_in.1 as int),
            (level.boss_portal.0 as int, level.boss_portal.1 as int),
        )
    }

    /// Makes one attempt with the given random words: plans a layout, makes
    /// its zones with the content factory, and checks that the portal can
    /// be reached from the spawn. The level that it gives has an empty
    /// boss room.
    pub fn attempt<B, CF: Fn(ZoneType, Biome) -> Zone>(
        &self,
        config: &Config,
        words: &Vec<u64>,
        biome: Biome,
        content: &CF,
    ) -> (r: Result<Level<B>, AttemptError>)
        requires
            forall|c: ZoneType, b: Biome| content.requires((c, b)),
        ensures
            !config.valid() ==> r == Err::<Level<B>, AttemptError>(AttemptError::InvalidConfiguration),
            config.valid() ==> match attempt_of(*config, self.table(), self.traversable(), words@) {
                Attempt::Contradiction => r == Err::<Level<B>, AttemptError>(AttemptError::Contradiction),
                Attempt::Unreachable => r == Err::<Level<B>, AttemptError>(AttemptError::Unreachable),
                Attempt::Done(plan) => r is Ok && furnished(&r->Ok_0, plan, biome, content)
                    && plan.well_formed() && consistent(self.table(), plan.as_grid()),
            },
            r is Ok ==> r->Ok_0.well_formed() && r->Ok_0.consistent_with(self.table())
                && self.reachable(&r->Ok_0) && standard_room(
                &r->Ok_0.boss_room,
                biome,
            ) && r->Ok_0.boss_room.boss is None,
    {
        let layout = match self.plan(config, words) {
            Err(e) => {
                return Err(e);
            },
            Ok(layout) => layout,
        };
        let level: Level<B> = realize(&layout, biome, content);
        let ghost plan = layout@;
        proof {
            let free = plan.open_at(self.traversable());
            let open = level.open_at(self.traversable());
            lemma_connected_agrees(
                open,
                free,
                plan.width,
                plan.height,
                (plan.spawn.0 as int, plan.spawn.1 as int),
                (plan.portal.0 as int, plan.portal.1 as int),
            );
            lemma_furnished_is_consistent(&level, plan, biome, content, self.table());
        }
        if self.validator.traverse(&level, level.warp_in, level.boss_portal) {
            Ok(level)
        } else {
            Err(AttemptError::Unreachable)
        }
    }

    /// Generates a level: makes attempts, each with fresh random words from
    /// the seed of the configuration, until one gives a level whose portal
    /// can be reached from its spawn, or the number of attempts allowed is
    /// used up. The boss of the level comes from the boss factory, its
    /// zones from the content factory. An invalid configuration is refused
    /// before any attempt.
    pub fn build<B, BF: Fn(Biome) -> B, CF: Fn(ZoneType, Biome) -> Zone>(
        &self,
        biome: Biome,
        boss_factory: BF,
        content_factory: CF,
        config: &Config,
    ) -> (r: Result<Level<B>, GenerationError>)
        requires
            boss_factory.requires((biome,)),
            forall|c: ZoneType, b: Biome| content_factory.requires((c, b)),
        ensures
            !config.valid() ==> r == Err::<Level<B>, GenerationError>(
                GenerationError::InvalidConfiguration,
            ),
            config.valid() ==> match generate_of(*config, self.table(), self.traversable()) {
                Generated::Failed(cause) => r == Err::<Level<B>, GenerationError>(
                    GenerationError::GenerationFailed { cause },
                ),
                Generated::Level(plan) => r is Ok && furnished(&r->Ok_0, plan, biome, &content_factory)
                    && plan.well_formed() && consistent(self.table(), plan.as_grid()),
            },
            r is Ok ==> r->Ok_0.well_formed() && r->Ok_0.consistent_with(self.table())
                && self.reachable(&r->Ok_0) && standard_room(
                &r->Ok_0.boss_room,
                biome,
            ) && r->Ok_0.boss_room.boss is Some && boss_factory.ensures(
                (biome,),
                r->Ok_0.boss_room.boss->0,
            ),
    {
        if !config.is_valid() {
            return Err(GenerationError::InvalidConfiguration);
        }
        proof {
            assert(2 * config.max_width * config.max_height == 2 * (config.max_width
                * config.max_height)) by (nonlinear_arith);
            assert(4 * config.max_width * config.max_height == 4 * (config.max_width
                * config.max_height)) by (nonlinear_arith);
        }
        let need = 2 * (config.max_width * config.max_height) + 4;
        let mut state = Pipeline::Idle.begin();
        let ghost mut last = FailureCause::ContradictionExhausted;
        loop
            invariant
                config.valid(),
                need == words_for(config.max_width as nat, config.max_height as nat),
                boss_factory.requires((biome,)),
                forall|c: ZoneType, b: Biome| content_factory.requires((c, b)),
                state matches Pipeline::Generating { attempt } && 1 <= attempt <= config.max_attempts,
                generate_of(*config, self.table(), self.traversable()) == generate_from(
                    *config,
                    self.table(),
                    self.traversable(),
                    (state->attempt - 1) as nat,
                    last,
                ),
            decreases config.max_attempts - state->attempt,
        {
            let attempt = match state {
                Pipeline::Generating { attempt } => attempt,
                // No other state comes round the loop.
                _ => 1,
            };
            let words = draw_words(config.seed.wrapping_add((attempt - 1) as u64), need);
            let made = self.attempt::<B, CF>(config, &words, biome, &content_factory);
            let verdict = match &made {
                Ok(_) => Verdict::Reachable,
                Err(AttemptError::Unreachable) => Verdict::Unreachable,
                Err(_) => Verdict::Contradiction,
            };
            state = state.advance(verdict, config.max_attempts);
            proof {
                let before = last;
                last =
                match verdict {
                    Verdict::Unreachable => FailureCause::Unreachable,
                    _ => FailureCause::ContradictionExhausted,
                };
                assert(words@ == attempt_words(*config, (attempt - 1) as nat));
                assert(made is Err ==> generate_from(
                    *config,
                    self.table(),
                    self.traversable(),
                    (attempt - 1) as nat,
                    before,
                ) == generate_from(*config, self.table(), self.traversable(), attempt as nat, last));
            }
            match state {
                Pipeline::Generating { attempt } => {},
                Pipeline::Failed { cause } => {
                    return Err(GenerationError::GenerationFailed { cause });
                },
                _ => {
                    match made {
                        Ok(level) => {
                            let ghost bare = level;
                            let mut level = level;
                            let boss = boss_factory(biome);
                            level.boss_room.set_boss(boss);
                            proof {
                                lemma_same_grid(
                                    &bare,
                                    &level,
                                    self.traversable(),
                                    (level.warp_in.0 as int, level.warp_in.1 as int),
                                    (level.boss_portal.0 as int, level.boss_portal.1 as int),
                                );
                            }
                            return Ok(level);
                        },
                        // The course is done only on a level.
                        Err(_) => {
                            return Err(GenerationError::InvalidConfiguration);
                        },
                    }
                },
            }
        }
    }
}

impl Config {
    /// The standard bounds: a width and a height between 20 and 29, five
    /// attempts, no fixed place, and the given seed.
    pub open spec fn standard_with(seed: u64) -> Config {
        Config {
            min_width: 20,
            max_width: 29,
            min_height: 20,
            max_height: 29,
            max_attempts: 5,
            seed,
            spawn: None,
            boss_portal: None,
        }
    }

    /// The standard bounds: a width and a height between 20 and 29, five
    /// attempts, no fixed place, and the given seed.
    pub fn standard(seed: u64) -> (config: Config)
        ensures
            config == Config::standard_with(seed),
            config.valid(),
    {
        Config {
            min_width: 20,
            max_width: 29,
            min_height: 20,
            max_height: 29,
            max_attempts: 5,
            seed,
            spawn: None,
            boss_portal: None,
        }
    }

    /// The standard bounds with a seed that the system's randomness gives.
    pub fn random() -> (config: Config)
        ensures
            config == Config::standard_with(config.seed),
            config.valid(),
    {
        Config::standard(fresh_word())
    }
}

} // verus!
