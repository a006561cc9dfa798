//! The constraint solver: collapse of one cell at a time, each followed by
//! propagation of the adjacency rules until nothing changes.

use vstd::prelude::*;
use crate::category::{ZoneType, lemma_category_set_len, lemma_member_at};
use crate::domain::CategorySet;
use crate::grid::{
    Cell, CellState, Grid, GridState, beside, flat, grid_fits, lemma_flat_bounds,
    lemma_flat_split, lemma_flat_unique,
};
use crate::rules::{AdjacencyRuleSet, Direction};
use crate::choice::{
    by_open, by_tie, chosen_category, chosen_place, collapsed, is_choice, is_tied,
    least_entropy, open_cells, ties, word_at, lemma_choice_unique, lemma_collapse_closes_one,
    lemma_least_entropy_unique,
};
use crate::tally::{tally, lemma_tally_bound, lemma_tally_ends, lemma_tally_step, lemma_tally_zero};
use crate::settle::{
    arc_holds, has_empty, narrowed_at, refines, settled, stable, stable_refinement, total,
    lemma_narrowing_keeps_arc, lemma_narrowing_keeps_refinements, lemma_narrowing_lowers_total,
    lemma_narrowing_makes_arc, lemma_narrowing_to_nothing, lemma_settled_is_above,
    lemma_settled_is_stable, lemma_settled_of_stable,
};

verus! {

/// Whether the place of cell `(x, y)` waits in `queue`.
pub open spec fn waits(queue: Seq<usize>, w: nat, x: int, y: int) -> bool {
    exists|k: int| 0 <= k < queue.len() && #[trigger] queue[k] == flat(x, y, w)
}

/// Narrows the neighbour of `(x, y)` on side `d` to what the candidates of
/// `(x, y)` admit there, and makes the neighbour wait if it lost a
/// candidate. Gives `false` when the neighbour is left without any.
fn revise(
    rules: &AdjacencyRuleSet,
    grid: &mut Grid,
    x: usize,
    y: usize,
    d: Direction,
    queue: &mut Vec<usize>,
    Ghost(start): Ghost<Seq<Set<ZoneType>>>,
) -> (ok: bool)
    requires
        old(grid).well_formed(),
        old(grid)@.contains(x as int, y as int),
        start.len() == old(grid)@.width * old(grid)@.height,
        !has_empty(old(grid)@.domains()),
        forall|inner: Seq<Set<ZoneType>>| #[trigger]
            stable_refinement(rules@, inner, start, old(grid)@.width, old(grid)@.height) ==> refines(
                inner,
                old(grid)@.domains(),
            ),
        forall|k: int| 0 <= k < old(queue)@.len() ==> old(queue)@[k] < old(grid)@.cells.len(),
    ensures
        final(grid).well_formed(),
        final(grid)@.width == old(grid)@.width,
        final(grid)@.height == old(grid)@.height,
        !ok ==> has_empty(settled(rules@, start, old(grid)@.width, old(grid)@.height)),
        ok ==> final(grid)@ == old(grid)@.narrowed(final(grid)@.domains()),
        ok ==> refines(final(grid)@.domains(), old(grid)@.domains()),
        ok ==> !has_empty(final(grid)@.domains()),
        ok ==> forall|inner: Seq<Set<ZoneType>>| #[trigger]
            stable_refinement(rules@, inner, start, old(grid)@.width, old(grid)@.height) ==> refines(
                inner,
                final(grid)@.domains(),
            ),
        ok ==> forall|k: int| 0 <= k < final(queue)@.len() ==> final(queue)@[k] < old(grid)@.cells.len(),
        ok ==> arc_holds(
            rules@,
            final(grid)@.domains(),
            old(grid)@.width,
            old(grid)@.height,
            x as int,
            y as int,
            d,
        ),
        ok ==> forall|ox: int, oy: int, od: Direction|
            old(grid)@.contains(ox, oy) && (waits(old(queue)@, old(grid)@.width, ox, oy) || arc_holds(
                rules@,
                old(grid)@.domains(),
                old(grid)@.width,
                old(grid)@.height,
                ox,
                oy,
                od,
            )) ==> waits(final(queue)@, old(grid)@.width, ox, oy) || #[trigger] arc_holds(
                rules@,
                final(grid)@.domains(),
                old(grid)@.width,
                old(grid)@.height,
                ox,
                oy,
                od,
            ),
        ok ==> (final(queue)@ == old(queue)@ && final(grid)@.domains() == old(grid)@.domains()) || (
        final(queue)@.len() == old(queue)@.len() + 1 && total(final(grid)@.domains()) < total(
            old(grid)@.domains(),
        )),
{
    let ghost w = grid@.width;
    let ghost h = grid@.height;
    let ghost before = grid@.domains();
    let ghost state = grid@;
    proof {
        grid.lemma_well_formed();
    }
    match grid.neighbor(x, y, d) {
        None => true,
        Some((nx, ny)) => {
            let from = grid.get(x, y).candidates();
            let cell = grid.get(nx, ny);
            let current = cell.candidates();
            let allowed = rules.query_any(from, d);
            let next = current.intersect(allowed);
            proof {
                lemma_flat_bounds(x as int, y as int, w, h);
                lemma_flat_bounds(nx as int, ny as int, w, h);
            }
            if next.same_as(&current) {
                true
            } else if next.is_empty() {
                proof {
                    lemma_narrowing_to_nothing(rules@, start, before, w, h, x as int, y as int, d);
                }
                false
            } else {
                match cell {
                    Cell::Resolved(c) => {
                        // A collapsed cell has one candidate: it keeps it
                        // or is left with none, and never gets here.
                        proof {
                            if next@.contains(c) {
                                assert(next@ =~= set![c]);
                            } else {
                                assert(next@ =~= Set::<ZoneType>::empty());
                            }
                            assert(false);
                        }
                        false
                    },
                    Cell::Unresolved(_) => {
                        let i = ny * grid.width() + nx;
                        grid.set(nx, ny, Cell::Unresolved(next));
                        queue.push(i);
                        proof {
                            let after = narrowed_at(before, w, nx as int, ny as int, next@);
                            assert(grid@.domains() =~= after);
                            assert forall|inner: Seq<Set<ZoneType>>| #[trigger]
                                stable_refinement(rules@, inner, start, w, h) implies refines(
                                inner,
                                after,
                            ) by {
                                lemma_narrowing_keeps_refinements(
                                    rules@,
                                    start,
                                    before,
                                    w,
                                    h,
                                    x as int,
                                    y as int,
                                    d,
                                    inner,
                                );
                            }
                            lemma_narrowing_makes_arc(rules@, before, w, h, x as int, y as int, d, next@);
                            lemma_narrowing_lowers_total(before, w, h, nx as int, ny as int, next@);
                            assert(queue@[queue@.len() - 1] == i);
                            assert forall|ox: int, oy: int, od: Direction|
                                state.contains(ox, oy) && (waits(old(queue)@, w, ox, oy) || arc_holds(
                                    rules@,
                                    before,
                                    w,
                                    h,
                                    ox,
                                    oy,
                                    od,
                                )) implies waits(queue@, w, ox, oy) || #[trigger] arc_holds(
                                rules@,
                                after,
                                w,
                                h,
                                ox,
                                oy,
                                od,
                            ) by {
                                if waits(old(queue)@, w, ox, oy) {
                                    let k = choose|k: int|
                                        0 <= k < old(queue)@.len() && #[trigger] old(queue)@[k]
                                            == flat(ox, oy, w);
                                    assert(queue@[k] == flat(ox, oy, w));
                                } else if (ox, oy) != (nx as int, ny as int) {
                                    lemma_narrowing_keeps_arc(
                                        rules@,
                                        before,
                                        w,
                                        h,
                                        nx as int,
                                        ny as int,
                                        next@,
                                        ox,
                                        oy,
                                        od,
                                    );
                                }
                            }
                        }
                        true
                    },
                }
            }
        },
    }
}

/// Revises the neighbours of the cells that wait, and of every cell that
/// loses a candidate on the way, until none waits. Gives `false` as soon as
/// a cell is left without a candidate.
fn propagate(rules: &AdjacencyRuleSet, grid: &mut Grid, queue: Vec<usize>) -> (ok: bool)
    requires
        old(grid).well_formed(),
        !has_empty(old(grid)@.domains()),
        forall|k: int| 0 <= k < queue@.len() ==> queue@[k] < old(grid)@.cells.len(),
        forall|x: int, y: int, d: Direction|
            old(grid)@.contains(x, y) ==> waits(queue@, old(grid)@.width, x, y) || #[trigger] arc_holds(
                rules@,
                old(grid)@.domains(),
                old(grid)@.width,
                old(grid)@.height,
                x,
                y,
                d,
            ),
    ensures
        final(grid).well_formed(),
        final(grid)@.width == old(grid)@.width,
        final(grid)@.height == old(grid)@.height,
        ok == !has_empty(
            settled(rules@, old(grid)@.domains(), old(grid)@.width, old(grid)@.height),
        ),
        ok ==> final(grid)@ == old(grid)@.narrowed(
            settled(rules@, old(grid)@.domains(), old(grid)@.width, old(grid)@.height),
        ),
        ok ==> stable(rules@, final(grid)@.domains(), old(grid)@.width, old(grid)@.height),
        ok ==> !has_empty(final(grid)@.domains()),
        ok ==> refines(final(grid)@.domains(), old(grid)@.domains()),
{
    let ghost w = grid@.width;
    let ghost h = grid@.height;
    let ghost start = grid@.domains();
    let ghost state = grid@;
    let mut queue = queue;
    proof {
        grid.lemma_well_formed();
    }
    while queue.len() > 0
        invariant
            grid.well_formed(),
            grid@.width == w,
            grid@.height == h,
            state == old(grid)@,
            state.width == w,
            state.height == h,
            state.cells.len() == w * h,
            start == state.domains(),
            grid@ == state.narrowed(grid@.domains()),
            refines(grid@.domains(), start),
            !has_empty(grid@.domains()),
            forall|inner: Seq<Set<ZoneType>>| #[trigger]
                stable_refinement(rules@, inner, start, w, h) ==> refines(inner, grid@.domains()),
            forall|k: int| 0 <= k < queue@.len() ==> queue@[k] < grid@.cells.len(),
            forall|x: int, y: int, d: Direction|
                grid@.contains(x, y) ==> waits(queue@, w, x, y) || #[trigger] arc_holds(
                    rules@,
                    grid@.domains(),
                    w,
                    h,
                    x,
                    y,
                    d,
                ),
        decreases total(grid@.domains()), queue@.len(),
    {
        let ghost waiting = queue@;
        let ghost entry = grid@.domains();
        let i = queue.pop().unwrap();
        proof {
            lemma_flat_split(i as int, w, h);
        }
        let x = i % grid.width();
        let y = i / grid.width();
        proof {
            assert forall|ox: int, oy: int, od: Direction|
                grid@.contains(ox, oy) && (ox, oy) != (x as int, y as int) implies waits(
                queue@,
                w,
                ox,
                oy,
            ) || #[trigger] arc_holds(rules@, entry, w, h, ox, oy, od) by {
                if waits(waiting, w, ox, oy) {
                    let k = choose|k: int|
                        0 <= k < waiting.len() && #[trigger] waiting[k] == flat(ox, oy, w);
                    if k == waiting.len() - 1 {
                        crate::grid::lemma_flat_unique(ox, oy, x as int, y as int, w);
                    }
                    assert(queue@[k] == flat(ox, oy, w));
                }
            }
        }
        if !revise(rules, grid, x, y, Direction::North, &mut queue, Ghost(start)) {
            return false;
        }
        let ghost first = grid@.domains();
        if !revise(rules, grid, x, y, Direction::South, &mut queue, Ghost(start)) {
            return false;
        }
        let ghost second = grid@.domains();
        if !revise(rules, grid, x, y, Direction::East, &mut queue, Ghost(start)) {
            return false;
        }
        let ghost third = grid@.domains();
        if !revise(rules, grid, x, y, Direction::West, &mut queue, Ghost(start)) {
            return false;
        }
        proof {
            assert forall|j: int| 0 <= j < start.len() implies #[trigger] grid@.domains()[j].subset_of(
                start[j],
            ) by {
                assert(grid@.domains()[j].subset_of(third[j]));
                assert(third[j].subset_of(second[j]));
                assert(second[j].subset_of(first[j]));
                assert(first[j].subset_of(entry[j]));
                assert(entry[j].subset_of(start[j]));
            }
        }
    }
    proof {
        let end = grid@.domains();
        lemma_settled_is_above(rules@, start, w, h, end);
        lemma_settled_is_stable(rules@, start, w, h);
        let s = settled(rules@, start, w, h);
        assert forall|j: int| 0 <= j < end.len() implies #[trigger] end[j] =~= s[j] by {
            assert(s[j].subset_of(end[j]));
        }
        assert(end =~= s);
    }
    true
}

/// The place of the cell to collapse next, or `None` when no cell is open.
fn select(grid: &Grid, tie_word: u64) -> (place: Option<usize>)
    requires
        grid.well_formed(),
    ensures
        place is None <==> grid@.fully_resolved(),
        place is Some ==> is_choice(grid@, tie_word, place->0 as int),
        place is Some ==> chosen_place(grid@, tie_word) == place->0,
{
    let ghost cells = grid@.cells;
    let n = grid.place_count();
    let mut least: u8 = 10;
    let mut count: usize = 0;
    let mut i: usize = 0;
    while i < n
        invariant
            grid.well_formed(),
            cells == grid@.cells,
            n == cells.len(),
            i <= n,
            count <= i,
            least <= 10,
            least == 10 ==> forall|j: int| 0 <= j < i ==> (#[trigger] cells[j]) is Resolved,
            least < 10 ==> exists|j: int| 0 <= j < i && is_tied(#[trigger] cells[j], least as nat),
            forall|j: int|
                0 <= j < i && (#[trigger] cells[j]) is Unresolved ==> cells[j].domain().len()
                    >= least,
            count == tally(cells.take(i as int), by_tie(least as nat)),
        decreases n - i,
    {
        let cell = grid.at_place(i);
        proof {
            lemma_tally_step(cells, by_tie(least as nat), i as int);
        }
        if !cell.is_resolved() {
            let e = cell.entropy();
            if e < least {
                proof {
                    lemma_tally_zero(cells.take(i as int), by_tie(e as nat));
                    lemma_tally_step(cells, by_tie(e as nat), i as int);
                }
                least = e;
                count = 1;
            } else if e == least {
                count = count + 1;
            }
        }
        i = i + 1;
    }
    if least == 10 {
        return None;
    }
    proof {
        lemma_tally_ends(cells, by_tie(least as nat));
        lemma_least_entropy_unique(grid@, least as nat);
        if count == 0 {
            lemma_tally_zero(cells, by_tie(least as nat));
        }
    }
    let target = (tie_word % (count as u64)) as usize;
    let mut seen: usize = 0;
    let mut k: usize = 0;
    while k < n
        invariant
            grid.well_formed(),
            cells == grid@.cells,
            n == cells.len(),
            k <= n,
            least < 10,
            least == least_entropy(grid@),
            count == ties(grid@),
            count > 0,
            target == tie_word as nat % (count as nat),
            seen <= target,
            seen == tally(cells.take(k as int), by_tie(least as nat)),
        decreases n - k,
    {
        let cell = grid.at_place(k);
        proof {
            lemma_tally_step(cells, by_tie(least as nat), k as int);
        }
        if !cell.is_resolved() && cell.entropy() == least {
            if seen == target {
                proof {
                    lemma_choice_unique(grid@, tie_word, k as int);
                }
                return Some(k);
            }
            seen = seen + 1;
        }
        k = k + 1;
    }
    // Fewer tied cells than there are were counted: the loop has returned.
    None
}

/// The word at position `base + offset` of a supply; zero past its end.
pub fn word(words: &Vec<u64>, base: usize, offset: usize) -> (r: u64)
    ensures
        r == word_at(words@, (base + offset) as nat),
{
    let n = words.len();
    if base < n && offset < n - base {
        words[base + offset]
    } else {
        0
    }
}

/// What one step of the solver leads to.
pub enum Step {
    /// No cell was open: nothing changed.
    Finished,
    /// Propagation left some cell without a candidate.
    Contradiction,
    /// One cell was collapsed and the rules propagated: the grid after it.
    Collapsed(GridState),
}

/// One step on grid `g`: the chosen cell is collapsed to the chosen
/// category, and the rules are propagated until every arc holds.
pub open spec fn step_of(
    table: Map<(ZoneType, Direction), Set<ZoneType>>,
    g: GridState,
    tie_word: u64,
    pick_word: u64,
) -> Step {
    if g.fully_resolved() {
        Step::Finished
    } else {
        let hit = collapsed(g, tie_word, pick_word);
        let left = settled(table, hit.domains(), g.width, g.height);
        if has_empty(left) {
            Step::Contradiction
        } else {
            Step::Collapsed(hit.narrowed(left))
        }
    }
}

/// Steps repeated from grid `g` until no cell is open or a contradiction
/// occurs, with the words at positions `at`, `at + 1`, ... of the supply,
/// two for each step. `None` stands for a contradiction. At most `budget`
/// steps are taken; since each step closes a cell, one per cell is enough.
pub open spec fn steps_of(
    table: Map<(ZoneType, Direction), Set<ZoneType>>,
    g: GridState,
    words: Seq<u64>,
    at: nat,
    budget: nat,
) -> Option<GridState>
    decreases budget,
{
    if budget == 0 {
        Some(g)
    } else {
        match step_of(table, g, word_at(words, at), word_at(words, at + 1)) {
            Step::Finished => Some(g),
            Step::Contradiction => None,
            Step::Collapsed(next) => steps_of(table, next, words, at + 2, (budget - 1) as nat),
        }
    }
}

/// A whole run from grid `g`: the rules are propagated first, so that
/// cells pinned beforehand constrain the others, then steps are repeated.
/// `None` stands for a contradiction.
pub open spec fn run_of(
    table: Map<(ZoneType, Direction), Set<ZoneType>>,
    g: GridState,
    words: Seq<u64>,
    at: nat,
) -> Option<GridState> {
    let left = settled(table, g.domains(), g.width, g.height);
    if has_empty(left) {
        None
    } else {
        steps_of(table, g.narrowed(left), words, at, g.cells.len())
    }
}

/// Steps that are given one per open cell end with every cell collapsed,
/// unless they end in a contradiction: each step closes a cell, so that
/// the steps allowed are never used up before the grid is finished.
pub proof fn lemma_steps_resolve(
    table: Map<(ZoneType, Direction), Set<ZoneType>>,
    g: GridState,
    words: Seq<u64>,
    at: nat,
    budget: nat,
)
    requires
        budget >= open_cells(g),
    ensures
        steps_of(table, g, words, at, budget) matches Some(end) ==> end.fully_resolved(),
    decreases budget,
{
    if budget == 0 {
        lemma_tally_zero(g.cells, by_open());
        assert forall|i: int| 0 <= i < g.cells.len() implies (#[trigger] g.cells[i]) is Resolved by {}
    } else if !g.fully_resolved() {
        let tie_word = word_at(words, at);
        let pick_word = word_at(words, at + 1);
        let hit = collapsed(g, tie_word, pick_word);
        let left = settled(table, hit.domains(), g.width, g.height);
        if !has_empty(left) {
            crate::choice::lemma_step_closes_one(g, tie_word, pick_word, left);
            lemma_steps_resolve(table, hit.narrowed(left), words, at + 2, (budget - 1) as nat);
        }
    }
}

/// Every run that does not end in a contradiction ends with every cell
/// collapsed.
pub proof fn lemma_run_resolves(
    table: Map<(ZoneType, Direction), Set<ZoneType>>,
    g: GridState,
    words: Seq<u64>,
    at: nat,
)
    ensures
        run_of(table, g, words, at) matches Some(end) ==> end.fully_resolved(),
{
    let left = settled(table, g.domains(), g.width, g.height);
    if !has_empty(left) {
        let start = g.narrowed(left);
        lemma_tally_bound(start.cells, by_open(), 1);
        lemma_steps_resolve(table, start, words, at, g.cells.len());
    }
}

/// Whether the categories of the cell at `(x, y)` and of its neighbour on
/// side `d` go together: the cell admits the neighbour's category there. A
/// side on which the grid ends always agrees.
pub open spec fn agrees(
    table: Map<(ZoneType, Direction), Set<ZoneType>>,
    g: GridState,
    x: int,
    y: int,
    d: Direction,
) -> bool {
    let n = beside(x, y, d);
    g.contains(n.0, n.1) ==> crate::rules::permitted(table, g.cell(x, y)->Resolved_0, d).contains(
        g.cell(n.0, n.1)->Resolved_0,
    )
}

/// Whether every cell is collapsed and every cell admits, on each side,
/// the category of its neighbour there.
pub open spec fn consistent(table: Map<(ZoneType, Direction), Set<ZoneType>>, g: GridState) -> bool {
    &&& g.fully_resolved()
    &&& forall|x: int, y: int, d: Direction| g.contains(x, y) ==> #[trigger] agrees(table, g, x, y, d)
}

/// A grid whose cells are all collapsed and whose arcs all hold is
/// consistent with the rules.
pub proof fn lemma_resolved_stable_is_consistent(
    table: Map<(ZoneType, Direction), Set<ZoneType>>,
    g: GridState,
)
    requires
        g.well_formed(),
        g.fully_resolved(),
        stable(table, g.domains(), g.width, g.height),
    ensures
        consistent(table, g),
{
    assert forall|x: int, y: int, d: Direction| g.contains(x, y) implies #[trigger] agrees(
        table,
        g,
        x,
        y,
        d,
    ) by {
        let n = beside(x, y, d);
        if g.contains(n.0, n.1) {
            lemma_flat_bounds(x, y, g.width, g.height);
            lemma_flat_bounds(n.0, n.1, g.width, g.height);
            let from = g.cells[flat(x, y, g.width)];
            assert(arc_holds(table, g.domains(), g.width, g.height, x, y, d));
            crate::rules::lemma_permitted_beside_single(table, from->Resolved_0, d);
        }
    }
}

/// Where propagation leaves every cell a candidate, the narrowed grid
/// holds exactly the candidates that propagation leaves, and all its arcs
/// hold.
pub proof fn lemma_settled_grid(table: Map<(ZoneType, Direction), Set<ZoneType>>, g: GridState)
    requires
        g.well_formed(),
        !has_empty(settled(table, g.domains(), g.width, g.height)),
    ensures
        g.narrowed(settled(table, g.domains(), g.width, g.height)).domains() == settled(
            table,
            g.domains(),
            g.width,
            g.height,
        ),
        g.narrowed(settled(table, g.domains(), g.width, g.height)).well_formed(),
        stable(
            table,
            g.narrowed(settled(table, g.domains(), g.width, g.height)).domains(),
            g.width,
            g.height,
        ),
{
    let left = settled(table, g.domains(), g.width, g.height);
    let after = g.narrowed(left).domains();
    lemma_settled_is_stable(table, g.domains(), g.width, g.height);
    assert forall|i: int| 0 <= i < left.len() implies #[trigger] after[i] =~= left[i] by {
        assert(left[i].subset_of(g.domains()[i]));
        if g.cells[i] is Resolved {
            let c = g.cells[i]->Resolved_0;
            if !left[i].contains(c) {
                assert(left[i] =~= Set::<ZoneType>::empty());
            }
        }
    }
    assert(after =~= left);
}

/// Steps from a grid whose arcs all hold end, unless in a contradiction,
/// with a grid that is consistent with the rules.
pub proof fn lemma_steps_are_consistent(
    table: Map<(ZoneType, Direction), Set<ZoneType>>,
    g: GridState,
    words: Seq<u64>,
    at: nat,
    budget: nat,
)
    requires
        g.well_formed(),
        stable(table, g.domains(), g.width, g.height),
        budget >= open_cells(g),
    ensures
        steps_of(table, g, words, at, budget) matches Some(end) ==> end.well_formed() && consistent(
            table,
            end,
        ),
    decreases budget,
{
    lemma_steps_resolve(table, g, words, at, budget);
    if budget == 0 || g.fully_resolved() {
        if steps_of(table, g, words, at, budget) is Some {
            lemma_resolved_stable_is_consistent(table, g);
        }
    } else {
        let tie_word = word_at(words, at);
        let pick_word = word_at(words, at + 1);
        let hit = collapsed(g, tie_word, pick_word);
        let left = settled(table, hit.domains(), g.width, g.height);
        if !has_empty(left) {
            crate::choice::lemma_choice_exists(g, tie_word);
            crate::choice::lemma_step_closes_one(g, tie_word, pick_word, left);
            lemma_settled_grid(table, hit);
            lemma_steps_are_consistent(table, hit.narrowed(left), words, at + 2, (budget - 1) as nat);
        }
    }
}

/// Every run that does not end in a contradiction ends with a grid that is
/// consistent with the rules: every cell is collapsed, and every cell
/// admits on each side the category of its neighbour there.
pub proof fn lemma_run_is_consistent(
    table: Map<(ZoneType, Direction), Set<ZoneType>>,
    g: GridState,
    words: Seq<u64>,
    at: nat,
)
    requires
        g.well_formed(),
    ensures
        run_of(table, g, words, at) matches Some(end) ==> consistent(table, end),
{
    let left = settled(table, g.domains(), g.width, g.height);
    if !has_empty(left) {
        let start = g.narrowed(left);
        lemma_settled_grid(table, g);
        lemma_tally_bound(start.cells, by_open(), 1);
        lemma_steps_are_consistent(table, start, words, at, g.cells.len());
    }
}

/// The signal that some cell was left without a candidate.
#[derive(Debug, Clone, Copy, PartialEq, Eq, Structural)]
pub struct Contradiction;

/// What a call of `step` did.
#[derive(Debug, Clone, Copy, PartialEq, Eq, Structural)]
pub enum StepOutcome {
    /// The cell in column `x` and row `y` was collapsed to `category`.
    Collapsed { x: usize, y: usize, category: ZoneType },
    /// No cell was open.
    Finished,
    /// Some cell was left without a candidate.
    Contradiction,
}

/// The places `0`, `1`, ... below `n`, in order.
fn all_places(n: usize) -> (queue: Vec<usize>)
    ensures
        queue@.len() == n,
        forall|k: int| 0 <= k < n ==> queue@[k] == k,
{
    let mut queue: Vec<usize> = Vec::new();
    let mut i: usize = 0;
    while i < n
        invariant
            i <= n,
            queue@.len() == i,
            forall|k: int| 0 <= k < i ==> queue@[k] == k,
        decreases n - i,
    {
        queue.push(i);
        i = i + 1;
    }
    queue
}

/// The solver of one attempt: a grid of cells, the rules, and whether a
/// contradiction has occurred.
pub struct GridSolver {
    rules: AdjacencyRuleSet,
    grid: Grid,
    settled: bool,
    contradicted: bool,
}

impl View for GridSolver {
    type V = GridState;

    closed spec fn view(&self) -> GridState {
        self.grid@
    }
}

impl GridSolver {
    /// The rules that the solver goes by.
    pub closed spec fn table(&self) -> Map<(ZoneType, Direction), Set<ZoneType>> {
        self.rules@
    }

    /// Whether a contradiction has occurred. The state is terminal.
    pub closed spec fn contradicted(&self) -> bool {
        self.contradicted
    }

    /// Whether the solver is in a state that its own functions lead to.
    pub closed spec fn well_formed(&self) -> bool {
        &&& self.grid.well_formed()
        &&& !self.contradicted ==> !has_empty(self.grid@.domains())
        &&& !self.contradicted && self.settled ==> stable(
            self.rules@,
            self.grid@.domains(),
            self.grid@.width,
            self.grid@.height,
        )
    }

    /// A well-formed solver holds a well-formed grid, and one without a
    /// contradiction has a candidate left in every cell.
    pub proof fn lemma_well_formed(&self)
        requires
            self.well_formed(),
        ensures
            self@.well_formed(),
            !self.contradicted() ==> !has_empty(self@.domains()),
    {
        self.grid.lemma_well_formed();
    }

    /// A solver for a grid of the given size in which every cell may still
    /// take every category.
    pub fn initialize(rules: AdjacencyRuleSet, width: usize, height: usize) -> (solver: GridSolver)
        requires
            grid_fits(width as nat, height as nat),
        ensures
            solver.well_formed(),
            solver.table() == rules@,
            !solver.contradicted(),
            solver@.width == width,
            solver@.height == height,
            solver@.cells == Seq::new(
                (width * height) as nat,
                |i: int| CellState::Unresolved(Set::<ZoneType>::full()),
            ),
    {
        let grid = Grid::new(width, height, Cell::Unresolved(CategorySet::all()));
        let solver = GridSolver { rules, grid, settled: false, contradicted: false };
        proof {
            assert(!has_empty(solver@.domains())) by {
                if has_empty(solver@.domains()) {
                    let e = choose|e: int|
                        0 <= e < solver@.domains().len() && #[trigger] solver@.domains()[e] == Set::<
                            ZoneType,
                        >::empty();
                    assert(solver@.domains()[e].contains(ZoneType::Wall));
                }
            }
        }
        solver
    }

    /// The number of columns.
    pub fn width(&self) -> (w: usize)
        ensures
            w == self@.width,
    {
        self.grid.width()
    }

    /// The number of rows.
    pub fn height(&self) -> (h: usize)
        ensures
            h == self@.height,
    {
        self.grid.height()
    }

    /// Whether a contradiction has occurred.
    pub fn is_contradicted(&self) -> (r: bool)
        ensures
            r == self.contradicted(),
    {
        self.contradicted
    }

    /// The cell in column `x` and row `y`, if the grid has one there.
    pub fn cell(&self, x: usize, y: usize) -> (cell: Option<Cell>)
        requires
            self.well_formed(),
        ensures
            cell is Some == self@.contains(x as int, y as int),
            cell is Some ==> cell->0@ == self@.cell(x as int, y as int),
    {
        if x < self.grid.width() && y < self.grid.height() {
            Some(self.grid.get(x, y))
        } else {
            None
        }
    }

    /// The entropy of the cell in column `x` and row `y`: the number of
    /// categories that it may still take, one for a cell that is collapsed.
    pub fn entropy(&self, x: usize, y: usize) -> (e: Option<u8>)
        requires
            self.well_formed(),
        ensures
            e is Some == self@.contains(x as int, y as int),
            e is Some ==> e->0 == self@.cell(x as int, y as int).domain().len(),
    {
        if x < self.grid.width() && y < self.grid.height() {
            Some(self.grid.get(x, y).entropy())
        } else {
            None
        }
    }

    /// Takes from the cell in column `x` and row `y` every candidate that
    /// is not in `allowed`. The result says whether a candidate is left; if
    /// none is, a contradiction has occurred. Outside the grid nothing
    /// happens.
    pub fn restrict(&mut self, x: usize, y: usize, allowed: CategorySet) -> (kept: bool)
        requires
            old(self).well_formed(),
        ensures
            final(self).well_formed(),
            final(self).table() == old(self).table(),
            final(self)@.width == old(self)@.width,
            final(self)@.height == old(self)@.height,
            !old(self)@.contains(x as int, y as int) ==> !kept && final(self)@ == old(self)@
                && final(self).contradicted() == old(self).contradicted(),
            old(self)@.contains(x as int, y as int) ==> {
                let cell = old(self)@.cell(x as int, y as int);
                &&& kept == (cell.domain().intersect(allowed@) != Set::<ZoneType>::empty())
                &&& final(self)@ == old(self)@.with_cell(
                    x as int,
                    y as int,
                    cell.narrowed(cell.domain().intersect(allowed@)),
                )
                &&& final(self).contradicted() == (old(self).contradicted() || !kept)
            },
    {
        if !(x < self.grid.width() && y < self.grid.height()) {
            return false;
        }
        proof {
            self.grid.lemma_well_formed();
            lemma_flat_bounds(x as int, y as int, self@.width, self@.height);
        }
        let ghost before = self.grid@;
        let cell = self.grid.get(x, y);
        match cell {
            Cell::Resolved(c) => {
                if allowed.contains(c) {
                    assert(set![c].intersect(allowed@).contains(c));
                    true
                } else {
                    assert(set![c].intersect(allowed@) =~= Set::<ZoneType>::empty());
                    self.contradicted = true;
                    false
                }
            },
            Cell::Unresolved(s) => {
                let left = s.intersect(allowed);
                self.grid.set(x, y, Cell::Unresolved(left));
                self.settled = false;
                if left.is_empty() {
                    self.contradicted = true;
                    false
                } else {
                    proof {
                        if !self.contradicted {
                            let after = self.grid@.domains();
                            let i = flat(x as int, y as int, before.width);
                            assert(after =~= before.domains().update(i, left@));
                        }
                    }
                    true
                }
            },
        }
    }

    /// Takes from the cell in column `x` and row `y` every candidate but
    /// `category`. The result says whether the cell can still take it; if
    /// not, a contradiction has occurred. Outside the grid nothing happens.
    pub fn pin(&mut self, x: usize, y: usize, category: ZoneType) -> (kept: bool)
        requires
            old(self).well_formed(),
        ensures
            final(self).well_formed(),
            final(self).table() == old(self).table(),
            final(self)@.width == old(self)@.width,
            final(self)@.height == old(self)@.height,
            !old(self)@.contains(x as int, y as int) ==> !kept && final(self)@ == old(self)@
                && final(self).contradicted() == old(self).contradicted(),
            old(self)@.contains(x as int, y as int) ==> {
                let cell = old(self)@.cell(x as int, y as int);
                &&& kept == cell.domain().contains(category)
                &&& final(self)@ == old(self)@.with_cell(
                    x as int,
                    y as int,
                    cell.narrowed(cell.domain().intersect(set![category])),
                )
                &&& final(self).contradicted() == (old(self).contradicted() || !kept)
            },
    {
        proof {
            if self@.contains(x as int, y as int) {
                let domain = self@.cell(x as int, y as int).domain();
                if domain.contains(category) {
                    assert(domain.intersect(set![category]).contains(category));
                } else {
                    assert(domain.intersect(set![category]) =~= Set::<ZoneType>::empty());
                }
            }
        }
        self.restrict(x, y, CategorySet::only(category))
    }

    /// One step: collapses the open cell that `tie_word` picks among those
    /// with the fewest candidates to the candidate that `pick_word` picks,
    /// then propagates the rules until every arc holds. Once a
    /// contradiction has occurred, every step reports it.
    pub fn step(&mut self, tie_word: u64, pick_word: u64) -> (outcome: StepOutcome)
        requires
            old(self).well_formed(),
        ensures
            final(self).well_formed(),
            final(self).table() == old(self).table(),
            final(self)@.width == old(self)@.width,
            final(self)@.height == old(self)@.height,
            old(self).contradicted() ==> outcome is Contradiction && final(self).contradicted(),
            !old(self).contradicted() ==> match step_of(
                old(self).table(),
                old(self)@,
                tie_word,
                pick_word,
            ) {
                Step::Finished => outcome is Finished && final(self)@ == old(self)@
                    && !final(self).contradicted(),
                Step::Contradiction => outcome is Contradiction && final(self).contradicted(),
                Step::Collapsed(next) => {
                    &&& outcome matches StepOutcome::Collapsed { x, y, category }
                    &&& old(self)@.contains(x as int, y as int)
                    &&& flat(x as int, y as int, old(self)@.width) == chosen_place(
                        old(self)@,
                        tie_word,
                    )
                    &&& category == chosen_category(old(self)@, tie_word, pick_word)
                    &&& final(self)@ == next
                    &&& !final(self).contradicted()
                    &&& open_cells(final(self)@) + 1 == open_cells(old(self)@)
                    &&& refines(final(self)@.domains(), old(self)@.domains())
                    &&& stable(
                        old(self).table(),
                        final(self)@.domains(),
                        old(self)@.width,
                        old(self)@.height,
                    )
                },
            },
    {
        if self.contradicted {
            return StepOutcome::Contradiction;
        }
        let ghost before = self.grid@;
        let ghost w = before.width;
        let ghost h = before.height;
        proof {
            self.grid.lemma_well_formed();
        }
        match select(&self.grid, tie_word) {
            None => StepOutcome::Finished,
            Some(i) => {
                let cell = self.grid.at_place(i);
                let domain = cell.candidates();
                let size = domain.len();
                proof {
                    assert(before.domains()[i as int] == domain@);
                    lemma_category_set_len(domain@);
                    if size == 0 {
                        assert(domain@ =~= Set::<ZoneType>::empty());
                    }
                }
                let k = (pick_word % (size as u64)) as u8;
                let category = match domain.nth(k) {
                    Some(c) => c,
                    // The remainder is below the number of candidates.
                    None => ZoneType::Wall,
                };
                proof {
                    lemma_member_at(domain@, k as nat);
                    lemma_flat_split(i as int, w, h);
                }
                let x = i % self.grid.width();
                let y = i / self.grid.width();
                self.grid.set_place(i, Cell::Resolved(category));
                let ghost hit = self.grid@;
                let queue = if self.settled {
                    let mut one: Vec<usize> = Vec::new();
                    one.push(i);
                    one
                } else {
                    all_places(self.grid.place_count())
                };
                proof {
                    let after = hit.domains();
                    assert(after =~= narrowed_at(before.domains(), w, x as int, y as int, set![category]));
                    assert(!has_empty(after)) by {
                        if has_empty(after) {
                            let e = choose|e: int|
                                0 <= e < after.len() && #[trigger] after[e] == Set::<
                                    ZoneType,
                                >::empty();
                            if e == i {
                                assert(after[e].contains(category));
                            }
                        }
                    }
                    assert forall|ox: int, oy: int, od: Direction|
                        hit.contains(ox, oy) implies waits(queue@, w, ox, oy) || #[trigger] arc_holds(
                        self.rules@,
                        after,
                        w,
                        h,
                        ox,
                        oy,
                        od,
                    ) by {
                        lemma_flat_bounds(ox, oy, w, h);
                        if self.settled {
                            if (ox, oy) == (x as int, y as int) {
                                assert(queue@[0] == flat(ox, oy, w));
                            } else {
                                lemma_narrowing_keeps_arc(
                                    self.rules@,
                                    before.domains(),
                                    w,
                                    h,
                                    x as int,
                                    y as int,
                                    set![category],
                                    ox,
                                    oy,
                                    od,
                                );
                            }
                        } else {
                            assert(queue@[flat(ox, oy, w)] == flat(ox, oy, w));
                        }
                    }
                }
                let ok = propagate(&self.rules, &mut self.grid, queue);
                if ok {
                    self.settled = true;
                    proof {
                        lemma_collapse_closes_one(
                            before,
                            i as int,
                            category,
                            settled(self.rules@, hit.domains(), w, h),
                        );
                        assert forall|j: int| 0 <= j < before.cells.len() implies (
                        #[trigger] self.grid@.domains()[j]).subset_of(before.domains()[j]) by {
                            assert(self.grid@.domains()[j].subset_of(hit.domains()[j]));
                        }
                    }
                    StepOutcome::Collapsed { x, y, category }
                } else {
                    self.contradicted = true;
                    StepOutcome::Contradiction
                }
            },
        }
    }

    /// Runs the solver to its end: propagates the rules once, so that
    /// pinned cells constrain the others, then repeats steps with the words
    /// at positions `start`, `start + 1`, ... of `words`, two for each step,
    /// until no cell is open or a contradiction occurs. Gives the finished
    /// grid, or the contradiction.
    pub fn run(self, words: &Vec<u64>, start: usize) -> (result: Result<Grid, Contradiction>)
        requires
            self.well_formed(),
        ensures
            self.contradicted() ==> result is Err,
            !self.contradicted() ==> match run_of(self.table(), self@, words@, start as nat) {
                Some(g) => result is Ok && result->Ok_0@ == g,
                None => result is Err,
            },
            result is Ok ==> result->Ok_0.well_formed() && consistent(self.table(), result->Ok_0@)
                && result->Ok_0@.width == self@.width && result->Ok_0@.height == self@.height
                && refines(result->Ok_0@.domains(), self@.domains()),
    {
        let mut solver = self;
        if solver.contradicted {
            return Err(Contradiction);
        }
        let ghost table = self.rules@;
        let ghost origin = self.grid@;
        let ghost w = origin.width;
        let ghost h = origin.height;
        if solver.settled {
            proof {
                lemma_settled_of_stable(table, origin.domains(), w, h);
                assert(origin =~= origin.narrowed(origin.domains()));
            }
        } else {
            let queue = all_places(solver.grid.place_count());
            proof {
                assert forall|ox: int, oy: int, od: Direction|
                    origin.contains(ox, oy) implies waits(queue@, w, ox, oy) || #[trigger] arc_holds(
                    table,
                    origin.domains(),
                    w,
                    h,
                    ox,
                    oy,
                    od,
                ) by {
                    lemma_flat_bounds(ox, oy, w, h);
                    assert(queue@[flat(ox, oy, w)] == flat(ox, oy, w));
                }
            }
            let ok = propagate(&solver.rules, &mut solver.grid, queue);
            if !ok {
                return Err(Contradiction);
            }
            solver.settled = true;
        }
        let mut budget = solver.grid.place_count();
        let mut taken: usize = 0;
        proof {
            lemma_tally_bound(solver.grid@.cells, by_open(), 1);
        }
        loop
            invariant
                solver.well_formed(),
                !solver.contradicted,
                stable(table, solver.grid@.domains(), w, h),
                refines(solver.grid@.domains(), self@.domains()),
                w * h <= usize::MAX,
                solver.rules@ == table,
                solver.grid@.width == w,
                solver.grid@.height == h,
                table == self.table(),
                w == self@.width,
                h == self@.height,
                !self.contradicted(),
                taken + budget == w * h,
                budget >= open_cells(solver.grid@),
                run_of(table, self@, words@, start as nat) == steps_of(
                    table,
                    solver.grid@,
                    words@,
                    (start + 2 * taken) as nat,
                    budget as nat,
                ),
            decreases budget,
        {
            let ghost current = solver.grid@;
            let tie_word = if taken <= usize::MAX / 2 {
                word(words, start, 2 * taken)
            } else {
                0
            };
            let pick_word = if taken < usize::MAX / 2 {
                word(words, start, 2 * taken + 1)
            } else {
                0
            };
            proof {
                assert(words.len() <= usize::MAX);
                if budget == 0 {
                    lemma_tally_zero(current.cells, by_open());
                }
            }
            match solver.step(tie_word, pick_word) {
                StepOutcome::Finished => {
                    proof {
                        solver.grid.lemma_well_formed();
                        lemma_resolved_stable_is_consistent(table, solver.grid@);
                    }
                    return Ok(solver.grid);
                },
                StepOutcome::Contradiction => {
                    return Err(Contradiction);
                },
                StepOutcome::Collapsed { x, y, category } => {
                    proof {
                        assert forall|j: int| 0 <= j < self@.cells.len() implies (
                        #[trigger] solver.grid@.domains()[j]).subset_of(self@.domains()[j]) by {
                            assert(solver.grid@.domains()[j].subset_of(current.domains()[j]));
                            assert(current.domains()[j].subset_of(self@.domains()[j]));
                        }
                    }
                    budget = budget - 1;
                    taken = taken + 1;
                },
            }
        }
    }
}

} // verus!
