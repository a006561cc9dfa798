//! Which cell the solver collapses next, and to which category.
//!
//! Among the open cells, those with the fewest candidates are tied. Two
//! words of randomness decide: the first picks one of the tied cells,
//! counted row by row, the second one of its candidates, counted in
//! declaration order, each with the same weight.

use vstd::prelude::*;
use crate::category::{ZoneType, member_at};
use crate::grid::{CellState, GridState};
use crate::tally::{
    tally, lemma_tally_ends, lemma_tally_monotone, lemma_tally_pointwise, lemma_tally_step,
    lemma_tally_update, lemma_tally_zero,
};

verus! {

/// The word at position `i` of a supply of random words; zero past its end.
pub open spec fn word_at(words: Seq<u64>, i: nat) -> u64 {
    if i < words.len() {
        words[i as int]
    } else {
        0
    }
}

/// The weight of a cell when open cells are counted.
pub open spec fn by_open() -> spec_fn(CellState) -> nat {
    |c: CellState|
        if c is Unresolved {
            1nat
        } else {
            0nat
        }
}

/// The number of open cells.
pub open spec fn open_cells(g: GridState) -> nat {
    tally(g.cells, by_open())
}

/// Whether a cell is open with exactly `m` candidates.
pub open spec fn is_tied(c: CellState, m: nat) -> bool {
    c is Unresolved && c.domain().len() == m
}

/// The weight of a cell when the open cells with `m` candidates are counted.
pub open spec fn by_tie(m: nat) -> spec_fn(CellState) -> nat {
    |c: CellState|
        if is_tied(c, m) {
            1nat
        } else {
            0nat
        }
}

/// Whether `m` is the smallest number of candidates of any open cell.
pub open spec fn is_least_entropy(g: GridState, m: nat) -> bool {
    &&& exists|i: int| 0 <= i < g.cells.len() && is_tied(#[trigger] g.cells[i], m)
    &&& forall|i: int|
        0 <= i < g.cells.len() && (#[trigger] g.cells[i]) is Unresolved ==> g.cells[i].domain().len()
            >= m
}

/// The smallest number of candidates of any open cell.
pub open spec fn least_entropy(g: GridState) -> nat {
    choose|m: nat| is_least_entropy(g, m)
}

/// The number of open cells that have the smallest number of candidates.
pub open spec fn ties(g: GridState) -> nat {
    tally(g.cells, by_tie(least_entropy(g)))
}

/// Whether place `i` holds the tied cell that `word` picks: the one with
/// `word % ties` tied cells before it.
pub open spec fn is_choice(g: GridState, word: u64, i: int) -> bool {
    &&& 0 <= i < g.cells.len()
    &&& is_tied(g.cells[i], least_entropy(g))
    &&& tally(g.cells.take(i), by_tie(least_entropy(g))) == word as nat % ties(g)
}

/// The place of the cell to collapse.
pub open spec fn chosen_place(g: GridState, word: u64) -> int {
    choose|i: int| is_choice(g, word, i)
}

/// The category to collapse the chosen cell to.
pub open spec fn chosen_category(g: GridState, tie_word: u64, pick_word: u64) -> ZoneType {
    let domain = g.cells[chosen_place(g, tie_word)].domain();
    member_at(domain, pick_word as nat % domain.len())
}

/// The grid after the chosen cell was collapsed, before propagation.
pub open spec fn collapsed(g: GridState, tie_word: u64, pick_word: u64) -> GridState {
    GridState {
        width: g.width,
        height: g.height,
        cells: g.cells.update(
            chosen_place(g, tie_word),
            CellState::Resolved(chosen_category(g, tie_word, pick_word)),
        ),
    }
}

/// There is at most one smallest number of candidates.
pub proof fn lemma_least_entropy_unique(g: GridState, m: nat)
    requires
        is_least_entropy(g, m),
    ensures
        least_entropy(g) == m,
{
}

/// A word picks at most one cell.
pub proof fn lemma_choice_unique(g: GridState, word: u64, i: int)
    requires
        is_choice(g, word, i),
    ensures
        chosen_place(g, word) == i,
{
    let j = chosen_place(g, word);
    let weight = by_tie(least_entropy(g));
    if i < j {
        lemma_tally_step(g.cells, weight, i);
        lemma_tally_monotone(g.cells, weight, i + 1, j);
    } else if j < i {
        lemma_tally_step(g.cells, weight, j);
        lemma_tally_monotone(g.cells, weight, j + 1, i);
    }
}

/// Collapsing an open cell closes exactly one cell, whatever propagation
/// then takes from the candidates of the others.
pub proof fn lemma_collapse_closes_one(
    g: GridState,
    place: int,
    category: ZoneType,
    to: Seq<Set<ZoneType>>,
)
    requires
        0 <= place < g.cells.len(),
        g.cells[place] is Unresolved,
    ensures
        open_cells(
            GridState {
                width: g.width,
                height: g.height,
                cells: g.cells.update(place, CellState::Resolved(category)),
            }.narrowed(to),
        ) + 1 == open_cells(g),
{
    let hit = GridState {
        width: g.width,
        height: g.height,
        cells: g.cells.update(place, CellState::Resolved(category)),
    };
    lemma_tally_update(g.cells, by_open(), place, CellState::Resolved(category));
    lemma_narrowing_keeps_open(hit, to);
}

/// Taking candidates from open cells neither opens nor closes a cell.
pub proof fn lemma_narrowing_keeps_open(g: GridState, to: Seq<Set<ZoneType>>)
    ensures
        open_cells(g.narrowed(to)) == open_cells(g),
        g.narrowed(to).fully_resolved() == g.fully_resolved(),
{
    let n = g.narrowed(to);
    lemma_tally_pointwise(n.cells, g.cells, by_open(), by_open());
    lemma_tally_pointwise(g.cells, n.cells, by_open(), by_open());
    if n.fully_resolved() {
        assert forall|i: int| 0 <= i < g.cells.len() implies (#[trigger] g.cells[i]) is Resolved by {
            assert(n.cells[i] is Resolved);
        }
    }
}

/// Among the first `n` cells, either none is open or some open cell has
/// the fewest candidates of them: the number is given back.
proof fn lemma_least_among(cells: Seq<CellState>, n: int) -> (m: Option<nat>)
    requires
        0 <= n <= cells.len(),
    ensures
        m is None ==> forall|i: int| 0 <= i < n ==> (#[trigger] cells[i]) is Resolved,
        m is Some ==> exists|i: int| 0 <= i < n && is_tied(#[trigger] cells[i], m->0),
        m is Some ==> forall|i: int|
            0 <= i < n && (#[trigger] cells[i]) is Unresolved ==> cells[i].domain().len() >= m->0,
    decreases n,
{
    if n == 0 {
        None
    } else {
        let before = lemma_least_among(cells, n - 1);
        let last = cells[n - 1];
        if last is Resolved {
            before
        } else {
            let size = last.domain().len();
            match before {
                None => Some(size),
                Some(least) => if size < least {
                    Some(size)
                } else {
                    Some(least)
                },
            }
        }
    }
}

/// Looking from place `n` on, there is a cell of weight one that has
/// exactly `target` such cells before it, when fewer than that many come
/// before `n` and more than that many there are in all.
proof fn lemma_nth_weighted(cells: Seq<CellState>, weight: spec_fn(CellState) -> nat, target: nat, n: int) -> (i:
    int)
    requires
        0 <= n <= cells.len(),
        forall|j: int| 0 <= j < cells.len() ==> weight(#[trigger] cells[j]) <= 1,
        tally(cells.take(n), weight) <= target < tally(cells, weight),
    ensures
        n <= i < cells.len(),
        weight(cells[i]) == 1,
        tally(cells.take(i), weight) == target,
    decreases cells.len() - n,
{
    lemma_tally_ends(cells, weight);
    if n == cells.len() {
        n
    } else {
        lemma_tally_step(cells, weight, n);
        if weight(cells[n]) == 1 && tally(cells.take(n), weight) == target {
            n
        } else {
            lemma_nth_weighted(cells, weight, target, n + 1)
        }
    }
}

/// On a grid with an open cell, every word picks a cell: an open one.
pub proof fn lemma_choice_exists(g: GridState, word: u64)
    requires
        !g.fully_resolved(),
    ensures
        is_choice(g, word, chosen_place(g, word)),
        0 <= chosen_place(g, word) < g.cells.len(),
        g.cells[chosen_place(g, word)] is Unresolved,
{
    let found = lemma_least_among(g.cells, g.cells.len() as int);
    let m = found->0;
    lemma_least_entropy_unique(g, m);
    let weight = by_tie(m);
    lemma_tally_zero(g.cells, weight);
    let target = word as nat % ties(g);
    let i = lemma_nth_weighted(g.cells, weight, target, 0);
    assert(is_choice(g, word, i));
}

/// Collapsing the chosen cell and narrowing the others closes exactly one
/// cell of a grid that has an open one.
pub proof fn lemma_step_closes_one(g: GridState, tie_word: u64, pick_word: u64, to: Seq<Set<ZoneType>>)
    requires
        !g.fully_resolved(),
    ensures
        open_cells(collapsed(g, tie_word, pick_word).narrowed(to)) + 1 == open_cells(g),
{
    lemma_choice_exists(g, tie_word);
    lemma_collapse_closes_one(
        g,
        chosen_place(g, tie_word),
        chosen_category(g, tie_word, pick_word),
        to,
    );
}

} // verus!
