//! What propagation of the adjacency rules leads to, stated without
//! reference to the order in which cells are visited.
//!
//! The candidates of a grid are given row by row, one set per cell. An arc
//! leads from a cell to its neighbour on one side; it holds when every
//! candidate of the neighbour is admitted on that side by some candidate of
//! the cell. Propagation removes candidates until every arc holds.

use vstd::prelude::*;
use crate::category::ZoneType;
use crate::category::lemma_category_set_len;
use crate::grid::{beside, flat, lemma_flat_bounds, lemma_flat_unique};
use crate::tally::{tally, lemma_tally_update};
use crate::rules::{Direction, permitted_beside, lemma_permitted_beside_monotone};

verus! {

/// Whether the arc from the cell at `(x, y)` to its neighbour on side `d`
/// holds. An arc that leads off the grid holds.
pub open spec fn arc_holds(
    table: Map<(ZoneType, Direction), Set<ZoneType>>,
    doms: Seq<Set<ZoneType>>,
    w: nat,
    h: nat,
    x: int,
    y: int,
    d: Direction,
) -> bool {
    let n = beside(x, y, d);
    (0 <= n.0 < w && 0 <= n.1 < h) ==> doms[flat(n.0, n.1, w)].subset_of(
        permitted_beside(table, doms[flat(x, y, w)], d),
    )
}

/// Whether every arc of the grid holds.
pub open spec fn stable(
    table: Map<(ZoneType, Direction), Set<ZoneType>>,
    doms: Seq<Set<ZoneType>>,
    w: nat,
    h: nat,
) -> bool {
    forall|x: int, y: int, d: Direction|
        0 <= x < w && 0 <= y < h ==> #[trigger] arc_holds(table, doms, w, h, x, y, d)
}

/// Whether `inner` keeps, cell by cell, only candidates of `outer`.
pub open spec fn refines(inner: Seq<Set<ZoneType>>, outer: Seq<Set<ZoneType>>) -> bool {
    inner.len() == outer.len() && forall|i: int|
        0 <= i < inner.len() ==> #[trigger] inner[i].subset_of(outer[i])
}

/// Whether `inner` refines `doms` and all its arcs hold.
pub open spec fn stable_refinement(
    table: Map<(ZoneType, Direction), Set<ZoneType>>,
    inner: Seq<Set<ZoneType>>,
    doms: Seq<Set<ZoneType>>,
    w: nat,
    h: nat,
) -> bool {
    refines(inner, doms) && stable(table, inner, w, h)
}

/// Whether candidate `c` of cell `i` is kept by some stable refinement.
pub open spec fn survives(
    table: Map<(ZoneType, Direction), Set<ZoneType>>,
    doms: Seq<Set<ZoneType>>,
    w: nat,
    h: nat,
    i: int,
    c: ZoneType,
) -> bool {
    exists|inner: Seq<Set<ZoneType>>| #[trigger]
        stable_refinement(table, inner, doms, w, h) && inner[i].contains(c)
}

/// The candidates that propagation leaves: those kept by some stable
/// refinement. This is the largest stable refinement of `doms`.
pub open spec fn settled(
    table: Map<(ZoneType, Direction), Set<ZoneType>>,
    doms: Seq<Set<ZoneType>>,
    w: nat,
    h: nat,
) -> Seq<Set<ZoneType>> {
    Seq::new(doms.len(), |i: int| Set::new(|c: ZoneType| survives(table, doms, w, h, i, c)))
}

/// Whether some cell has no candidate left.
pub open spec fn has_empty(doms: Seq<Set<ZoneType>>) -> bool {
    exists|i: int| 0 <= i < doms.len() && #[trigger] doms[i] == Set::<ZoneType>::empty()
}

/// Every stable refinement of `doms` refines what propagation leaves.
pub proof fn lemma_settled_is_above(
    table: Map<(ZoneType, Direction), Set<ZoneType>>,
    doms: Seq<Set<ZoneType>>,
    w: nat,
    h: nat,
    inner: Seq<Set<ZoneType>>,
)
    requires
        stable_refinement(table, inner, doms, w, h),
    ensures
        refines(inner, settled(table, doms, w, h)),
{
}

/// What propagation leaves is a stable refinement of `doms`.
pub proof fn lemma_settled_is_stable(
    table: Map<(ZoneType, Direction), Set<ZoneType>>,
    doms: Seq<Set<ZoneType>>,
    w: nat,
    h: nat,
)
    requires
        doms.len() == w * h,
    ensures
        stable_refinement(table, settled(table, doms, w, h), doms, w, h),
{
    let s = settled(table, doms, w, h);
    assert forall|i: int| 0 <= i < s.len() implies #[trigger] s[i].subset_of(doms[i]) by {
        assert forall|c: ZoneType| s[i].contains(c) implies doms[i].contains(c) by {
            let inner = choose|inner: Seq<Set<ZoneType>>| #[trigger]
                stable_refinement(table, inner, doms, w, h) && inner[i].contains(c);
            assert(inner[i].subset_of(doms[i]));
        }
    }
    assert forall|x: int, y: int, d: Direction| 0 <= x < w && 0 <= y < h implies #[trigger] arc_holds(
        table,
        s,
        w,
        h,
        x,
        y,
        d,
    ) by {
        let n = beside(x, y, d);
        if 0 <= n.0 < w && 0 <= n.1 < h {
            lemma_flat_bounds(x, y, w, h);
            lemma_flat_bounds(n.0, n.1, w, h);
            let from = flat(x, y, w);
            let to = flat(n.0, n.1, w);
            assert forall|c: ZoneType| s[to].contains(c) implies permitted_beside(
                table,
                s[from],
                d,
            ).contains(c) by {
                let inner = choose|inner: Seq<Set<ZoneType>>| #[trigger]
                    stable_refinement(table, inner, doms, w, h) && inner[to].contains(c);
                assert(arc_holds(table, inner, w, h, x, y, d));
            }
        }
    }
}

/// Candidates whose arcs all hold are left as they are.
pub proof fn lemma_settled_of_stable(
    table: Map<(ZoneType, Direction), Set<ZoneType>>,
    doms: Seq<Set<ZoneType>>,
    w: nat,
    h: nat,
)
    requires
        stable(table, doms, w, h),
    ensures
        settled(table, doms, w, h) == doms,
{
    let s = settled(table, doms, w, h);
    assert forall|i: int| 0 <= i < doms.len() implies s[i] =~= doms[i] by {
        assert forall|c: ZoneType| s[i].contains(c) implies doms[i].contains(c) by {
            let inner = choose|inner: Seq<Set<ZoneType>>| #[trigger]
                stable_refinement(table, inner, doms, w, h) && inner[i].contains(c);
            assert(inner[i].subset_of(doms[i]));
        }
        assert forall|c: ZoneType| doms[i].contains(c) implies s[i].contains(c) by {
            assert(stable_refinement(table, doms, doms, w, h) && doms[i].contains(c));
        }
    }
}

/// The weight of a cell when candidates are counted: how many it has.
pub open spec fn by_size() -> spec_fn(Set<ZoneType>) -> nat {
    |s: Set<ZoneType>| s.len()
}

/// The number of candidates left in the whole grid.
pub open spec fn total(doms: Seq<Set<ZoneType>>) -> nat {
    tally(doms, by_size())
}

/// The candidates after cell `(x, y)` was narrowed to `to`.
pub open spec fn narrowed_at(doms: Seq<Set<ZoneType>>, w: nat, x: int, y: int, to: Set<ZoneType>) -> Seq<
    Set<ZoneType>,
> {
    doms.update(flat(x, y, w), to)
}

/// Taking candidates away from one cell lowers the total.
pub proof fn lemma_narrowing_lowers_total(
    doms: Seq<Set<ZoneType>>,
    w: nat,
    h: nat,
    x: int,
    y: int,
    to: Set<ZoneType>,
)
    requires
        doms.len() == w * h,
        0 <= x < w,
        0 <= y < h,
        to.subset_of(doms[flat(x, y, w)]),
        to != doms[flat(x, y, w)],
    ensures
        total(narrowed_at(doms, w, x, y, to)) < total(doms),
        to.len() < doms[flat(x, y, w)].len(),
{
    lemma_flat_bounds(x, y, w, h);
    let i = flat(x, y, w);
    lemma_category_set_len(doms[i]);
    vstd::set_lib::lemma_len_subset(to, doms[i]);
    if to.len() == doms[i].len() {
        vstd::set_lib::lemma_subset_equality(to, doms[i]);
    }
    lemma_tally_update(doms, by_size(), i, to);
}

/// Narrowing the neighbour of `(x, y)` on side `d` to what the candidates
/// of `(x, y)` admit there loses no stable refinement of `start`.
pub proof fn lemma_narrowing_keeps_refinements(
    table: Map<(ZoneType, Direction), Set<ZoneType>>,
    start: Seq<Set<ZoneType>>,
    doms: Seq<Set<ZoneType>>,
    w: nat,
    h: nat,
    x: int,
    y: int,
    d: Direction,
    inner: Seq<Set<ZoneType>>,
)
    requires
        doms.len() == w * h,
        0 <= x < w,
        0 <= y < h,
        0 <= beside(x, y, d).0 < w,
        0 <= beside(x, y, d).1 < h,
        stable_refinement(table, inner, start, w, h),
        refines(inner, doms),
    ensures
        refines(
            inner,
            narrowed_at(
                doms,
                w,
                beside(x, y, d).0,
                beside(x, y, d).1,
                doms[flat(beside(x, y, d).0, beside(x, y, d).1, w)].intersect(
                    permitted_beside(table, doms[flat(x, y, w)], d),
                ),
            ),
        ),
{
    let n = beside(x, y, d);
    lemma_flat_bounds(x, y, w, h);
    lemma_flat_bounds(n.0, n.1, w, h);
    let from = flat(x, y, w);
    let to = flat(n.0, n.1, w);
    assert(arc_holds(table, inner, w, h, x, y, d));
    assert(inner[to].subset_of(doms[to]));
    lemma_permitted_beside_monotone(table, inner[from], doms[from], d);
}

/// Where that narrowing leaves the neighbour without a candidate,
/// propagation from `start` leaves it without one too.
pub proof fn lemma_narrowing_to_nothing(
    table: Map<(ZoneType, Direction), Set<ZoneType>>,
    start: Seq<Set<ZoneType>>,
    doms: Seq<Set<ZoneType>>,
    w: nat,
    h: nat,
    x: int,
    y: int,
    d: Direction,
)
    requires
        doms.len() == w * h,
        start.len() == w * h,
        0 <= x < w,
        0 <= y < h,
        0 <= beside(x, y, d).0 < w,
        0 <= beside(x, y, d).1 < h,
        forall|inner: Seq<Set<ZoneType>>| #[trigger]
            stable_refinement(table, inner, start, w, h) ==> refines(inner, doms),
        doms[flat(beside(x, y, d).0, beside(x, y, d).1, w)].intersect(
            permitted_beside(table, doms[flat(x, y, w)], d),
        ) == Set::<ZoneType>::empty(),
    ensures
        has_empty(settled(table, start, w, h)),
{
    let n = beside(x, y, d);
    lemma_flat_bounds(n.0, n.1, w, h);
    let to = flat(n.0, n.1, w);
    let s = settled(table, start, w, h);
    assert forall|c: ZoneType| !s[to].contains(c) by {
        if s[to].contains(c) {
            let inner = choose|inner: Seq<Set<ZoneType>>| #[trigger]
                stable_refinement(table, inner, start, w, h) && inner[to].contains(c);
            lemma_narrowing_keeps_refinements(table, start, doms, w, h, x, y, d, inner);
            let after = narrowed_at(
                doms,
                w,
                n.0,
                n.1,
                doms[to].intersect(permitted_beside(table, doms[flat(x, y, w)], d)),
            );
            assert(inner[to].subset_of(after[to]));
        }
    }
    assert(s[to] =~= Set::<ZoneType>::empty());
}

/// Narrowing one cell keeps every arc that leaves another cell.
pub proof fn lemma_narrowing_keeps_arc(
    table: Map<(ZoneType, Direction), Set<ZoneType>>,
    doms: Seq<Set<ZoneType>>,
    w: nat,
    h: nat,
    nx: int,
    ny: int,
    to: Set<ZoneType>,
    x: int,
    y: int,
    d: Direction,
)
    requires
        doms.len() == w * h,
        0 <= nx < w,
        0 <= ny < h,
        0 <= x < w,
        0 <= y < h,
        (x, y) != (nx, ny),
        to.subset_of(doms[flat(nx, ny, w)]),
        arc_holds(table, doms, w, h, x, y, d),
    ensures
        arc_holds(table, narrowed_at(doms, w, nx, ny, to), w, h, x, y, d),
{
    let m = beside(x, y, d);
    lemma_flat_bounds(nx, ny, w, h);
    lemma_flat_bounds(x, y, w, h);
    if flat(x, y, w) == flat(nx, ny, w) {
        lemma_flat_unique(x, y, nx, ny, w);
    }
    if 0 <= m.0 < w && 0 <= m.1 < h {
        lemma_flat_bounds(m.0, m.1, w, h);
    }
}

/// Narrowing the neighbour of `(x, y)` on side `d` to candidates that
/// `(x, y)` admits there makes the arc between them hold.
pub proof fn lemma_narrowing_makes_arc(
    table: Map<(ZoneType, Direction), Set<ZoneType>>,
    doms: Seq<Set<ZoneType>>,
    w: nat,
    h: nat,
    x: int,
    y: int,
    d: Direction,
    to: Set<ZoneType>,
)
    requires
        doms.len() == w * h,
        0 <= x < w,
        0 <= y < h,
        0 <= beside(x, y, d).0 < w,
        0 <= beside(x, y, d).1 < h,
        to.subset_of(permitted_beside(table, doms[flat(x, y, w)], d)),
    ensures
        arc_holds(
            table,
            narrowed_at(doms, w, beside(x, y, d).0, beside(x, y, d).1, to),
            w,
            h,
            x,
            y,
            d,
        ),
{
    let n = beside(x, y, d);
    lemma_flat_bounds(n.0, n.1, w, h);
    lemma_flat_bounds(x, y, w, h);
    if flat(x, y, w) == flat(n.0, n.1, w) {
        lemma_flat_unique(x, y, n.0, n.1, w);
    }
}

} // verus!
