//! Whether one cell of a grid can be reached from another through open
//! cells, moving between neighbours on the four sides.

use vstd::prelude::*;
use crate::grid::{beside, flat, lemma_flat_bounds, lemma_flat_split, lemma_flat_unique};
use crate::rules::Direction;
use crate::tally::{tally, lemma_tally_update};

verus! {

/// Whether `b` is the neighbour of `a` on one of the four sides.
pub open spec fn adjacent(a: (int, int), b: (int, int)) -> bool {
    exists|d: Direction| #[trigger] beside(a.0, a.1, d) == b
}

/// Whether `path` is a walk through open cells of a `w` by `h` grid: it is
/// not empty, each of its cells lies on the grid and is open, and each
/// cell but the first is a neighbour of the one before it.
pub open spec fn is_walk(open: spec_fn(int, int) -> bool, w: nat, h: nat, path: Seq<(int, int)>) -> bool {
    &&& path.len() > 0
    &&& forall|k: int|
        0 <= k < path.len() ==> 0 <= (#[trigger] path[k]).0 < w && 0 <= path[k].1 < h && open(
            path[k].0,
            path[k].1,
        )
    &&& forall|k: int| 0 < k < path.len() ==> adjacent(path[k - 1], #[trigger] path[k])
}

/// Whether a walk through open cells leads from `from` to `to`.
pub open spec fn connected(
    open: spec_fn(int, int) -> bool,
    w: nat,
    h: nat,
    from: (int, int),
    to: (int, int),
) -> bool {
    exists|path: Seq<(int, int)>| #[trigger]
        is_walk(open, w, h, path) && path[0] == from && path.last() == to
}

/// An open cell of the grid is connected to itself.
pub proof fn lemma_connected_to_itself(open: spec_fn(int, int) -> bool, w: nat, h: nat, at: (int, int))
    requires
        0 <= at.0 < w,
        0 <= at.1 < h,
        open(at.0, at.1),
    ensures
        connected(open, w, h, at, at),
{
    let path = seq![at];
    assert(is_walk(open, w, h, path) && path[0] == at && path.last() == at);
}

/// A walk can be extended by an open neighbour of its last cell.
pub proof fn lemma_connected_one_more(
    open: spec_fn(int, int) -> bool,
    w: nat,
    h: nat,
    from: (int, int),
    via: (int, int),
    d: Direction,
)
    requires
        connected(open, w, h, from, via),
        0 <= beside(via.0, via.1, d).0 < w,
        0 <= beside(via.0, via.1, d).1 < h,
        open(beside(via.0, via.1, d).0, beside(via.0, via.1, d).1),
    ensures
        connected(open, w, h, from, beside(via.0, via.1, d)),
{
    let to = beside(via.0, via.1, d);
    let path = choose|path: Seq<(int, int)>| #[trigger]
        is_walk(open, w, h, path) && path[0] == from && path.last() == via;
    let longer = path.push(to);
    assert(is_walk(open, w, h, longer) && longer[0] == from && longer.last() == to);
}

/// Whether the set `seen` holds, with the cell `(x, y)`, its open
/// neighbour on side `d`.
pub open spec fn explored(
    open: spec_fn(int, int) -> bool,
    seen: spec_fn(int, int) -> bool,
    w: nat,
    h: nat,
    x: int,
    y: int,
    d: Direction,
) -> bool {
    let n = beside(x, y, d);
    0 <= n.0 < w && 0 <= n.1 < h && open(n.0, n.1) ==> seen(n.0, n.1)
}

/// A walk that starts inside a set of cells that holds every open
/// neighbour of each of its cells never leaves that set.
pub proof fn lemma_walk_stays_inside(
    open: spec_fn(int, int) -> bool,
    seen: spec_fn(int, int) -> bool,
    w: nat,
    h: nat,
    path: Seq<(int, int)>,
    k: int,
)
    requires
        is_walk(open, w, h, path),
        seen(path[0].0, path[0].1),
        forall|x: int, y: int, d: Direction|
            0 <= x < w && 0 <= y < h && seen(x, y) ==> #[trigger] explored(open, seen, w, h, x, y, d),
        0 <= k < path.len(),
    ensures
        seen(path[k].0, path[k].1),
    decreases k,
{
    if k > 0 {
        lemma_walk_stays_inside(open, seen, w, h, path, k - 1);
        let a = path[k - 1];
        let d = choose|d: Direction| #[trigger] beside(a.0, a.1, d) == path[k];
        assert(explored(open, seen, w, h, a.0, a.1, d));
    }
}

/// The predicate that a row-by-row map of booleans stands for.
pub open spec fn marked(map: Seq<bool>, w: nat) -> spec_fn(int, int) -> bool {
    |x: int, y: int| map[flat(x, y, w)]
}

/// The weight of a mark when the cells not yet seen are counted.
pub open spec fn by_unseen() -> spec_fn(bool) -> nat {
    |b: bool|
        if b {
            0nat
        } else {
            1nat
        }
}

/// Whether place `i` waits in `queue` at or behind position `head`.
pub open spec fn pending(queue: Seq<usize>, head: int, i: int) -> bool {
    exists|k: int| head <= k < queue.len() && #[trigger] queue[k] == i
}

/// Whether the search has gone right so far: each place that waits lies on
/// the grid and is seen, and each seen cell is connected to `from`.
pub open spec fn sound(
    free: spec_fn(int, int) -> bool,
    seen: Seq<bool>,
    queue: Seq<usize>,
    w: nat,
    h: nat,
    from: (int, int),
) -> bool {
    &&& seen.len() == w * h
    &&& forall|k: int| 0 <= k < queue.len() ==> (#[trigger] queue[k]) < w * h && seen[queue[k] as int]
    &&& forall|x: int, y: int|
        0 <= x < w && 0 <= y < h && #[trigger] seen[flat(x, y, w)] ==> connected(free, w, h, from, (x, y))
}

/// Whether the search has looked round each seen cell that no longer
/// waits: its open neighbours are seen. Of the cell `cur`, which is being
/// looked round, only the first `sides` sides are done.
pub open spec fn swept(
    free: spec_fn(int, int) -> bool,
    seen: Seq<bool>,
    queue: Seq<usize>,
    head: int,
    w: nat,
    h: nat,
    cur: (int, int),
    sides: nat,
) -> bool {
    forall|x: int, y: int, d: Direction|
        0 <= x < w && 0 <= y < h && seen[flat(x, y, w)] ==> pending(queue, head, flat(x, y, w)) || ((x, y)
            == cur && d.index() >= sides) || #[trigger] explored(free, marked(seen, w), w, h, x, y, d)
}

/// Marking the open neighbour of `cur` on side `d` as seen, and making it
/// wait, keeps the search right and finishes that side.
proof fn lemma_mark(
    free: spec_fn(int, int) -> bool,
    seen: Seq<bool>,
    queue: Seq<usize>,
    head: int,
    w: nat,
    h: nat,
    from: (int, int),
    cur: (int, int),
    d: Direction,
)
    requires
        sound(free, seen, queue, w, h, from),
        swept(free, seen, queue, head, w, h, cur, d.index()),
        0 <= head <= queue.len(),
        0 <= cur.0 < w,
        0 <= cur.1 < h,
        seen[flat(cur.0, cur.1, w)],
        0 <= beside(cur.0, cur.1, d).0 < w,
        0 <= beside(cur.0, cur.1, d).1 < h,
        free(beside(cur.0, cur.1, d).0, beside(cur.0, cur.1, d).1),
        w * h <= usize::MAX,
    ensures
        sound(
            free,
            seen.update(flat(beside(cur.0, cur.1, d).0, beside(cur.0, cur.1, d).1, w), true),
            queue.push(flat(beside(cur.0, cur.1, d).0, beside(cur.0, cur.1, d).1, w) as usize),
            w,
            h,
            from,
        ),
        swept(
            free,
            seen.update(flat(beside(cur.0, cur.1, d).0, beside(cur.0, cur.1, d).1, w), true),
            queue.push(flat(beside(cur.0, cur.1, d).0, beside(cur.0, cur.1, d).1, w) as usize),
            head,
            w,
            h,
            cur,
            d.index() + 1,
        ),
{
    let n = beside(cur.0, cur.1, d);
    lemma_flat_bounds(n.0, n.1, w, h);
    let i = flat(n.0, n.1, w);
    let seen2 = seen.update(i, true);
    let queue2 = queue.push(i as usize);
    lemma_connected_one_more(free, w, h, from, cur, d);
    assert forall|x: int, y: int| 0 <= x < w && 0 <= y < h && #[trigger] seen2[flat(x, y, w)] implies connected(
        free,
        w,
        h,
        from,
        (x, y),
    ) by {
        lemma_flat_bounds(x, y, w, h);
        if flat(x, y, w) == i {
            lemma_flat_unique(x, y, n.0, n.1, w);
        }
    }
    assert(queue2[queue2.len() - 1] == i);
    assert forall|x: int, y: int, e: Direction|
        0 <= x < w && 0 <= y < h && seen2[flat(x, y, w)] implies pending(queue2, head, flat(x, y, w)) || ((
        x,
        y,
    ) == cur && e.index() >= d.index() + 1) || #[trigger] explored(free, marked(seen2, w), w, h, x, y, e) by {
        lemma_flat_bounds(x, y, w, h);
        let m = beside(x, y, e);
        if 0 <= m.0 < w && 0 <= m.1 < h {
            lemma_flat_bounds(m.0, m.1, w, h);
        }
        if flat(x, y, w) != i {
            if pending(queue, head, flat(x, y, w)) {
                let k = choose|k: int| head <= k < queue.len() && #[trigger] queue[k] == flat(x, y, w);
                assert(queue2[k] == flat(x, y, w));
            } else if !((x, y) == cur && e.index() >= d.index()) {
                assert(explored(free, marked(seen, w), w, h, x, y, e));
            }
        }
    }
}

/// Taking the first waiting place as the cell to look round leaves every
/// other seen cell either waiting or looked round.
proof fn lemma_take(
    free: spec_fn(int, int) -> bool,
    seen: Seq<bool>,
    queue: Seq<usize>,
    head: int,
    w: nat,
    h: nat,
    old_cur: (int, int),
    cur: (int, int),
)
    requires
        swept(free, seen, queue, head, w, h, old_cur, 4),
        0 <= head < queue.len(),
        0 <= cur.0 < w,
        queue[head] == flat(cur.0, cur.1, w),
    ensures
        swept(free, seen, queue, head + 1, w, h, cur, 0),
{
    assert forall|x: int, y: int, e: Direction|
        0 <= x < w && 0 <= y < h && seen[flat(x, y, w)] implies pending(queue, head + 1, flat(x, y, w)) || ((
        x,
        y,
    ) == cur && e.index() >= 0) || #[trigger] explored(free, marked(seen, w), w, h, x, y, e) by {
        if pending(queue, head, flat(x, y, w)) {
            let k = choose|k: int| head <= k < queue.len() && #[trigger] queue[k] == flat(x, y, w);
            if k == head {
                lemma_flat_unique(x, y, cur.0, cur.1, w);
            }
        }
    }
}

/// When no place waits any more, the seen cells are all that is connected
/// to `from`.
proof fn lemma_exhausted(
    free: spec_fn(int, int) -> bool,
    seen: Seq<bool>,
    queue: Seq<usize>,
    w: nat,
    h: nat,
    from: (int, int),
    to: (int, int),
    cur: (int, int),
)
    requires
        swept(free, seen, queue, queue.len() as int, w, h, cur, 4),
        seen[flat(from.0, from.1, w)],
        connected(free, w, h, from, to),
    ensures
        seen[flat(to.0, to.1, w)],
{
    let path = choose|path: Seq<(int, int)>| #[trigger]
        is_walk(free, w, h, path) && path[0] == from && path.last() == to;
    let inside = marked(seen, w);
    lemma_walk_stays_inside(free, inside, w, h, path, path.len() - 1);
}

/// Looks at the neighbour of `(x, y)` on side `d`: if it is open and not
/// yet seen, it is marked as seen and made to wait. Gives `true` when that
/// neighbour is the target.
fn visit(
    open: &Vec<bool>,
    seen: &mut Vec<bool>,
    queue: &mut Vec<usize>,
    width: usize,
    height: usize,
    x: usize,
    y: usize,
    d: Direction,
    target: usize,
    Ghost(from): Ghost<(int, int)>,
    Ghost(head): Ghost<int>,
) -> (found: bool)
    requires
        width * height <= usize::MAX,
        open@.len() == width * height,
        x < width,
        y < height,
        target < width * height,
        !old(seen)@[target as int],
        old(seen)@[flat(x as int, y as int, width as nat)],
        0 <= head <= old(queue)@.len(),
        sound(marked(open@, width as nat), old(seen)@, old(queue)@, width as nat, height as nat, from),
        swept(
            marked(open@, width as nat),
            old(seen)@,
            old(queue)@,
            head,
            width as nat,
            height as nat,
            (x as int, y as int),
            d.index(),
        ),
    ensures
        found ==> connected(
            marked(open@, width as nat),
            width as nat,
            height as nat,
            from,
            (target as int % (width as int), target as int / (width as int)),
        ),
        !found ==> !final(seen)@[target as int],
        !found ==> forall|i: int| 0 <= i < old(seen)@.len() && old(seen)@[i] ==> final(seen)@[i],
        !found ==> sound(
            marked(open@, width as nat),
            final(seen)@,
            final(queue)@,
            width as nat,
            height as nat,
            from,
        ),
        !found ==> swept(
            marked(open@, width as nat),
            final(seen)@,
            final(queue)@,
            head,
            width as nat,
            height as nat,
            (x as int, y as int),
            d.index() + 1,
        ),
        !found ==> (final(seen)@ == old(seen)@ && final(queue)@ == old(queue)@) || (tally(
            final(seen)@,
            by_unseen(),
        ) < tally(old(seen)@, by_unseen()) && final(queue)@.len() == old(queue)@.len() + 1),
{
    let ghost w = width as nat;
    let ghost h = height as nat;
    let ghost free = marked(open@, w);
    let n = match d {
        Direction::North => if y > 0 {
            Some((x, y - 1))
        } else {
            None
        },
        Direction::South => if y + 1 < height {
            Some((x, y + 1))
        } else {
            None
        },
        Direction::East => if x > 0 {
            Some((x - 1, y))
        } else {
            None
        },
        Direction::West => if x + 1 < width {
            Some((x + 1, y))
        } else {
            None
        },
    };
    match n {
        None => {
            false
        },
        Some((nx, ny)) => {
            proof {
                lemma_flat_bounds(nx as int, ny as int, w, h);
            }
            let i = ny * width + nx;
            if !open[i] || seen[i] {
                false
            } else if i == target {
                proof {
                    lemma_connected_one_more(free, w, h, from, (x as int, y as int), d);
                    lemma_flat_split(target as int, w, h);
                    lemma_flat_unique(
                        nx as int,
                        ny as int,
                        target as int % (width as int),
                        target as int / (width as int),
                        w,
                    );
                }
                true
            } else {
                proof {
                    lemma_mark(free, seen@, queue@, head, w, h, from, (x as int, y as int), d);
                    lemma_tally_update(seen@, by_unseen(), i as int, true);
                }
                seen[i] = true;
                queue.push(i);
                false
            }
        },
    }
}

/// Whether the cell `to` can be reached from the cell `from` through open
/// cells of a `width` by `height` grid, moving between neighbours on the
/// four sides. `open` tells row by row which cells are open. The search is
/// breadth first, stops as soon as `to` is found, and marks each cell that
/// it has seen, so that it ends on every grid. A map that does not hold one
/// entry per cell connects nothing.
pub fn search(
    open: &Vec<bool>,
    width: usize,
    height: usize,
    from: (usize, usize),
    to: (usize, usize),
) -> (found: bool)
    ensures
        found == (open@.len() == width * height && connected(
            marked(open@, width as nat),
            width as nat,
            height as nat,
            (from.0 as int, from.1 as int),
            (to.0 as int, to.1 as int),
        )),
{
    let ghost w = width as nat;
    let ghost h = height as nat;
    let ghost start = (from.0 as int, from.1 as int);
    let ghost goal = (to.0 as int, to.1 as int);
    let ghost free = marked(open@, w);
    let count = open.len();
    let n = match width.checked_mul(height) {
        Some(n) => n,
        None => {
            return false;
        },
    };
    if count != n {
        return false;
    }
    if from.0 >= width || from.1 >= height || to.0 >= width || to.1 >= height {
        return false;
    }
    proof {
        lemma_flat_bounds(start.0, start.1, w, h);
        lemma_flat_bounds(goal.0, goal.1, w, h);
    }
    let s = from.1 * width + from.0;
    let t = to.1 * width + to.0;
    if !open[s] || !open[t] {
        return false;
    }
    if s == t {
        proof {
            lemma_flat_unique(start.0, start.1, goal.0, goal.1, w);
            lemma_connected_to_itself(free, w, h, start);
        }
        return true;
    }
    let mut seen: Vec<bool> = Vec::new();
    let mut i: usize = 0;
    while i < n
        invariant
            i <= n,
            seen@.len() == i,
            forall|j: int| 0 <= j < i ==> !seen@[j],
        decreases n - i,
    {
        seen.push(false);
        i = i + 1;
    }
    seen[s] = true;
    let mut queue: Vec<usize> = Vec::new();
    queue.push(s);
    let mut head: usize = 0;
    proof {
        lemma_connected_to_itself(free, w, h, start);
        assert(sound(free, seen@, queue@, w, h, start)) by {
            assert forall|ox: int, oy: int|
                0 <= ox < w && 0 <= oy < h && #[trigger] seen@[flat(ox, oy, w)] implies connected(
                free,
                w,
                h,
                start,
                (ox, oy),
            ) by {
                lemma_flat_bounds(ox, oy, w, h);
                lemma_flat_unique(ox, oy, start.0, start.1, w);
            }
        }
        assert(swept(free, seen@, queue@, 0, w, h, start, 4)) by {
            assert forall|ox: int, oy: int, od: Direction|
                0 <= ox < w && 0 <= oy < h && seen@[flat(ox, oy, w)] implies pending(
                queue@,
                0,
                flat(ox, oy, w),
            ) || ((ox, oy) == start && od.index() >= 4) || #[trigger] explored(
                free,
                marked(seen@, w),
                w,
                h,
                ox,
                oy,
                od,
            ) by {
                lemma_flat_bounds(ox, oy, w, h);
                assert(queue@[0] == flat(ox, oy, w));
            }
        }
    }
    while head < queue.len()
        invariant
            width * height <= usize::MAX,
            w == width,
            h == height,
            free == marked(open@, w),
            start == (from.0 as int, from.1 as int),
            goal == (to.0 as int, to.1 as int),
            0 <= goal.0 < w,
            0 <= goal.1 < h,
            open@.len() == w * h,
            s == flat(start.0, start.1, w),
            t == flat(goal.0, goal.1, w),
            s < w * h,
            t < w * h,
            seen@[s as int],
            !seen@[t as int],
            head <= queue@.len(),
            sound(free, seen@, queue@, w, h, start),
            swept(free, seen@, queue@, head as int, w, h, start, 4),
        decreases tally(seen@, by_unseen()), queue@.len() - head,
    {
        let place = queue[head];
        proof {
            lemma_flat_split(place as int, w, h);
            lemma_flat_split(t as int, w, h);
            lemma_flat_unique(goal.0, goal.1, t as int % (width as int), t as int / (width as int), w);
        }
        let x = place % width;
        let y = place / width;
        proof {
            lemma_take(free, seen@, queue@, head as int, w, h, start, (x as int, y as int));
        }
        head = head + 1;
        if visit(open, &mut seen, &mut queue, width, height, x, y, Direction::North, t, Ghost(start), Ghost(head as int)) {
            return true;
        }
        if visit(open, &mut seen, &mut queue, width, height, x, y, Direction::South, t, Ghost(start), Ghost(head as int)) {
            return true;
        }
        if visit(open, &mut seen, &mut queue, width, height, x, y, Direction::East, t, Ghost(start), Ghost(head as int)) {
            return true;
        }
        if visit(open, &mut seen, &mut queue, width, height, x, y, Direction::West, t, Ghost(start), Ghost(head as int)) {
            return true;
        }
    }
    proof {
        if connected(free, w, h, start, goal) {
            lemma_exhausted(free, seen@, queue@, w, h, start, goal, start);
        }
    }
    false
}

} // verus!
