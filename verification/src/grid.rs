//! The grid of cells on which a level is solved.

use vstd::prelude::*;
use kahuna::square_grid::SquareGrid;
use crate::category::ZoneType;
use crate::domain::{CategorySet, members_of};
use crate::rules::Direction;

verus! {

/// Where the cell in column `x` and row `y` stands in a row-by-row layout
/// of a grid that is `w` wide.
pub open spec fn flat(x: int, y: int, w: nat) -> int {
    y * w + x
}

/// A cell inside a `w` by `h` grid has its place inside the layout.
pub proof fn lemma_flat_bounds(x: int, y: int, w: nat, h: nat)
    requires
        0 <= x < w,
        0 <= y < h,
    ensures
        0 <= y * w <= flat(x, y, w) < w * h,
{
    assert(y * w + x < w * h) by (nonlinear_arith)
        requires
            0 <= x < w,
            0 <= y < h,
    ;
    assert(0 <= y * w + x) by (nonlinear_arith)
        requires
            0 <= x,
            0 <= y,
            0 <= w,
    ;
}

/// A place inside the layout belongs to exactly the cell whose column is
/// the remainder and whose row is the quotient by the width.
pub proof fn lemma_flat_split(i: int, w: nat, h: nat)
    requires
        0 <= i < w * h,
    ensures
        w > 0,
        0 <= i % (w as int) < w,
        0 <= i / (w as int) < h,
        flat(i % (w as int), i / (w as int), w) == i,
{
    assert(w > 0) by (nonlinear_arith)
        requires
            0 <= i < w * h,
    ;
    let wi = w as int;
    vstd::arithmetic::div_mod::lemma_fundamental_div_mod(i, wi);
    vstd::arithmetic::div_mod::lemma_mod_bound(i, wi);
    vstd::arithmetic::div_mod::lemma_div_pos_is_pos(i, wi);
    let q = i / wi;
    assert(wi * q == q * wi) by (nonlinear_arith);
    assert(q < h) by (nonlinear_arith)
        requires
            q * wi <= i,
            i < wi * h,
            wi > 0,
    ;
}

/// Two cells of one grid that share a place are the same cell.
pub proof fn lemma_flat_unique(x1: int, y1: int, x2: int, y2: int, w: nat)
    requires
        0 <= x1 < w,
        0 <= x2 < w,
        flat(x1, y1, w) == flat(x2, y2, w),
    ensures
        x1 == x2,
        y1 == y2,
{
    assert(y1 == y2) by (nonlinear_arith)
        requires
            0 <= x1 < w,
            0 <= x2 < w,
            y1 * w + x1 == y2 * w + x2,
    ;
}

/// One cell of the grid while it is being solved.
#[derive(Debug, Clone, Copy, PartialEq, Eq, Structural)]
pub enum Cell {
    /// Still open: the categories that the cell may yet take.
    Unresolved(CategorySet),
    /// Collapsed to one category, for good.
    Resolved(ZoneType),
}

/// What a cell stands for: its candidates as a set, or its category.
pub enum CellState {
    Unresolved(Set<ZoneType>),
    Resolved(ZoneType),
}

impl CellState {
    /// The categories that the cell may hold.
    pub open spec fn domain(self) -> Set<ZoneType> {
        match self {
            CellState::Unresolved(s) => s,
            CellState::Resolved(c) => set![c],
        }
    }

    /// The same cell with its candidates replaced, if it is still open.
    pub open spec fn narrowed(self, to: Set<ZoneType>) -> CellState {
        match self {
            CellState::Unresolved(_) => CellState::Unresolved(to),
            CellState::Resolved(c) => CellState::Resolved(c),
        }
    }
}

impl View for Cell {
    type V = CellState;

    open spec fn view(&self) -> CellState {
        match self {
            Cell::Unresolved(s) => CellState::Unresolved(s@),
            Cell::Resolved(c) => CellState::Resolved(*c),
        }
    }
}

/// The word above which a cell is kept as collapsed.
pub const RESOLVED_MARK: u16 = 512;

/// The cell that a word stands for: below the mark the word holds the
/// candidates of an open cell, one bit each; from the mark on it holds, in
/// what is above the mark, the position of the category of a collapsed
/// cell.
pub open spec fn decoded(word: u16) -> CellState {
    if word < RESOLVED_MARK {
        CellState::Unresolved(members_of(word))
    } else {
        CellState::Resolved(ZoneType::at((word - RESOLVED_MARK) as nat))
    }
}

impl Cell {
    /// The word that stands for the cell.
    pub fn encode(&self) -> (word: u16)
        ensures
            decoded(word) == self@,
    {
        match self {
            Cell::Unresolved(s) => s.to_bits(),
            Cell::Resolved(c) => {
                RESOLVED_MARK + c.ordinal() as u16
            },
        }
    }

    /// The cell that a word stands for.
    pub fn decode(word: u16) -> (cell: Cell)
        ensures
            cell@ == decoded(word),
    {
        if word < RESOLVED_MARK {
            Cell::Unresolved(CategorySet::from_bits(word))
        } else {
            let position = word - RESOLVED_MARK;
            if position < 9 {
                match ZoneType::from_ordinal(position as u8) {
                    Some(c) => Cell::Resolved(c),
                    None => Cell::Resolved(ZoneType::Wall),
                }
            } else {
                Cell::Resolved(ZoneType::Wall)
            }
        }
    }

    /// The categories that the cell may hold, as a set.
    pub fn candidates(&self) -> (s: CategorySet)
        ensures
            s@ == self@.domain(),
    {
        match self {
            Cell::Unresolved(s) => *s,
            Cell::Resolved(c) => CategorySet::only(*c),
        }
    }

    /// The number of categories that the cell may hold; one for a cell
    /// that is resolved.
    pub fn entropy(&self) -> (e: u8)
        ensures
            e == self@.domain().len(),
            e <= 9,
    {
        match self {
            Cell::Unresolved(s) => s.len(),
            Cell::Resolved(c) => {
                1
            },
        }
    }

    /// Whether the cell is collapsed.
    pub fn is_resolved(&self) -> (r: bool)
        ensures
            r == (self@ is Resolved),
    {
        match self {
            Cell::Unresolved(_) => false,
            Cell::Resolved(_) => true,
        }
    }
}

/// What a grid stands for: its size and the state of each cell, row by row.
#[verifier::ext_equal]
pub struct GridState {
    pub width: nat,
    pub height: nat,
    pub cells: Seq<CellState>,
}

impl GridState {
    /// Whether there is a cell in column `x` and row `y`.
    pub open spec fn contains(self, x: int, y: int) -> bool {
        0 <= x < self.width && 0 <= y < self.height
    }

    /// The state of the cell in column `x` and row `y`.
    pub open spec fn cell(self, x: int, y: int) -> CellState {
        self.cells[flat(x, y, self.width)]
    }

    /// Whether the grid has one state for each of its cells.
    pub open spec fn well_formed(self) -> bool {
        self.cells.len() == self.width * self.height
    }

    /// The candidates of every cell, row by row.
    pub open spec fn domains(self) -> Seq<Set<ZoneType>> {
        Seq::new(self.cells.len(), |i: int| self.cells[i].domain())
    }

    /// The same grid with the candidates of its open cells replaced.
    pub open spec fn narrowed(self, to: Seq<Set<ZoneType>>) -> GridState {
        GridState {
            width: self.width,
            height: self.height,
            cells: Seq::new(self.cells.len(), |i: int| self.cells[i].narrowed(to[i])),
        }
    }

    /// The same grid with one cell replaced.
    pub open spec fn with_cell(self, x: int, y: int, cell: CellState) -> GridState {
        GridState {
            width: self.width,
            height: self.height,
            cells: self.cells.update(flat(x, y, self.width), cell),
        }
    }

    /// Whether every cell is collapsed.
    pub open spec fn fully_resolved(self) -> bool {
        forall|i: int| 0 <= i < self.cells.len() ==> #[trigger] self.cells[i] is Resolved
    }
}

/// The column and row of the neighbour of a cell on side `d`.
pub open spec fn beside(x: int, y: int, d: Direction) -> (int, int) {
    (x + d.offset().0, y + d.offset().1)
}

/// The grid type of the `kahuna` crate, `kahuna::square_grid::SquareGrid`:
/// a rectangle of values that is made with a width and a height and read
/// and written by column and row. Nothing of its inside is known here.
#[verifier::external_type_specification]
#[verifier::external_body]
#[verifier::reject_recursive_types(T)]
pub struct ExSquareGrid<T>(SquareGrid<T>);

/// The words that a `SquareGrid` of words holds, row by row.
pub uninterp spec fn square_cells(grid: SquareGrid<u16>) -> Seq<u16>;

/// The width that a `SquareGrid` of words was made with.
pub uninterp spec fn square_width(grid: SquareGrid<u16>) -> nat;

/// Whether a grid of the given size fits the machine: its sides fit the
/// signed word in which they are kept, and its cells the memory that can
/// be asked for while the grid grows.
pub open spec fn grid_fits(width: nat, height: nat) -> bool {
    width <= isize::MAX && height <= isize::MAX && 4 * width * height <= isize::MAX
}

/// Makes a grid with `SquareGrid::new`, which calls the function that it
/// is given once for each cell, row by row, and keeps the results and the
/// width: here every cell is `fill`.
#[verifier::external_body]
fn square_new(width: usize, height: usize, fill: u16) -> (grid: SquareGrid<u16>)
    requires
        grid_fits(width as nat, height as nat),
    ensures
        square_width(grid) == width,
        square_cells(grid) == Seq::new((width * height) as nat, |i: int| fill),
{
    SquareGrid::new(width as isize, height as isize, |_, _| fill)
}

/// Reads a cell with the index operator of `SquareGrid`, which gives the
/// value at place `x + y * width` of its rows laid end to end.
#[verifier::external_body]
fn square_get(grid: &SquareGrid<u16>, x: usize, y: usize) -> (word: u16)
    requires
        x < square_width(*grid),
        flat(x as int, y as int, square_width(*grid)) < square_cells(*grid).len(),
        square_cells(*grid).len() <= isize::MAX,
    ensures
        word == square_cells(*grid)[flat(x as int, y as int, square_width(*grid))],
{
    grid[(x as isize, y as isize)]
}

/// Writes a cell with the index operator of `SquareGrid`, which replaces
/// the value at place `x + y * width` of its rows laid end to end and
/// leaves the others and the width as they are.
#[verifier::external_body]
fn square_set(grid: &mut SquareGrid<u16>, x: usize, y: usize, word: u16)
    requires
        x < square_width(*old(grid)),
        flat(x as int, y as int, square_width(*old(grid))) < square_cells(*old(grid)).len(),
        square_cells(*old(grid)).len() <= isize::MAX,
    ensures
        square_width(*final(grid)) == square_width(*old(grid)),
        square_cells(*final(grid)) == square_cells(*old(grid)).update(
            flat(x as int, y as int, square_width(*old(grid))),
            word,
        ),
{
    grid[(x as isize, y as isize)] = word;
}

/// A rectangular grid of cells. The cells are kept as words in a
/// `SquareGrid`.
pub struct Grid {
    width: usize,
    height: usize,
    cells: SquareGrid<u16>,
}

impl View for Grid {
    type V = GridState;

    closed spec fn view(&self) -> GridState {
        GridState {
            width: self.width as nat,
            height: self.height as nat,
            cells: Seq::new(
                square_cells(self.cells).len(),
                |i: int| decoded(square_cells(self.cells)[i]),
            ),
        }
    }
}

impl Grid {
    /// Whether the grid holds one cell for each of its places.
    pub closed spec fn well_formed(self) -> bool {
        &&& square_width(self.cells) == self.width
        &&& square_cells(self.cells).len() == self.width * self.height
        &&& grid_fits(self.width as nat, self.height as nat)
    }

    /// A well-formed grid stands for a well-formed state.
    pub proof fn lemma_well_formed(self)
        requires
            self.well_formed(),
        ensures
            self@.well_formed(),
            self@.width * self@.height <= isize::MAX,
    {
        assert(self.width * self.height <= 4 * self.width * self.height) by (nonlinear_arith);
    }

    /// A grid of the given size in which every cell is `fill`.
    pub fn new(width: usize, height: usize, fill: Cell) -> (grid: Grid)
        requires
            grid_fits(width as nat, height as nat),
        ensures
            grid.well_formed(),
            grid@.width == width,
            grid@.height == height,
            grid@.cells == Seq::new((width * height) as nat, |i: int| fill@),
    {
        let grid = Grid { width, height, cells: square_new(width, height, fill.encode()) };
        grid
    }

    /// The number of columns.
    pub fn width(&self) -> (w: usize)
        ensures
            w == self@.width,
    {
        self.width
    }

    /// The number of rows.
    pub fn height(&self) -> (h: usize)
        ensures
            h == self@.height,
    {
        self.height
    }

    /// The cell in column `x` and row `y`.
    pub fn get(&self, x: usize, y: usize) -> (cell: Cell)
        requires
            self.well_formed(),
            self@.contains(x as int, y as int),
        ensures
            cell@ == self@.cell(x as int, y as int),
    {
        proof {
            self.lemma_well_formed();
            lemma_flat_bounds(x as int, y as int, self.width as nat, self.height as nat);
        }
        Cell::decode(square_get(&self.cells, x, y))
    }

    /// Replaces the cell in column `x` and row `y`.
    pub fn set(&mut self, x: usize, y: usize, cell: Cell)
        requires
            old(self).well_formed(),
            old(self)@.contains(x as int, y as int),
        ensures
            final(self).well_formed(),
            final(self)@ == old(self)@.with_cell(x as int, y as int, cell@),
    {
        proof {
            self.lemma_well_formed();
            lemma_flat_bounds(x as int, y as int, self.width as nat, self.height as nat);
        }
        square_set(&mut self.cells, x, y, cell.encode());
    }

    /// The number of cells.
    pub fn place_count(&self) -> (n: usize)
        requires
            self.well_formed(),
        ensures
            n == self@.cells.len(),
            n == self@.width * self@.height,
    {
        proof {
            self.lemma_well_formed();
        }
        self.width * self.height
    }

    /// The cell that stands at place `i` when the rows are laid end to
    /// end.
    pub fn at_place(&self, i: usize) -> (cell: Cell)
        requires
            self.well_formed(),
            i < self@.cells.len(),
        ensures
            cell@ == self@.cells[i as int],
    {
        proof {
            lemma_flat_split(i as int, self.width as nat, self.height as nat);
        }
        self.get(i % self.width, i / self.width)
    }

    /// Replaces the cell that stands at place `i` when the rows are laid
    /// end to end.
    pub fn set_place(&mut self, i: usize, cell: Cell)
        requires
            old(self).well_formed(),
            i < old(self)@.cells.len(),
        ensures
            final(self).well_formed(),
            final(self)@.width == old(self)@.width,
            final(self)@.height == old(self)@.height,
            final(self)@.cells == old(self)@.cells.update(i as int, cell@),
    {
        proof {
            lemma_flat_split(i as int, self.width as nat, self.height as nat);
        }
        self.set(i % self.width, i / self.width, cell);
    }

    /// The cells of the grid, row by row.
    pub fn cells(&self) -> (cells: Vec<Cell>)
        requires
            self.well_formed(),
        ensures
            cells@.len() == self@.cells.len(),
            forall|i: int| 0 <= i < cells@.len() ==> (#[trigger] cells@[i])@ == self@.cells[i],
    {
        let n = self.place_count();
        let mut cells: Vec<Cell> = Vec::new();
        let mut i: usize = 0;
        while i < n
            invariant
                self.well_formed(),
                n == self@.cells.len(),
                i <= n,
                cells@.len() == i,
                forall|j: int| 0 <= j < i ==> (#[trigger] cells@[j])@ == self@.cells[j],
            decreases n - i,
        {
            cells.push(self.at_place(i));
            i = i + 1;
        }
        cells
    }

    /// The neighbour of the cell in column `x` and row `y` on side
    /// `direction`, if the grid has one there. The grid does not wrap.
    pub fn neighbor(&self, x: usize, y: usize, direction: Direction) -> (n: Option<(usize, usize)>)
        requires
            self@.contains(x as int, y as int),
        ensures
            match n {
                Some((nx, ny)) => (nx as int, ny as int) == beside(x as int, y as int, direction)
                    && self@.contains(nx as int, ny as int),
                None => !self@.contains(
                    beside(x as int, y as int, direction).0,
                    beside(x as int, y as int, direction).1,
                ),
            },
    {
        match direction {
            Direction::North => if y > 0 {
                Some((x, y - 1))
            } else {
                None
            },
            Direction::South => if y + 1 < self.height {
                Some((x, y + 1))
            } else {
                None
            },
            Direction::East => if x > 0 {
                Some((x - 1, y))
            } else {
                None
            },
            Direction::West => if x + 1 < self.width {
                Some((x + 1, y))
            } else {
                None
            },
        }
    }
}

} // verus!
