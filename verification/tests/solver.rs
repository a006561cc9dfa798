use rogue_xork::category::ZoneType;
use rogue_xork::domain::CategorySet;
use rogue_xork::grid::{Cell, Grid};
use rogue_xork::rules::{declared, AdjacencyRuleSet, Direction};
use rogue_xork::solver::{word, Contradiction, GridSolver, StepOutcome};

const DIRECTIONS: [Direction; 4] =
    [Direction::North, Direction::South, Direction::East, Direction::West];

const A: ZoneType = ZoneType::OpenPath;
const B: ZoneType = ZoneType::Coredor;

/// `A` admits only `B` on every side, and `B` only `A`.
fn alternating() -> AdjacencyRuleSet {
    let mut rules = AdjacencyRuleSet::new();
    for d in DIRECTIONS {
        rules.allow(A, d, CategorySet::only(B));
        rules.allow(B, d, CategorySet::only(A));
    }
    rules
}

/// The declared neighbours, each declaration made for the facing side too.
fn both_ways() -> AdjacencyRuleSet {
    let mut rules = AdjacencyRuleSet::new();
    for i in 0..9u8 {
        let c = ZoneType::from_ordinal(i).unwrap();
        for d in DIRECTIONS {
            rules.allow_both_ways(c, d, declared(c));
        }
    }
    rules
}

fn two_category_solver(width: usize, height: usize) -> GridSolver {
    let mut solver = GridSolver::initialize(alternating(), width, height);
    let both = CategorySet::only(A).with(B);
    for y in 0..height {
        for x in 0..width {
            assert!(solver.restrict(x, y, both));
        }
    }
    solver
}

fn cells(result: Result<Grid, Contradiction>) -> Result<Vec<Cell>, Contradiction> {
    result.map(|grid| grid.cells())
}

fn category(grid: &Grid, x: usize, y: usize) -> ZoneType {
    match grid.get(x, y) {
        Cell::Resolved(c) => c,
        Cell::Unresolved(_) => panic!("cell ({x}, {y}) is not resolved"),
    }
}

fn assert_consistent(grid: &Grid, rules: &AdjacencyRuleSet) {
    for y in 0..grid.height() {
        for x in 0..grid.width() {
            let c = category(grid, x, y);
            for d in DIRECTIONS {
                if let Some((nx, ny)) = grid.neighbor(x, y, d) {
                    assert!(rules.query(c, d).contains(category(grid, nx, ny)));
                }
            }
        }
    }
}

#[test]
fn initialize_gives_every_cell_every_category() {
    let solver = GridSolver::initialize(AdjacencyRuleSet::standard(), 4, 3);
    assert_eq!(solver.width(), 4);
    assert_eq!(solver.height(), 3);
    assert!(!solver.is_contradicted());
    for y in 0..3 {
        for x in 0..4 {
            assert_eq!(solver.entropy(x, y), Some(9));
            assert_eq!(solver.cell(x, y), Some(Cell::Unresolved(CategorySet::all())));
        }
    }
    assert_eq!(solver.entropy(4, 0), None);
    assert_eq!(solver.cell(0, 3), None);
}

#[test]
fn pin_leaves_one_candidate() {
    let mut solver = GridSolver::initialize(AdjacencyRuleSet::standard(), 2, 2);
    assert!(solver.pin(1, 0, ZoneType::Sanctuary));
    assert_eq!(solver.entropy(1, 0), Some(1));
    assert_eq!(solver.cell(1, 0), Some(Cell::Unresolved(CategorySet::only(ZoneType::Sanctuary))));
    assert_eq!(solver.entropy(0, 0), Some(9));
    assert!(!solver.is_contradicted());
    assert!(!solver.pin(5, 5, ZoneType::Wall));
    assert!(!solver.is_contradicted());
}

#[test]
fn pin_of_excluded_category_is_a_contradiction() {
    let mut solver = GridSolver::initialize(AdjacencyRuleSet::standard(), 2, 2);
    assert!(solver.pin(0, 0, ZoneType::Sanctuary));
    assert!(!solver.pin(0, 0, ZoneType::Wall));
    assert!(solver.is_contradicted());
    assert_eq!(solver.step(0, 0), StepOutcome::Contradiction);
    assert_eq!(cells(solver.run(&vec![], 0)), Err(Contradiction));
}

#[test]
fn step_collapses_one_cell_and_propagates() {
    let mut solver = two_category_solver(3, 3);
    // every cell is tied with two candidates: word 4 picks place 4, the
    // centre; word 1 picks the second candidate, B
    let outcome = solver.step(4, 1);
    assert_eq!(outcome, StepOutcome::Collapsed { x: 1, y: 1, category: B });
    assert_eq!(solver.cell(1, 1), Some(Cell::Resolved(B)));
    // propagation determines every other cell without collapsing it
    for y in 0..3 {
        for x in 0..3 {
            if (x, y) != (1, 1) {
                let expected = if (x + y) % 2 == 0 { B } else { A };
                assert_eq!(solver.cell(x, y), Some(Cell::Unresolved(CategorySet::only(expected))));
                assert_eq!(solver.entropy(x, y), Some(1));
            }
        }
    }
    // the next step takes the first of the eight tied cells
    assert_eq!(solver.step(8, 7), StepOutcome::Collapsed { x: 0, y: 0, category: B });
    assert_eq!(solver.step(7, 0), StepOutcome::Collapsed { x: 1, y: 0, category: A });
}

#[test]
fn step_on_finished_grid_changes_nothing() {
    let mut solver = two_category_solver(1, 1);
    assert_eq!(solver.step(0, 0), StepOutcome::Collapsed { x: 0, y: 0, category: A });
    assert_eq!(solver.step(3, 3), StepOutcome::Finished);
    assert_eq!(solver.cell(0, 0), Some(Cell::Resolved(A)));
    assert!(!solver.is_contradicted());
}

#[test]
fn run_resolves_every_cell_consistently() {
    let rules = alternating();
    for seed in 0..20u64 {
        let words: Vec<u64> = (0..40).map(|i| seed * 7919 + i * 104729).collect();
        let grid = two_category_solver(3, 3).run(&words, 0).ok().expect("no contradiction");
        assert_eq!(grid.width(), 3);
        assert_eq!(grid.height(), 3);
        assert_consistent(&grid, &rules);
        let corner = category(&grid, 0, 0);
        for y in 0..3 {
            for x in 0..3 {
                let expected = if (x + y) % 2 == 0 { corner } else if corner == A { B } else { A };
                assert_eq!(category(&grid, x, y), expected);
            }
        }
    }
}

#[test]
fn run_with_the_same_words_is_the_same() {
    let rules = both_ways();
    let words: Vec<u64> = (0..400u64).map(|i| i.wrapping_mul(0x9E37_79B9_7F4A_7C15) >> 7).collect();
    let one = GridSolver::initialize(rules, 8, 6).run(&words, 3);
    let two = GridSolver::initialize(rules, 8, 6).run(&words, 3);
    let grid = one.ok().expect("a wall goes beside everything when declarations hold both ways");
    assert_eq!(Ok(grid.cells()), cells(two));
    assert_consistent(&grid, &rules);
    let other: Vec<u64> = words.iter().map(|w| w ^ 0x55).collect();
    let three = GridSolver::initialize(rules, 8, 6).run(&other, 3);
    assert_ne!(Ok(grid.cells()), cells(three));
}

#[test]
fn run_without_words_takes_the_first_choice_each_time() {
    let grid = two_category_solver(2, 2).run(&vec![], 0).ok().unwrap();
    assert_eq!(category(&grid, 0, 0), A);
    assert_eq!(category(&grid, 1, 0), B);
    assert_eq!(category(&grid, 0, 1), B);
    assert_eq!(category(&grid, 1, 1), A);
}

#[test]
fn run_propagates_pins_before_the_first_step() {
    let mut solver = two_category_solver(3, 1);
    assert!(solver.pin(2, 0, B));
    let grid = solver.run(&vec![1, 1, 1, 1, 1, 1], 0).ok().unwrap();
    assert_eq!(category(&grid, 0, 0), B);
    assert_eq!(category(&grid, 1, 0), A);
    assert_eq!(category(&grid, 2, 0), B);
}

#[test]
fn pins_that_cannot_go_together_contradict() {
    let mut solver = two_category_solver(2, 1);
    assert!(solver.pin(0, 0, A));
    assert!(solver.pin(1, 0, A));
    assert!(!solver.is_contradicted());
    assert_eq!(cells(solver.run(&vec![], 0)), Err(Contradiction));
}

#[test]
fn empty_rules_contradict_on_the_first_step() {
    let mut solver = GridSolver::initialize(AdjacencyRuleSet::new(), 2, 2);
    assert_eq!(solver.step(0, 0), StepOutcome::Contradiction);
    assert!(solver.is_contradicted());
    assert_eq!(solver.step(0, 0), StepOutcome::Contradiction);
}

#[test]
fn single_cell_needs_no_neighbour() {
    let solver = GridSolver::initialize(AdjacencyRuleSet::new(), 1, 1);
    let grid = solver.run(&vec![0, 8], 0).ok().unwrap();
    assert_eq!(category(&grid, 0, 0), ZoneType::Wall);
}

#[test]
fn asymmetric_rule_is_applied_in_its_direction_only() {
    // A admits B to its west (the larger x) and nothing else is registered:
    // B admits nothing to its east, so the pair contradicts
    let mut rules = AdjacencyRuleSet::new();
    rules.allow(A, Direction::West, CategorySet::only(B));
    let mut solver = GridSolver::initialize(rules, 2, 1);
    assert!(solver.pin(0, 0, A));
    assert!(solver.pin(1, 0, B));
    assert_eq!(cells(solver.run(&vec![], 0)), Err(Contradiction));
    // with the facing rule declared too, the pair stands
    rules.allow(B, Direction::East, CategorySet::only(A));
    let mut solver = GridSolver::initialize(rules, 2, 1);
    assert!(solver.pin(0, 0, A));
    assert!(solver.pin(1, 0, B));
    let grid = solver.run(&vec![], 0).ok().unwrap();
    assert_eq!(category(&grid, 0, 0), A);
    assert_eq!(category(&grid, 1, 0), B);
}

#[test]
fn word_is_zero_past_the_end() {
    let words = vec![5, 6, 7];
    assert_eq!(word(&words, 0, 0), 5);
    assert_eq!(word(&words, 1, 1), 7);
    assert_eq!(word(&words, 2, 1), 0);
    assert_eq!(word(&words, usize::MAX, 1), 0);
    assert_eq!(word(&words, 1, usize::MAX), 0);
}

#[test]
fn grid_cells_and_neighbours() {
    let mut grid = Grid::new(3, 2, Cell::Resolved(ZoneType::Wall));
    assert_eq!(grid.place_count(), 6);
    grid.set(2, 1, Cell::Resolved(ZoneType::Temple));
    assert_eq!(grid.get(2, 1), Cell::Resolved(ZoneType::Temple));
    assert_eq!(grid.at_place(5), Cell::Resolved(ZoneType::Temple));
    assert_eq!(grid.get(1, 1), Cell::Resolved(ZoneType::Wall));
    assert_eq!(grid.neighbor(0, 0, Direction::North), None);
    assert_eq!(grid.neighbor(0, 0, Direction::East), None);
    assert_eq!(grid.neighbor(0, 0, Direction::South), Some((0, 1)));
    assert_eq!(grid.neighbor(0, 0, Direction::West), Some((1, 0)));
    assert_eq!(grid.neighbor(2, 1, Direction::West), None);
    assert_eq!(grid.neighbor(2, 1, Direction::South), None);
    assert_eq!(grid.neighbor(2, 1, Direction::East), Some((1, 1)));
    assert_eq!(Cell::Resolved(ZoneType::Wall).entropy(), 1);
    assert_eq!(Cell::Unresolved(CategorySet::all()).entropy(), 9);
    let all = grid.cells();
    assert_eq!(all.len(), 6);
    assert_eq!(all[5], Cell::Resolved(ZoneType::Temple));
    assert_eq!(all[0], Cell::Resolved(ZoneType::Wall));
}

#[test]
fn cells_are_kept_as_words() {
    for i in 0..9u8 {
        let c = ZoneType::from_ordinal(i).unwrap();
        let cell = Cell::Resolved(c);
        assert_eq!(cell.encode(), 512 + i as u16);
        assert_eq!(Cell::decode(cell.encode()), cell);
    }
    let open = Cell::Unresolved(CategorySet::only(ZoneType::Shelter).with(ZoneType::Wall));
    assert_eq!(open.encode(), 0b1_0000_0001);
    assert_eq!(Cell::decode(0b1_0000_0001), open);
    assert_eq!(Cell::decode(0), Cell::Unresolved(CategorySet::empty()));
    assert_eq!(Cell::decode(511), Cell::Unresolved(CategorySet::all()));
    assert_eq!(Cell::decode(600), Cell::Resolved(ZoneType::Wall));
    assert_eq!(CategorySet::from_bits(0xFFFF), CategorySet::all());
    assert_eq!(CategorySet::all().to_bits(), 511);
    let mut grid = Grid::new(2, 2, open);
    assert_eq!(grid.get(1, 1), open);
    grid.set_place(2, Cell::Resolved(ZoneType::Temple));
    assert_eq!(grid.get(0, 1), Cell::Resolved(ZoneType::Temple));
    assert_eq!(grid.get(1, 0), open);
}

#[test]
fn standard_rules_contradict_where_a_declaration_is_not_returned() {
    // a sanctuary was declared to admit a treasure room, but a treasure
    // room no sanctuary: the pair cannot stand
    let rules = AdjacencyRuleSet::standard();
    let mut solver = GridSolver::initialize(rules, 2, 1);
    assert!(solver.pin(0, 0, ZoneType::Sanctuary));
    assert!(solver.pin(1, 0, ZoneType::TreasureRoom));
    assert_eq!(cells(solver.run(&vec![], 0)), Err(Contradiction));
    // a shelter and a wall were declared to admit each other
    let mut solver = GridSolver::initialize(rules, 2, 1);
    assert!(solver.pin(0, 0, ZoneType::Shelter));
    assert!(solver.pin(1, 0, ZoneType::Wall));
    let grid = solver.run(&vec![], 0).ok().unwrap();
    assert_consistent(&grid, &rules);
    // with the declarations made both ways the first pair stands too
    let mut solver = GridSolver::initialize(both_ways(), 2, 1);
    assert!(solver.pin(0, 0, ZoneType::Sanctuary));
    assert!(solver.pin(1, 0, ZoneType::TreasureRoom));
    assert!(solver.run(&vec![], 0).is_ok());
}
