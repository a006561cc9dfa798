use rogue_xork::reach::search;

fn map(rows: &[&str]) -> (Vec<bool>, usize, usize) {
    let h = rows.len();
    let w = rows[0].len();
    let mut open = Vec::new();
    for r in rows {
        for c in r.chars() {
            open.push(c == '.');
        }
    }
    (open, w, h)
}

#[test]
fn open_grid_connects_corners() {
    let (open, w, h) = map(&["...", "...", "..."]);
    assert!(search(&open, w, h, (0, 0), (2, 2)));
    assert!(search(&open, w, h, (2, 2), (0, 0)));
}

#[test]
fn cell_reaches_itself_when_open() {
    let (open, w, h) = map(&[".#", "##"]);
    assert!(search(&open, w, h, (0, 0), (0, 0)));
    assert!(!search(&open, w, h, (1, 1), (1, 1)));
}

#[test]
fn wall_across_the_grid_separates() {
    let (open, w, h) = map(&["..#..", "..#..", "..#.."]);
    assert!(!search(&open, w, h, (0, 0), (4, 2)));
    assert!(search(&open, w, h, (0, 0), (1, 2)));
    assert!(search(&open, w, h, (3, 0), (4, 2)));
}

#[test]
fn diagonal_moves_are_not_allowed() {
    let (open, w, h) = map(&[".#", "#."]);
    assert!(!search(&open, w, h, (0, 0), (1, 1)));
}

#[test]
fn grid_does_not_wrap() {
    let (open, w, h) = map(&[".#.", "###", "..."]);
    assert!(!search(&open, w, h, (0, 0), (2, 0)));
    assert!(!search(&open, w, h, (0, 0), (0, 2)));
}

#[test]
fn winding_path_is_found() {
    let (open, w, h) = map(&[
        ".####", 
        ".....", 
        "####.", 
        ".....", 
        ".####",
        ".....",
    ]);
    assert!(search(&open, w, h, (0, 0), (4, 5)));
}

#[test]
fn fully_blocked_grid_ends_with_false() {
    let (open, w, h) = map(&["###", "###"]);
    assert!(!search(&open, w, h, (0, 0), (2, 1)));
}

#[test]
fn closed_ends_are_not_reached() {
    let (open, w, h) = map(&["..#"]);
    assert!(!search(&open, w, h, (0, 0), (2, 0)));
    assert!(!search(&open, w, h, (2, 0), (0, 0)));
}

#[test]
fn places_off_the_grid_are_not_reached() {
    let (open, w, h) = map(&["...", "..."]);
    assert!(!search(&open, w, h, (0, 0), (3, 0)));
    assert!(!search(&open, w, h, (0, 2), (0, 0)));
}

#[test]
fn map_of_wrong_length_connects_nothing() {
    let open = vec![true; 5];
    assert!(!search(&open, 2, 2, (0, 0), (1, 1)));
    assert!(!search(&open, usize::MAX, 2, (0, 0), (0, 0)));
}

#[test]
fn large_open_grid() {
    let open = vec![true; 100 * 100];
    assert!(search(&open, 100, 100, (0, 0), (99, 99)));
}
