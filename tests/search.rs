use wooden_puzzle_solver::catalogue::catalogue;
use wooden_puzzle_solver::display::universe_rows;
use wooden_puzzle_solver::placement::{Dingus, Universe};
use wooden_puzzle_solver::search::turn_the_crank;

// A complete packing, labels 1..=7 in the order L, L, L, L, T, S, corner.
const PACKED: [i32; 27] = [
    1, 2, 3, 7, 6, 6, 7, 4, 5, 1, 2, 3, 6, 6, 5, 7, 4, 5, 1, 2, 3, 1, 2, 3, 4, 4, 5,
];

fn keep_below(label: i32) -> Universe {
    let mut u = Universe::new();
    for i in 0..27 {
        if PACKED[i] < label {
            u.cells[i] = PACKED[i];
        }
    }
    u
}

fn assert_sound_solution(u: &Universe, start: &Universe, pieces: &[&Dingus]) {
    for i in 0..27 {
        assert_ne!(u.cells[i], 0);
        if start.cells[i] != 0 {
            assert_eq!(u.cells[i], start.cells[i]);
        }
    }
    let n = pieces.len();
    for (k, d) in pieces.iter().enumerate() {
        let label = 8 - (n - k) as i32;
        let placed = (0..27).filter(|i| u.cells[*i] == label && start.cells[*i] == 0).count();
        assert_eq!(placed, d.points.len());
    }
}

#[test]
fn search_completes_the_packing_of_the_last_four_pieces() {
    let cat = catalogue();
    let dingi: Vec<&Dingus> = vec![&cat[0], &cat[1], &cat[2], &cat[3]];
    let start = keep_below(4);
    let mut out = Vec::new();
    turn_the_crank(&start, &dingi, &mut out);
    assert_eq!(out.len(), 48);
    assert!(out.iter().any(|u| u.cells == PACKED));
    for u in out.iter() {
        assert_sound_solution(u, &start, &dingi);
    }
}

#[test]
fn search_completes_the_packing_of_the_last_three_pieces() {
    let cat = catalogue();
    let dingi: Vec<&Dingus> = vec![&cat[1], &cat[2], &cat[3]];
    let start = keep_below(5);
    let mut out = Vec::new();
    turn_the_crank(&start, &dingi, &mut out);
    assert_eq!(out.len(), 8);
    assert!(out.iter().any(|u| u.cells == PACKED));
    for u in out.iter() {
        assert_sound_solution(u, &start, &dingi);
    }
}

#[test]
fn search_is_deterministic() {
    let cat = catalogue();
    let dingi: Vec<&Dingus> = vec![&cat[0], &cat[1], &cat[2], &cat[3]];
    let start = keep_below(4);
    let mut first = Vec::new();
    turn_the_crank(&start, &dingi, &mut first);
    let mut second = Vec::new();
    turn_the_crank(&start, &dingi, &mut second);
    assert_eq!(first, second);
}

#[test]
fn search_appends_after_existing_output() {
    let cat = catalogue();
    let dingi: Vec<&Dingus> = vec![&cat[3]];
    let start = keep_below(7);
    let mut out = vec![Universe::new()];
    turn_the_crank(&start, &dingi, &mut out);
    assert_eq!(out[0], Universe::new());
    assert!(out.len() > 1);
    assert!(out[1..].iter().all(|u| u.cells == PACKED));
}

#[test]
fn search_without_pieces_finds_nothing() {
    let mut out = Vec::new();
    turn_the_crank(&Universe::new(), &[], &mut out);
    assert!(out.is_empty());
}

#[test]
fn search_with_a_piece_that_cannot_fit_finds_nothing() {
    let cat = catalogue();
    let dingi: Vec<&Dingus> = vec![&cat[0]];
    let start = keep_below(7);
    let mut out = Vec::new();
    turn_the_crank(&start, &dingi, &mut out);
    assert!(out.is_empty());
}

#[test]
fn rows_run_from_top_slice_and_back_row() {
    let mut u = Universe::new();
    for i in 0..27 {
        u.cells[i] = i as i32;
    }
    let rows = universe_rows(&u);
    assert_eq!(rows.len(), 9);
    // (x, y, z) is stored at 9x + 3y + z
    assert_eq!(rows[0], (8, 17, 26));
    assert_eq!(rows[1], (5, 14, 23));
    assert_eq!(rows[2], (2, 11, 20));
    assert_eq!(rows[3], (7, 16, 25));
    assert_eq!(rows[8], (0, 9, 18));
}
