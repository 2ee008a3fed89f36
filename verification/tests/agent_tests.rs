use analytics_lib::agent3x3::SolutionAgent as ExhaustiveAgent;
use analytics_lib::agent5x5::{NodeKind, SolutionAgent as DeepeningAgent};
use analytics_lib::board::Cell::{Empty, O, Wall, X};
use analytics_lib::board::{Cell, Player};
use analytics_lib::heuristic::{checked_heuristic, eval_window, heuristic, heuristic_defined};
use analytics_lib::search::{BestMove, SearchFrame};

fn swap(c: Cell) -> Cell {
    match c {
        Cell::X => Cell::O,
        Cell::O => Cell::X,
        other => other,
    }
}

// The estimate written out directly, square by square and window by window.
fn estimate(cells: &Vec<Vec<Cell>>, score: i32) -> i32 {
    let n = cells.len() as i32;
    let mut total = score * 100;
    let center = n / 2;
    for i in 0..n {
        for j in 0..n {
            let bonus = n - ((i - center).abs() + (j - center).abs());
            match cells[i as usize][j as usize] {
                Cell::X => total += bonus,
                Cell::O => total -= bonus,
                _ => {}
            }
        }
    }
    for i in 0..n {
        for j in 0..n {
            for (di, dj) in [(0, 1), (1, 0), (1, 1), (1, -1)] {
                let (i2, j2, i3, j3) = (i + di, j + dj, i + 2 * di, j + 2 * dj);
                if i2 < 0 || j2 < 0 || i3 < 0 || j3 < 0 || i2 >= n || j2 >= n || i3 >= n || j3 >= n {
                    continue;
                }
                total += eval_window(
                    &cells[i as usize][j as usize],
                    &cells[i2 as usize][j2 as usize],
                    &cells[i3 as usize][j3 as usize],
                );
            }
        }
    }
    total
}

fn board(rows: &[&str]) -> Vec<Vec<Cell>> {
    rows.iter()
        .map(|r| {
            r.chars()
                .map(|c| match c {
                    'X' => Cell::X,
                    'O' => Cell::O,
                    '#' => Cell::Wall,
                    _ => Cell::Empty,
                })
                .collect()
        })
        .collect()
}

#[test]
fn windows_are_valued_by_their_pieces() {
    assert_eq!(eval_window(&X, &X, &Empty), 20);
    assert_eq!(eval_window(&Empty, &O, &O), -20);
    assert_eq!(eval_window(&X, &Empty, &Empty), 3);
    assert_eq!(eval_window(&Empty, &Empty, &O), -3);
    assert_eq!(eval_window(&X, &O, &Empty), 0);
    assert_eq!(eval_window(&X, &X, &Wall), 0);
    assert_eq!(eval_window(&X, &X, &X), 0);
    assert_eq!(eval_window(&Empty, &Empty, &Empty), 0);
}

#[test]
fn swapping_pieces_negates_a_window() {
    let all = [X, O, Empty, Wall];
    for a in all {
        for b in all {
            for c in all {
                assert_eq!(eval_window(&swap(a), &swap(b), &swap(c)), -eval_window(&a, &b, &c));
            }
        }
    }
}

#[test]
fn heuristic_of_boards() {
    let empty = board(&[".....", ".....", ".....", ".....", "....."]);
    assert_eq!(heuristic(&empty, 0), 0);
    let center = board(&[".....", ".....", "..X..", ".....", "....."]);
    // the centre piece: bonus 5, and one-piece windows: 3 each
    assert_eq!(heuristic(&center, 0), estimate(&center, 0));
    let mixed = board(&["X.O..", ".XO..", "..X#.", "O...#", "....X"]);
    assert_eq!(heuristic(&mixed, 1), estimate(&mixed, 1));
    assert_eq!(heuristic(&mixed, -2), estimate(&mixed, -2));
    let small = board(&["XX.", "O.O", "..#"]);
    assert_eq!(heuristic(&small, 0), estimate(&small, 0));
}

#[test]
fn heuristic_of_a_single_piece() {
    let b = board(&["...", ".X.", "..."]);
    // bonus 3 at the centre; windows through it: 4 lines of 3 with one X and two empty
    assert_eq!(heuristic(&b, 0), 3 + 4 * 3);
    assert_eq!(heuristic(&b, 2), 200 + 3 + 4 * 3);
}

#[test]
fn swapping_pieces_and_score_negates_the_estimate() {
    let b = board(&["X.O..", ".XO..", "..X#.", "O...#", "....X"]);
    let swapped: Vec<Vec<Cell>> = b.iter().map(|r| r.iter().map(|c| swap(*c)).collect()).collect();
    assert_eq!(heuristic(&swapped, -3), -heuristic(&b, 3));
}

#[test]
fn flip_exchanges_players() {
    assert_eq!(Player::X.flip(), Player::O);
    assert_eq!(Player::O.flip(), Player::X);
}

#[test]
fn best_reply_takes_the_first_best_move() {
    let moves = vec![(0, 0), (1, 1), (2, 2), (0, 2)];
    assert_eq!(ExhaustiveAgent::best_reply(Player::X, &moves, &vec![0, 1, -1, 1]), (1, 1, 1));
    assert_eq!(ExhaustiveAgent::best_reply(Player::O, &moves, &vec![0, 1, -1, -1]), (-1, 2, 2));
    assert_eq!(ExhaustiveAgent::best_reply(Player::X, &moves, &vec![0, 0, 0, 0]), (0, 0, 0));
    assert_eq!(ExhaustiveAgent::best_reply(Player::X, &vec![(1, 2)], &vec![i32::MIN]), (i32::MIN, 1, 2));
    assert_eq!(ExhaustiveAgent::finished(-1), (-1, 0, 0));
}

#[test]
fn best_move_replaces_only_on_strict_improvement() {
    let mut b = BestMove::new(Player::O, (0, 0));
    assert_eq!(b.result(), (i32::MAX, 0, 0));
    b.consider((1, 0), 5);
    b.consider((2, 0), 5);
    assert_eq!(b.result(), (5, 1, 0));
    b.consider((3, 0), 4);
    assert_eq!(b.result(), (4, 3, 0));
}

#[test]
fn alpha_beta_frame_prunes_when_bounds_cross() {
    let mut f = SearchFrame::new(Player::X, i32::MIN, 10, (0, 0));
    assert!(!f.absorb((0, 1), 4));
    assert_eq!((f.alpha(), f.beta()), (4, 10));
    assert!(!f.absorb((0, 2), 2));
    assert_eq!(f.alpha(), 4);
    assert!(f.absorb((0, 3), 12));
    assert_eq!(f.result(), (12, 0, 3));

    let mut g = SearchFrame::new(Player::O, 3, i32::MAX, (1, 1));
    assert!(!g.absorb((2, 2), 7));
    assert_eq!(g.beta(), 7);
    assert!(g.absorb((2, 3), 3));
    assert_eq!(g.result(), (3, 2, 3));
}

#[test]
fn nodes_are_classified_in_order() {
    assert_eq!(DeepeningAgent::classify(true, true, 0), NodeKind::OutOfTime);
    assert_eq!(DeepeningAgent::classify(false, true, 0), NodeKind::Finished);
    assert_eq!(DeepeningAgent::classify(false, false, 0), NodeKind::Horizon);
    assert_eq!(DeepeningAgent::classify(false, false, 3), NodeKind::Expand);
    assert_eq!(DeepeningAgent::leaf(7), (7, 0, 0));
}

#[test]
fn deepening_keeps_the_last_completed_answer() {
    assert_eq!(DeepeningAgent::after_depth((1, 0, 0), Some((5, 2, 3)), false), ((5, 2, 3), true));
    assert_eq!(DeepeningAgent::after_depth((1, 0, 0), Some((5, 2, 3)), true), ((5, 2, 3), false));
    assert_eq!(DeepeningAgent::after_depth((1, 4, 4), None, false), ((1, 4, 4), false));
}

#[test]
fn heuristic_check_refuses_ragged_boards_and_overflow() {
    let ragged = board(&["...", "..", "..."]);
    assert!(!heuristic_defined(&ragged, 0));
    assert_eq!(checked_heuristic(&ragged, 0), None);
    let b = board(&["...", ".X.", "..."]);
    assert!(!heuristic_defined(&b, i32::MAX / 50));
    assert!(!heuristic_defined(&b, 21474837));
    assert!(heuristic_defined(&b, 21474836));
    let full = board(&["XXXXX", "XXXXX", "XXXXX", "XXXXX", "XXXXX"]);
    assert_eq!(heuristic(&full, 0), 65);
    assert!(heuristic_defined(&full, 21474835));
    assert!(!heuristic_defined(&full, 21474836));
    assert_eq!(checked_heuristic(&b, 1), Some(100 + 3 + 12));
    let wide = board(&["X..X", "....", "....", "...."]);
    assert_eq!(checked_heuristic(&wide, 0), Some(heuristic(&wide, 0)));
}

#[test]
fn alpha_beta_node_bounds_the_true_value() {
    // children of an X node with true values 4, 9, 2, searched within (3, 8)
    let mut f = SearchFrame::new(Player::X, 3, 8, (0, 0));
    // first child, window (3, 8): true value 4 lies inside, so the score is exact
    assert!(!f.absorb((0, 0), 4));
    // second child, window (4, 8): true value 9 is above it; a fail-soft score of 8 or more
    assert!(f.absorb((0, 1), 9));
    let (r, _, _) = f.result();
    // the node fails high: its score is a lower bound of the largest child value
    assert!(r >= 8 && 9 >= r);

    let mut g = SearchFrame::new(Player::X, 0, 100, (0, 0));
    for (m, v) in [((0, 0), 4), ((0, 1), 9), ((0, 2), 2)] {
        assert!(!g.absorb(m, v));
    }
    // inside the window the score is exact
    assert_eq!(g.result(), (9, 0, 1));
}
