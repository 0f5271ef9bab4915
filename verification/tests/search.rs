use tictactoe::board::{Marker, Position};
use tictactoe::engine::{eval, find_best_move, minimax, SEARCH_DEPTH};

fn board(notation: &str) -> Position {
    Position::from(notation).unwrap()
}

/// Minimax as the textbook has it, with nothing pruned.
fn plain(p: Position, depth: u8, maximize: bool) -> (i64, usize) {
    if depth == 0 || p.winning().is_some() || p.draw() {
        if p.winning().is_none() {
            return (0, 0);
        }
        let score = 100 - i64::from(depth);
        return (if maximize { -score } else { score }, 0);
    }
    let mut best = if maximize { i64::MIN } else { i64::MAX };
    let mut cell = 0;
    for i in 0..9 {
        if p.0[i] == Marker::Empty {
            let v = plain(p.make_move(i), depth - 1, !maximize).0;
            if (maximize && v > best) || (!maximize && v < best) {
                best = v;
                cell = i;
            }
        }
    }
    (best, cell)
}

/// The positions that `plies` moves lead to from the empty board.
fn after_plies(plies: usize) -> Vec<Position> {
    let mut level = vec![Position::new()];
    for _ in 0..plies {
        let mut next = Vec::new();
        for p in &level {
            for cell in 0..9 {
                if p.0[cell] == Marker::Empty {
                    next.push(p.make_move(cell));
                }
            }
        }
        level = next;
    }
    level
}

#[test]
fn search_depth_covers_the_board() {
    assert_eq!(SEARCH_DEPTH, 9);
}

#[test]
fn empty_board_is_a_draw_from_the_first_cell() {
    assert_eq!(find_best_move(Position::new()), (0, 0));
}

#[test]
fn a_win_in_one_is_taken() {
    let p = board("x|x||o|o||||");
    assert_eq!(p.player(), Marker::X);
    assert_eq!(find_best_move(p), (92, 2));
    assert_eq!(p.make_move(2).winning(), Some(Marker::X));
}

#[test]
fn two_in_the_top_row_draw_the_move_to_the_third_cell() {
    let p = board("x|x||||||o|");
    let found = find_best_move(p);
    assert_eq!(found.1, 2);
    assert_eq!(found, plain(p, 9, true));
    assert_eq!(found.0, 0);
}

#[test]
fn a_completed_line_gets_the_static_score() {
    let p = board("x|o|x|o|x|o|x||");
    assert_eq!(p.winning(), Some(Marker::X));
    assert_eq!(find_best_move(p), (-91, 0));
}

#[test]
fn two_cells_from_the_end_the_loss_is_avoided() {
    let p = board("x|o|x|o|x|x|o||");
    assert_eq!(p.winning(), None);
    assert_eq!(p.player(), Marker::O);
    assert_eq!(find_best_move(p), (0, 8));
    let next = p.make_move(8);
    assert_eq!(next.winning(), None);
    assert_eq!(find_best_move(next), (0, 7));
    let last = next.make_move(7);
    assert_eq!(last.winning(), None);
    assert!(last.draw());
    // The other move loses at once.
    assert_eq!(p.make_move(7).make_move(8).winning(), Some(Marker::X));
    assert_eq!(plain(p.make_move(7), 8, false).0, -93);
}

#[test]
fn a_full_board_has_no_move() {
    let p = board("x|o|x|x|o|o|o|x|x");
    assert!(p.draw());
    assert_eq!(find_best_move(p), (0, 0));
}

#[test]
fn a_line_scores_a_hundred_less_the_depth() {
    let won = board("x|x|x|o|o||||");
    assert_eq!(eval(won, 9, true), -91);
    assert_eq!(eval(won, 9, false), 91);
    assert_eq!(eval(won, 7, true), -93);
    assert_eq!(eval(won, 0, true), -100);
    assert_eq!(eval(won, 0, false), 100);
}

#[test]
fn no_line_scores_nothing() {
    let drawn = board("x|o|x|x|o|o|o|x|x");
    let open = board("x|o|||||||");
    for depth in [0, 1, 9, 100, 255] {
        for maximize in [true, false] {
            assert_eq!(eval(drawn, depth, maximize), 0);
            assert_eq!(eval(open, depth, maximize), 0);
            assert_eq!(eval(Position::new(), depth, maximize), 0);
        }
    }
}

#[test]
fn beyond_a_hundred_plies_the_score_turns_over() {
    let won = board("x|x|x|o|o||||");
    assert_eq!(eval(won, 99, true), -1);
    assert_eq!(eval(won, 100, true), 0);
    assert_eq!(eval(won, 100, false), 0);
    assert_eq!(eval(won, 255, true), 155);
    assert_eq!(eval(won, 255, false), -155);
}

#[test]
fn pruning_changes_nothing_in_the_first_two_plies() {
    for plies in 0..2 {
        for p in after_plies(plies) {
            assert_eq!(find_best_move(p), plain(p, 9, true));
        }
    }
}

#[test]
fn pruning_changes_nothing_after_two_plies() {
    for p in after_plies(2) {
        assert_eq!(find_best_move(p), plain(p, 9, true));
    }
}

#[test]
fn pruning_changes_nothing_after_three_and_four_plies() {
    for plies in 3..5 {
        for p in after_plies(plies) {
            assert_eq!(find_best_move(p), plain(p, 9, true));
        }
    }
}

#[test]
fn pruning_changes_nothing_on_boards_that_no_game_reaches() {
    for text in ["o|o|||||||", "o||o||x||||", "x|x|x|x|||||", "|o|o|o|x|||o|", "x|x|o|o|||||x"] {
        let p = board(text);
        assert_eq!(find_best_move(p), plain(p, 9, true));
    }
}

#[test]
fn the_move_is_an_empty_cell_while_the_game_is_open() {
    for plies in 0..5 {
        for p in after_plies(plies) {
            if p.winning().is_none() && !p.draw() {
                let (_, cell) = find_best_move(p);
                assert!(cell < 9);
                assert_eq!(p.0[cell], Marker::Empty);
            }
        }
    }
}

#[test]
fn no_other_move_is_worth_more_and_none_before_it_as_much() {
    for p in after_plies(3) {
        if p.winning().is_some() || p.draw() {
            continue;
        }
        let (value, cell) = find_best_move(p);
        assert_eq!(plain(p.make_move(cell), 8, false).0, value);
        for other in 0..9 {
            if p.0[other] == Marker::Empty {
                let worth = plain(p.make_move(other), 8, false).0;
                assert!(worth <= value);
                if other < cell {
                    assert!(worth < value);
                }
            }
        }
    }
}

#[test]
fn scores_are_nothing_or_near_a_hundred() {
    for plies in 0..5 {
        for p in after_plies(plies) {
            let (value, _) = find_best_move(p);
            assert!(value == 0 || (91..=100).contains(&value) || (-100..=-91).contains(&value));
        }
    }
}

#[test]
fn the_whole_window_is_what_find_best_move_searches() {
    for p in after_plies(2) {
        assert_eq!(minimax(p, 9, i64::MIN, i64::MAX, true), find_best_move(p));
    }
}

#[test]
fn any_window_that_holds_all_scores_gives_the_same() {
    for p in after_plies(2) {
        assert_eq!(minimax(p, 9, -156, 156, true), plain(p, 9, true));
        assert_eq!(minimax(p, 9, -101, 101, false), plain(p, 9, false));
    }
}

#[test]
fn the_minimizing_side_is_searched_alike() {
    for p in after_plies(2) {
        assert_eq!(minimax(p, 9, i64::MIN, i64::MAX, false), plain(p, 9, false));
    }
    let p = board("x|x||o|o||||");
    assert_eq!(minimax(p, 9, i64::MIN, i64::MAX, false), (-92, 2));
}

#[test]
fn a_score_inside_the_window_is_exact() {
    assert_eq!(minimax(Position::new(), 9, -1, 1, true).0, 0);
    let p = board("x|x||o|o||||");
    assert_eq!(minimax(p, 9, 0, 100, true).0, 92);
}

#[test]
fn a_score_outside_the_window_bounds_the_true_one() {
    // The true score is 0: at or below `alpha` the search returns no less
    // than it, at or above `beta` no more.
    let low = minimax(Position::new(), 9, 50, 60, true).0;
    assert!(0 <= low && low <= 50);
    let high = minimax(Position::new(), 9, -60, -50, true).0;
    assert!(-50 <= high && high <= 0);
    // The true score is 92.
    let p = board("x|x||o|o||||");
    let cut = minimax(p, 9, 0, 50, true).0;
    assert!(50 <= cut && cut <= 92);
}

#[test]
fn an_empty_window_still_looks_at_the_first_move() {
    let p = board("x|x||o|o||||");
    assert_eq!(minimax(p, 9, 10, 10, true), (92, 2));
    assert_eq!(minimax(Position::new().make_move(4), 9, 5, -5, true).1, 0);
}

#[test]
fn no_depth_left_stops_the_search() {
    assert_eq!(minimax(Position::new(), 0, i64::MIN, i64::MAX, true), (0, 0));
    let won = board("x|x|x|o|o||||");
    assert_eq!(minimax(won, 0, i64::MIN, i64::MAX, true), (-100, 0));
    assert_eq!(minimax(won, 0, i64::MIN, i64::MAX, false), (100, 0));
}

#[test]
fn a_shallow_search_sees_the_next_move_only() {
    let p = board("x|x||o|o||||");
    assert_eq!(minimax(p, 1, i64::MIN, i64::MAX, true), (100, 2));
    assert_eq!(minimax(Position::new(), 1, i64::MIN, i64::MAX, true), (0, 0));
    for depth in 1..9 {
        assert_eq!(
            minimax(p, depth, i64::MIN, i64::MAX, true),
            plain(p, depth, true)
        );
    }
}

#[test]
fn the_search_gives_the_same_answer_twice() {
    for p in after_plies(2) {
        assert_eq!(find_best_move(p), find_best_move(p));
    }
}

/// Whether the player to move can make sure of a line of its own, by trying
/// every move and every answer.
fn can_win(p: Position) -> bool {
    if p.winning().is_some() || p.draw() {
        return false;
    }
    (0..9).any(|cell| p.0[cell] == Marker::Empty && has_lost(p.make_move(cell)))
}

/// Whether the player to move has lost: the other side has its line, or can
/// make sure of one whatever is played.
fn has_lost(p: Position) -> bool {
    if p.winning().is_some() {
        return true;
    }
    if p.draw() {
        return false;
    }
    (0..9).all(|cell| p.0[cell] != Marker::Empty || can_win(p.make_move(cell)))
}

#[test]
fn the_sign_of_the_score_says_who_wins() {
    for plies in 2..6 {
        for p in after_plies(plies) {
            let (value, _) = find_best_move(p);
            assert_eq!(value > 0, can_win(p));
            assert_eq!(value < 0, has_lost(p));
        }
    }
}

#[test]
fn the_move_does_not_hand_the_game_over() {
    for plies in 2..6 {
        for p in after_plies(plies) {
            if p.winning().is_some() || p.draw() {
                continue;
            }
            let (_, cell) = find_best_move(p);
            let safe = (0..9).any(|c| p.0[c] == Marker::Empty && !can_win(p.make_move(c)));
            if safe {
                assert!(!can_win(p.make_move(cell)));
            }
            if can_win(p) {
                assert!(has_lost(p.make_move(cell)));
            }
        }
    }
}

#[test]
fn plies_beyond_the_end_keep_the_sign() {
    for p in after_plies(4) {
        let nine = minimax(p, 9, i64::MIN, i64::MAX, true).0;
        for depth in 5..9 {
            let less = minimax(p, depth, i64::MIN, i64::MAX, true).0;
            assert_eq!(less.signum(), nine.signum());
        }
    }
}
