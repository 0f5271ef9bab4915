//! The search: minimax over the whole game tree, with alpha-beta pruning.
use vstd::prelude::*;
use crate::board::{after_move, is_draw, is_full, winner_of, Marker, Position};
use crate::outcome::{
    keeps_outcome, lemma_best_move_keeps_outcome, lemma_score_tells_outcome, mover_loses,
    mover_wins,
};
use crate::pruning::{
    best_among, lemma_plain_search_is_best, lemma_pruned_search_sound,
    lemma_wide_window_is_exact, score_limit, score_shape, stands_for,
};
use crate::{Eval, Move};

verus! {

/// The number of plies that the search looks ahead: enough to reach the end
/// of every game.
pub const SEARCH_DEPTH: u8 = 9;

/// The search stops here: the budget of plies is used up, or the game is over.
pub open spec fn is_leaf(cells: Seq<Marker>, depth: nat) -> bool {
    depth == 0 || winner_of(cells) is Some || is_draw(cells)
}

/// The score of a position where the search stops, with `depth` plies of the
/// budget left. A complete line belongs to the side that moved last, the one
/// that is not to move now: it scores `100 - depth` for the maximizing side
/// and the negative of that against it. Anything else scores 0.
pub open spec fn static_value(cells: Seq<Marker>, depth: nat, maximize: bool) -> int {
    if winner_of(cells) is Some {
        if maximize {
            -(100 - depth)
        } else {
            100 - depth
        }
    } else {
        0
    }
}

/// The score that a side starts from before it has looked at any move.
pub open spec fn worst_for(maximize: bool) -> int {
    if maximize {
        i64::MIN as int
    } else {
        i64::MAX as int
    }
}

/// `v` is strictly better than `best` for the side to move.
pub open spec fn improves(v: int, best: int, maximize: bool) -> bool {
    if maximize {
        v > best
    } else {
        v < best
    }
}

/// Minimax without pruning: the score of a position and the move that
/// reaches it, the lowest cell among the best. At a leaf the move is 0 and
/// stands for nothing.
pub open spec fn plain_search(cells: Seq<Marker>, depth: nat, maximize: bool) -> (int, int)
    decreases depth, 10nat,
{
    if is_leaf(cells, depth) {
        (static_value(cells, depth, maximize), 0)
    } else {
        plain_scan(cells, depth, maximize, 9)
    }
}

/// The best score and move among the empty cells below `upto`, each move
/// scored by a plain search of the position it leads to.
pub open spec fn plain_scan(cells: Seq<Marker>, depth: nat, maximize: bool, upto: nat) -> (
    int,
    int,
)
    decreases depth, upto,
{
    if upto == 0 || depth == 0 {
        (worst_for(maximize), 0)
    } else {
        let prev = plain_scan(cells, depth, maximize, (upto - 1) as nat);
        let cell = upto - 1;
        if cells[cell] == Marker::Empty {
            let v = plain_search(after_move(cells, cell), (depth - 1) as nat, !maximize).0;
            if improves(v, prev.0, maximize) {
                (v, cell)
            } else {
                prev
            }
        } else {
            prev
        }
    }
}

/// Where a pruned scan of the cells stands: the best score and move so far,
/// the window as narrowed so far, and whether the scan has been cut off.
pub struct Scan {
    pub best: int,
    pub cell: int,
    pub alpha: int,
    pub beta: int,
    pub cut: bool,
}

/// A scan takes in the score `v` of the move to `cell`: a strictly better
/// score replaces the best and narrows the window on the mover's side, and
/// the scan is cut off once the window is empty.
pub open spec fn scan_step(prev: Scan, cell: int, v: int, maximize: bool) -> Scan {
    let better = improves(v, prev.best, maximize);
    let best = if better {
        v
    } else {
        prev.best
    };
    let cell = if better {
        cell
    } else {
        prev.cell
    };
    let alpha = if maximize && better && v > prev.alpha {
        v
    } else {
        prev.alpha
    };
    let beta = if !maximize && better && v < prev.beta {
        v
    } else {
        prev.beta
    };
    Scan { best, cell, alpha, beta, cut: beta <= alpha }
}

/// Minimax with alpha-beta pruning: what the search returns for a window
/// `alpha..beta`.
pub open spec fn pruned_search(
    cells: Seq<Marker>,
    depth: nat,
    alpha: int,
    beta: int,
    maximize: bool,
) -> (int, int)
    decreases depth, 10nat,
{
    if is_leaf(cells, depth) {
        (static_value(cells, depth, maximize), 0)
    } else {
        let s = pruned_scan(cells, depth, alpha, beta, maximize, 9);
        (s.best, s.cell)
    }
}

/// The pruned scan of the empty cells below `upto`, in ascending order: each
/// move is searched with the window as it then stands, and no cell is looked
/// at after a cut-off.
pub open spec fn pruned_scan(
    cells: Seq<Marker>,
    depth: nat,
    alpha: int,
    beta: int,
    maximize: bool,
    upto: nat,
) -> Scan
    decreases depth, upto,
{
    if upto == 0 || depth == 0 {
        Scan { best: worst_for(maximize), cell: 0, alpha, beta, cut: false }
    } else {
        let prev = pruned_scan(cells, depth, alpha, beta, maximize, (upto - 1) as nat);
        let cell = upto - 1;
        if prev.cut || cells[cell] != Marker::Empty {
            prev
        } else {
            let v = pruned_search(
                after_move(cells, cell),
                (depth - 1) as nat,
                prev.alpha,
                prev.beta,
                !maximize,
            ).0;
            scan_step(prev, cell, v, maximize)
        }
    }
}

/// After a cut-off the scan stays as it is.
pub proof fn lemma_cut_is_final(
    cells: Seq<Marker>,
    depth: nat,
    alpha: int,
    beta: int,
    maximize: bool,
    at: nat,
    upto: nat,
)
    requires
        at <= upto,
        pruned_scan(cells, depth, alpha, beta, maximize, at).cut,
    ensures
        pruned_scan(cells, depth, alpha, beta, maximize, upto) == pruned_scan(
            cells,
            depth,
            alpha,
            beta,
            maximize,
            at,
        ),
    decreases upto,
{
    if at < upto {
        lemma_cut_is_final(cells, depth, alpha, beta, maximize, at, (upto - 1) as nat);
    }
}

/// The score of a position where the search stops.
pub fn eval(position: Position, depth: u8, maximize: bool) -> (r: Eval)
    ensures
        r == static_value(position@, depth as nat, maximize),
        winner_of(position@) is None ==> r == 0,
        is_draw(position@) ==> r == 0,
        winner_of(position@) is Some && depth < 100 ==> (if maximize {
            r < 0
        } else {
            r > 0
        }),
{
    if position.winning().is_some() {
        let score: i64 = 100 - (depth as i64);
        if maximize {
            return -score;
        }
        return score;
    }
    0
}

/// Searches `position` to `depth` plies within the window `alpha..beta`,
/// for the maximizing side or against it. A window that holds every score
/// gives the score and the move of the plain search. A narrower one that is
/// not empty gives a score that stands for the true one: the same inside the
/// window, and a bound on it outside.
pub fn minimax(position: Position, depth: u8, alpha: Eval, beta: Eval, maximize: bool) -> (r: (
    Eval,
    Move,
))
    ensures
        (r.0 as int, r.1 as int) == pruned_search(
            position@,
            depth as nat,
            alpha as int,
            beta as int,
            maximize,
        ),
        alpha < beta ==> stands_for(
            r.0 as int,
            plain_search(position@, depth as nat, maximize).0,
            alpha as int,
            beta as int,
        ),
        alpha < -score_limit() && score_limit() < beta ==> (r.0 as int, r.1 as int)
            == plain_search(position@, depth as nat, maximize),
    decreases depth,
{
    proof {
        if alpha < beta {
            lemma_pruned_search_sound(
                position@,
                depth as nat,
                alpha as int,
                beta as int,
                maximize,
            );
        }
        if alpha < -score_limit() && score_limit() < beta {
            lemma_wide_window_is_exact(
                position@,
                depth as nat,
                alpha as int,
                beta as int,
                maximize,
            );
        }
    }
    let ghost cells = position@;
    let ghost alpha0 = alpha as int;
    let ghost beta0 = beta as int;
    let mut alpha = alpha;
    let mut beta = beta;
    let mut best_move: usize = 0;

    if depth == 0 || position.winning().is_some() || position.draw() {
        return (eval(position, depth, maximize), best_move);
    }
    let mut best_eval: i64 = if maximize {
        Eval::MIN
    } else {
        Eval::MAX
    };
    let mut i: usize = 0;
    while i < 9
        invariant_except_break
            i <= 9,
            pruned_scan(cells, depth as nat, alpha0, beta0, maximize, i as nat) == (Scan {
                best: best_eval as int,
                cell: best_move as int,
                alpha: alpha as int,
                beta: beta as int,
                cut: false,
            }),
        invariant
            cells == position@,
            depth > 0,
        ensures
            pruned_scan(cells, depth as nat, alpha0, beta0, maximize, 9).best == best_eval,
            pruned_scan(cells, depth as nat, alpha0, beta0, maximize, 9).cell == best_move,
        decreases 9 - i,
    {
        if position.0[i] == Marker::Empty {
            let new_eval = minimax(position.make_move(i), depth - 1, alpha, beta, !maximize);
            if maximize {
                if new_eval.0 > best_eval {
                    best_eval = new_eval.0;
                    best_move = i;
                    if new_eval.0 > alpha {
                        alpha = new_eval.0;
                    }
                }
            } else {
                if new_eval.0 < best_eval {
                    best_eval = new_eval.0;
                    best_move = i;
                    if new_eval.0 < beta {
                        beta = new_eval.0;
                    }
                }
            }
            if beta <= alpha {
                proof {
                    lemma_cut_is_final(
                        cells,
                        depth as nat,
                        alpha0,
                        beta0,
                        maximize,
                        (i + 1) as nat,
                        9,
                    );
                }
                break ;
            }
        }
        i += 1;
    }
    (best_eval, best_move)
}

/// The best move for the player to move, and what it is worth: the result
/// of the plain search of the whole game tree, which pruning does not
/// change. Where the game is still open the move is an empty cell, it is
/// worth the score returned, no other move is worth more and none before it
/// is worth as much; it never lets the other side make sure of a win where
/// another move would not. The score is positive exactly where the player to
/// move can make sure of a win, and negative exactly where that player has
/// lost. Where the game is over the score is the static one and the move, 0,
/// stands for nothing.
pub fn find_best_move(position: Position) -> (r: (Eval, Move))
    ensures
        (r.0 as int, r.1 as int) == plain_search(position@, SEARCH_DEPTH as nat, true),
        (r.0 as int, r.1 as int) == pruned_search(
            position@,
            SEARCH_DEPTH as nat,
            i64::MIN as int,
            i64::MAX as int,
            true,
        ),
        score_shape(r.0 as int, SEARCH_DEPTH as nat),
        winner_of(position@) is None && !is_full(position@) ==> {
            &&& r.1 < 9
            &&& position@[r.1 as int] == Marker::Empty
            &&& best_among(position@, SEARCH_DEPTH as nat, true, 9, r.0 as int, r.1 as int)
        },
        winner_of(position@) is None && !is_full(position@) ==> keeps_outcome(
            position@,
            SEARCH_DEPTH as nat,
            r.1 as int,
        ),
        r.0 > 0 <==> mover_wins(position@, SEARCH_DEPTH as nat),
        r.0 < 0 <==> mover_loses(position@, SEARCH_DEPTH as nat),
        winner_of(position@) is Some || is_full(position@) ==> r.1 == 0 && r.0 == static_value(
            position@,
            SEARCH_DEPTH as nat,
            true,
        ),
{
    proof {
        lemma_score_tells_outcome(position@, SEARCH_DEPTH as nat, true);
        if !is_leaf(position@, SEARCH_DEPTH as nat) {
            lemma_best_move_keeps_outcome(position@, SEARCH_DEPTH as nat, true);
        }
        lemma_wide_window_is_exact(
            position@,
            SEARCH_DEPTH as nat,
            i64::MIN as int,
            i64::MAX as int,
            true,
        );
        lemma_plain_search_is_best(position@, SEARCH_DEPTH as nat, true);
    }
    minimax(position, SEARCH_DEPTH, Eval::MIN, Eval::MAX, true)
}

} // verus!
