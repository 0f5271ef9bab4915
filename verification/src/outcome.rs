//! What a score means for the game: who can make sure of a win.
use vstd::prelude::*;
use crate::board::{
    after_move, lemma_move_fills_a_cell, lemma_occurrences, occurrences, winner_of, Marker,
};
use crate::engine::{is_leaf, plain_search};
use crate::pruning::{lemma_plain_search_is_best, open_below, reply_value, searchable};

verus! {

/// The side to move can make sure of a win within `depth` plies: it has a
/// move after which the other side has lost.
pub open spec fn mover_wins(cells: Seq<Marker>, depth: nat) -> bool
    decreases depth,
{
    !is_leaf(cells, depth) && exists|c: int| #[trigger]
        open_below(cells, 9, c) && mover_loses(after_move(cells, c), (depth - 1) as nat)
}

/// The side to move has lost within `depth` plies: a line is complete, which
/// belongs to the side that moved last, or every move leads to a position
/// from which the other side can make sure of a win.
pub open spec fn mover_loses(cells: Seq<Marker>, depth: nat) -> bool
    decreases depth,
{
    winner_of(cells) is Some || (!is_leaf(cells, depth) && forall|c: int| #[trigger]
        open_below(cells, 9, c) ==> mover_wins(after_move(cells, c), (depth - 1) as nat))
}

/// A score as the side to move sees it: positive where that side is ahead.
pub open spec fn for_mover(v: int, maximize: bool) -> int {
    if maximize {
        v
    } else {
        -v
    }
}

/// The sign of the plain search's score says who can make sure of a win:
/// the score favours the side to move exactly when that side can, and is
/// against it exactly when it has lost. A score of 0 means that neither side
/// can make sure of a win within the depth.
pub proof fn lemma_score_tells_outcome(cells: Seq<Marker>, depth: nat, maximize: bool)
    requires
        searchable(cells, depth),
        depth < 100,
    ensures
        for_mover(plain_search(cells, depth, maximize).0, maximize) > 0 <==> mover_wins(
            cells,
            depth,
        ),
        for_mover(plain_search(cells, depth, maximize).0, maximize) < 0 <==> mover_loses(
            cells,
            depth,
        ),
    decreases depth,
{
    if !is_leaf(cells, depth) {
        let found = plain_search(cells, depth, maximize);
        let below = (depth - 1) as nat;
        lemma_plain_search_is_best(cells, depth, maximize);
        assert forall|c: int| #[trigger] open_below(cells, 9, c) implies ({
            let v = reply_value(cells, depth, maximize, c);
            &&& for_mover(v, maximize) > 0 <==> mover_loses(after_move(cells, c), below)
            &&& for_mover(v, maximize) < 0 <==> mover_wins(after_move(cells, c), below)
            &&& for_mover(v, maximize) <= for_mover(found.0, maximize)
        }) by {
            lemma_score_tells_outcome(after_move(cells, c), below, !maximize);
        }
    }
}

/// The move to `cell` is as good as any for the side that makes it: where
/// that side can make sure of a win within `depth` plies, the move keeps the
/// win; and where some move keeps the other side from making sure of a win,
/// so does this one.
pub open spec fn keeps_outcome(cells: Seq<Marker>, depth: nat, cell: int) -> bool {
    let below = (depth - 1) as nat;
    &&& open_below(cells, 9, cell)
    &&& mover_wins(cells, depth) ==> mover_loses(after_move(cells, cell), below)
    &&& (exists|c: int| #[trigger]
        open_below(cells, 9, c) && !mover_wins(after_move(cells, c), below)) ==> !mover_wins(
        after_move(cells, cell),
        below,
    )
}

/// The move of the plain search is as good as any for the side that makes
/// it: it never lets the other side make sure of a win where another move
/// would not, and it keeps a win that the mover can make sure of.
pub proof fn lemma_best_move_keeps_outcome(cells: Seq<Marker>, depth: nat, maximize: bool)
    requires
        searchable(cells, depth),
        depth < 100,
        !is_leaf(cells, depth),
    ensures
        keeps_outcome(cells, depth, plain_search(cells, depth, maximize).1),
{
    let found = plain_search(cells, depth, maximize);
    let below = (depth - 1) as nat;
    lemma_plain_search_is_best(cells, depth, maximize);
    lemma_score_tells_outcome(cells, depth, maximize);
    lemma_score_tells_outcome(after_move(cells, found.1), below, !maximize);
    if exists|c: int| #[trigger]
        open_below(cells, 9, c) && !mover_wins(after_move(cells, c), below) {
        let c = choose|c: int| #[trigger]
            open_below(cells, 9, c) && !mover_wins(after_move(cells, c), below);
        lemma_score_tells_outcome(after_move(cells, c), below, !maximize);
    }
}

/// Neither side can make sure of a win within `depth` plies.
pub open spec fn balanced(cells: Seq<Marker>, depth: nat) -> bool {
    !mover_wins(cells, depth) && !mover_loses(cells, depth)
}

/// Plies beyond the end of the game change nothing: with a depth of at least
/// the number of empty cells, who can make sure of a win does not depend on
/// the depth.
pub proof fn lemma_outcome_past_the_end(cells: Seq<Marker>, d1: nat, d2: nat)
    requires
        cells.len() == 9,
        occurrences(cells, Marker::Empty) <= d1,
        occurrences(cells, Marker::Empty) <= d2,
    ensures
        mover_wins(cells, d1) == mover_wins(cells, d2),
        mover_loses(cells, d1) == mover_loses(cells, d2),
    decreases d1,
{
    lemma_occurrences(cells, Marker::Empty);
    if !is_leaf(cells, d1) {
        assert forall|c: int| #[trigger] open_below(cells, 9, c) implies ({
            let next = after_move(cells, c);
            &&& mover_wins(next, (d1 - 1) as nat) == mover_wins(next, (d2 - 1) as nat)
            &&& mover_loses(next, (d1 - 1) as nat) == mover_loses(next, (d2 - 1) as nat)
        }) by {
            lemma_move_fills_a_cell(cells, c);
            lemma_outcome_past_the_end(after_move(cells, c), (d1 - 1) as nat, (d2 - 1) as nat);
        }
    } else {
    }
}

} // verus!
