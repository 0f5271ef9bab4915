//! The engine in use: the answer to a request for a move, and a game that
//! the engine plays against itself.
use vstd::prelude::*;
use crate::board::{
    after_move, is_draw, is_full, lemma_move_fills_a_cell, lemma_occurrences, occurrences,
    player_of, winner_of, Marker, Position,
};
use crate::engine::{find_best_move, plain_search, SEARCH_DEPTH};
use crate::outcome::{balanced, lemma_best_move_keeps_outcome, lemma_outcome_past_the_end};
use crate::pruning::lemma_plain_search_is_best;
use crate::{Eval, Move};

verus! {

/// The answer to a request for a move.
#[derive(Clone, Copy, Debug, PartialEq, Eq, Structural)]
pub enum Reply {
    /// The game is over: this marker holds a line. The engine was not asked.
    Winner(Marker),
    /// The game is over without a winner. The engine was not asked.
    Draw,
    /// The game is open: who moves, the score of the best move, and its cell.
    Plays { player: Marker, eval: Eval, cell: Move },
}

/// The game is over: a line is complete or no cell is empty.
pub open spec fn game_over(cells: Seq<Marker>) -> bool {
    winner_of(cells) is Some || is_draw(cells)
}

/// The position in which a game ends when, from `cells` on, each side plays
/// the engine's move.
pub open spec fn played_out(cells: Seq<Marker>) -> Seq<Marker>
    decreases occurrences(cells, Marker::Empty),
    via played_out_ends
{
    if cells.len() != 9 || game_over(cells) {
        cells
    } else {
        played_out(after_move(cells, plain_search(cells, SEARCH_DEPTH as nat, true).1))
    }
}

#[via_fn]
proof fn played_out_ends(cells: Seq<Marker>) {
    if cells.len() == 9 && !game_over(cells) {
        lemma_plain_search_is_best(cells, SEARCH_DEPTH as nat, true);
        lemma_move_fills_a_cell(cells, plain_search(cells, SEARCH_DEPTH as nat, true).1);
    }
}

/// A game that the engine plays against itself ends, and it ends in a draw
/// wherever it starts from a position in which neither side can make sure
/// of a win.
pub proof fn lemma_self_play_draws(cells: Seq<Marker>)
    requires
        cells.len() == 9,
    ensures
        played_out(cells).len() == 9,
        game_over(played_out(cells)),
        balanced(cells, SEARCH_DEPTH as nat) ==> is_draw(played_out(cells)),
    decreases occurrences(cells, Marker::Empty),
{
    let depth = SEARCH_DEPTH as nat;
    if !game_over(cells) {
        let cell = plain_search(cells, depth, true).1;
        let next = after_move(cells, cell);
        lemma_plain_search_is_best(cells, depth, true);
        lemma_move_fills_a_cell(cells, cell);
        lemma_self_play_draws(next);
        if balanced(cells, depth) {
            lemma_best_move_keeps_outcome(cells, depth, true);
            lemma_occurrences(cells, Marker::Empty);
            lemma_outcome_past_the_end(next, (depth - 1) as nat, depth);
        }
    }
}

/// Answers a request for a move: the engine is asked only where the game is
/// still open.
pub fn go(position: Position) -> (r: Reply)
    ensures
        match winner_of(position@) {
            Some(m) => r == Reply::Winner(m),
            None => if is_full(position@) {
                r == Reply::Draw
            } else {
                &&& r matches Reply::Plays { player, eval, cell }
                &&& player == player_of(position@)
                &&& (eval as int, cell as int) == plain_search(
                    position@,
                    SEARCH_DEPTH as nat,
                    true,
                )
                &&& cell < 9
                &&& position@[cell as int] == Marker::Empty
            },
        },
{
    if let Some(marker) = position.winning() {
        return Reply::Winner(marker);
    } else if position.draw() {
        return Reply::Draw;
    }
    let player = position.player();
    let found = find_best_move(position);
    Reply::Plays { player, eval: found.0, cell: found.1 }
}

/// Plays a game to its end from `position`, each side making the engine's
/// move, and returns the position in which it ends.
pub fn play_out(position: Position) -> (r: Position)
    ensures
        r@ == played_out(position@),
        game_over(r@),
        balanced(position@, SEARCH_DEPTH as nat) ==> is_draw(r@),
{
    let ghost start = position@;
    let mut position = position;
    proof {
        lemma_self_play_draws(start);
    }
    loop
        invariant
            played_out(position@) == played_out(start),
        ensures
            game_over(position@),
            played_out(position@) == played_out(start),
        decreases occurrences(position@, Marker::Empty),
    {
        if position.winning().is_some() || position.draw() {
            break ;
        }
        let found = find_best_move(position);
        proof {
            lemma_move_fills_a_cell(position@, found.1 as int);
        }
        position = position.make_move(found.1);
    }
    position
}

} // verus!
