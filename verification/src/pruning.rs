//! Why pruning is safe: what the plain search returns is the best that the
//! mover can reach, and the pruned search returns the same.
use vstd::prelude::*;
use crate::board::{after_move, Marker};
use crate::engine::{
    improves, is_leaf, plain_scan, plain_search, pruned_scan, pruned_search, worst_for, Scan,
};

verus! {

/// The largest magnitude that a score can have while the depth fits in `u8`.
pub open spec fn score_limit() -> int {
    155
}

/// The scores that a search of `depth` plies can return: 0, or `100 - d` for
/// or against the maximizing side, where `d` is the depth left at a leaf.
pub open spec fn score_shape(v: int, depth: nat) -> bool {
    v == 0 || 100 - depth <= v <= 100 || -100 <= v <= depth - 100
}

/// A board and a depth that the search accepts.
pub open spec fn searchable(cells: Seq<Marker>, depth: nat) -> bool {
    cells.len() == 9 && depth <= u8::MAX
}

/// What the move to `cell` is worth to the side that makes it: the score of
/// the position it leads to, searched one ply less deep with the other side
/// to move.
pub open spec fn reply_value(cells: Seq<Marker>, depth: nat, maximize: bool, cell: int) -> int {
    plain_search(after_move(cells, cell), (depth - 1) as nat, !maximize).0
}

/// `cell` is an empty cell below `upto`.
pub open spec fn open_below(cells: Seq<Marker>, upto: int, cell: int) -> bool {
    0 <= cell < upto && cells[cell] == Marker::Empty
}

/// The pair `(v, cell)` is the best among the moves to the empty cells below
/// `upto`: the move is one of them and is worth `v`, none of them is worth
/// more to the mover, and every one before it is worth strictly less.
pub open spec fn best_among(
    cells: Seq<Marker>,
    depth: nat,
    maximize: bool,
    upto: int,
    v: int,
    cell: int,
) -> bool {
    &&& open_below(cells, upto, cell)
    &&& v == reply_value(cells, depth, maximize, cell)
    &&& forall|c: int| #[trigger]
        open_below(cells, upto, c) ==> !improves(
            reply_value(cells, depth, maximize, c),
            v,
            maximize,
        )
    &&& forall|c: int| #[trigger]
        open_below(cells, cell, c) ==> improves(
            v,
            reply_value(cells, depth, maximize, c),
            maximize,
        )
}

/// Every score lies within the limit, and away from a leaf the plain search
/// returns the best of the moves to the empty cells, the lowest cell among
/// equals.
pub proof fn lemma_plain_search_is_best(cells: Seq<Marker>, depth: nat, maximize: bool)
    requires
        searchable(cells, depth),
    ensures
        -score_limit() <= plain_search(cells, depth, maximize).0 <= score_limit(),
        score_shape(plain_search(cells, depth, maximize).0, depth),
        !is_leaf(cells, depth) ==> best_among(
            cells,
            depth,
            maximize,
            9,
            plain_search(cells, depth, maximize).0,
            plain_search(cells, depth, maximize).1,
        ),
    decreases depth, 10nat,
{
    if !is_leaf(cells, depth) {
        let c = choose|c: int| 0 <= c < 9 && cells[c] == Marker::Empty;
        assert(open_below(cells, 9, c));
        lemma_plain_scan_is_best(cells, depth, maximize, 9);
    }
}

/// The same for a scan of the cells below `upto`; with no empty cell among
/// them the scan returns what it started from.
proof fn lemma_plain_scan_is_best(cells: Seq<Marker>, depth: nat, maximize: bool, upto: nat)
    requires
        searchable(cells, depth),
        depth > 0,
        upto <= 9,
    ensures
        (exists|c: int| open_below(cells, upto as int, c)) ==> {
            &&& -score_limit() <= plain_scan(cells, depth, maximize, upto).0 <= score_limit()
            &&& score_shape(plain_scan(cells, depth, maximize, upto).0, depth)
            &&& best_among(
                cells,
                depth,
                maximize,
                upto as int,
                plain_scan(cells, depth, maximize, upto).0,
                plain_scan(cells, depth, maximize, upto).1,
            )
        },
        !(exists|c: int| open_below(cells, upto as int, c)) ==> plain_scan(
            cells,
            depth,
            maximize,
            upto,
        ) == (worst_for(maximize), 0int),
    decreases depth, upto,
{
    if upto > 0 {
        let before = (upto - 1) as nat;
        let cell = upto - 1;
        let prev = plain_scan(cells, depth, maximize, before);
        lemma_plain_scan_is_best(cells, depth, maximize, before);
        assert forall|c: int| open_below(cells, upto as int, c) implies open_below(
            cells,
            before as int,
            c,
        ) || c == cell by {}
        if cells[cell] == Marker::Empty {
            assert(open_below(cells, upto as int, cell));
            lemma_plain_search_is_best(after_move(cells, cell), (depth - 1) as nat, !maximize);
            if !exists|c: int| open_below(cells, before as int, c) {
                assert(improves(reply_value(cells, depth, maximize, cell), prev.0, maximize));
            }
        } else if exists|c: int| open_below(cells, upto as int, c) {
            let c = choose|c: int| open_below(cells, upto as int, c);
            assert(open_below(cells, before as int, c));
        } else if exists|c: int| open_below(cells, before as int, c) {
            let c = choose|c: int| open_below(cells, before as int, c);
            assert(open_below(cells, upto as int, c));
        }
    }
}

/// How a score `r` from a search within the window `alpha..beta` stands for
/// the true score `t`: inside the window it is exact; at or below `alpha` the
/// true score is no higher; at or above `beta` the true score is no lower.
pub open spec fn stands_for(r: int, t: int, alpha: int, beta: int) -> bool {
    &&& r <= alpha ==> t <= r
    &&& alpha < r < beta ==> t == r
    &&& r >= beta ==> t >= r
}

/// What holds between a pruned scan and the plain scan of the same cells,
/// whose best score is `t`.
pub open spec fn scan_stands_for(p: Scan, t: int, alpha: int, beta: int, maximize: bool) -> bool {
    if maximize {
        &&& p.beta == beta
        &&& p.alpha == if p.best > alpha {
            p.best
        } else {
            alpha
        }
        &&& p.cut ==> p.best >= beta && t >= p.best
        &&& !p.cut ==> p.alpha < beta && (p.best <= alpha ==> t <= p.best) && (p.best > alpha
            ==> t == p.best)
    } else {
        &&& p.alpha == alpha
        &&& p.beta == if p.best < beta {
            p.best
        } else {
            beta
        }
        &&& p.cut ==> p.best <= alpha && t <= p.best
        &&& !p.cut ==> alpha < p.beta && (p.best >= beta ==> t >= p.best) && (p.best < beta
            ==> t == p.best)
    }
}

/// The pruned search is sound for every window that is not empty: its score
/// stands for the score of the plain search.
pub proof fn lemma_pruned_search_sound(
    cells: Seq<Marker>,
    depth: nat,
    alpha: int,
    beta: int,
    maximize: bool,
)
    requires
        searchable(cells, depth),
        i64::MIN <= alpha < beta <= i64::MAX,
    ensures
        stands_for(
            pruned_search(cells, depth, alpha, beta, maximize).0,
            plain_search(cells, depth, maximize).0,
            alpha,
            beta,
        ),
    decreases depth, 10nat,
{
    if !is_leaf(cells, depth) {
        lemma_pruned_scan_sound(cells, depth, alpha, beta, maximize, 9);
    }
}

proof fn lemma_pruned_scan_sound(
    cells: Seq<Marker>,
    depth: nat,
    alpha: int,
    beta: int,
    maximize: bool,
    upto: nat,
)
    requires
        searchable(cells, depth),
        depth > 0,
        upto <= 9,
        i64::MIN <= alpha < beta <= i64::MAX,
    ensures
        scan_stands_for(
            pruned_scan(cells, depth, alpha, beta, maximize, upto),
            plain_scan(cells, depth, maximize, upto).0,
            alpha,
            beta,
            maximize,
        ),
        i64::MIN <= pruned_scan(cells, depth, alpha, beta, maximize, upto).alpha <= i64::MAX,
        i64::MIN <= pruned_scan(cells, depth, alpha, beta, maximize, upto).beta <= i64::MAX,
    decreases depth, upto,
{
    if upto > 0 {
        let before = (upto - 1) as nat;
        let cell = upto - 1;
        let prev = pruned_scan(cells, depth, alpha, beta, maximize, before);
        lemma_pruned_scan_sound(cells, depth, alpha, beta, maximize, before);
        if !prev.cut && cells[cell] == Marker::Empty {
            let next = after_move(cells, cell);
            lemma_pruned_search_sound(next, (depth - 1) as nat, prev.alpha, prev.beta, !maximize);
            lemma_plain_search_is_best(next, (depth - 1) as nat, !maximize);
        }
    }
}

/// With a window that holds every score, pruning changes nothing: the pruned
/// search returns the score and the move of the plain search.
pub proof fn lemma_wide_window_is_exact(
    cells: Seq<Marker>,
    depth: nat,
    alpha: int,
    beta: int,
    maximize: bool,
)
    requires
        searchable(cells, depth),
        i64::MIN <= alpha < -score_limit(),
        score_limit() < beta <= i64::MAX,
    ensures
        pruned_search(cells, depth, alpha, beta, maximize) == plain_search(cells, depth, maximize),
{
    if !is_leaf(cells, depth) {
        lemma_wide_scan_is_exact(cells, depth, alpha, beta, maximize, 9);
    }
}

proof fn lemma_wide_scan_is_exact(
    cells: Seq<Marker>,
    depth: nat,
    alpha: int,
    beta: int,
    maximize: bool,
    upto: nat,
)
    requires
        searchable(cells, depth),
        depth > 0,
        upto <= 9,
        i64::MIN <= alpha < -score_limit(),
        score_limit() < beta <= i64::MAX,
    ensures
        ({
            let p = pruned_scan(cells, depth, alpha, beta, maximize, upto);
            let t = plain_scan(cells, depth, maximize, upto);
            &&& p.best == t.0
            &&& p.cell == t.1
            &&& !p.cut
            &&& p.best == worst_for(maximize) || -score_limit() <= p.best <= score_limit()
            &&& p.alpha == if maximize && p.best != worst_for(maximize) {
                p.best
            } else {
                alpha
            }
            &&& p.beta == if !maximize && p.best != worst_for(maximize) {
                p.best
            } else {
                beta
            }
        }),
    decreases upto,
{
    if upto > 0 {
        let before = (upto - 1) as nat;
        let cell = upto - 1;
        let prev = pruned_scan(cells, depth, alpha, beta, maximize, before);
        lemma_wide_scan_is_exact(cells, depth, alpha, beta, maximize, before);
        if cells[cell] == Marker::Empty {
            let next = after_move(cells, cell);
            lemma_pruned_search_sound(next, (depth - 1) as nat, prev.alpha, prev.beta, !maximize);
            lemma_plain_search_is_best(next, (depth - 1) as nat, !maximize);
        }
    }
}

} // verus!
