//! The board: nine cells, the eight lines, whose turn it is, and how a move
//! changes a position.
use vstd::prelude::*;

verus! {

/// What a cell of the board holds. `X` is the player who moves first.
#[derive(Clone, Copy, Debug, PartialEq, Eq, Structural)]
pub enum Marker {
    O,
    X,
    Empty,
}

/// The nine cells of a board, row by row. Every array of nine markers is a
/// position; whose turn it is follows from the cells alone.
#[derive(Debug, Clone, Copy)]
pub struct Position(pub [Marker; 9]);

impl View for Position {
    type V = Seq<Marker>;

    open spec fn view(&self) -> Seq<Marker> {
        self.0@
    }
}

/// The three cells of line `k`: rows first, then columns, then diagonals.
pub open spec fn line(k: int) -> (int, int, int) {
    if k == 0 {
        (0, 1, 2)
    } else if k == 1 {
        (3, 4, 5)
    } else if k == 2 {
        (6, 7, 8)
    } else if k == 3 {
        (0, 3, 6)
    } else if k == 4 {
        (1, 4, 7)
    } else if k == 5 {
        (2, 5, 8)
    } else if k == 6 {
        (0, 4, 8)
    } else {
        (2, 4, 6)
    }
}

/// Line `k` is complete: its three cells hold the same player's marker.
pub open spec fn line_complete(cells: Seq<Marker>, k: int) -> bool {
    let l = line(k);
    cells[l.0] == cells[l.1] && cells[l.1] == cells[l.2] && cells[l.0] != Marker::Empty
}

/// The marker on the first complete line among lines `from..8`, if there is one.
pub open spec fn first_complete_line(cells: Seq<Marker>, from: int) -> Option<Marker>
    decreases 8 - from,
{
    if from < 0 || from >= 8 {
        None
    } else if line_complete(cells, from) {
        Some(cells[line(from).0])
    } else {
        first_complete_line(cells, from + 1)
    }
}

/// The marker that holds a complete line, by the first such line.
pub open spec fn winner_of(cells: Seq<Marker>) -> Option<Marker> {
    first_complete_line(cells, 0)
}

/// How many cells hold `m`.
pub open spec fn occurrences(cells: Seq<Marker>, m: Marker) -> nat
    decreases cells.len(),
{
    if cells.len() == 0 {
        0
    } else {
        occurrences(cells.drop_last(), m) + if cells.last() == m {
            1nat
        } else {
            0nat
        }
    }
}

/// Who moves next: `X` unless it has placed more markers than `O`.
pub open spec fn player_of(cells: Seq<Marker>) -> Marker {
    if occurrences(cells, Marker::X) <= occurrences(cells, Marker::O) {
        Marker::X
    } else {
        Marker::O
    }
}

/// No cell is empty.
pub open spec fn is_full(cells: Seq<Marker>) -> bool {
    forall|i: int| 0 <= i < cells.len() ==> cells[i] != Marker::Empty
}

/// The game ended without a winner.
pub open spec fn is_draw(cells: Seq<Marker>) -> bool {
    winner_of(cells) is None && is_full(cells)
}

/// The cells after the player to move has taken `cell`.
pub open spec fn after_move(cells: Seq<Marker>, cell: int) -> Seq<Marker> {
    cells.update(cell, player_of(cells))
}

/// A marker occurs zero times exactly when no cell holds it, and never more
/// often than there are cells.
pub proof fn lemma_occurrences(cells: Seq<Marker>, m: Marker)
    ensures
        occurrences(cells, m) <= cells.len(),
        occurrences(cells, m) == 0 <==> forall|i: int| 0 <= i < cells.len() ==> cells[i] != m,
    decreases cells.len(),
{
    if cells.len() > 0 {
        let front = cells.drop_last();
        lemma_occurrences(front, m);
        if occurrences(cells, m) == 0 {
            assert forall|i: int| 0 <= i < cells.len() implies cells[i] != m by {
                if i < front.len() {
                    assert(front[i] != m);
                }
            }
        }
    }
}

/// Writing a player's marker into an empty cell leaves one empty cell less.
pub proof fn lemma_fill_empties(cells: Seq<Marker>, cell: int, m: Marker)
    requires
        0 <= cell < cells.len(),
        cells[cell] == Marker::Empty,
        m != Marker::Empty,
    ensures
        occurrences(cells.update(cell, m), Marker::Empty) + 1 == occurrences(
            cells,
            Marker::Empty,
        ),
    decreases cells.len(),
{
    let filled = cells.update(cell, m);
    if cell == cells.len() - 1 {
        assert(filled.drop_last() =~= cells.drop_last());
    } else {
        assert(filled.drop_last() =~= cells.drop_last().update(cell, m));
        lemma_fill_empties(cells.drop_last(), cell, m);
    }
}

/// A move into an empty cell leaves one empty cell less.
pub proof fn lemma_move_fills_a_cell(cells: Seq<Marker>, cell: int)
    requires
        0 <= cell < cells.len(),
        cells[cell] == Marker::Empty,
    ensures
        occurrences(after_move(cells, cell), Marker::Empty) + 1 == occurrences(
            cells,
            Marker::Empty,
        ),
{
    lemma_fill_empties(cells, cell, player_of(cells));
}

/// A winner is a player's marker and holds one of the eight lines; there is
/// no winner exactly when no line is complete.
pub proof fn lemma_winner_holds_a_line(cells: Seq<Marker>)
    ensures
        winner_of(cells) is None <==> forall|k: int| 0 <= k < 8 ==> !line_complete(cells, k),
        winner_of(cells) matches Some(m) ==> m != Marker::Empty && exists|k: int|
            0 <= k < 8 && line_complete(cells, k) && cells[line(k).0] == m,
{
    lemma_first_complete_line(cells, 0);
}

proof fn lemma_first_complete_line(cells: Seq<Marker>, from: int)
    requires
        0 <= from <= 8,
    ensures
        first_complete_line(cells, from) is None <==> forall|k: int|
            from <= k < 8 ==> !line_complete(cells, k),
        first_complete_line(cells, from) matches Some(m) ==> m != Marker::Empty && exists|k: int|
            from <= k < 8 && line_complete(cells, k) && cells[line(k).0] == m,
    decreases 8 - from,
{
    if from < 8 && !line_complete(cells, from) {
        lemma_first_complete_line(cells, from + 1);
    }
}

/// The cells of line `k`, as indices into the board.
fn line_cells(k: usize) -> (r: (usize, usize, usize))
    requires
        k < 8,
    ensures
        (r.0 as int, r.1 as int, r.2 as int) == line(k as int),
        r.0 < 9 && r.1 < 9 && r.2 < 9,
{
    match k {
        0 => (0, 1, 2),
        1 => (3, 4, 5),
        2 => (6, 7, 8),
        3 => (0, 3, 6),
        4 => (1, 4, 7),
        5 => (2, 5, 8),
        6 => (0, 4, 8),
        _ => (2, 4, 6),
    }
}

impl Position {
    /// The empty board.
    pub fn new() -> (r: Position)
        ensures
            r@ == Seq::new(9, |i: int| Marker::Empty),
    {
        let r = Position([Marker::Empty;9]);
        r
    }

    /// The marker that holds a complete line, if any: the lines are tried
    /// rows first, then columns, then diagonals.
    pub fn winning(&self) -> (r: Option<Marker>)
        ensures
            r == winner_of(self@),
    {
        let mut k: usize = 0;
        while k < 8
            invariant
                k <= 8,
                winner_of(self@) == first_complete_line(self@, k as int),
            decreases 8 - k,
        {
            let l = line_cells(k);
            if self.0[l.0] == self.0[l.1] && self.0[l.1] == self.0[l.2] && self.0[l.0]
                != Marker::Empty {
                return Some(self.0[l.0]);
            }
            k += 1;
        }
        None
    }

    /// How many cells hold `m`.
    fn count(&self, m: Marker) -> (n: usize)
        ensures
            n == occurrences(self@, m),
            n <= 9,
    {
        let mut n: usize = 0;
        let mut i: usize = 0;
        while i < 9
            invariant
                i <= 9,
                n <= i,
                n == occurrences(self@.take(i as int), m),
            decreases 9 - i,
        {
            assert(self@.take(i + 1).drop_last() =~= self@.take(i as int));
            if self.0[i] == m {
                n += 1;
            }
            i += 1;
        }
        assert(self@.take(9) =~= self@);
        n
    }

    /// Who moves next: `X` unless it has placed more markers than `O`.
    pub fn player(&self) -> (r: Marker)
        ensures
            r == player_of(self@),
    {
        if self.count(Marker::X) <= self.count(Marker::O) {
            Marker::X
        } else {
            Marker::O
        }
    }

    /// Whether the game ended without a winner: no line is complete and no
    /// cell is empty.
    pub fn draw(&self) -> (r: bool)
        ensures
            r == is_draw(self@),
    {
        proof {
            lemma_occurrences(self@, Marker::Empty);
        }
        self.winning().is_none() && self.count(Marker::Empty) == 0
    }

    /// The position after the player to move has taken the empty cell `pos`.
    pub fn make_move(&self, pos: crate::Move) -> (r: Position)
        requires
            pos < 9,
            self@[pos as int] == Marker::Empty,
        ensures
            r@ == after_move(self@, pos as int),
    {
        let mut cells = self.0;
        cells[pos] = self.player();
        Position(cells)
    }
}

} // verus!
