//! Boards as text: nine tokens separated by `|`, row by row, each of them
//! empty, `x` or `o`.
use vstd::prelude::*;
use crate::board::{Marker, Position};

verus! {

/// Why a text is not a board.
#[derive(Clone, Copy, Debug, PartialEq, Eq, Structural)]
pub enum ParseError {
    /// The text does not have exactly nine tokens.
    MalformedNotation,
    /// A token is neither empty nor `x` nor `o`.
    InvalidToken,
}

/// The tokens of a text: the stretches between its `|` characters, so one
/// more than it has separators. The empty text is one empty token.
pub open spec fn tokens_of(text: Seq<char>) -> Seq<Seq<char>>
    decreases text.len(),
{
    if text.len() == 0 {
        seq![Seq::empty()]
    } else {
        let before = tokens_of(text.drop_last());
        if text.last() == '|' {
            before.push(Seq::empty())
        } else {
            before.drop_last().push(before.last().push(text.last()))
        }
    }
}

/// The marker that a token stands for, if it stands for one.
pub open spec fn marker_of_token(token: Seq<char>) -> Option<Marker> {
    if token.len() == 0 {
        Some(Marker::Empty)
    } else if token.len() == 1 && token[0] == 'x' {
        Some(Marker::X)
    } else if token.len() == 1 && token[0] == 'o' {
        Some(Marker::O)
    } else {
        None
    }
}

/// The token that stands for a marker.
pub open spec fn token_of_marker(m: Marker) -> Seq<char> {
    match m {
        Marker::Empty => Seq::empty(),
        Marker::X => seq!['x'],
        Marker::O => seq!['o'],
    }
}

/// The cells that a text stands for. A text with another number of tokens
/// than nine is malformed, whatever its tokens are; with nine tokens, one
/// that stands for no marker is an invalid token.
pub open spec fn parse_spec(text: Seq<char>) -> Result<Seq<Marker>, ParseError> {
    let tokens = tokens_of(text);
    if tokens.len() != 9 {
        Err(ParseError::MalformedNotation)
    } else if exists|i: int| 0 <= i < 9 && marker_of_token(#[trigger] tokens[i]) is None {
        Err(ParseError::InvalidToken)
    } else {
        Ok(Seq::new(9, |i: int| marker_of_token(tokens[i])->0))
    }
}

/// The text that stands for the cells: their tokens, with a `|` between
/// every two.
pub open spec fn notation_of(cells: Seq<Marker>) -> Seq<char>
    decreases cells.len(),
{
    if cells.len() == 0 {
        Seq::empty()
    } else if cells.len() == 1 {
        token_of_marker(cells[0])
    } else {
        notation_of(cells.drop_last()).push('|') + token_of_marker(cells.last())
    }
}

/// A longer text has at least as many tokens.
pub proof fn lemma_tokens_grow(text: Seq<char>, n: int)
    requires
        0 <= n <= text.len(),
    ensures
        1 <= tokens_of(text.take(n)).len() <= tokens_of(text).len(),
    decreases text.len(),
{
    if n < text.len() {
        assert(text.drop_last().take(n) =~= text.take(n));
        lemma_tokens_grow(text.drop_last(), n);
    } else {
        assert(text.take(n) =~= text);
        if text.len() > 0 {
            lemma_tokens_grow(text.drop_last(), n - 1);
        }
    }
}

/// The tokens of a board's notation are the tokens of its cells.
pub proof fn lemma_tokens_of_notation(cells: Seq<Marker>)
    requires
        cells.len() >= 1,
    ensures
        tokens_of(notation_of(cells)).len() == cells.len(),
        forall|i: int|
            0 <= i < cells.len() ==> #[trigger] tokens_of(notation_of(cells))[i]
                == token_of_marker(cells[i]),
    decreases cells.len(),
{
    let none = Seq::<char>::empty();
    let whole = notation_of(cells);
    let t = token_of_marker(cells.last());
    assert(tokens_of(none) =~= seq![none]);
    if cells.len() == 1 {
        if cells[0] != Marker::Empty {
            assert(t.drop_last() =~= none);
        }
    } else {
        let front = cells.drop_last();
        lemma_tokens_of_notation(front);
        let sep = notation_of(front).push('|');
        assert(sep.drop_last() =~= notation_of(front));
        if cells.last() != Marker::Empty {
            assert(whole.drop_last() =~= sep);
            assert(tokens_of(whole) == tokens_of(sep).drop_last().push(t));
        }
    }
}

/// Reading what was written gives the board back: the notation of a board
/// parses, and to the same cells.
pub proof fn lemma_notation_round_trip(cells: Seq<Marker>)
    requires
        cells.len() == 9,
    ensures
        parse_spec(notation_of(cells)) == Ok::<Seq<Marker>, ParseError>(cells),
{
    lemma_tokens_of_notation(cells);
    let tokens = tokens_of(notation_of(cells));
    assert(Seq::new(9, |i: int| marker_of_token(tokens[i])->0) =~= cells);
}

/// The character that shows a marker on a drawn board.
pub open spec fn symbol_of(m: Marker) -> char {
    match m {
        Marker::O => 'o',
        Marker::X => 'x',
        Marker::Empty => ' ',
    }
}

/// A row of a drawn board: its three symbols with `|` between them.
pub open spec fn row_text(cells: Seq<Marker>, row: int) -> Seq<char> {
    seq![
        symbol_of(cells[3 * row]),
        '|',
        symbol_of(cells[3 * row + 1]),
        '|',
        symbol_of(cells[3 * row + 2]),
    ]
}

/// The eight spaces that follow a drawn board, and the line after it.
pub open spec fn margin() -> Seq<char> {
    Seq::new(8, |i: int| ' ')
}

/// A drawn board: a line break before each of the three rows, then the
/// margin, a line break and the margin again.
pub open spec fn board_text(cells: Seq<Marker>) -> Seq<char> {
    seq!['\n'] + row_text(cells, 0) + seq!['\n'] + row_text(cells, 1) + seq!['\n'] + row_text(
        cells,
        2,
    ) + margin() + seq!['\n'] + margin()
}

impl ParseError {
    /// What went wrong, in words.
    pub fn message(&self) -> (r: String)
        ensures
            r@ == match *self {
                ParseError::MalformedNotation => "Failed to process notation"@,
                ParseError::InvalidToken => "Invalid character"@,
            },
    {
        match self {
            ParseError::MalformedNotation => String::from_str("Failed to process notation"),
            ParseError::InvalidToken => String::from_str("Invalid character"),
        }
    }
}

impl Marker {
    /// The token that stands for the marker in a notation.
    pub fn token(&self) -> (r: &'static str)
        ensures
            r@ == token_of_marker(*self),
    {
        proof {
            reveal_strlit("");
            reveal_strlit("x");
            reveal_strlit("o");
        }
        match self {
            Marker::Empty => "",
            Marker::X => "x",
            Marker::O => "o",
        }
    }

    /// The marker as a drawn board shows it.
    pub fn text(&self) -> (r: String)
        ensures
            r@ == seq![symbol_of(*self)],
    {
        proof {
            reveal_strlit(" ");
            reveal_strlit("x");
            reveal_strlit("o");
        }
        match self {
            Marker::O => String::from_str("o"),
            Marker::X => String::from_str("x"),
            Marker::Empty => String::from_str(" "),
        }
    }
}

impl Position {
    /// The notation of the board: what `from` reads back to the same board.
    pub fn notation(&self) -> (r: String)
        ensures
            r@ == notation_of(self@),
            parse_spec(r@) == Ok::<Seq<Marker>, ParseError>(self@),
    {
        let mut out = String::new();
        let mut i: usize = 0;
        while i < 9
            invariant
                i <= 9,
                out@ == notation_of(self@.take(i as int)),
            decreases 9 - i,
        {
            proof {
                reveal_strlit("|");
                assert(self@.take(i + 1).drop_last() =~= self@.take(i as int));
            }
            if i > 0 {
                out.append("|");
            }
            out.append(self.0[i].token());
            i += 1;
        }
        proof {
            assert(self@.take(9) =~= self@);
            lemma_notation_round_trip(self@);
        }
        out
    }

    /// Appends a line break and row `row` of the drawn board to `out`.
    fn draw_row(&self, out: &mut String, row: usize)
        requires
            row < 3,
        ensures
            final(out)@ == old(out)@ + seq!['\n'] + row_text(self@, row as int),
    {
        proof {
            reveal_strlit("\n");
            reveal_strlit("|");
        }
        out.append("\n");
        out.append(self.0[3 * row].text().as_str());
        out.append("|");
        out.append(self.0[3 * row + 1].text().as_str());
        out.append("|");
        out.append(self.0[3 * row + 2].text().as_str());
    }

    /// The board as it is drawn for a reader.
    pub fn text(&self) -> (r: String)
        ensures
            r@ == board_text(self@),
    {
        proof {
            reveal_strlit("        \n        ");
        }
        let mut out = String::new();
        self.draw_row(&mut out, 0);
        self.draw_row(&mut out, 1);
        self.draw_row(&mut out, 2);
        out.append("        \n        ");
        out
    }

    /// Reads a board from its notation: nine tokens with a `|` between every
    /// two, each of them empty, `x` or `o`. Another number of tokens is
    /// malformed notation, whatever the tokens are; among nine tokens, any
    /// other token is an invalid one.
    pub fn from(notation: &str) -> (r: Result<Position, ParseError>)
        ensures
            match parse_spec(notation@) {
                Ok(cells) => r is Ok && r->Ok_0@ == cells,
                Err(e) => r == Err::<Position, ParseError>(e),
            },
    {
        let ghost text = notation@;
        let mut cells = [Marker::Empty;9];
        let mut count: usize = 0;
        let mut current: Option<Marker> = Some(Marker::Empty);
        let mut invalid = false;
        let chars = notation.chars();
        for ch in it: chars
            invariant
                text == notation@,
                it.seq() == text,
                count <= 8,
                tokens_of(text.take(it.index())).len() == count + 1,
                current == marker_of_token(tokens_of(text.take(it.index())).last()),
                invalid <==> exists|j: int|
                    0 <= j < count && marker_of_token(
                        #[trigger] tokens_of(text.take(it.index()))[j],
                    ) is None,
                forall|j: int|
                    0 <= j < count ==> (marker_of_token(
                        #[trigger] tokens_of(text.take(it.index()))[j],
                    ) matches Some(m) ==> cells@[j] == m),
        {
            let ghost i = it.index();
            let ghost before = tokens_of(text.take(i));
            assert(text.take(i + 1).drop_last() =~= text.take(i));
            if ch == '|' {
                if count == 8 {
                    proof {
                        lemma_tokens_grow(text, i + 1);
                    }
                    return Err(ParseError::MalformedNotation);
                }
                match current {
                    Some(m) => {
                        cells[count] = m;
                    },
                    None => {
                        invalid = true;
                    },
                }
                count += 1;
                current = Some(Marker::Empty);
                assert forall|j: int| 0 <= j < count implies tokens_of(text.take(i + 1))[j]
                    == before[j] by {}
            } else {
                current =
                if current == Some(Marker::Empty) && ch == 'x' {
                    Some(Marker::X)
                } else if current == Some(Marker::Empty) && ch == 'o' {
                    Some(Marker::O)
                } else {
                    None
                };
                assert forall|j: int| 0 <= j < count implies tokens_of(text.take(i + 1))[j]
                    == before[j] by {}
            }
        }
        assert(text.take(text.len() as int) =~= text);
        if count != 8 {
            return Err(ParseError::MalformedNotation);
        }
        match current {
            Some(m) => {
                cells[count] = m;
            },
            None => {
                invalid = true;
            },
        }
        if invalid {
            return Err(ParseError::InvalidToken);
        }
        Ok(Position(cells))
    }
}

} // verus!
