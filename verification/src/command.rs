//! The commands that a line of input can hold.
use vstd::prelude::*;
use vstd::string::StrSliceExecFns;
use crate::board::Position;
use crate::notation::parse_spec;

verus! {

/// What a line of input asks for.
#[derive(Clone, Copy, Debug)]
pub enum Command {
    /// `isready`: say that the engine is ready.
    IsReady,
    /// `position`, followed by a board in notation: take this board.
    SetPosition(Position),
    /// `go`: say how the game stands, and the best move if it is open.
    Go,
    /// `self`: let the engine play a game against itself.
    SelfPlay,
    /// Anything else, and a `position` without a board that can be read.
    Nothing,
}

/// The characters that separate words.
pub open spec fn is_space(c: char) -> bool {
    c == ' ' || c == '\t' || c == '\n' || c == '\x0C' || c == '\r'
}

/// The text begins with the word.
pub open spec fn has_prefix(text: Seq<char>, word: Seq<char>) -> bool {
    word.len() <= text.len() && text.take(word.len() as int) == word
}

/// The first place at or after `from` that holds no space: where the next
/// word begins, or the end of the text.
pub open spec fn word_start(text: Seq<char>, from: int) -> int
    decreases text.len() - from,
{
    if 0 <= from < text.len() && is_space(text[from]) {
        word_start(text, from + 1)
    } else {
        from
    }
}

/// The first place at or after `from` that holds a space: where the word
/// that begins at `from` ends, or the end of the text.
pub open spec fn word_end(text: Seq<char>, from: int) -> int
    decreases text.len() - from,
{
    if 0 <= from < text.len() && !is_space(text[from]) {
        word_end(text, from + 1)
    } else {
        from
    }
}

/// Where the second word of the text begins and ends; both are the length
/// of the text where it has fewer than two words.
pub open spec fn second_word_bounds(text: Seq<char>) -> (int, int) {
    let first = word_start(text, 0);
    let second = word_start(text, word_end(text, first));
    (second, word_end(text, second))
}

/// The second word of the text, if it has two.
pub open spec fn second_word(text: Seq<char>) -> Option<Seq<char>> {
    let bounds = second_word_bounds(text);
    if bounds.0 < text.len() {
        Some(text.subrange(bounds.0, bounds.1))
    } else {
        None
    }
}

/// The command that a line holds. The line is told by how it begins; of a
/// `position` line the second word is read as a board.
pub open spec fn command_matches(c: Command, text: Seq<char>) -> bool {
    if has_prefix(text, "isready"@) {
        c is IsReady
    } else if has_prefix(text, "position"@) {
        match second_word(text) {
            Some(word) => match parse_spec(word) {
                Ok(cells) => c matches Command::SetPosition(p) && p@ == cells,
                Err(_) => c is Nothing,
            },
            None => c is Nothing,
        }
    } else if has_prefix(text, "go"@) {
        c is Go
    } else if has_prefix(text, "self"@) {
        c is SelfPlay
    } else {
        c is Nothing
    }
}

/// The characters of a text.
fn chars_of(text: &str) -> (r: Vec<char>)
    ensures
        r@ == text@,
{
    let mut out: Vec<char> = Vec::new();
    let chars = text.chars();
    for ch in it: chars
        invariant
            it.seq() == text@,
            out@ == text@.take(it.index()),
    {
        out.push(ch);
    }
    out
}

/// Whether the text begins with the word.
fn starts_with(text: &Vec<char>, word: &str) -> (r: bool)
    ensures
        r == has_prefix(text@, word@),
{
    let n = word.unicode_len();
    if n > text.len() {
        return false;
    }
    let mut i: usize = 0;
    while i < n
        invariant
            i <= n,
            n == word@.len(),
            n <= text@.len(),
            forall|j: int| 0 <= j < i ==> text@[j] == word@[j],
        decreases n - i,
    {
        if text[i] != word.get_char(i) {
            return false;
        }
        i += 1;
    }
    assert(text@.take(n as int) =~= word@);
    true
}

/// Whether the character separates words.
fn separates(c: char) -> (r: bool)
    ensures
        r == is_space(c),
{
    c == ' ' || c == '\t' || c == '\n' || c == '\x0C' || c == '\r'
}

/// Where the next word begins, at or after `from`.
fn skip_spaces(text: &Vec<char>, from: usize) -> (r: usize)
    requires
        from <= text@.len(),
    ensures
        r == word_start(text@, from as int),
        from <= r <= text@.len(),
{
    let mut i = from;
    while i < text.len() && separates(text[i])
        invariant
            from <= i <= text@.len(),
            word_start(text@, i as int) == word_start(text@, from as int),
        decreases text@.len() - i,
    {
        i += 1;
    }
    i
}

/// Where the word that begins at `from` ends.
fn skip_word(text: &Vec<char>, from: usize) -> (r: usize)
    requires
        from <= text@.len(),
    ensures
        r == word_end(text@, from as int),
        from <= r <= text@.len(),
{
    let mut i = from;
    while i < text.len() && !separates(text[i])
        invariant
            from <= i <= text@.len(),
            word_end(text@, i as int) == word_end(text@, from as int),
        decreases text@.len() - i,
    {
        i += 1;
    }
    i
}

/// Reads the command that a line of input holds.
pub fn read_command(line: &str) -> (c: Command)
    ensures
        command_matches(c, line@),
{
    let text = chars_of(line);
    if starts_with(&text, "isready") {
        Command::IsReady
    } else if starts_with(&text, "position") {
        let first = skip_spaces(&text, 0);
        let after = skip_word(&text, first);
        let second = skip_spaces(&text, after);
        let end = skip_word(&text, second);
        if second >= text.len() {
            return Command::Nothing;
        }
        match Position::from(line.substring_char(second, end)) {
            Ok(position) => Command::SetPosition(position),
            Err(_) => Command::Nothing,
        }
    } else if starts_with(&text, "go") {
        Command::Go
    } else if starts_with(&text, "self") {
        Command::SelfPlay
    } else {
        Command::Nothing
    }
}

} // verus!
