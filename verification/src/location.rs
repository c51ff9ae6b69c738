//! Positions and locations in the parsed text, as the parser reports them,
//! and how a location advances over a piece of text.
use vstd::prelude::*;
use vstd::utf8::{encode_scalar, encode_utf8, has_width_1_encoding};
use crate::text::{char_len_utf8, lemma_utf8_len_push, lemma_utf8_len_take, utf8_len, utf8_width};

verus! {

/// A line and a column; lines count from 1, columns are byte offsets in the line.
#[derive(Clone, Copy, Debug, PartialEq, Eq, Structural)]
pub struct LineColumn {
    pub line: usize,
    pub column: usize,
}

/// A position in the input: either an absolute byte offset or line/column based.
#[derive(Clone, Copy, Debug, PartialEq, Eq, Structural)]
pub enum Position {
    Position(usize),
    LineBased(LineColumn),
}

/// A span in the input; the end is optional.
#[derive(Clone, Copy, Debug, PartialEq, Eq, Structural)]
pub struct SourceLocation {
    pub start: Position,
    pub end: Option<Position>,
}

/// The position a location stands for when it is advanced: its end when it
/// has one, otherwise its start.
pub open spec fn reference_position(loc: SourceLocation) -> Position {
    match loc.end {
        Some(e) => e,
        None => loc.start,
    }
}

/// The location is line/column based at its reference position.
pub open spec fn is_line_based(loc: SourceLocation) -> bool {
    reference_position(loc) is LineBased
}

/// Number of line feeds in `text`.
pub open spec fn newline_count(text: Seq<char>) -> nat
    decreases text.len(),
{
    if text.len() == 0 {
        0
    } else {
        newline_count(text.drop_last()) + if text.last() == '\n' { 1nat } else { 0nat }
    }
}

/// The line and column reached by reading `text` from line `line`, column `column`:
/// every line feed moves to the next line at column 0, every other character
/// moves the column by the number of bytes it takes.
pub open spec fn advance(text: Seq<char>, line: int, column: int) -> (int, int)
    decreases text.len(),
{
    if text.len() == 0 {
        (line, column)
    } else {
        let (l, c) = advance(text.drop_last(), line, column);
        if text.last() == '\n' {
            (l + 1, 0)
        } else {
            (l, c + utf8_width(text.last()))
        }
    }
}

/// The location just after `text`, when `text` starts at `loc`.
pub open spec fn location_after_spec(text: Seq<char>, loc: SourceLocation) -> SourceLocation
    recommends
        is_line_based(loc),
{
    let lc = reference_position(loc)->LineBased_0;
    let (line, column) = advance(text, lc.line as int, lc.column as int);
    SourceLocation {
        start: Position::LineBased(LineColumn { line: line as usize, column: column as usize }),
        end: None,
    }
}

/// Reading `text` never overflows the line or column counters.
pub open spec fn advance_fits(text: Seq<char>, loc: SourceLocation) -> bool {
    let lc = reference_position(loc)->LineBased_0;
    &&& lc.line + newline_count(text) <= usize::MAX
    &&& lc.column + utf8_len(text) <= usize::MAX
}

/// Reading text adds its line feeds to the line, and leaves the column
/// between 0 and the old column plus the text's length in bytes.
pub proof fn lemma_advance_bounds(text: Seq<char>, line: int, column: int)
    requires
        line >= 0,
        column >= 0,
    ensures
        advance(text, line, column).0 == line + newline_count(text),
        0 <= advance(text, line, column).1 <= column + utf8_len(text),
    decreases text.len(),
{
    if text.len() > 0 {
        lemma_advance_bounds(text.drop_last(), line, column);
        assert(text =~= text.drop_last().push(text.last()));
        lemma_utf8_len_push(text.drop_last(), text.last());
    }
}

/// Returns the location after `text` when `text` starts at `loc`.
pub fn location_after(text: &Vec<char>, loc: SourceLocation) -> (r: SourceLocation)
    requires
        is_line_based(loc),
        advance_fits(text@, loc),
    ensures
        r == location_after_spec(text@, loc),
{
    let reference = match loc.end {
        Some(p) => p,
        None => loc.start,
    };
    let lc = match reference {
        Position::LineBased(lc) => lc,
        Position::Position(_) => LineColumn { line: 0, column: 0 },
    };
    let mut line = lc.line;
    let mut column = lc.column;
    let mut i: usize = 0;
    while i < text.len()
        invariant
            i <= text@.len(),
            lc == reference_position(loc)->LineBased_0,
            advance_fits(text@, loc),
            (line as int, column as int) == advance(text@.take(i as int), lc.line as int, lc.column as int),
        decreases text@.len() - i,
    {
        let c = text[i];
        proof {
            assert(text@.take(i + 1).drop_last() =~= text@.take(i as int));
            lemma_advance_bounds(text@.take(i + 1), lc.line as int, lc.column as int);
            lemma_utf8_len_take(text@, i + 1);
            assert(newline_count(text@.take(i + 1)) <= newline_count(text@)) by {
                lemma_newline_count_take(text@, i + 1);
            }
        }
        if c == '\n' {
            line = line + 1;
            column = 0;
        } else {
            column = column + char_len_utf8(c);
        }
        i = i + 1;
    }
    proof {
        assert(text@.take(i as int) =~= text@);
    }
    SourceLocation {
        start: Position::LineBased(LineColumn { line, column }),
        end: None,
    }
}

/// A text has no more line feeds than characters.
pub proof fn lemma_newline_count_le_len(text: Seq<char>)
    ensures
        newline_count(text) <= text.len(),
    decreases text.len(),
{
    if text.len() > 0 {
        lemma_newline_count_le_len(text.drop_last());
    }
}

/// A prefix has no more line feeds than the whole.
pub proof fn lemma_newline_count_take(s: Seq<char>, n: int)
    requires
        0 <= n <= s.len(),
    ensures
        newline_count(s.take(n)) <= newline_count(s),
    decreases s.len() - n,
{
    if n < s.len() {
        assert(s.take(n + 1).drop_last() =~= s.take(n));
        lemma_newline_count_take(s, n + 1);
    } else {
        assert(s.take(n) =~= s);
    }
}


/// Number of line-feed bytes in `bytes`.
pub open spec fn newline_byte_count(bytes: Seq<u8>) -> nat
    decreases bytes.len(),
{
    if bytes.len() == 0 {
        0
    } else {
        newline_byte_count(bytes.drop_last()) + if bytes.last() == 10u8 { 1nat } else { 0nat }
    }
}

/// The number of bytes after the last line-feed byte of `bytes`, or `None`
/// when `bytes` holds no line feed.
pub open spec fn bytes_after_last_newline(bytes: Seq<u8>) -> Option<nat>
    decreases bytes.len(),
{
    if bytes.len() == 0 {
        None
    } else if bytes.last() == 10u8 {
        Some(0)
    } else {
        match bytes_after_last_newline(bytes.drop_last()) {
            Some(k) => Some(k + 1),
            None => None,
        }
    }
}

/// The line and column reached over the bytes `bytes` counted byte-wise: the
/// line grows by the number of line-feed bytes, and the column is the number
/// of bytes after the last line feed, or grows by the number of bytes when
/// there is no line feed.
pub open spec fn advance_by_bytes(bytes: Seq<u8>, line: int, column: int) -> (int, int) {
    (line + newline_byte_count(bytes), match bytes_after_last_newline(bytes) {
        Some(k) => k as int,
        None => column + bytes.len(),
    })
}

/// Counting over a concatenation of byte strings.
proof fn lemma_bytes_concat(a: Seq<u8>, b: Seq<u8>)
    ensures
        newline_byte_count(a + b) == newline_byte_count(a) + newline_byte_count(b),
        bytes_after_last_newline(a + b) == match bytes_after_last_newline(b) {
            Some(k) => Some(k),
            None => match bytes_after_last_newline(a) {
                Some(k) => Some(k + b.len()),
                None => None,
            },
        },
    decreases b.len(),
{
    if b.len() == 0 {
        assert(a + b =~= a);
    } else {
        assert((a + b).drop_last() =~= a + b.drop_last());
        lemma_bytes_concat(a, b.drop_last());
    }
}

/// A byte string without line feeds counts none and has no last one.
proof fn lemma_bytes_without_newline(b: Seq<u8>)
    requires
        forall|i: int| 0 <= i < b.len() ==> b[i] != 10u8,
    ensures
        newline_byte_count(b) == 0,
        bytes_after_last_newline(b) is None,
    decreases b.len(),
{
    if b.len() > 0 {
        lemma_bytes_without_newline(b.drop_last());
    }
}

/// The encoding of a line feed is the single byte 10; no byte of the
/// encoding of any other character is 10.
proof fn lemma_scalar_newline_bytes(c: char)
    ensures
        c == '\n' ==> encode_scalar(c as u32) == seq![10u8],
        c != '\n' ==> forall|i: int| 0 <= i < encode_scalar(c as u32).len() ==> #[trigger] encode_scalar(c as u32)[i] != 10u8,
{
    let u = c as u32;
    if has_width_1_encoding(u) {
        assert(u <= 0x7F ==> (((u & 0x7F) as u8 == 10u8) == (u == 10u32)) && (u == 10u32 ==> (u & 0x7F) as u8 == 10u8)) by (bit_vector);
    } else {
        assert(forall|x: u32| #![auto] (0xC0u8 | ((x >> 6u32) & 0x1Fu32) as u8) != 10u8) by (bit_vector);
        assert(forall|x: u32| #![auto] (0xE0u8 | ((x >> 12u32) & 0x0Fu32) as u8) != 10u8) by (bit_vector);
        assert(forall|x: u32| #![auto] (0xF0u8 | ((x >> 18u32) & 0x7u32) as u8) != 10u8) by (bit_vector);
        assert(forall|x: u32| #![auto] (0x80u8 | (x & 0x3Fu32) as u8) != 10u8) by (bit_vector);
        assert(forall|x: u32| #![auto] (0x80u8 | ((x >> 6u32) & 0x3Fu32) as u8) != 10u8) by (bit_vector);
        assert(forall|x: u32| #![auto] (0x80u8 | ((x >> 12u32) & 0x3Fu32) as u8) != 10u8) by (bit_vector);
    }
}

/// Reading `text` character by character reaches the line and column that
/// counting over its UTF-8 bytes gives: the line grows by the number of
/// line-feed bytes, and the column is the number of bytes after the last
/// line feed, or grows by the number of bytes when there is none.
pub proof fn lemma_advance_by_bytes(text: Seq<char>, line: int, column: int)
    ensures
        advance(text, line, column) == advance_by_bytes(encode_utf8(text), line, column),
    decreases text.len(),
{
    if text.len() == 0 {
        assert(encode_utf8(text) =~= Seq::<u8>::empty());
    } else {
        let front = text.drop_last();
        let c = text.last();
        lemma_advance_by_bytes(front, line, column);
        assert(front + seq![c] =~= text);
        crate::text::lemma_encode_concat(front, seq![c]);
        assert(seq![c].drop_first() =~= Seq::<char>::empty());
        assert(encode_utf8(Seq::<char>::empty()) =~= Seq::<u8>::empty());
        assert(seq![c][0] == c);
        assert(encode_utf8(seq![c]) =~= encode_scalar(c as u32) + encode_utf8(Seq::<char>::empty()));
        assert(encode_utf8(seq![c]) =~= encode_scalar(c as u32));
        let e = encode_scalar(c as u32);
        lemma_bytes_concat(encode_utf8(front), e);
        lemma_scalar_newline_bytes(c);
        if c == '\n' {
            reveal_with_fuel(newline_byte_count, 2);
            reveal_with_fuel(bytes_after_last_newline, 2);
            assert(seq![10u8].drop_last() =~= Seq::<u8>::empty());
        } else {
            lemma_bytes_without_newline(e);
        }
    }
}

} // verus!
