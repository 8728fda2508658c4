//! Position tracking over an immutable input buffer: byte offsets,
//! 1-based lines, 1-based character columns, and the `Span` type that
//! ties a matched fragment to its location.  Parse failures are
//! reported through `ParseError`, which carries the failure location.

use vstd::prelude::*;
use vstd::utf8::char_is_scalar;
use vstd::utf8::encode_scalar;
use vstd::utf8::encode_utf8;

verus! {

/// An input a real process can hold: even at four bytes per character
/// its UTF-8 encoding fits in the address space, so every byte offset,
/// line and column a parse computes fits in `usize`.
pub open spec fn valid_input(s: Seq<char>) -> bool {
    4 * s.len() < usize::MAX
}

/// Number of bytes that the first `i` characters occupy in the UTF-8
/// encoding of the input: the byte offset of character position `i`.
pub open spec fn byte_offset(s: Seq<char>, i: int) -> nat {
    encode_utf8(s.take(i)).len()
}

/// 1-based line number of character position `i`: one more than the
/// number of newlines strictly before `i`.
pub open spec fn line_of(s: Seq<char>, i: int) -> nat
    decreases i,
{
    if i <= 0 {
        1
    } else {
        line_of(s, i - 1) + if s[i - 1] == '\n' {
            1nat
        } else {
            0nat
        }
    }
}

/// 1-based column of character position `i`: one more than the number
/// of characters since the preceding newline (or the buffer start).
pub open spec fn col_of(s: Seq<char>, i: int) -> nat
    decreases i,
{
    if i <= 0 {
        1
    } else if s[i - 1] == '\n' {
        1
    } else {
        col_of(s, i - 1) + 1
    }
}

/// The location data of character position `i`.
pub open spec fn loc_at(s: Seq<char>, i: int) -> LocData {
    LocData { offset: byte_offset(s, i), line: line_of(s, i), column: col_of(s, i) }
}

/// The span data of the fragment `[start, end)` of the input.
pub open spec fn span_at(s: Seq<char>, start: int, end: int) -> SpanData {
    SpanData {
        offset: byte_offset(s, start),
        line: line_of(s, start),
        column: col_of(s, start),
        fragment: s.subrange(start, end),
    }
}

/// Mathematical value of a `Location`.
#[verifier::ext_equal]
pub struct LocData {
    pub offset: nat,
    pub line: nat,
    pub column: nat,
}

/// Mathematical value of a `Span`.
#[verifier::ext_equal]
pub struct SpanData {
    pub offset: nat,
    pub line: nat,
    pub column: nat,
    pub fragment: Seq<char>,
}

/// A source position: byte offset, 1-based line, 1-based column in
/// characters.
#[derive(Clone, Copy, Debug, PartialEq, Eq)]
pub struct Location {
    pub offset: usize,
    pub line: usize,
    pub column: usize,
}

impl View for Location {
    type V = LocData;

    open spec fn view(&self) -> LocData {
        LocData { offset: self.offset as nat, line: self.line as nat, column: self.column as nat }
    }
}

/// An immutable, location-tagged view of a matched region of the
/// input.  `column` counts characters, not bytes, so it stays correct
/// for multi-byte text; `offset` counts bytes.
#[derive(Clone, Copy, Debug, PartialEq, Eq)]
pub struct Span<'a> {
    pub offset: usize,
    pub line: usize,
    pub column: usize,
    pub fragment: &'a str,
}

impl<'a> View for Span<'a> {
    type V = SpanData;

    open spec fn view(&self) -> SpanData {
        SpanData {
            offset: self.offset as nat,
            line: self.line as nat,
            column: self.column as nat,
            fragment: self.fragment@,
        }
    }
}

/// The closed taxonomy of parse failures.  Every failure carries the
/// location of the failure point and, where a token was expected, a
/// description of it.  `InvalidNumericLiteral` is reserved for future
/// validation of duration fractions; the base grammar never raises it,
/// but consumers must handle the full taxonomy.
#[derive(Clone, Copy, Debug, PartialEq, Eq)]
pub enum ParseError {
    UnexpectedToken(&'static str, Location),
    UnexpectedEndOfInput(&'static str, Location),
    InvalidNumericLiteral(Location),
}

/// Mathematical value of a `ParseError`.
#[verifier::ext_equal]
pub enum ErrorData {
    UnexpectedToken(Seq<char>, LocData),
    UnexpectedEndOfInput(Seq<char>, LocData),
    InvalidNumericLiteral(LocData),
}

impl View for ParseError {
    type V = ErrorData;

    open spec fn view(&self) -> ErrorData {
        match *self {
            ParseError::UnexpectedToken(expected, loc) => ErrorData::UnexpectedToken(
                expected@,
                loc@,
            ),
            ParseError::UnexpectedEndOfInput(expected, loc) => ErrorData::UnexpectedEndOfInput(
                expected@,
                loc@,
            ),
            ParseError::InvalidNumericLiteral(loc) => ErrorData::InvalidNumericLiteral(loc@),
        }
    }
}

/// The error a mandatory production reports when what it expects is
/// missing at `i`: end-of-input if the input is exhausted, otherwise an
/// unexpected token, either way at the failure location.
pub open spec fn expect_err(s: Seq<char>, i: int, what: Seq<char>) -> ErrorData {
    if i >= s.len() {
        ErrorData::UnexpectedEndOfInput(what, loc_at(s, i))
    } else {
        ErrorData::UnexpectedToken(what, loc_at(s, i))
    }
}

/// Appending one character appends its scalar's encoding.
pub proof fn lemma_encode_utf8_push(s: Seq<char>, c: char)
    ensures
        encode_utf8(s.push(c)) == encode_utf8(s) + encode_scalar(c as u32),
    decreases s.len(),
{
    if s.len() == 0 {
        assert(s =~= Seq::<char>::empty());
        assert(s.push(c)[0] == c);
        assert(s.push(c).drop_first() =~= Seq::<char>::empty());
        assert(encode_utf8(Seq::<char>::empty()) =~= Seq::<u8>::empty());
        assert(encode_utf8(s.push(c)) == encode_scalar(c as u32) + encode_utf8(
            Seq::<char>::empty(),
        ));
        assert(encode_scalar(c as u32) + Seq::<u8>::empty() =~= encode_scalar(c as u32));
        assert(Seq::<u8>::empty() + encode_scalar(c as u32) =~= encode_scalar(c as u32));
    } else {
        assert(s.push(c).drop_first() =~= s.drop_first().push(c));
        lemma_encode_utf8_push(s.drop_first(), c);
        assert(encode_utf8(s.push(c)) =~= encode_utf8(s) + encode_scalar(c as u32));
    }
}

/// The byte offset advances by the width of the character passed.
pub proof fn lemma_byte_offset_step(s: Seq<char>, i: int)
    requires
        0 <= i < s.len(),
    ensures
        byte_offset(s, i + 1) == byte_offset(s, i) + encode_scalar(s[i] as u32).len(),
{
    assert(s.take(i + 1) =~= s.take(i).push(s[i]));
    lemma_encode_utf8_push(s.take(i), s[i]);
}

/// Every character occupies between one and four bytes.
pub proof fn lemma_scalar_width(c: char)
    ensures
        1 <= encode_scalar(c as u32).len() <= 4,
{
    char_is_scalar(c);
}

/// A position's byte offset never exceeds the input's encoded size.
pub proof fn lemma_byte_offset_at_most(s: Seq<char>, i: int)
    requires
        0 <= i <= s.len(),
    ensures
        byte_offset(s, i) <= encode_utf8(s).len(),
    decreases s.len() - i,
{
    if i == s.len() {
        assert(s.take(i) =~= s);
    } else {
        lemma_byte_offset_at_most(s, i + 1);
        lemma_byte_offset_step(s, i);
        lemma_scalar_width(s[i]);
    }
}

/// A valid input holds fewer characters than `usize` can count.
pub proof fn lemma_char_len_bound(s: Seq<char>)
    requires
        valid_input(s),
    ensures
        s.len() < usize::MAX,
{
}

/// A sequence of characters encodes to at least one and at most four
/// bytes per character.
pub proof fn lemma_utf8_len_bounds(s: Seq<char>)
    ensures
        s.len() <= encode_utf8(s).len() <= 4 * s.len(),
    decreases s.len(),
{
    if s.len() == 0 {
        assert(encode_utf8(s) =~= Seq::<u8>::empty());
    } else {
        lemma_utf8_len_bounds(s.drop_first());
        lemma_scalar_width(s[0]);
    }
}

/// Lines and columns are positive and at most one past the position.
pub proof fn lemma_line_col_bounds(s: Seq<char>, i: int)
    requires
        0 <= i,
    ensures
        1 <= line_of(s, i) <= i + 1,
        1 <= col_of(s, i) <= i + 1,
    decreases i,
{
    if i > 0 {
        lemma_line_col_bounds(s, i - 1);
    }
}

/// Width in bytes of a character's UTF-8 encoding.
fn utf8_width(c: char) -> (w: usize)
    ensures
        w == encode_scalar(c as u32).len(),
{
    proof {
        char_is_scalar(c);
    }
    let u = c as u32;
    if u <= 0x7f {
        1
    } else if u <= 0x7ff {
        2
    } else if u <= 0xffff {
        3
    } else {
        4
    }
}

/// Compute the location of character position `pos` in one pass over
/// the characters before it.
pub fn compute_location(input: &str, pos: usize) -> (loc: Location)
    requires
        valid_input(input@),
        pos <= input@.len(),
    ensures
        loc@ == loc_at(input@, pos as int),
{
    let ghost s = input@;
    proof {
        lemma_utf8_len_bounds(s);
    }
    let mut off: usize = 0;
    let mut line: usize = 1;
    let mut col: usize = 1;
    let mut j: usize = 0;
    proof {
        assert(s.take(0) =~= Seq::<char>::empty());
        assert(encode_utf8(Seq::<char>::empty()) =~= Seq::<u8>::empty());
    }
    while j < pos
        invariant
            j <= pos <= s.len(),
            s == input@,
            valid_input(s),
            s.len() <= encode_utf8(s).len() <= 4 * s.len(),
            off == byte_offset(s, j as int),
            line == line_of(s, j as int),
            col == col_of(s, j as int),
        decreases pos - j,
    {
        let c = input.get_char(j);
        proof {
            lemma_byte_offset_step(s, j as int);
            lemma_byte_offset_at_most(s, j + 1);
            lemma_line_col_bounds(s, j as int);
        }
        off = off + utf8_width(c);
        if c == '\n' {
            line = line + 1;
            col = 1;
        } else {
            col = col + 1;
        }
        j = j + 1;
    }
    Location { offset: off, line, column: col }
}

/// Build the span of the fragment `[start, end)`, locating its start.
pub fn make_span<'a>(input: &'a str, start: usize, end: usize) -> (sp: Span<'a>)
    requires
        valid_input(input@),
        start <= end <= input@.len(),
    ensures
        sp@ == span_at(input@, start as int, end as int),
{
    let loc = compute_location(input, start);
    let fragment = input.substring_char(start, end);
    Span { offset: loc.offset, line: loc.line, column: loc.column, fragment }
}

impl<'a> Span<'a> {
    /// The root span of an input: offset 0, line 1, column 1, the
    /// whole input as fragment.
    pub fn new(input: &'a str) -> (sp: Span<'a>)
        requires
            valid_input(input@),
        ensures
            sp@ == span_at(input@, 0, input@.len() as int),
    {
        let n = input.unicode_len();
        make_span(input, 0, n)
    }
}

} // verus!
