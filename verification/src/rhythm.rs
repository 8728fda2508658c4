//! The rhythm-modifier grammar: exactly one of four alternatives,
//! tried in a fixed priority.  A broken-rhythm chevron run comes
//! first; a fraction (digits, one slash, digits) is committed to as
//! soon as a digit run is followed by a slash, so a fraction without
//! denominator digits is a typed error, never a silently truncated
//! digit token; a bare digit run and a bare slash run come last.

use vstd::prelude::*;

use crate::chars::class_pred;
use crate::chars::dec_digit;
use crate::chars::scan_run;
use crate::chars::run_end;
use crate::chars::CharClass;
use crate::pitch::digit_run_end;
use crate::span::expect_err;
use crate::span::make_span;
use crate::span::span_at;
use crate::span::valid_input;
use crate::span::ErrorData;
use crate::span::ParseError;
use crate::span::Span;
use crate::span::SpanData;

verus! {

/// End of the maximal `>` run starting at `i`.
pub open spec fn chevron_right_run_end(s: Seq<char>, i: int) -> int {
    run_end(s, i, class_pred(CharClass::ChevronRight))
}

/// End of the maximal `<` run starting at `i`.
pub open spec fn chevron_left_run_end(s: Seq<char>, i: int) -> int {
    run_end(s, i, class_pred(CharClass::ChevronLeft))
}

/// End of the maximal `/` run starting at `i`.
pub open spec fn slash_run_end(s: Seq<char>, i: int) -> int {
    run_end(s, i, class_pred(CharClass::Slash))
}

/// Mathematical value of a parsed `Rhythm`.
#[verifier::ext_equal]
pub enum RhythmData {
    DigitSlashDigit(SpanData, SpanData, SpanData),
    Broken(SpanData),
    Digits(SpanData),
    Slashes(SpanData),
}

/// What a rhythm parse at a position yields: a token and the position
/// one past it, or a typed failure.
#[verifier::ext_equal]
pub enum RhythmOutcome {
    Match(RhythmData, int),
    Fail(ErrorData),
}

/// The rhythm grammar, decided at position `i`:
/// - a chevron starts a `Broken` run of that one chevron only, so
///   mixed runs are cut at the change of direction;
/// - a digit run followed by `/` is a fraction and must have
///   denominator digits, else it is an error;
/// - a digit run not followed by `/` is `Digits`;
/// - a `/` directly followed by a digit is a fraction with an empty
///   numerator;
/// - any other `/` starts a `Slashes` run;
/// - anything else is no rhythm, a failure at this level that a caller
///   may treat as absence.
pub open spec fn rhythm_result(s: Seq<char>, i: int) -> RhythmOutcome {
    if i >= s.len() {
        RhythmOutcome::Fail(expect_err(s, i, "rhythm"@))
    } else if s[i] == '>' {
        RhythmOutcome::Match(
            RhythmData::Broken(span_at(s, i, chevron_right_run_end(s, i))),
            chevron_right_run_end(s, i),
        )
    } else if s[i] == '<' {
        RhythmOutcome::Match(
            RhythmData::Broken(span_at(s, i, chevron_left_run_end(s, i))),
            chevron_left_run_end(s, i),
        )
    } else if digit_run_end(s, i) > i {
        let d = digit_run_end(s, i);
        if d < s.len() && s[d] == '/' {
            let e = digit_run_end(s, d + 1);
            if e > d + 1 {
                RhythmOutcome::Match(
                    RhythmData::DigitSlashDigit(
                        span_at(s, i, d),
                        span_at(s, d, d + 1),
                        span_at(s, d + 1, e),
                    ),
                    e,
                )
            } else {
                RhythmOutcome::Fail(expect_err(s, d + 1, "denominator digits"@))
            }
        } else {
            RhythmOutcome::Match(RhythmData::Digits(span_at(s, i, d)), d)
        }
    } else if s[i] == '/' {
        if i + 1 < s.len() && dec_digit(s[i + 1]) {
            RhythmOutcome::Match(
                RhythmData::DigitSlashDigit(
                    span_at(s, i, i),
                    span_at(s, i, i + 1),
                    span_at(s, i + 1, digit_run_end(s, i + 1)),
                ),
                digit_run_end(s, i + 1),
            )
        } else {
            RhythmOutcome::Match(
                RhythmData::Slashes(span_at(s, i, slash_run_end(s, i))),
                slash_run_end(s, i),
            )
        }
    } else {
        RhythmOutcome::Fail(expect_err(s, i, "rhythm"@))
    }
}

/// A rhythm token stands at position `i`.
pub open spec fn rhythm_ok(s: Seq<char>, i: int) -> bool {
    rhythm_result(s, i) is Match
}

/// A parsed rhythm modifier.
#[derive(Debug, PartialEq, Eq)]
pub enum Rhythm<'a> {
    DigitSlashDigit((Span<'a>, Span<'a>, Span<'a>)),
    Broken(Span<'a>),
    Digits(Span<'a>),
    Slashes(Span<'a>),
}

impl<'a> View for Rhythm<'a> {
    type V = RhythmData;

    open spec fn view(&self) -> RhythmData {
        match *self {
            Rhythm::DigitSlashDigit((num, sl, den)) => RhythmData::DigitSlashDigit(
                num@,
                sl@,
                den@,
            ),
            Rhythm::Broken(sp) => RhythmData::Broken(sp@),
            Rhythm::Digits(sp) => RhythmData::Digits(sp@),
            Rhythm::Slashes(sp) => RhythmData::Slashes(sp@),
        }
    }
}

/// Parse a non-empty run of left chevrons.
pub fn prs_chevron_left<'a>(input: &'a str, pos: usize) -> (r: Result<
    (Span<'a>, usize),
    ParseError,
>)
    requires
        valid_input(input@),
        pos <= input@.len(),
    ensures
        match r {
            Ok((sp, next)) => {
                &&& 0 <= (pos as int) < input@.len() && input@[pos as int] == '<'
                &&& next == chevron_left_run_end(input@, pos as int)
                &&& sp@ == span_at(input@, pos as int, next as int)
            },
            Err(e) => {
                &&& !(0 <= (pos as int) < input@.len() && input@[pos as int] == '<')
                &&& e@ == expect_err(input@, pos as int, "left chevron"@)
            },
        },
{
    if pos == input.unicode_len() {
        let loc = crate::span::compute_location(input, pos);
        return Err(ParseError::UnexpectedEndOfInput("left chevron", loc));
    }
    if input.get_char(pos) == '<' {
        let end = scan_run(input, pos, CharClass::ChevronLeft);
        Ok((make_span(input, pos, end), end))
    } else {
        let loc = crate::span::compute_location(input, pos);
        Err(ParseError::UnexpectedToken("left chevron", loc))
    }
}

/// Parse a non-empty run of right chevrons.
pub fn prs_chevron_right<'a>(input: &'a str, pos: usize) -> (r: Result<
    (Span<'a>, usize),
    ParseError,
>)
    requires
        valid_input(input@),
        pos <= input@.len(),
    ensures
        match r {
            Ok((sp, next)) => {
                &&& 0 <= (pos as int) < input@.len() && input@[pos as int] == '>'
                &&& next == chevron_right_run_end(input@, pos as int)
                &&& sp@ == span_at(input@, pos as int, next as int)
            },
            Err(e) => {
                &&& !(0 <= (pos as int) < input@.len() && input@[pos as int] == '>')
                &&& e@ == expect_err(input@, pos as int, "right chevron"@)
            },
        },
{
    if pos == input.unicode_len() {
        let loc = crate::span::compute_location(input, pos);
        return Err(ParseError::UnexpectedEndOfInput("right chevron", loc));
    }
    if input.get_char(pos) == '>' {
        let end = scan_run(input, pos, CharClass::ChevronRight);
        Ok((make_span(input, pos, end), end))
    } else {
        let loc = crate::span::compute_location(input, pos);
        Err(ParseError::UnexpectedToken("right chevron", loc))
    }
}

/// Parse a broken-rhythm run: all `>` or all `<`, right tried first.
/// Matching never merges mixed runs: the token stops where the
/// direction changes.
pub fn prs_broken_rhythm<'a>(input: &'a str, pos: usize) -> (r: Result<
    (Span<'a>, usize),
    ParseError,
>)
    requires
        valid_input(input@),
        pos <= input@.len(),
    ensures
        match r {
            Ok((sp, next)) => {
                &&& 0 <= (pos as int) < input@.len()
                &&& (input@[pos as int] == '>' || input@[pos as int] == '<')
                &&& next == (if input@[pos as int] == '>' {
                    chevron_right_run_end(input@, pos as int)
                } else {
                    chevron_left_run_end(input@, pos as int)
                })
                &&& sp@ == span_at(input@, pos as int, next as int)
            },
            Err(e) => {
                &&& !(0 <= (pos as int) < input@.len() && (input@[pos as int] == '>'
                    || input@[pos as int] == '<'))
                &&& e@ == expect_err(input@, pos as int, "chevron"@)
            },
        },
{
    if pos == input.unicode_len() {
        let loc = crate::span::compute_location(input, pos);
        return Err(ParseError::UnexpectedEndOfInput("chevron", loc));
    }
    let c = input.get_char(pos);
    if c == '>' {
        let end = scan_run(input, pos, CharClass::ChevronRight);
        Ok((make_span(input, pos, end), end))
    } else if c == '<' {
        let end = scan_run(input, pos, CharClass::ChevronLeft);
        Ok((make_span(input, pos, end), end))
    } else {
        let loc = crate::span::compute_location(input, pos);
        Err(ParseError::UnexpectedToken("chevron", loc))
    }
}

/// Parse a non-empty run of slashes.
pub fn prs_slash<'a>(input: &'a str, pos: usize) -> (r: Result<(Span<'a>, usize), ParseError>)
    requires
        valid_input(input@),
        pos <= input@.len(),
    ensures
        match r {
            Ok((sp, next)) => {
                &&& 0 <= (pos as int) < input@.len() && input@[pos as int] == '/'
                &&& next == slash_run_end(input@, pos as int)
                &&& sp@ == span_at(input@, pos as int, next as int)
            },
            Err(e) => {
                &&& !(0 <= (pos as int) < input@.len() && input@[pos as int] == '/')
                &&& e@ == expect_err(input@, pos as int, "slash"@)
            },
        },
{
    if pos == input.unicode_len() {
        let loc = crate::span::compute_location(input, pos);
        return Err(ParseError::UnexpectedEndOfInput("slash", loc));
    }
    if input.get_char(pos) == '/' {
        let end = scan_run(input, pos, CharClass::Slash);
        Ok((make_span(input, pos, end), end))
    } else {
        let loc = crate::span::compute_location(input, pos);
        Err(ParseError::UnexpectedToken("slash", loc))
    }
}

/// The fraction form stands at `i`: zero-or-more digits, one slash,
/// one-or-more digits.
pub open spec fn digit_slash_digit_ok(s: Seq<char>, i: int) -> bool {
    let d = digit_run_end(s, i);
    &&& d < s.len()
    &&& s[d] == '/'
    &&& digit_run_end(s, d + 1) > d + 1
}

/// The error a failed fraction parse at `i` returns: the slash or the
/// denominator digits were missing.
pub open spec fn digit_slash_digit_err(s: Seq<char>, i: int) -> ErrorData {
    let d = digit_run_end(s, i);
    if d < s.len() && s[d] == '/' {
        expect_err(s, d + 1, "denominator digits"@)
    } else {
        expect_err(s, d, "slash"@)
    }
}

/// Parse a fraction: a possibly empty numerator digit span, the slash
/// span, and a non-empty denominator digit span.
pub fn prs_digit_slash_digit<'a>(input: &'a str, pos: usize) -> (r: Result<
    ((Span<'a>, Span<'a>, Span<'a>), usize),
    ParseError,
>)
    requires
        valid_input(input@),
        pos <= input@.len(),
    ensures
        match r {
            Ok(((num, sl, den), next)) => {
                &&& digit_slash_digit_ok(input@, pos as int)
                &&& num@ == span_at(input@, pos as int, digit_run_end(input@, pos as int))
                &&& sl@ == span_at(
                    input@,
                    digit_run_end(input@, pos as int),
                    digit_run_end(input@, pos as int) + 1,
                )
                &&& den@ == span_at(
                    input@,
                    digit_run_end(input@, pos as int) + 1,
                    digit_run_end(input@, digit_run_end(input@, pos as int) + 1),
                )
                &&& next == digit_run_end(input@, digit_run_end(input@, pos as int) + 1)
            },
            Err(e) => {
                &&& !digit_slash_digit_ok(input@, pos as int)
                &&& e@ == digit_slash_digit_err(input@, pos as int)
            },
        },
{
    let ghost s = input@;
    proof {
        crate::span::lemma_char_len_bound(s);
    }
    let n = input.unicode_len();
    let d = scan_run(input, pos, CharClass::Digit);
    if d == n || input.get_char(d) != '/' {
        let loc = crate::span::compute_location(input, d);
        if d == n {
            return Err(ParseError::UnexpectedEndOfInput("slash", loc));
        } else {
            return Err(ParseError::UnexpectedToken("slash", loc));
        }
    }
    let e = scan_run(input, d + 1, CharClass::Digit);
    if e == d + 1 {
        let loc = crate::span::compute_location(input, d + 1);
        if d + 1 == n {
            return Err(ParseError::UnexpectedEndOfInput("denominator digits", loc));
        } else {
            return Err(ParseError::UnexpectedToken("denominator digits", loc));
        }
    }
    let num = make_span(input, pos, d);
    let sl = make_span(input, d, d + 1);
    let den = make_span(input, d + 1, e);
    Ok(((num, sl, den), e))
}

/// Parse a rhythm modifier by the fixed alternative priority.
pub fn prs_rhythm<'a>(input: &'a str, pos: usize) -> (r: Result<(Rhythm<'a>, usize), ParseError>)
    requires
        valid_input(input@),
        pos <= input@.len(),
    ensures
        match r {
            Ok((rh, next)) => {
                &&& rhythm_result(input@, pos as int) == RhythmOutcome::Match(rh@, next as int)
                &&& pos <= next <= input@.len()
            },
            Err(e) => rhythm_result(input@, pos as int) == RhythmOutcome::Fail(e@),
        },
{
    let ghost s = input@;
    proof {
        crate::span::lemma_char_len_bound(s);
    }
    let n = input.unicode_len();
    if pos == n {
        let loc = crate::span::compute_location(input, pos);
        return Err(ParseError::UnexpectedEndOfInput("rhythm", loc));
    }
    let c = input.get_char(pos);
    if c == '>' {
        let end = scan_run(input, pos, CharClass::ChevronRight);
        return Ok((Rhythm::Broken(make_span(input, pos, end)), end));
    }
    if c == '<' {
        let end = scan_run(input, pos, CharClass::ChevronLeft);
        return Ok((Rhythm::Broken(make_span(input, pos, end)), end));
    }
    let d = scan_run(input, pos, CharClass::Digit);
    if d > pos {
        if d < n && input.get_char(d) == '/' {
            let e = scan_run(input, d + 1, CharClass::Digit);
            if e > d + 1 {
                let num = make_span(input, pos, d);
                let sl = make_span(input, d, d + 1);
                let den = make_span(input, d + 1, e);
                return Ok((Rhythm::DigitSlashDigit((num, sl, den)), e));
            } else {
                let loc = crate::span::compute_location(input, d + 1);
                if d + 1 == n {
                    return Err(ParseError::UnexpectedEndOfInput("denominator digits", loc));
                } else {
                    return Err(ParseError::UnexpectedToken("denominator digits", loc));
                }
            }
        } else {
            return Ok((Rhythm::Digits(make_span(input, pos, d)), d));
        }
    }
    if c == '/' {
        let mut digit_after = false;
        if pos + 1 < n {
            digit_after = crate::chars::is_dec_digit(input.get_char(pos + 1));
        }
        if digit_after {
            let e = scan_run(input, pos + 1, CharClass::Digit);
            let num = make_span(input, pos, pos);
            let sl = make_span(input, pos, pos + 1);
            let den = make_span(input, pos + 1, e);
            return Ok((Rhythm::DigitSlashDigit((num, sl, den)), e));
        } else {
            let end = scan_run(input, pos, CharClass::Slash);
            return Ok((Rhythm::Slashes(make_span(input, pos, end)), end));
        }
    }
    let loc = crate::span::compute_location(input, pos);
    Err(ParseError::UnexpectedToken("rhythm", loc))
}

} // verus!
