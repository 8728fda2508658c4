//! The pitch grammar: an optional alteration, a mandatory note letter,
//! an optional run of octave markers — plus the two rest forms.  Each
//! parser consumes nothing on failure and returns a typed error, so a
//! caller can try a sibling alternative at the same cursor position.

use vstd::prelude::*;

use crate::chars::note_letter;
use crate::chars::octave_mark;
use crate::chars::scan_run;
use crate::chars::run_end;
use crate::chars::class_pred;
use crate::chars::CharClass;
use crate::span::expect_err;
use crate::span::make_span;
use crate::span::span_at;
use crate::span::valid_input;
use crate::span::ErrorData;
use crate::span::ParseError;
use crate::span::Span;
use crate::span::SpanData;

verus! {

/// End of the maximal octave-marker run starting at `i`.
pub open spec fn octave_run_end(s: Seq<char>, i: int) -> int {
    run_end(s, i, class_pred(CharClass::OctaveMark))
}

/// End of the maximal digit run starting at `i`.
pub open spec fn digit_run_end(s: Seq<char>, i: int) -> int {
    run_end(s, i, class_pred(CharClass::Digit))
}

/// Length (0, 1 or 2 characters) of the alteration at position `i`,
/// matched longest-prefix-first: `__` and `^^` win over `_` and `^`;
/// `=` and the single-codepoint musical flat, natural, sharp,
/// double-flat and double-sharp signs match one character.
pub open spec fn alteration_len(s: Seq<char>, i: int) -> int {
    if 0 <= i < s.len() {
        let c = s[i];
        if c == '_' || c == '^' {
            if i + 1 < s.len() && s[i + 1] == c {
                2
            } else {
                1
            }
        } else if c == '=' || c == '\u{266d}' || c == '\u{266e}' || c == '\u{266f}' || c
            == '\u{1d12b}' || c == '\u{1d12a}' {
            1
        } else {
            0
        }
    } else {
        0
    }
}

/// The alteration alternatives, as fragments.
pub open spec fn alteration_token(t: Seq<char>) -> bool {
    ||| t == seq!['=']
    ||| t == seq!['_', '_']
    ||| t == seq!['_']
    ||| t == seq!['^', '^']
    ||| t == seq!['^']
    ||| t == seq!['\u{266d}']
    ||| t == seq!['\u{266e}']
    ||| t == seq!['\u{266f}']
    ||| t == seq!['\u{1d12b}']
    ||| t == seq!['\u{1d12a}']
}

/// A note letter stands at position `i`.
pub open spec fn note_letter_ok(s: Seq<char>, i: int) -> bool {
    0 <= i < s.len() && note_letter(s[i])
}

/// The pitch grammar succeeds at `i`: after the (possibly empty)
/// alteration there is a note letter.
pub open spec fn pitch_ok(s: Seq<char>, i: int) -> bool {
    note_letter_ok(s, i + alteration_len(s, i))
}

/// One past the last character a successful pitch parse at `i`
/// consumes.
pub open spec fn pitch_end(s: Seq<char>, i: int) -> int {
    octave_run_end(s, i + alteration_len(s, i) + 1)
}

/// Mathematical value of a parsed `Pitch`.
#[verifier::ext_equal]
pub struct PitchData {
    pub alteration: Option<SpanData>,
    pub note_letter: SpanData,
    pub octave: Option<Seq<SpanData>>,
}

/// The pitch a successful parse at `i` returns: each octave marker is
/// its own one-character span, in source order; an empty octave run is
/// absent, not an empty sequence.
pub open spec fn spec_pitch(s: Seq<char>, i: int) -> PitchData {
    let a = alteration_len(s, i);
    let lp = i + a;
    let oe = octave_run_end(s, lp + 1);
    PitchData {
        alteration: if a == 0 {
            None
        } else {
            Some(span_at(s, i, lp))
        },
        note_letter: span_at(s, lp, lp + 1),
        octave: if oe == lp + 1 {
            None
        } else {
            Some(Seq::new((oe - (lp + 1)) as nat, |k: int| span_at(s, lp + 1 + k, lp + 2 + k)))
        },
    }
}

/// The error a failed pitch parse at `i` returns: a note letter was
/// expected after the alteration.
pub open spec fn pitch_err(s: Seq<char>, i: int) -> ErrorData {
    expect_err(s, i + alteration_len(s, i), "note letter"@)
}

/// A rest stands at position `i`.
pub open spec fn rest_ok(s: Seq<char>, i: int) -> bool {
    0 <= i < s.len() && (s[i] == 'z' || s[i] == 'x')
}

/// A multi-measure rest marker stands at position `i`.
pub open spec fn multimeasure_rest_ok(s: Seq<char>, i: int) -> bool {
    0 <= i < s.len() && (s[i] == 'Z' || s[i] == 'X')
}

/// A parsed pitch: optional alteration span, note-letter span,
/// optional octave-marker spans in source order.
#[derive(Debug, PartialEq, Eq)]
pub struct Pitch<'a> {
    pub alteration: Option<Span<'a>>,
    pub note_letter: Span<'a>,
    pub octave: Option<Vec<Span<'a>>>,
}

impl<'a> View for Pitch<'a> {
    type V = PitchData;

    open spec fn view(&self) -> PitchData {
        PitchData {
            alteration: match self.alteration {
                Some(sp) => Some(sp@),
                None => None,
            },
            note_letter: self.note_letter@,
            octave: match self.octave {
                Some(v) => Some(Seq::new(v@.len(), |k: int| v@[k]@)),
                None => None,
            },
        }
    }
}

/// Length of the alteration at `pos`, by the longest-prefix-first
/// alternatives.
fn alteration_len_at(input: &str, pos: usize) -> (alen: usize)
    requires
        pos <= input@.len(),
    ensures
        alen == alteration_len(input@, pos as int),
        pos + alen <= input@.len(),
{
    let n = input.unicode_len();
    if pos == n {
        return 0;
    }
    let c = input.get_char(pos);
    if c == '_' || c == '^' {
        if pos + 1 < n && input.get_char(pos + 1) == c {
            2
        } else {
            1
        }
    } else if c == '=' || c == '\u{266d}' || c == '\u{266e}' || c == '\u{266f}' || c == '\u{1d12b}'
        || c == '\u{1d12a}' {
        1
    } else {
        0
    }
}

fn is_note_letter_char(c: char) -> (r: bool)
    ensures
        r == note_letter(c),
{
    c == 'a' || c == 'b' || c == 'c' || c == 'd' || c == 'e' || c == 'f' || c == 'g' || c == 'A'
        || c == 'B' || c == 'C' || c == 'D' || c == 'E' || c == 'F' || c == 'G'
}

impl<'a> Pitch<'a> {
    /// Parse the optional alteration as a mandatory token: absence is
    /// an error here; `parse_pitch` treats it as "no alteration".
    pub fn parse_alteration(input: &'a str, pos: usize) -> (r: Result<(Span<'a>, usize), ParseError>)
        requires
            valid_input(input@),
            pos <= input@.len(),
        ensures
            match r {
                Ok((sp, next)) => {
                    &&& alteration_len(input@, pos as int) > 0
                    &&& sp@ == span_at(
                        input@,
                        pos as int,
                        pos + alteration_len(input@, pos as int),
                    )
                    &&& next == pos + alteration_len(input@, pos as int)
                },
                Err(e) => {
                    &&& alteration_len(input@, pos as int) == 0
                    &&& e@ == expect_err(input@, pos as int, "alteration"@)
                },
            },
    {
        proof {
            crate::span::lemma_char_len_bound(input@);
        }
        let alen = alteration_len_at(input, pos);
        if alen == 0 {
            let loc = crate::span::compute_location(input, pos);
            if pos == input.unicode_len() {
                Err(ParseError::UnexpectedEndOfInput("alteration", loc))
            } else {
                Err(ParseError::UnexpectedToken("alteration", loc))
            }
        } else {
            Ok((make_span(input, pos, pos + alen), pos + alen))
        }
    }

    /// Parse exactly one of the fourteen note letters.
    pub fn parse_note_letter(input: &'a str, pos: usize) -> (r: Result<
        (Span<'a>, usize),
        ParseError,
    >)
        requires
            valid_input(input@),
            pos <= input@.len(),
        ensures
            match r {
                Ok((sp, next)) => {
                    &&& note_letter_ok(input@, pos as int)
                    &&& sp@ == span_at(input@, pos as int, pos + 1)
                    &&& next == pos + 1
                },
                Err(e) => {
                    &&& !note_letter_ok(input@, pos as int)
                    &&& e@ == expect_err(input@, pos as int, "note letter"@)
                },
            },
    {
        if pos == input.unicode_len() {
            let loc = crate::span::compute_location(input, pos);
            return Err(ParseError::UnexpectedEndOfInput("note letter", loc));
        }
        let c = input.get_char(pos);
        if is_note_letter_char(c) {
            Ok((make_span(input, pos, pos + 1), pos + 1))
        } else {
            let loc = crate::span::compute_location(input, pos);
            Err(ParseError::UnexpectedToken("note letter", loc))
        }
    }

    /// Parse one-or-more octave markers, each as its own span.
    pub fn parse_octave(input: &'a str, pos: usize) -> (r: Result<
        (Vec<Span<'a>>, usize),
        ParseError,
    >)
        requires
            valid_input(input@),
            pos <= input@.len(),
        ensures
            match r {
                Ok((v, next)) => {
                    &&& 0 <= (pos as int) < input@.len() && octave_mark(input@[pos as int])
                    &&& next == octave_run_end(input@, pos as int)
                    &&& v@.len() == next - pos
                    &&& forall|k: int|
                        0 <= k < v@.len() ==> (#[trigger] v@[k])@ == span_at(
                            input@,
                            pos + k,
                            pos + k + 1,
                        )
                },
                Err(e) => {
                    &&& !(0 <= (pos as int) < input@.len() && octave_mark(input@[pos as int]))
                    &&& e@ == expect_err(input@, pos as int, "octave marker"@)
                },
            },
    {
        let ghost s = input@;
        let oe = scan_run(input, pos, CharClass::OctaveMark);
        proof {
            crate::chars::lemma_run_end(s, pos as int, class_pred(CharClass::OctaveMark));
        }
        if oe == pos {
            let loc = crate::span::compute_location(input, pos);
            if pos == input.unicode_len() {
                return Err(ParseError::UnexpectedEndOfInput("octave marker", loc));
            } else {
                return Err(ParseError::UnexpectedToken("octave marker", loc));
            }
        }
        let mut v: Vec<Span<'a>> = Vec::new();
        let mut k = pos;
        while k < oe
            invariant
                pos <= k <= oe <= s.len(),
                s == input@,
                valid_input(s),
                v@.len() == k - pos,
                forall|kk: int|
                    0 <= kk < v@.len() ==> (#[trigger] v@[kk])@ == span_at(
                        s,
                        pos + kk,
                        pos + kk + 1,
                    ),
            decreases oe - k,
        {
            let sp = make_span(input, k, k + 1);
            v.push(sp);
            k = k + 1;
        }
        Ok((v, oe))
    }

    /// Parse a pitch: optional alteration, mandatory note letter,
    /// optional octave-marker run.
    pub fn parse_pitch(input: &'a str, pos: usize) -> (r: Result<(Pitch<'a>, usize), ParseError>)
        requires
            valid_input(input@),
            pos <= input@.len(),
        ensures
            match r {
                Ok((p, next)) => {
                    &&& pitch_ok(input@, pos as int)
                    &&& p@ == spec_pitch(input@, pos as int)
                    &&& next == pitch_end(input@, pos as int)
                    &&& pos < next <= input@.len()
                },
                Err(e) => {
                    &&& !pitch_ok(input@, pos as int)
                    &&& e@ == pitch_err(input@, pos as int)
                },
            },
    {
        let ghost s = input@;
        proof {
            crate::span::lemma_char_len_bound(s);
        }
        let alen = alteration_len_at(input, pos);
        let lp = pos + alen;
        match Self::parse_note_letter(input, lp) {
            Err(e) => Err(e),
            Ok((letter, after)) => {
                let alteration = if alen == 0 {
                    None
                } else {
                    Some(make_span(input, pos, lp))
                };
                let (octave, next) = match Self::parse_octave(input, after) {
                    Ok((v, oe)) => (Some(v), oe),
                    Err(_) => (None, after),
                };
                let p = Pitch { alteration, note_letter: letter, octave };
                proof {
                    crate::chars::lemma_run_end(s, after as int, class_pred(CharClass::OctaveMark));
                    let spc = spec_pitch(s, pos as int);
                    let oe = octave_run_end(s, after as int);
                    match p@.octave {
                        Some(sds) => {
                            let tds = Seq::new(
                                (oe - after) as nat,
                                |k: int| span_at(s, after + k, after + 1 + k),
                            );
                            assert(sds =~= tds);
                        },
                        None => {
                            assert(oe == after as int);
                        },
                    }
                    assert(p@ =~= spc);
                }
                Ok((p, next))
            },
        }
    }
}

/// Parse a single-character rest, `z` or `x`.
pub fn prs_rest<'a>(input: &'a str, pos: usize) -> (r: Result<(Span<'a>, usize), ParseError>)
    requires
        valid_input(input@),
        pos <= input@.len(),
    ensures
        match r {
            Ok((sp, next)) => {
                &&& rest_ok(input@, pos as int)
                &&& sp@ == span_at(input@, pos as int, pos + 1)
                &&& next == pos + 1
            },
            Err(e) => {
                &&& !rest_ok(input@, pos as int)
                &&& e@ == expect_err(input@, pos as int, "rest"@)
            },
        },
{
    if pos == input.unicode_len() {
        let loc = crate::span::compute_location(input, pos);
        return Err(ParseError::UnexpectedEndOfInput("rest", loc));
    }
    let c = input.get_char(pos);
    if c == 'z' || c == 'x' {
        Ok((make_span(input, pos, pos + 1), pos + 1))
    } else {
        let loc = crate::span::compute_location(input, pos);
        Err(ParseError::UnexpectedToken("rest", loc))
    }
}

/// Parse a multi-measure rest: `Z` or `X`, followed by zero-or-more
/// digits.  The digit span may be empty; the numeric default for an
/// absent count is a consumer concern, not computed here.
pub fn prs_multimeasure_rest<'a>(input: &'a str, pos: usize) -> (r: Result<
    ((Span<'a>, Span<'a>), usize),
    ParseError,
>)
    requires
        valid_input(input@),
        pos <= input@.len(),
    ensures
        match r {
            Ok(((marker, digits), next)) => {
                &&& multimeasure_rest_ok(input@, pos as int)
                &&& marker@ == span_at(input@, pos as int, pos + 1)
                &&& digits@ == span_at(input@, pos + 1, digit_run_end(input@, pos + 1))
                &&& next == digit_run_end(input@, pos + 1)
            },
            Err(e) => {
                &&& !multimeasure_rest_ok(input@, pos as int)
                &&& e@ == expect_err(input@, pos as int, "multimeasure rest"@)
            },
        },
{
    let ghost s = input@;
    if pos == input.unicode_len() {
        let loc = crate::span::compute_location(input, pos);
        return Err(ParseError::UnexpectedEndOfInput("multimeasure rest", loc));
    }
    let c = input.get_char(pos);
    if c == 'Z' || c == 'X' {
        let marker = make_span(input, pos, pos + 1);
        let de = scan_run(input, pos + 1, CharClass::Digit);
        let digits = make_span(input, pos + 1, de);
        Ok(((marker, digits), de))
    } else {
        let loc = crate::span::compute_location(input, pos);
        Err(ParseError::UnexpectedToken("multimeasure rest", loc))
    }
}

/// Mathematical value of a `SimplifiedPitch`.
#[verifier::ext_equal]
pub struct SimplifiedPitchData {
    pub alteration: Option<Seq<char>>,
    pub note_letter: Seq<char>,
    pub octave: Option<Seq<Seq<char>>>,
}

/// What remains of a pitch once the locations are dropped: the matched
/// fragments alone.
pub open spec fn simplify(p: PitchData) -> SimplifiedPitchData {
    SimplifiedPitchData {
        alteration: match p.alteration {
            Some(sd) => Some(sd.fragment),
            None => None,
        },
        note_letter: p.note_letter.fragment,
        octave: match p.octave {
            Some(sds) => Some(sds.map_values(|sd: SpanData| sd.fragment)),
            None => None,
        },
    }
}

/// A pitch reduced to its matched fragments, without locations.
#[derive(Debug, PartialEq, Eq)]
pub struct SimplifiedPitch<'a> {
    pub alteration: Option<&'a str>,
    pub note_letter: &'a str,
    pub octave: Option<Vec<&'a str>>,
}

impl<'a> View for SimplifiedPitch<'a> {
    type V = SimplifiedPitchData;

    open spec fn view(&self) -> SimplifiedPitchData {
        SimplifiedPitchData {
            alteration: match self.alteration {
                Some(a) => Some(a@),
                None => None,
            },
            note_letter: self.note_letter@,
            octave: match self.octave {
                Some(v) => Some(Seq::new(v@.len(), |k: int| v@[k]@)),
                None => None,
            },
        }
    }
}

impl<'a> SimplifiedPitch<'a> {
    /// The empty simplified pitch: no alteration, empty letter, no
    /// octave.
    pub fn new_empty() -> (r: Self)
        ensures
            r@ == (SimplifiedPitchData {
                alteration: None,
                note_letter: Seq::<char>::empty(),
                octave: None,
            }),
    {
        proof {
            reveal_strlit("");
        }
        let r = SimplifiedPitch { alteration: None, note_letter: "", octave: None };
        proof {
            assert(r@ =~= SimplifiedPitchData {
                alteration: None,
                note_letter: Seq::<char>::empty(),
                octave: None,
            });
        }
        r
    }

    /// Drop the locations of a parsed pitch, keeping the fragments.
    pub fn convert_from_pitch(pitch: &Pitch<'a>) -> (r: Self)
        ensures
            r@ == simplify(pitch@),
    {
        let mut simple_pitch = SimplifiedPitch::new_empty();
        match pitch.alteration {
            Some(val) => simple_pitch.alteration = Some(val.fragment),
            None => {},
        }
        simple_pitch.note_letter = pitch.note_letter.fragment;
        match &pitch.octave {
            Some(val) => {
                let mut frags: Vec<&'a str> = Vec::new();
                let mut idx: usize = 0;
                while idx < val.len()
                    invariant
                        idx <= val@.len(),
                        frags@.len() == idx,
                        forall|k: int| 0 <= k < idx ==> #[trigger] frags@[k] == val@[k].fragment,
                    decreases val@.len() - idx,
                {
                    frags.push(val[idx].fragment);
                    idx = idx + 1;
                }
                proof {
                    let a = Seq::new(frags@.len(), |k: int| frags@[k]@);
                    let b = Seq::new(val@.len(), |k: int| val@[k]@).map_values(
                        |sd: SpanData| sd.fragment,
                    );
                    assert(a =~= b);
                }
                simple_pitch.octave = Some(frags);
            },
            None => {},
        }
        proof {
            assert(simple_pitch@ =~= simplify(pitch@));
        }
        simple_pitch
    }
}

} // verus!
