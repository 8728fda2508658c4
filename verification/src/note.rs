//! The note composer: a pitch or a single-character rest, followed by
//! an optional rhythm modifier.  Composition succeeds exactly when the
//! pitch-or-rest sub-parse succeeds; a missing or malformed rhythm is
//! absence, never a failure.  The result carries the full consumed
//! span, from the first character of the pitch or rest through the end
//! of any matched rhythm.

use vstd::prelude::*;

use crate::pitch::pitch_end;
use crate::pitch::pitch_ok;
use crate::pitch::rest_ok;
use crate::pitch::spec_pitch;
use crate::pitch::Pitch;
use crate::pitch::PitchData;
use crate::rhythm::rhythm_result;
use crate::rhythm::prs_rhythm;
use crate::rhythm::Rhythm;
use crate::rhythm::RhythmData;
use crate::rhythm::RhythmOutcome;
use crate::span::expect_err;
use crate::span::make_span;
use crate::span::span_at;
use crate::span::valid_input;
use crate::span::ErrorData;
use crate::span::ParseError;
use crate::span::Span;
use crate::span::SpanData;

verus! {

/// Mathematical value of a `NoteOrRest`.
#[verifier::ext_equal]
pub enum NoteOrRestData {
    Pitch(PitchData),
    Rest(SpanData),
}

/// Mathematical value of a `Note`.
#[verifier::ext_equal]
pub struct NoteData {
    pub note_or_rest: NoteOrRestData,
    pub rhythm: Option<RhythmData>,
    pub span: SpanData,
}

/// A note body stands at `i`: a pitch, or failing that, a rest.
pub open spec fn note_ok(s: Seq<char>, i: int) -> bool {
    pitch_ok(s, i) || rest_ok(s, i)
}

/// One past the note body: past the pitch if one matches, else past
/// the one-character rest.
pub open spec fn note_body_end(s: Seq<char>, i: int) -> int {
    if pitch_ok(s, i) {
        pitch_end(s, i)
    } else {
        i + 1
    }
}

/// One past everything a successful note parse at `i` consumes.
pub open spec fn note_end(s: Seq<char>, i: int) -> int {
    match rhythm_result(s, note_body_end(s, i)) {
        RhythmOutcome::Match(rd, e) => e,
        RhythmOutcome::Fail(fe) => note_body_end(s, i),
    }
}

/// The note a successful parse at `i` returns.
pub open spec fn spec_note(s: Seq<char>, i: int) -> NoteData {
    NoteData {
        note_or_rest: if pitch_ok(s, i) {
            NoteOrRestData::Pitch(spec_pitch(s, i))
        } else {
            NoteOrRestData::Rest(span_at(s, i, i + 1))
        },
        rhythm: match rhythm_result(s, note_body_end(s, i)) {
            RhythmOutcome::Match(rd, e) => Some(rd),
            RhythmOutcome::Fail(fe) => None,
        },
        span: span_at(s, i, note_end(s, i)),
    }
}

/// The error a failed note parse at `i` returns: neither a pitch nor a
/// rest stands there.
pub open spec fn note_err(s: Seq<char>, i: int) -> ErrorData {
    expect_err(s, i, "note or rest"@)
}

/// A note body: a pitch, or a single-character rest span.
#[derive(Debug, PartialEq, Eq)]
pub enum NoteOrRest<'a> {
    Pitch(Pitch<'a>),
    Rest(Span<'a>),
}

impl<'a> View for NoteOrRest<'a> {
    type V = NoteOrRestData;

    open spec fn view(&self) -> NoteOrRestData {
        match self {
            NoteOrRest::Pitch(p) => NoteOrRestData::Pitch(p@),
            NoteOrRest::Rest(sp) => NoteOrRestData::Rest(sp@),
        }
    }
}

/// A parsed note: its body, its optional rhythm modifier, and the full
/// consumed span.
#[derive(Debug, PartialEq, Eq)]
pub struct Note<'a> {
    pub note_or_rest: NoteOrRest<'a>,
    pub rhythm: Option<Rhythm<'a>>,
    pub span: Span<'a>,
}

impl<'a> View for Note<'a> {
    type V = NoteData;

    open spec fn view(&self) -> NoteData {
        NoteData {
            note_or_rest: self.note_or_rest@,
            rhythm: match self.rhythm {
                Some(rh) => Some(rh@),
                None => None,
            },
            span: self.span@,
        }
    }
}

/// Parse a note: a pitch or rest, and an optional rhythm modifier.
pub fn prs_note<'a>(input: &'a str, pos: usize) -> (r: Result<(Note<'a>, usize), ParseError>)
    requires
        valid_input(input@),
        pos <= input@.len(),
    ensures
        match r {
            Ok((nt, next)) => {
                &&& note_ok(input@, pos as int)
                &&& nt@ == spec_note(input@, pos as int)
                &&& next == note_end(input@, pos as int)
            },
            Err(e) => {
                &&& !note_ok(input@, pos as int)
                &&& e@ == note_err(input@, pos as int)
            },
        },
{
    let ghost s = input@;
    proof {
        crate::span::lemma_char_len_bound(s);
    }
    let (body, mid) = match Pitch::parse_pitch(input, pos) {
        Ok((p, m)) => (NoteOrRest::Pitch(p), m),
        Err(_) => match crate::pitch::prs_rest(input, pos) {
            Ok((sp, m)) => (NoteOrRest::Rest(sp), m),
            Err(_) => {
                let loc = crate::span::compute_location(input, pos);
                if pos == input.unicode_len() {
                    return Err(ParseError::UnexpectedEndOfInput("note or rest", loc));
                } else {
                    return Err(ParseError::UnexpectedToken("note or rest", loc));
                }
            },
        },
    };
    let (rhythm, end) = match prs_rhythm(input, mid) {
        Ok((rh, e)) => (Some(rh), e),
        Err(_) => (None, mid),
    };
    let span = make_span(input, pos, end);
    let nt = Note { note_or_rest: body, rhythm, span };
    proof {
        assert(nt@ =~= spec_note(s, pos as int));
    }
    Ok((nt, end))
}

} // verus!
