//! The general laws of the grammar, stated and proved over the spec
//! parsers that the executable parsers are proved equal to.

use vstd::prelude::*;

use crate::chars::class_pred;
use crate::chars::dec_digit;
use crate::chars::lemma_run_end;
use crate::chars::note_letter;
use crate::chars::octave_mark;
use crate::chars::CharClass;
use crate::pitch::alteration_len;
use crate::pitch::alteration_token;
use crate::pitch::digit_run_end;
use crate::pitch::octave_run_end;
use crate::pitch::pitch_end;
use crate::pitch::pitch_ok;
use crate::pitch::spec_pitch;
use crate::pitch::PitchData;
use crate::rhythm::rhythm_result;
use crate::rhythm::RhythmData;
use crate::rhythm::RhythmOutcome;
use crate::serializer::dec_rep;
use crate::serializer::json_escape;
use crate::serializer::span_json;
use crate::span::byte_offset;
use crate::span::expect_err;
use crate::span::span_at;

verus! {

/// Parsing a single note letter alone as a pitch succeeds, returns
/// exactly that letter with no alteration and no octave, and consumes
/// the whole input.
pub proof fn lemma_single_letter_pitch(s: Seq<char>)
    requires
        s.len() == 1,
        note_letter(s[0]),
    ensures
        pitch_ok(s, 0),
        spec_pitch(s, 0) == (PitchData {
            alteration: None,
            note_letter: span_at(s, 0, 1),
            octave: None,
        }),
        pitch_end(s, 0) == 1,
        spec_pitch(s, 0).note_letter.fragment == seq![s[0]],
{
    assert(alteration_len(s, 0) == 0);
    assert(octave_run_end(s, 1) == 1);
    assert(spec_pitch(s, 0) =~= PitchData {
        alteration: None,
        note_letter: span_at(s, 0, 1),
        octave: None,
    });
    assert(s.subrange(0, 1) =~= seq![s[0]]);
}

/// Alterations match longest-prefix-first: whenever some alteration
/// token of length `n` stands at `i`, the matched alteration is at
/// least that long — so `__` is never truncated to `_` — and what is
/// matched is itself an alteration token.
pub proof fn lemma_alteration_longest_match(s: Seq<char>, i: int, n: int)
    requires
        0 <= i,
        0 <= n,
        i + n <= s.len(),
        alteration_token(s.subrange(i, i + n)),
    ensures
        alteration_len(s, i) >= n,
        alteration_token(s.subrange(i, i + alteration_len(s, i))),
{
    let t = s.subrange(i, i + n);
    assert(t.len() == n);
    assert(n == 1 || n == 2);
    assert(t[0] == s[i]);
    if n == 2 {
        assert(t[1] == s[i + 1]);
    }
    let alen = alteration_len(s, i);
    assert(alen == 1 || alen == 2);
    if alen == 2 {
        assert(s.subrange(i, i + 2) =~= seq![s[i], s[i + 1]]);
    } else {
        assert(s.subrange(i, i + 1) =~= seq![s[i]]);
    }
}

/// Octave markers accumulate as individual spans: a parsed pitch with
/// an octave run carries one single-character span per marker, in
/// source order, directly after the note letter.
pub proof fn lemma_octave_marks_individual(s: Seq<char>, i: int)
    requires
        0 <= i <= s.len(),
        pitch_ok(s, i),
        spec_pitch(s, i).octave is Some,
    ensures
        ({
            let lp = i + alteration_len(s, i);
            let marks = spec_pitch(s, i).octave->0;
            &&& marks.len() == pitch_end(s, i) - (lp + 1)
            &&& marks.len() > 0
            &&& forall|k: int|
                0 <= k < marks.len() ==> (#[trigger] marks[k]).fragment == seq![s[lp + 1 + k]]
                    && octave_mark(s[lp + 1 + k])
        }),
{
    let lp = i + alteration_len(s, i);
    let marks = spec_pitch(s, i).octave->0;
    let oe = octave_run_end(s, lp + 1);
    lemma_run_end(s, lp + 1, class_pred(CharClass::OctaveMark));
    assert(oe > lp + 1);
    assert forall|k: int| 0 <= k < marks.len() implies (#[trigger] marks[k]).fragment == seq![
        s[lp + 1 + k],
    ] && octave_mark(s[lp + 1 + k]) by {
        assert(marks[k] == span_at(s, lp + 1 + k, lp + 2 + k));
        assert(s.subrange(lp + 1 + k, lp + 2 + k) =~= seq![s[lp + 1 + k]]);
        assert(class_pred(CharClass::OctaveMark)(s[lp + 1 + k]));
    }
}

/// No silently truncated rhythm: a digit run followed by a slash is
/// committed to as a fraction, so if the denominator digits are
/// missing the parse is a typed failure; a `Digits` match is never
/// followed by a slash; and a matched fraction always carries a
/// non-empty denominator.
pub proof fn lemma_rhythm_no_truncation(s: Seq<char>, i: int)
    requires
        0 <= i <= s.len(),
    ensures
        ({
            let d = digit_run_end(s, i);
            (d > i && d < s.len() && s[d] == '/' && digit_run_end(s, d + 1) == d + 1)
                ==> rhythm_result(s, i) == RhythmOutcome::Fail(
                expect_err(s, d + 1, "denominator digits"@),
            )
        }),
        forall|sp: crate::span::SpanData, e: int|
            rhythm_result(s, i) == RhythmOutcome::Match(RhythmData::Digits(sp), e) ==> e == s.len()
                || s[e] != '/',
        forall|num: crate::span::SpanData, sl: crate::span::SpanData, den: crate::span::SpanData, e: int|
            rhythm_result(s, i) == RhythmOutcome::Match(
                RhythmData::DigitSlashDigit(num, sl, den),
                e,
            ) ==> den.fragment.len() > 0,
{
    lemma_run_end(s, i, class_pred(CharClass::Digit));
    let d = digit_run_end(s, i);
    if d > i && d < s.len() && s[d] == '/' && i < s.len() {
        assert(dec_digit(s[i]));
        lemma_run_end(s, d + 1, class_pred(CharClass::Digit));
    }
    if i < s.len() && s[i] == '/' && i + 1 < s.len() && dec_digit(s[i + 1]) {
        assert(digit_run_end(s, i + 1) == digit_run_end(s, i + 2));
        lemma_run_end(s, i + 2, class_pred(CharClass::Digit));
        assert(s.subrange(i + 1, digit_run_end(s, i + 1)).len() > 0);
    }
    if d > i && d < s.len() && s[d] == '/' && digit_run_end(s, d + 1) > d + 1 {
        assert(s.subrange(d + 1, digit_run_end(s, d + 1)).len() > 0);
    }
}

/// The root span of the empty input serializes to the one fixed
/// record: offset 0, line 1, empty fragment, column 1.
pub proof fn lemma_empty_root_serialization()
    ensures
        span_json(span_at(Seq::<char>::empty(), 0, 0))
            == "{\"offset\":0,\"line\":1,\"fragment\":\"\",\"column\":1}"@,
{
    let s = Seq::<char>::empty();
    assert(s.take(0) =~= s);
    assert(byte_offset(s, 0) == 0);
    let d = span_at(s, 0, 0);
    assert(d.fragment =~= Seq::<char>::empty());
    assert(json_escape(d.fragment) =~= Seq::<char>::empty());
    assert(dec_rep(0) =~= seq!['0']);
    assert(dec_rep(1) =~= seq!['1']);
    reveal_strlit("{\"offset\":");
    reveal_strlit(",\"line\":");
    reveal_strlit(",\"fragment\":\"");
    reveal_strlit("\",\"column\":");
    reveal_strlit("}");
    reveal_strlit("{\"offset\":0,\"line\":1,\"fragment\":\"\",\"column\":1}");
    assert(span_json(d) =~= "{\"offset\":0,\"line\":1,\"fragment\":\"\",\"column\":1}"@);
}

} // verus!
