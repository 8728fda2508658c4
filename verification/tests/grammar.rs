use abc_lex::note::{prs_note, Note, NoteOrRest};
use abc_lex::pitch::{prs_multimeasure_rest, prs_rest, Pitch, SimplifiedPitch};
use abc_lex::rhythm::{
    prs_broken_rhythm, prs_chevron_left, prs_chevron_right, prs_digit_slash_digit, prs_rhythm,
    prs_slash, Rhythm,
};
use abc_lex::span::{Location, ParseError};

/// The input left after the parsed prefix, `pos` counting characters.
fn rest_of(input: &str, pos: usize) -> String {
    input.chars().skip(pos).collect()
}

#[test]
fn test_prs_rest() {
    let input = "zzzz";
    let (matched_letter, tail) = prs_rest(input, 0).unwrap();
    assert_eq!(matched_letter.fragment, "z");
    assert_eq!(rest_of(input, tail), "zzz");
}

#[test]
fn test_prs_multimeasure_rest() {
    let input = "Z123abc";
    let ((z, digits), tail) = prs_multimeasure_rest(input, 0).unwrap();
    assert_eq!(z.fragment, "Z");
    assert_eq!(digits.fragment, "123");
    assert_eq!(rest_of(input, tail), "abc");
}

#[test]
fn test_parse_note_letter() {
    let input = "Ablabla";
    let (matched_letter, tail) = Pitch::parse_note_letter(input, 0).unwrap();
    assert_eq!(matched_letter.offset, 0);
    assert_eq!(matched_letter.line, 1);
    assert_eq!(matched_letter.fragment, "A");
    assert_eq!(matched_letter.column, 1);
    assert_eq!(rest_of(input, tail), "blabla");
}

#[test]
fn test_parse_alteration() {
    let test_alterations = [("^^A,", "A,", "^^"), ("__B,", "B,", "__"), ("_B,", "B,", "_")];
    for test in test_alterations {
        let (result_alteration, tail) = Pitch::parse_alteration(test.0, 0).unwrap();
        assert_eq!(result_alteration.fragment, test.2);
        assert_eq!(rest_of(test.0, tail), test.1);
    }
}

#[test]
fn test_parse_octave() {
    let test_vec = [(",,,", "", vec![","; 3])];
    for test in test_vec {
        let (result_octave, tail) = Pitch::parse_octave(test.0, 0).unwrap();
        for (i, result_span) in result_octave.iter().enumerate() {
            assert_eq!(result_span.fragment, test.2[i]);
        }
        assert_eq!(rest_of(test.0, tail), test.1);
    }

    let result_octave = Pitch::parse_octave("", 0);
    assert_eq!(
        result_octave,
        Err(ParseError::UnexpectedEndOfInput(
            "octave marker",
            Location { offset: 0, line: 1, column: 1 }
        ))
    );
}

#[test]
fn test_prs_chevron_left() {
    let input = "<<abc";
    let (chevrons, tail) = prs_chevron_left(input, 0).unwrap();
    assert_eq!(chevrons.fragment, "<<");
    assert_eq!(rest_of(input, tail), "abc");
}

#[test]
fn test_prs_chevron_right() {
    let input = ">>abc";
    let (chevrons, tail) = prs_chevron_right(input, 0).unwrap();
    assert_eq!(chevrons.fragment, ">>");
    assert_eq!(rest_of(input, tail), "abc");
}

#[test]
fn test_prs_broken_rhythm() {
    let input = ">>abc";
    let (chevrons, tail) = prs_broken_rhythm(input, 0).unwrap();
    assert_eq!(chevrons.fragment, ">>");
    assert_eq!(rest_of(input, tail), "abc");
}

#[test]
fn test_prs_slash() {
    let input = "///abc";
    let (slashes, tail) = prs_slash(input, 0).unwrap();
    assert_eq!(slashes.fragment, "///");
    assert_eq!(rest_of(input, tail), "abc");
}

#[test]
fn test_digit_slash_digit() {
    let ((optionaldigit, _slash, actualdigit), _tail) =
        prs_digit_slash_digit("2/6abc", 0).unwrap();
    assert_eq!(optionaldigit.fragment, "2");
    assert_eq!(actualdigit.fragment, "6");

    let ((optionaldigit, _slash, actualdigit), _tail) = prs_digit_slash_digit("/6abc", 0).unwrap();
    assert_eq!(optionaldigit.fragment, "");
    assert_eq!(actualdigit.fragment, "6");
}

#[test]
fn test_parse_rhythm() {
    let (pitch, _tail) = prs_rhythm("///", 0).unwrap();
    let tester = Rhythm::Slashes(prs_slash("///", 0).unwrap().0);
    assert_eq!(pitch, tester);

    let (pitch, _tail) = prs_rhythm(">>", 0).unwrap();
    let tester = Rhythm::Broken(prs_broken_rhythm(">>", 0).unwrap().0);
    assert_eq!(pitch, tester);

    let (pitch, _tail) = prs_rhythm("12", 0).unwrap();
    match pitch {
        Rhythm::Digits(t) => assert_eq!(t.fragment, "12"),
        _ => {}
    }

    let (pitch, _tail) = prs_rhythm("/12", 0).unwrap();
    let tester = Rhythm::DigitSlashDigit(prs_digit_slash_digit("/12", 0).unwrap().0);
    assert_eq!(pitch, tester);
}

#[test]
fn test_parse_pitch() {
    let (pitch, _tail) = Pitch::parse_pitch("^G,", 0).unwrap();
    assert_eq!(
        SimplifiedPitch::convert_from_pitch(&pitch),
        SimplifiedPitch { note_letter: "G", alteration: Some("^"), octave: Some(vec![","]) }
    );
    let (pitch, _tail) = Pitch::parse_pitch("G", 0).unwrap();
    assert_eq!(
        SimplifiedPitch::convert_from_pitch(&pitch),
        SimplifiedPitch { note_letter: "G", alteration: None, octave: None }
    );
}

#[test]
fn test_parse_simplifiedpitch() {
    assert_eq!(
        SimplifiedPitch::new_empty(),
        SimplifiedPitch { note_letter: "", alteration: None, octave: None }
    )
}

#[test]
fn test_prs_note() {
    let (Note { note_or_rest, rhythm, .. }, _tail) = prs_note("^G,12/4", 0).unwrap();

    match note_or_rest {
        NoteOrRest::Pitch(t) => {
            let Pitch { alteration, note_letter, .. } = t;
            let Pitch { alteration: prs_alt, note_letter: prs_note_letter, .. } =
                Pitch::parse_pitch("^G,", 0).unwrap().0;
            assert_eq!(alteration.unwrap().fragment, prs_alt.unwrap().fragment);
            assert_eq!(note_letter.fragment, prs_note_letter.fragment);
        }
        NoteOrRest::Rest(t) => {
            assert_eq!(t, prs_rest("^G,", 0).unwrap().0)
        }
    };
    if let Some(rhythm) = rhythm {
        match rhythm {
            Rhythm::DigitSlashDigit(rhythm) => {
                let (optionaldigit, slash, actualdigit) = rhythm;
                let (parsed, _tail) = prs_rhythm("12/4", 0).unwrap();
                if let Rhythm::DigitSlashDigit((prs_opt_dgt, prs_slsh, prs_actual)) = parsed {
                    assert_eq!(optionaldigit.fragment, prs_opt_dgt.fragment);
                    assert_eq!(slash.fragment, prs_slsh.fragment);
                    assert_eq!(actualdigit.fragment, prs_actual.fragment);
                }
            }
            _ => {}
        }
    }
}

#[test]
fn every_note_letter_parses_alone() {
    for letter in ["a", "b", "c", "d", "e", "f", "g", "A", "B", "C", "D", "E", "F", "G"] {
        let (pitch, tail) = Pitch::parse_pitch(letter, 0).unwrap();
        assert_eq!(pitch.note_letter.fragment, letter);
        assert!(pitch.alteration.is_none());
        assert!(pitch.octave.is_none());
        assert_eq!(rest_of(letter, tail), "");
    }
}

#[test]
fn double_flat_wins_over_flat() {
    let (pitch, tail) = Pitch::parse_pitch("__B", 0).unwrap();
    assert_eq!(pitch.alteration.unwrap().fragment, "__");
    assert_eq!(pitch.note_letter.fragment, "B");
    assert_eq!(rest_of("__B", tail), "");
}

#[test]
fn octave_marks_accumulate_individually() {
    let (pitch, tail) = Pitch::parse_pitch("G,,,", 0).unwrap();
    assert_eq!(pitch.note_letter.fragment, "G");
    let octave = pitch.octave.unwrap();
    assert_eq!(octave.len(), 3);
    for (i, mark) in octave.iter().enumerate() {
        assert_eq!(mark.fragment, ",");
        assert_eq!(mark.offset, 1 + i);
        assert_eq!(mark.column, 2 + i);
    }
    assert_eq!(rest_of("G,,,", tail), "");
}

#[test]
fn rhythm_alternative_selection() {
    match prs_rhythm("2/6", 0).unwrap().0 {
        Rhythm::DigitSlashDigit((num, sl, den)) => {
            assert_eq!(num.fragment, "2");
            assert_eq!(sl.fragment, "/");
            assert_eq!(den.fragment, "6");
        }
        other => panic!("expected a fraction, got {:?}", other),
    }
    match prs_rhythm("26", 0).unwrap().0 {
        Rhythm::Digits(run) => assert_eq!(run.fragment, "26"),
        other => panic!("expected digits, got {:?}", other),
    }
    match prs_rhythm("///", 0).unwrap().0 {
        Rhythm::Slashes(run) => assert_eq!(run.fragment, "///"),
        other => panic!("expected slashes, got {:?}", other),
    }
    match prs_rhythm(">>", 0).unwrap().0 {
        Rhythm::Broken(run) => assert_eq!(run.fragment, ">>"),
        other => panic!("expected a broken rhythm, got {:?}", other),
    }
}

#[test]
fn mixed_chevrons_stop_at_direction_change() {
    let (rhythm, tail) = prs_rhythm(">><", 0).unwrap();
    match rhythm {
        Rhythm::Broken(run) => assert_eq!(run.fragment, ">>"),
        other => panic!("expected a broken rhythm, got {:?}", other),
    }
    assert_eq!(rest_of(">><", tail), "<");
}

#[test]
fn fraction_without_denominator_fails() {
    assert_eq!(
        prs_rhythm("2/", 0),
        Err(ParseError::UnexpectedEndOfInput(
            "denominator digits",
            Location { offset: 2, line: 1, column: 3 }
        ))
    );
    assert_eq!(
        prs_rhythm("2/a", 0),
        Err(ParseError::UnexpectedToken(
            "denominator digits",
            Location { offset: 2, line: 1, column: 3 }
        ))
    );
}

#[test]
fn lone_slash_run_is_slashes() {
    match prs_rhythm("/a", 0).unwrap().0 {
        Rhythm::Slashes(run) => assert_eq!(run.fragment, "/"),
        other => panic!("expected slashes, got {:?}", other),
    }
}

#[test]
fn multimeasure_rest_with_absent_count() {
    let ((marker, digits), tail) = prs_multimeasure_rest("Z", 0).unwrap();
    assert_eq!(marker.fragment, "Z");
    assert_eq!(digits.fragment, "");
    assert_eq!(rest_of("Z", tail), "");
}

#[test]
fn note_letter_errors() {
    assert_eq!(
        Pitch::parse_note_letter("1", 0),
        Err(ParseError::UnexpectedToken(
            "note letter",
            Location { offset: 0, line: 1, column: 1 }
        ))
    );
    assert_eq!(
        Pitch::parse_note_letter("", 0),
        Err(ParseError::UnexpectedEndOfInput(
            "note letter",
            Location { offset: 0, line: 1, column: 1 }
        ))
    );
    assert_eq!(
        Pitch::parse_pitch("^1", 0),
        Err(ParseError::UnexpectedToken(
            "note letter",
            Location { offset: 1, line: 1, column: 2 }
        ))
    );
}

#[test]
fn note_with_rest_body_and_rhythm() {
    let (note, tail) = prs_note("z3", 0).unwrap();
    match note.note_or_rest {
        NoteOrRest::Rest(sp) => assert_eq!(sp.fragment, "z"),
        other => panic!("expected a rest, got {:?}", other),
    }
    match note.rhythm {
        Some(Rhythm::Digits(run)) => assert_eq!(run.fragment, "3"),
        other => panic!("expected a digit rhythm, got {:?}", other),
    }
    assert_eq!(note.span.fragment, "z3");
    assert_eq!(rest_of("z3", tail), "");
}

#[test]
fn note_fails_on_neither_pitch_nor_rest() {
    assert_eq!(
        prs_note("2", 0),
        Err(ParseError::UnexpectedToken(
            "note or rest",
            Location { offset: 0, line: 1, column: 1 }
        ))
    );
}
