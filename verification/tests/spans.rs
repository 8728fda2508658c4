use abc_lex::note::{prs_note, NoteOrRest};
use abc_lex::pitch::Pitch;
use abc_lex::span::{make_span, Span};

#[test]
fn serialize_located_span() {
    let input = Span::new("");
    let serialized = input.to_json();
    let converted = "{\"offset\":0,\"line\":1,\"fragment\":\"\",\"column\":1}";
    assert_eq!(serialized, converted)
}

#[test]
fn note_letter_position_after_alteration() {
    let (note, _tail) = prs_note("^G,12/4", 0).unwrap();
    match note.note_or_rest {
        NoteOrRest::Pitch(pitch) => {
            assert_eq!(pitch.note_letter.fragment, "G");
            assert_eq!(pitch.note_letter.offset, 1);
            assert_eq!(pitch.note_letter.line, 1);
            assert_eq!(pitch.note_letter.column, 2);
        }
        other => panic!("expected a pitch, got {:?}", other),
    }
    assert_eq!(note.span.fragment, "^G,12/4");
}

#[test]
fn byte_offset_counts_bytes_column_counts_characters() {
    // The flat sign takes three bytes but one column.
    let (pitch, _tail) = Pitch::parse_pitch("\u{266d}A", 0).unwrap();
    assert_eq!(pitch.alteration.unwrap().fragment, "\u{266d}");
    assert_eq!(pitch.note_letter.fragment, "A");
    assert_eq!(pitch.note_letter.offset, 3);
    assert_eq!(pitch.note_letter.column, 2);
}

#[test]
fn line_and_column_after_newline() {
    let input = "z\nA";
    let (letter, _tail) = Pitch::parse_note_letter(input, 2).unwrap();
    assert_eq!(letter.fragment, "A");
    assert_eq!(letter.offset, 2);
    assert_eq!(letter.line, 2);
    assert_eq!(letter.column, 1);
}

#[test]
fn root_span_covers_whole_input() {
    let root = Span::new("ab\nc");
    assert_eq!(root.offset, 0);
    assert_eq!(root.line, 1);
    assert_eq!(root.column, 1);
    assert_eq!(root.fragment, "ab\nc");
}

#[test]
fn serialize_span_with_escapes_and_wide_offset() {
    let input = "aaaaaaaaaaaa\"\u{266d}\n";
    let quote = make_span(input, 12, 13);
    assert_eq!(
        quote.to_json(),
        "{\"offset\":12,\"line\":1,\"fragment\":\"\\\"\",\"column\":13}"
    );
    let newline = make_span(input, 14, 15);
    assert_eq!(
        newline.to_json(),
        "{\"offset\":16,\"line\":1,\"fragment\":\"\\n\",\"column\":15}"
    );
}

#[test]
fn serialize_escapes_control_characters() {
    let root = Span::new("\t\u{1}");
    assert_eq!(
        root.to_json(),
        "{\"offset\":0,\"line\":1,\"fragment\":\"\\t\\u0001\",\"column\":1}"
    );
    let backslash = Span::new("\\");
    assert_eq!(
        backslash.to_json(),
        "{\"offset\":0,\"line\":1,\"fragment\":\"\\\\\",\"column\":1}"
    );
}

#[test]
fn serialize_keeps_multibyte_fragment() {
    let root = Span::new("\u{266d}");
    assert_eq!(
        root.to_json(),
        "{\"offset\":0,\"line\":1,\"fragment\":\"\u{266d}\",\"column\":1}"
    );
}
