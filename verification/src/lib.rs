//! A verified lexer for a subset of ABC music notation: pitches
//! (alteration, note letter, octave markers), rests and multi-measure
//! rests, rhythm modifiers, and their composition into notes.  Every
//! matched token carries exact source-location data (byte offset,
//! 1-based line, 1-based character column, matched text), and a span
//! serializes to a fixed JSON record for external tooling.

pub mod chars;
pub mod laws;
pub mod note;
pub mod pitch;
pub mod rhythm;
pub mod serializer;
pub mod span;
