//! Character classes of the ABC token grammar, and maximal runs of a
//! class inside an input.

use vstd::prelude::*;

verus! {

/// The fourteen note letters: `a`..`g` and `A`..`G`.
pub open spec fn note_letter(c: char) -> bool {
    ||| c == 'a'
    ||| c == 'b'
    ||| c == 'c'
    ||| c == 'd'
    ||| c == 'e'
    ||| c == 'f'
    ||| c == 'g'
    ||| c == 'A'
    ||| c == 'B'
    ||| c == 'C'
    ||| c == 'D'
    ||| c == 'E'
    ||| c == 'F'
    ||| c == 'G'
}

/// An octave marker: `'` shifts up, `,` shifts down.
pub open spec fn octave_mark(c: char) -> bool {
    c == '\'' || c == ','
}

/// An ASCII decimal digit.
pub open spec fn dec_digit(c: char) -> bool {
    48 <= c as u32 <= 57
}

/// The left chevron of a broken-rhythm run.
pub open spec fn chevron_left(c: char) -> bool {
    c == '<'
}

/// The right chevron of a broken-rhythm run.
pub open spec fn chevron_right(c: char) -> bool {
    c == '>'
}

/// The slash of a rhythm modifier.
pub open spec fn slash(c: char) -> bool {
    c == '/'
}

pub fn is_chevron_left(chr: char) -> (r: bool)
    ensures
        r == chevron_left(chr),
{
    chr == '<'
}

pub fn is_chevron_right(chr: char) -> (r: bool)
    ensures
        r == chevron_right(chr),
{
    chr == '>'
}

pub fn is_slash(chr: char) -> (r: bool)
    ensures
        r == slash(chr),
{
    chr == '/'
}

pub fn is_dec_digit(c: char) -> (r: bool)
    ensures
        r == dec_digit(c),
{
    let u = c as u32;
    48 <= u && u <= 57
}

/// The character classes that the grammar takes maximal runs of.
#[derive(Clone, Copy, Debug, PartialEq, Eq)]
pub enum CharClass {
    OctaveMark,
    Digit,
    ChevronLeft,
    ChevronRight,
    Slash,
}

/// The predicate that a character class stands for.
pub open spec fn class_pred(cc: CharClass) -> spec_fn(char) -> bool {
    match cc {
        CharClass::OctaveMark => |c: char| octave_mark(c),
        CharClass::Digit => |c: char| dec_digit(c),
        CharClass::ChevronLeft => |c: char| chevron_left(c),
        CharClass::ChevronRight => |c: char| chevron_right(c),
        CharClass::Slash => |c: char| slash(c),
    }
}

/// First position at or after `i` whose character is not in the class:
/// the end of the maximal run of the class starting at `i`.
pub open spec fn run_end(s: Seq<char>, i: int, pred: spec_fn(char) -> bool) -> int
    decreases s.len() - i,
{
    if 0 <= i < s.len() && pred(s[i]) {
        run_end(s, i + 1, pred)
    } else {
        i
    }
}

/// What makes `run_end` the maximal run: everything in `[i, end)` is in
/// the class and the character at `end`, if any, is not.
pub proof fn lemma_run_end(s: Seq<char>, i: int, pred: spec_fn(char) -> bool)
    requires
        0 <= i <= s.len(),
    ensures
        i <= run_end(s, i, pred) <= s.len(),
        forall|k: int| i <= k < run_end(s, i, pred) ==> #[trigger] pred(s[k]),
        run_end(s, i, pred) < s.len() ==> !pred(s[run_end(s, i, pred)]),
    decreases s.len() - i,
{
    if i < s.len() && pred(s[i]) {
        lemma_run_end(s, i + 1, pred);
    }
}

fn in_class(c: char, cc: CharClass) -> (b: bool)
    ensures
        b == class_pred(cc)(c),
{
    match cc {
        CharClass::OctaveMark => c == '\'' || c == ',',
        CharClass::Digit => {
            let u = c as u32;
            48 <= u && u <= 57
        },
        CharClass::ChevronLeft => c == '<',
        CharClass::ChevronRight => c == '>',
        CharClass::Slash => c == '/',
    }
}

/// Scan the maximal run of the class starting at `pos`.
pub fn scan_run(input: &str, pos: usize, cc: CharClass) -> (end: usize)
    requires
        pos <= input@.len(),
    ensures
        end == run_end(input@, pos as int, class_pred(cc)),
        pos <= end <= input@.len(),
{
    let ghost p = class_pred(cc);
    let n = input.unicode_len();
    let mut j = pos;
    while j < n
        invariant
            pos <= j <= n,
            n == input@.len(),
            run_end(input@, pos as int, p) == run_end(input@, j as int, p),
            p == class_pred(cc),
        ensures
            pos <= j <= n,
            run_end(input@, pos as int, p) == run_end(input@, j as int, p),
            j == n || !p(input@[j as int]),
        decreases n - j,
    {
        let c = input.get_char(j);
        if in_class(c, cc) {
            j = j + 1;
        } else {
            break;
        }
    }
    proof {
        assert(run_end(input@, j as int, p) == j);
    }
    j
}

} // verus!
