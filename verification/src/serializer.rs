//! Serialization of a `Span` into the one stable record external
//! tooling consumes: a JSON object with exactly the fields `offset`,
//! `line`, `fragment` and `column`, in that fixed order.  The fragment
//! is escaped as JSON escapes strings: quote and backslash get a
//! backslash escape, control characters get their short escape or a
//! `\u00..` form, and everything else is emitted as it stands.

use vstd::prelude::*;
use vstd::string::StringExecFns;

use crate::span::Span;
use crate::span::SpanData;

verus! {

/// The sixteen lowercase hexadecimal digit characters; the first ten
/// are the decimal digit characters.
pub open spec fn hex_digit(d: nat) -> char {
    if d == 0 {
        '0'
    } else if d == 1 {
        '1'
    } else if d == 2 {
        '2'
    } else if d == 3 {
        '3'
    } else if d == 4 {
        '4'
    } else if d == 5 {
        '5'
    } else if d == 6 {
        '6'
    } else if d == 7 {
        '7'
    } else if d == 8 {
        '8'
    } else if d == 9 {
        '9'
    } else if d == 10 {
        'a'
    } else if d == 11 {
        'b'
    } else if d == 12 {
        'c'
    } else if d == 13 {
        'd'
    } else if d == 14 {
        'e'
    } else {
        'f'
    }
}

/// Decimal representation of a number, most significant digit first,
/// without leading zeros (a single `0` for zero).
pub open spec fn dec_rep(n: nat) -> Seq<char>
    decreases n,
{
    if n < 10 {
        seq![hex_digit(n)]
    } else {
        dec_rep(n / 10).push(hex_digit(n % 10))
    }
}

/// The JSON escape of one character.
pub open spec fn esc_char(c: char) -> Seq<char> {
    if c == '"' {
        seq!['\\', '"']
    } else if c == '\\' {
        seq!['\\', '\\']
    } else if c == '\u{8}' {
        seq!['\\', 'b']
    } else if c == '\t' {
        seq!['\\', 't']
    } else if c == '\n' {
        seq!['\\', 'n']
    } else if c == '\u{c}' {
        seq!['\\', 'f']
    } else if c == '\r' {
        seq!['\\', 'r']
    } else if (c as u32) < 32 {
        seq!['\\', 'u', '0', '0', hex_digit((c as u32 / 16) as nat), hex_digit((c as u32 % 16) as nat)]
    } else {
        seq![c]
    }
}

/// The JSON escape of a string: its characters' escapes, in order.
pub open spec fn json_escape(s: Seq<char>) -> Seq<char>
    decreases s.len(),
{
    if s.len() == 0 {
        Seq::empty()
    } else {
        json_escape(s.drop_last()) + esc_char(s.last())
    }
}

/// The serialized record of a span: exactly the fields `offset`,
/// `line`, `fragment`, `column`, in this order, as one JSON object.
pub open spec fn span_json(d: SpanData) -> Seq<char> {
    "{\"offset\":"@ + dec_rep(d.offset) + ",\"line\":"@ + dec_rep(d.line) + ",\"fragment\":\""@
        + json_escape(d.fragment) + "\",\"column\":"@ + dec_rep(d.column) + "}"@
}

/// Escaping one more character appends that character's escape.
pub proof fn lemma_json_escape_step(s: Seq<char>, i: int)
    requires
        0 <= i < s.len(),
    ensures
        json_escape(s.take(i + 1)) == json_escape(s.take(i)) + esc_char(s[i]),
{
    assert(s.take(i + 1).drop_last() =~= s.take(i));
    assert(s.take(i + 1).last() == s[i]);
}

/// One lowercase hexadecimal (and so also decimal) digit.
fn digit_str(d: usize) -> (r: &'static str)
    requires
        d < 16,
    ensures
        r@ == seq![hex_digit(d as nat)],
{
    proof {
        reveal_strlit("0");
        reveal_strlit("1");
        reveal_strlit("2");
        reveal_strlit("3");
        reveal_strlit("4");
        reveal_strlit("5");
        reveal_strlit("6");
        reveal_strlit("7");
        reveal_strlit("8");
        reveal_strlit("9");
        reveal_strlit("a");
        reveal_strlit("b");
        reveal_strlit("c");
        reveal_strlit("d");
        reveal_strlit("e");
        reveal_strlit("f");
    }
    if d == 0 {
        "0"
    } else if d == 1 {
        "1"
    } else if d == 2 {
        "2"
    } else if d == 3 {
        "3"
    } else if d == 4 {
        "4"
    } else if d == 5 {
        "5"
    } else if d == 6 {
        "6"
    } else if d == 7 {
        "7"
    } else if d == 8 {
        "8"
    } else if d == 9 {
        "9"
    } else if d == 10 {
        "a"
    } else if d == 11 {
        "b"
    } else if d == 12 {
        "c"
    } else if d == 13 {
        "d"
    } else if d == 14 {
        "e"
    } else {
        "f"
    }
}

/// The decimal digits of a number, built most significant first.
fn dec_string(n: usize) -> (out: String)
    ensures
        out@ == dec_rep(n as nat),
    decreases n,
{
    if n < 10 {
        let out = String::from_str(digit_str(n));
        proof {
            assert(out@ =~= dec_rep(n as nat));
        }
        out
    } else {
        let mut out = dec_string(n / 10);
        out.append(digit_str(n % 10));
        proof {
            assert(out@ =~= dec_rep(n as nat));
        }
        out
    }
}

/// Append the JSON escape of the character at `k` in `frag`.
fn append_escaped(out: &mut String, frag: &str, k: usize)
    requires
        k < frag@.len(),
        k < usize::MAX,
    ensures
        final(out)@ == old(out)@ + esc_char(frag@[k as int]),
{
    let c = frag.get_char(k);
    if c == '"' {
        out.append("\\\"");
        proof {
            reveal_strlit("\\\"");
            assert(out@ =~= old(out)@ + esc_char(c));
        }
    } else if c == '\\' {
        out.append("\\\\");
        proof {
            reveal_strlit("\\\\");
            assert(out@ =~= old(out)@ + esc_char(c));
        }
    } else if c == '\u{8}' {
        out.append("\\b");
        proof {
            reveal_strlit("\\b");
            assert(out@ =~= old(out)@ + esc_char(c));
        }
    } else if c == '\t' {
        out.append("\\t");
        proof {
            reveal_strlit("\\t");
            assert(out@ =~= old(out)@ + esc_char(c));
        }
    } else if c == '\n' {
        out.append("\\n");
        proof {
            reveal_strlit("\\n");
            assert(out@ =~= old(out)@ + esc_char(c));
        }
    } else if c == '\u{c}' {
        out.append("\\f");
        proof {
            reveal_strlit("\\f");
            assert(out@ =~= old(out)@ + esc_char(c));
        }
    } else if c == '\r' {
        out.append("\\r");
        proof {
            reveal_strlit("\\r");
            assert(out@ =~= old(out)@ + esc_char(c));
        }
    } else {
        let u = c as u32;
        if u < 32 {
            out.append("\\u00");
            out.append(digit_str((u / 16) as usize));
            out.append(digit_str((u % 16) as usize));
            proof {
                reveal_strlit("\\u00");
                assert(out@ =~= old(out)@ + esc_char(c));
            }
        } else {
            let piece = frag.substring_char(k, k + 1);
            out.append(piece);
            proof {
                assert(piece@ =~= seq![c]);
                assert(out@ =~= old(out)@ + esc_char(c));
            }
        }
    }
}

impl<'a> Span<'a> {
    /// Serialize this span to its stable JSON record.
    pub fn to_json(&self) -> (out: String)
        ensures
            out@ == span_json(self@),
    {
        let mut out = String::from_str("{\"offset\":");
        let offset_digits = dec_string(self.offset);
        out.append(offset_digits.as_str());
        out.append(",\"line\":");
        let line_digits = dec_string(self.line);
        out.append(line_digits.as_str());
        out.append(",\"fragment\":\"");
        let ghost pre = out@;
        let frag = self.fragment;
        let n = frag.unicode_len();
        let mut k: usize = 0;
        proof {
            assert(frag@.take(0) =~= Seq::<char>::empty());
            assert(pre + json_escape(frag@.take(0)) =~= pre);
        }
        while k < n
            invariant
                k <= n,
                n == frag@.len(),
                out@ == pre + json_escape(frag@.take(k as int)),
            decreases n - k,
        {
            append_escaped(&mut out, frag, k);
            proof {
                lemma_json_escape_step(frag@, k as int);
                assert(pre + json_escape(frag@.take(k as int)) + esc_char(frag@[k as int]) =~= pre
                    + json_escape(frag@.take(k + 1)));
            }
            k = k + 1;
        }
        proof {
            assert(frag@.take(n as int) =~= frag@);
        }
        out.append("\",\"column\":");
        let column_digits = dec_string(self.column);
        out.append(column_digits.as_str());
        out.append("}");
        proof {
            assert(out@ =~= span_json(self@));
        }
        out
    }
}

} // verus!
