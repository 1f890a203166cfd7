//! Building JSON text directly: string escaping and quoted strings.
//!
//! The records this pipeline emits are JSON objects with a fixed key order,
//! so the library renders them as text with an exact model: every byte of
//! output is pinned by the specs here. Escaping follows the common compact
//! JSON form: quote and backslash get a backslash; backspace, tab, newline,
//! form feed and carriage return get their letter escapes; the remaining
//! control characters become `\u00..` with lowercase hex; everything else
//! stands as itself.

use vstd::prelude::*;
use vstd::std_specs::iter::IteratorSpec;

verus! {

/// The character of one lowercase hex digit.
pub open spec fn spec_hex_char(d: int) -> char {
    if d < 10 {
        ((d + 48) as u8) as char
    } else {
        ((d + 87) as u8) as char
    }
}

/// The escape of one character inside a JSON string literal.
pub open spec fn spec_escape_char(c: char) -> Seq<char> {
    if c == '"' {
        seq!['\\', '"']
    } else if c == '\\' {
        seq!['\\', '\\']
    } else if c == '\u{8}' {
        seq!['\\', 'b']
    } else if c == '\t' {
        seq!['\\', 't']
    } else if c == '\n' {
        seq!['\\', 'n']
    } else if c == '\u{c}' {
        seq!['\\', 'f']
    } else if c == '\r' {
        seq!['\\', 'r']
    } else if (c as u32) < 0x20 {
        seq!['\\', 'u', '0', '0', spec_hex_char(c as u32 as int / 16), spec_hex_char(
            c as u32 as int % 16,
        )]
    } else {
        seq![c]
    }
}

/// A whole character sequence, escaped.
pub open spec fn spec_escaped(s: Seq<char>) -> Seq<char>
    decreases s.len(),
{
    if s.len() == 0 {
        Seq::empty()
    } else {
        spec_escape_char(s[0]) + spec_escaped(s.drop_first())
    }
}

/// A JSON string literal: the escaped characters between double quotes.
pub open spec fn spec_json_string(s: Seq<char>) -> Seq<char> {
    seq!['"'] + spec_escaped(s) + seq!['"']
}

/// The characters of a string, in order, collected through the character
/// iterator's specification.
pub(crate) fn str_chars(s: &str) -> (r: Vec<char>)
    ensures
        r@ == s@,
{
    broadcast use vstd::string::axiom_spec_iter;
    broadcast use vstd::std_specs::iter::group_iter_axioms;

    let mut it = s.chars();
    let mut out: Vec<char> = Vec::new();
    proof {
        assert(out@ + it.remaining() =~= s@);
    }
    loop
        invariant
            it.obeys_prophetic_iter_laws(),
            it.decrease() is Some,
            out@ + it.remaining() == s@,
        ensures
            out@ =~= s@,
        decreases it.decrease()->0,
    {
        let ghost pre = it;
        match it.next() {
            Some(c) => {
                out.push(c);
                proof {
                    assert(pre.remaining()[0] == c);
                    assert(out@ + it.remaining() =~= s@);
                }
            },
            None => {
                proof {
                    assert(pre.remaining().len() == 0);
                    assert(out@ =~= s@);
                }
                break;
            },
        }
    }
    out
}

/// The character of a lowercase hex digit.
fn hex_char(d: u8) -> (c: char)
    requires
        d < 16,
    ensures
        c == spec_hex_char(d as int),
{
    if d < 10 {
        (d + 48) as char
    } else {
        (d + 87) as char
    }
}

/// Append the escape of one character.
fn append_escaped_char(out: &mut String, c: char)
    ensures
        final(out)@ == old(out)@ + spec_escape_char(c),
{
    if c == '"' {
        crate::digits::push_char(out, '\\');
        crate::digits::push_char(out, '"');
    } else if c == '\\' {
        crate::digits::push_char(out, '\\');
        crate::digits::push_char(out, '\\');
    } else if c == '\u{8}' {
        crate::digits::push_char(out, '\\');
        crate::digits::push_char(out, 'b');
    } else if c == '\t' {
        crate::digits::push_char(out, '\\');
        crate::digits::push_char(out, 't');
    } else if c == '\n' {
        crate::digits::push_char(out, '\\');
        crate::digits::push_char(out, 'n');
    } else if c == '\u{c}' {
        crate::digits::push_char(out, '\\');
        crate::digits::push_char(out, 'f');
    } else if c == '\r' {
        crate::digits::push_char(out, '\\');
        crate::digits::push_char(out, 'r');
    } else if (c as u32) < 0x20 {
        let v = c as u32;
        crate::digits::push_char(out, '\\');
        crate::digits::push_char(out, 'u');
        crate::digits::push_char(out, '0');
        crate::digits::push_char(out, '0');
        crate::digits::push_char(out, hex_char((v / 16) as u8));
        crate::digits::push_char(out, hex_char((v % 16) as u8));
    } else {
        crate::digits::push_char(out, c);
    }
    proof {
        assert(final(out)@ =~= old(out)@ + spec_escape_char(c));
    }
}

/// Append a JSON string literal holding `s`.
pub fn append_json_string(out: &mut String, s: &str)
    ensures
        final(out)@ == old(out)@ + spec_json_string(s@),
{
    let cs = str_chars(s);
    crate::digits::push_char(out, '"');
    let n = cs.len();
    let mut i: usize = 0;
    while i < n
        invariant
            n == cs.len(),
            cs@ == s@,
            i <= n,
            out@ == old(out)@ + seq!['"'] + spec_escaped(s@.take(i as int)),
        decreases n - i,
    {
        proof {
            lemma_escaped_snoc(s@, i as int);
        }
        append_escaped_char(out, cs[i]);
        i = i + 1;
    }
    proof {
        assert(s@.take(n as int) =~= s@);
    }
    crate::digits::push_char(out, '"');
    proof {
        assert(final(out)@ =~= old(out)@ + spec_json_string(s@));
    }
}

/// Escaping one more character extends the escaped prefix.
proof fn lemma_escaped_snoc(s: Seq<char>, i: int)
    requires
        0 <= i < s.len(),
    ensures
        spec_escaped(s.take(i + 1)) == spec_escaped(s.take(i)) + spec_escape_char(s[i]),
    decreases i,
{
    if i == 0 {
        assert(s.take(1).drop_first() =~= Seq::<char>::empty());
        assert(s.take(0) =~= Seq::<char>::empty());
        assert(s.take(1)[0] == s[0]);
        assert(spec_escaped(s.take(1)) == spec_escape_char(s[0]) + spec_escaped(
            Seq::<char>::empty(),
        ));
        assert(spec_escape_char(s[0]) + Seq::<char>::empty() =~= spec_escape_char(s[0]));
    } else {
        lemma_escaped_snoc(s.drop_first(), i - 1);
        assert(s.take(i + 1).drop_first() =~= s.drop_first().take(i));
        assert(s.take(i).drop_first() =~= s.drop_first().take(i - 1));
        assert(s.take(i + 1)[0] == s[0] && s.take(i)[0] == s[0]);
        assert(s.drop_first()[i - 1] == s[i]);
        assert(spec_escaped(s.take(i + 1)) == spec_escape_char(s[0]) + spec_escaped(
            s.drop_first().take(i),
        ));
        assert(spec_escaped(s.take(i)) == spec_escape_char(s[0]) + spec_escaped(
            s.drop_first().take(i - 1),
        ));
        assert(spec_escaped(s.take(i)) + spec_escape_char(s[i]) =~= spec_escape_char(s[0]) + (
        spec_escaped(s.drop_first().take(i - 1)) + spec_escape_char(s.drop_first()[i - 1])));
    }
}

/// Escaping a string that needs no escapes leaves it unchanged.
pub proof fn lemma_escaped_plain(s: Seq<char>)
    requires
        forall|i: int|
            0 <= i < s.len() ==> s[i] != '"' && s[i] != '\\' && (#[trigger] s[i] as u32) >= 0x20,
    ensures
        spec_escaped(s) == s,
    decreases s.len(),
{
    if s.len() > 0 {
        lemma_escaped_plain(s.drop_first());
        assert(spec_escaped(s) =~= s);
    }
}

} // verus!
