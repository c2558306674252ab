//! Aggregate rendering: the registry as one compact JSON object, with
//! component names escaped the way serde_json writes strings.

use vstd::prelude::*;
use crate::registry::RecordView;

verus! {

/// The sixteen lowercase hex digits.
pub open spec fn hex_digit(n: int) -> char {
    seq!['0', '1', '2', '3', '4', '5', '6', '7', '8', '9', 'a', 'b', 'c', 'd', 'e', 'f'][n]
}

/// JSON string escape of one character: `"` and `\` take a backslash, the
/// named control characters their short escapes, any other control
/// character a `\u00..` form; everything else stands as itself.
pub open spec fn esc_char(c: char) -> Seq<char> {
    if c == '"' {
        seq!['\\', '"']
    } else if c == '\\' {
        seq!['\\', '\\']
    } else if c == '\u{8}' {
        seq!['\\', 'b']
    } else if c == '\t' {
        seq!['\\', 't']
    } else if c == '\n' {
        seq!['\\', 'n']
    } else if c == '\u{c}' {
        seq!['\\', 'f']
    } else if c == '\r' {
        seq!['\\', 'r']
    } else if (c as u32) < 32 {
        seq!['\\', 'u', '0', '0', hex_digit(((c as u32) as int) / 16), hex_digit(
            ((c as u32) as int) % 16,
        )]
    } else {
        seq![c]
    }
}

/// Escape of a whole name.
pub open spec fn escape_seq(s: Seq<char>) -> Seq<char>
    decreases s.len(),
{
    if s.len() == 0 {
        Seq::empty()
    } else {
        esc_char(s[0]) + escape_seq(s.drop_first())
    }
}

pub proof fn lemma_escape_push(s: Seq<char>, c: char)
    ensures
        escape_seq(s.push(c)) == escape_seq(s) + esc_char(c),
    decreases s.len(),
{
    if s.len() == 0 {
        assert(s.push(c).drop_first() =~= Seq::<char>::empty());
        assert(escape_seq(s.push(c)) == esc_char(c) + escape_seq(Seq::<char>::empty()));
        assert(esc_char(c) + Seq::<char>::empty() =~= esc_char(c));
        assert(Seq::<char>::empty() + esc_char(c) =~= esc_char(c));
    } else {
        assert(s.push(c).drop_first() =~= s.drop_first().push(c));
        lemma_escape_push(s.drop_first(), c);
        assert(escape_seq(s.push(c)) == esc_char(s[0]) + (escape_seq(s.drop_first())
            + esc_char(c)));
        assert(esc_char(s[0]) + (escape_seq(s.drop_first()) + esc_char(c)) =~= (esc_char(s[0])
            + escape_seq(s.drop_first())) + esc_char(c));
    }
}

/// One rendered aggregate entry: `"name":contents`.
pub open spec fn entry_text(r: RecordView) -> Seq<char> {
    seq!['"'] + escape_seq(r.name) + seq!['"', ':'] + r.contents
}

/// The rendered entries, in order, separated by commas.
pub open spec fn entries_text(v: Seq<RecordView>) -> Seq<char>
    decreases v.len(),
{
    if v.len() == 0 {
        Seq::empty()
    } else if v.len() == 1 {
        entry_text(v[0])
    } else {
        entries_text(v.drop_last()) + seq![','] + entry_text(v.last())
    }
}

pub proof fn lemma_entries_push(v: Seq<RecordView>, x: RecordView)
    ensures
        entries_text(v.push(x)) == if v.len() == 0 {
            entry_text(x)
        } else {
            entries_text(v) + seq![','] + entry_text(x)
        },
{
    assert(v.push(x).drop_last() =~= v);
    assert(v.push(x).last() == x);
}

/// The aggregate document as text: a single JSON object.
pub open spec fn render_spec(v: Seq<RecordView>) -> Seq<char> {
    seq!['{'] + entries_text(v) + seq!['}']
}

/// Relies on String::push: appends exactly one character.
#[verifier::external_body]
pub(crate) fn push_char(s: &mut String, c: char)
    ensures
        final(s)@ == old(s)@.push(c),
{
    s.push(c);
}

/// The `d`-th lowercase hex digit.
fn hex_char(d: u32) -> (c: char)
    requires
        d < 16,
    ensures
        c == hex_digit(d as int),
{
    match d {
        0 => '0',
        1 => '1',
        2 => '2',
        3 => '3',
        4 => '4',
        5 => '5',
        6 => '6',
        7 => '7',
        8 => '8',
        9 => '9',
        10 => 'a',
        11 => 'b',
        12 => 'c',
        13 => 'd',
        14 => 'e',
        _ => 'f',
    }
}

/// Append the escaped form of `s` to `out`.
pub(crate) fn escape_into(out: &mut String, s: &String)
    ensures
        final(out)@ == old(out)@ + escape_seq(s@),
{
    let n = s.as_str().unicode_len();
    let mut i: usize = 0;
    while i < n
        invariant
            n == s@.len(),
            i <= n,
            out@ == old(out)@ + escape_seq(s@.take(i as int)),
        decreases n - i,
    {
        let c = s.as_str().get_char(i);
        if c == '"' {
            push_char(out, '\\');
            push_char(out, '"');
        } else if c == '\\' {
            push_char(out, '\\');
            push_char(out, '\\');
        } else if c == '\u{8}' {
            push_char(out, '\\');
            push_char(out, 'b');
        } else if c == '\t' {
            push_char(out, '\\');
            push_char(out, 't');
        } else if c == '\n' {
            push_char(out, '\\');
            push_char(out, 'n');
        } else if c == '\u{c}' {
            push_char(out, '\\');
            push_char(out, 'f');
        } else if c == '\r' {
            push_char(out, '\\');
            push_char(out, 'r');
        } else if (c as u32) < 32 {
            let code = c as u32;
            push_char(out, '\\');
            push_char(out, 'u');
            push_char(out, '0');
            push_char(out, '0');
            push_char(out, hex_char(code / 16));
            push_char(out, hex_char(code % 16));
        } else {
            push_char(out, c);
        }
        proof {
            lemma_escape_push(s@.take(i as int), s@[i as int]);
            assert(s@.take(i as int + 1) =~= s@.take(i as int).push(s@[i as int]));
            assert(out@ =~= old(out)@ + escape_seq(s@.take(i as int + 1)));
        }
        i += 1;
    }
    proof {
        assert(s@.take(n as int) =~= s@);
    }
}

} // verus!
