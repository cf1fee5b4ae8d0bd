//! JSON values written back as compact text.

use crate::json::value::{
    items_view, lemma_view_array, lemma_view_object, members_view, JsonModel, JsonValue,
    MemberModel,
};
use vstd::prelude::*;

verus! {

/// The lower-case hexadecimal digit for a value below 16.
pub open spec fn hex_digit(v: int) -> char {
    if v < 10 {
        ('0' as int + v) as char
    } else {
        ('a' as int + v - 10) as char
    }
}

/// One character of a string as it is written between quotes.
pub open spec fn escape_char(c: char) -> Seq<char> {
    if c == '"' {
        seq!['\\', '"']
    } else if c == '\\' {
        seq!['\\', '\\']
    } else if c == '\n' {
        seq!['\\', 'n']
    } else if c == '\r' {
        seq!['\\', 'r']
    } else if c == '\t' {
        seq!['\\', 't']
    } else if c == '\u{8}' {
        seq!['\\', 'b']
    } else if c == '\u{c}' {
        seq!['\\', 'f']
    } else if (c as int) < 0x20 {
        seq!['\\', 'u', '0', '0', hex_digit(c as int / 16), hex_digit(c as int % 16)]
    } else {
        seq![c]
    }
}

/// The characters of a string as they are written between quotes.
pub open spec fn escape_text(t: Seq<char>) -> Seq<char>
    decreases t.len(),
{
    if t.len() == 0 {
        Seq::empty()
    } else {
        escape_text(t.drop_last()) + escape_char(t.last())
    }
}

/// A string written with its quotes.
pub open spec fn write_string(t: Seq<char>) -> Seq<char> {
    seq!['"'] + escape_text(t) + seq!['"']
}

/// A value written as compact JSON text: no whitespace, members in their
/// order, a number as it was read.
pub open spec fn write_value(v: JsonModel) -> Seq<char>
    decreases v, 0nat,
{
    match v {
        JsonModel::Null => seq!['n', 'u', 'l', 'l'],
        JsonModel::Bool(b) => if b {
            seq!['t', 'r', 'u', 'e']
        } else {
            seq!['f', 'a', 'l', 's', 'e']
        },
        JsonModel::Number(t) => t,
        JsonModel::String(t) => write_string(t),
        JsonModel::Array(items) => seq!['['] + write_items(items, items.len()) + seq![']'],
        JsonModel::Object(members) => seq!['{'] + write_members(members, members.len()) + seq![
            '}',
        ],
    }
}

/// The first `n` items written with commas between them.
pub open spec fn write_items(items: Seq<JsonModel>, n: nat) -> Seq<char>
    decreases items, n,
{
    if n == 0 || n > items.len() {
        Seq::empty()
    } else if n == 1 {
        write_value(items[0])
    } else {
        write_items(items, (n - 1) as nat) + seq![','] + write_value(items[n - 1])
    }
}

/// One member written as `"key":value`.
pub open spec fn write_member(m: MemberModel) -> Seq<char>
    decreases m, 0nat,
{
    write_string(m.key) + seq![':'] + write_value(m.value)
}

/// The first `n` members written with commas between them.
pub open spec fn write_members(members: Seq<MemberModel>, n: nat) -> Seq<char>
    decreases members, n,
{
    if n == 0 || n > members.len() {
        Seq::empty()
    } else if n == 1 {
        write_member(members[0])
    } else {
        write_members(members, (n - 1) as nat) + seq![','] + write_member(members[n - 1])
    }
}

fn hex_digit_char(v: u8) -> (c: char)
    requires
        v < 16,
    ensures
        c == hex_digit(v as int),
{
    if v < 10 {
        (48u8 + v) as char
    } else {
        (87u8 + v) as char
    }
}

fn write_escaped_char(c: char, out: &mut Vec<char>)
    ensures
        final(out)@ == old(out)@ + escape_char(c),
{
    let ghost before = out@;
    if c == '"' {
        out.push('\\');
        out.push('"');
        assert(out@ =~= before + escape_char(c));
    } else if c == '\\' {
        out.push('\\');
        out.push('\\');
        assert(out@ =~= before + escape_char(c));
    } else if c == '\n' {
        out.push('\\');
        out.push('n');
        assert(out@ =~= before + escape_char(c));
    } else if c == '\r' {
        out.push('\\');
        out.push('r');
        assert(out@ =~= before + escape_char(c));
    } else if c == '\t' {
        out.push('\\');
        out.push('t');
        assert(out@ =~= before + escape_char(c));
    } else if c == '\u{8}' {
        out.push('\\');
        out.push('b');
        assert(out@ =~= before + escape_char(c));
    } else if c == '\u{c}' {
        out.push('\\');
        out.push('f');
        assert(out@ =~= before + escape_char(c));
    } else if (c as u32) < 0x20 {
        let code: u8 = c as u8;
        out.push('\\');
        out.push('u');
        out.push('0');
        out.push('0');
        out.push(hex_digit_char(code / 16));
        out.push(hex_digit_char(code % 16));
        assert(out@ =~= before + escape_char(c));
    } else {
        out.push(c);
        assert(out@ =~= before + escape_char(c));
    }
}

fn write_string_into(t: &Vec<char>, out: &mut Vec<char>)
    ensures
        final(out)@ == old(out)@ + write_string(t@),
{
    let ghost before = out@;
    out.push('"');
    let mut i: usize = 0;
    while i < t.len()
        invariant
            i <= t.len(),
            out@ == before + seq!['"'] + escape_text(t@.take(i as int)),
        decreases t.len() - i,
    {
        write_escaped_char(t[i], out);
        proof {
            let next = t@.take(i + 1);
            assert(next.drop_last() =~= t@.take(i as int));
            assert(next.last() == t@[i as int]);
            assert(out@ =~= before + seq!['"'] + escape_text(next));
        }
        i += 1;
    }
    assert(t@.take(t@.len() as int) =~= t@);
    out.push('"');
    assert(out@ =~= before + write_string(t@));
}

/// Appends the compact text of a value.
pub fn write_into(v: &JsonValue, out: &mut Vec<char>)
    ensures
        final(out)@ == old(out)@ + write_value(v@),
    decreases v,
{
    let ghost before = out@;
    match v {
        JsonValue::Null => {
            out.push('n');
            out.push('u');
            out.push('l');
            out.push('l');
            assert(out@ =~= before + write_value(v@));
        },
        JsonValue::Bool(b) => {
            if *b {
                out.push('t');
                out.push('r');
                out.push('u');
                out.push('e');
            } else {
                out.push('f');
                out.push('a');
                out.push('l');
                out.push('s');
                out.push('e');
            }
            assert(out@ =~= before + write_value(v@));
        },
        JsonValue::Number(t) => {
            let mut i: usize = 0;
            while i < t.len()
                invariant
                    i <= t.len(),
                    out@ == before + t@.take(i as int),
                decreases t.len() - i,
            {
                out.push(t[i]);
                assert(out@ =~= before + t@.take(i + 1));
                i += 1;
            }
            assert(t@.take(t@.len() as int) =~= t@);
        },
        JsonValue::String(t) => {
            write_string_into(t, out);
        },
        JsonValue::Array(items) => {
            proof {
                lemma_view_array(*items);
            }
            let ghost models = items_view(items@);
            out.push('[');
            let mut i: usize = 0;
            while i < items.len()
                invariant
                    i <= items.len(),
                    models == items_view(items@),
                    out@ == before + seq!['['] + write_items(models, i as nat),
                    decreases_to!(*v => *items),
                decreases items.len() - i,
            {
                if i > 0 {
                    out.push(',');
                }
                assert(decreases_to!(*items => items[i as int]));
                write_into(&items[i], out);
                assert(out@ =~= before + seq!['['] + write_items(models, (i + 1) as nat));
                i += 1;
            }
            out.push(']');
            assert(out@ =~= before + write_value(v@));
        },
        JsonValue::Object(members) => {
            proof {
                lemma_view_object(*members);
            }
            let ghost models = members_view(members@);
            out.push('{');
            let mut i: usize = 0;
            while i < members.len()
                invariant
                    i <= members.len(),
                    models == members_view(members@),
                    out@ == before + seq!['{'] + write_members(models, i as nat),
                    decreases_to!(*v => *members),
                decreases members.len() - i,
            {
                if i > 0 {
                    out.push(',');
                }
                let ghost mid = out@;
                write_string_into(&members[i].key, out);
                out.push(':');
                assert(decreases_to!(*members => members[i as int]));
                write_into(&members[i].value, out);
                assert(out@ =~= mid + write_member(models[i as int]));
                assert(out@ =~= before + seq!['{'] + write_members(models, (i + 1) as nat));
                i += 1;
            }
            out.push('}');
            assert(out@ =~= before + write_value(v@));
        },
    }
}

/// The compact text of a value.
pub fn write_chars(v: &JsonValue) -> (out: Vec<char>)
    ensures
        out@ == write_value(v@),
{
    let mut out: Vec<char> = Vec::new();
    write_into(v, &mut out);
    assert(Seq::<char>::empty() + write_value(v@) =~= write_value(v@));
    out
}

} // verus!
