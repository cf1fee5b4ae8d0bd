//! Writing and parsing agree: the text written for a value parses to that
//! value.

use crate::json::grammar::{
    escape, exponent_end, fraction_end, hex4, hex_value, integer_end, is_digit, is_ws,
    lemma_skip_digits_bounds, lemma_skip_ws_bounds, match_at, number_end, parse_document, parse_elements, parse_member,
    parse_members, parse_value, skip_digits, skip_ws, string_body, unicode_escape, MAX_DEPTH,
};
use crate::json::value::{JsonModel, MemberModel};
use crate::json::write::{
    escape_char, escape_text, hex_digit, write_items, write_member, write_members, write_string,
    write_value,
};
use vstd::prelude::*;

verus! {

/// Whether `w` stands in `s` at `pos`.
pub open spec fn holds_at(s: Seq<char>, pos: int, w: Seq<char>) -> bool {
    0 <= pos && pos + w.len() <= s.len() && forall|j: int|
        0 <= j < w.len() ==> s[pos + j] == #[trigger] w[j]
}

/// Whether a value ends at `pos`: the text ends there, or a comma or a
/// closing bracket or brace stands there.
pub open spec fn ends_value(s: Seq<char>, pos: int) -> bool {
    pos == s.len() || (0 <= pos < s.len() && (s[pos] == ',' || s[pos] == ']' || s[pos] == '}'))
}

/// Whether a text is a number and nothing else.
pub open spec fn valid_number(t: Seq<char>) -> bool {
    number_end(t, 0) == Some(t.len() as int)
}

proof fn lemma_holds_at_parts(s: Seq<char>, pos: int, a: Seq<char>, b: Seq<char>)
    requires
        holds_at(s, pos, a + b),
    ensures
        holds_at(s, pos, a),
        holds_at(s, pos + a.len(), b),
{
    assert forall|j: int| 0 <= j < a.len() implies s[pos + j] == #[trigger] a[j] by {
        assert((a + b)[j] == a[j]);
    }
    assert forall|j: int| 0 <= j < b.len() implies s[pos + a.len() + j] == #[trigger] b[j] by {
        assert((a + b)[a.len() + j] == b[j]);
    }
}

/// The digits of `t` from `a` end in `s` where they end in `t`, where `s`
/// holds `t` and no digit follows it.
proof fn lemma_skip_digits_in(s: Seq<char>, off: int, t: Seq<char>, a: int)
    requires
        holds_at(s, off, t),
        0 <= a <= t.len(),
        off + t.len() == s.len() || !is_digit(s[off + t.len()]),
    ensures
        skip_digits(s, off + a) == off + skip_digits(t, a),
    decreases t.len() - a,
{
    if a < t.len() {
        assert(s[off + a] == t[a]);
        if is_digit(t[a]) {
            lemma_skip_digits_in(s, off, t, a + 1);
        }
    }
}

/// A number that is written in `s` and ends a value there is read whole.
proof fn lemma_number_in(s: Seq<char>, off: int, t: Seq<char>)
    requires
        holds_at(s, off, t),
        valid_number(t),
        ends_value(s, off + t.len()),
    ensures
        number_end(s, off) == Some(off + t.len()),
        t.len() > 0,
        t[0] == '-' || is_digit(t[0]),
{
    let p = if 0 < t.len() && t[0] == '-' {
        1int
    } else {
        0int
    };
    if p < t.len() {
        assert(s[off + p] == t[p]);
    }
    if 0 < t.len() {
        assert(s[off] == t[0]);
    }
    let q = integer_end(t, p)->0;
    lemma_skip_digits_bounds(t, p);
    lemma_skip_digits_in(s, off, t, p);
    assert(integer_end(s, off + p) == Some(off + q));
    if q < t.len() {
        assert(s[off + q] == t[q]);
    }
    if q + 1 < t.len() {
        assert(s[off + q + 1] == t[q + 1]);
    }
    lemma_skip_digits_bounds(t, q + 1);
    if q + 1 <= t.len() {
        lemma_skip_digits_in(s, off, t, q + 1);
    }
    let r = fraction_end(t, q)->0;
    assert(fraction_end(s, off + q) == Some(off + r));
    if r < t.len() {
        assert(s[off + r] == t[r]);
    }
    if r + 1 < t.len() {
        assert(s[off + r + 1] == t[r + 1]);
    }
    if r + 2 < t.len() {
        assert(s[off + r + 2] == t[r + 2]);
    }
    lemma_skip_digits_bounds(t, r + 1);
    lemma_skip_digits_bounds(t, r + 2);
    if r + 1 <= t.len() {
        lemma_skip_digits_in(s, off, t, r + 1);
    }
    if r + 2 <= t.len() {
        lemma_skip_digits_in(s, off, t, r + 2);
    }
}

proof fn lemma_escape_text_front(t: Seq<char>)
    requires
        t.len() > 0,
    ensures
        escape_text(t) == escape_char(t[0]) + escape_text(t.drop_first()),
    decreases t.len(),
{
    if t.len() == 1 {
        assert(t.drop_last() =~= Seq::<char>::empty());
        assert(t.drop_first() =~= Seq::<char>::empty());
        assert(escape_text(t.drop_last()) =~= Seq::<char>::empty());
        assert(Seq::<char>::empty() + escape_char(t[0]) =~= escape_char(t[0]) + Seq::<char>::empty(
        ));
    } else {
        lemma_escape_text_front(t.drop_last());
        assert(t.drop_last().drop_first() =~= t.drop_first().drop_last());
        assert(t.drop_first().last() == t.last());
        assert(t.drop_last()[0] == t[0]);
        assert((escape_char(t[0]) + escape_text(t.drop_first().drop_last())) + escape_char(
            t.last(),
        ) =~= escape_char(t[0]) + (escape_text(t.drop_first().drop_last()) + escape_char(
            t.last(),
        )));
    }
}

proof fn lemma_hex_digit_value(d: int)
    requires
        0 <= d < 16,
    ensures
        hex_value(hex_digit(d)) == Some(d),
{
}

/// Reading a string where one written character starts reads that
/// character and goes on after it.
proof fn lemma_escaped_char_in(s: Seq<char>, pos: int, c: char)
    requires
        holds_at(s, pos, escape_char(c)),
    ensures
        string_body(s, pos) == (match string_body(s, pos + escape_char(c).len()) {
            Some((rest, m)) => Some((seq![c] + rest, m)),
            None => None,
        }),
{
    let e = escape_char(c);
    assert(s[pos + 0] == e[0]);
    if e.len() >= 2 {
        assert(s[pos + 1] == e[1]);
    }
    if e.len() == 6 {
        assert(s[pos + 2] == e[2]);
        assert(s[pos + 3] == e[3]);
        assert(s[pos + 4] == e[4]);
        assert(s[pos + 5] == e[5]);
        let hi = c as int / 16;
        let lo = c as int % 16;
        lemma_hex_digit_value(hi);
        lemma_hex_digit_value(lo);
        lemma_hex_digit_value(0);
        assert(hex4(s, pos + 2) == Some(c as int));
        assert(unicode_escape(s, pos + 2) == Some((c, pos + 6)));
    }
}

/// A written string, from after its opening quote, is read back whole.
proof fn lemma_string_body_in(s: Seq<char>, pos: int, t: Seq<char>)
    requires
        holds_at(s, pos, escape_text(t) + seq!['"']),
    ensures
        string_body(s, pos) == Some((t, pos + escape_text(t).len() + 1)),
    decreases t.len(),
{
    if t.len() == 0 {
        assert(s[pos + 0] == (escape_text(t) + seq!['"'])[0]);
        assert(t =~= Seq::<char>::empty());
    } else {
        lemma_escape_text_front(t);
        let c = t[0];
        let e = escape_char(c);
        let rest = t.drop_first();
        assert(escape_text(t) + seq!['"'] =~= e + (escape_text(rest) + seq!['"']));
        lemma_holds_at_parts(s, pos, e, escape_text(rest) + seq!['"']);
        lemma_string_body_in(s, pos + e.len(), rest);
        lemma_escaped_char_in(s, pos, c);
        assert(seq![c] + rest =~= t);
    }
}

/// A written string is read back whole.
proof fn lemma_string_in(s: Seq<char>, pos: int, t: Seq<char>)
    requires
        holds_at(s, pos, write_string(t)),
    ensures
        s[pos] == '"',
        string_body(s, pos + 1) == Some((t, pos + write_string(t).len())),
{
    assert(write_string(t) =~= seq!['"'] + (escape_text(t) + seq!['"']));
    lemma_holds_at_parts(s, pos, seq!['"'], escape_text(t) + seq!['"']);
    assert(s[pos + 0] == seq!['"'][0]);
    lemma_string_body_in(s, pos + 1, t);
}

/// Whether a value can be written and read back: every number in it is a
/// number, and arrays and objects nest no deeper than `depth`.
pub open spec fn writable(v: JsonModel, depth: nat) -> bool
    decreases v,
{
    match v {
        JsonModel::Number(t) => valid_number(t),
        JsonModel::Array(items) => depth > 0 && forall|i: int|
            0 <= i < items.len() ==> writable(#[trigger] items[i], (depth - 1) as nat),
        JsonModel::Object(members) => depth > 0 && forall|i: int|
            0 <= i < members.len() ==> writable((#[trigger] members[i]).value, (depth - 1) as nat),
        _ => true,
    }
}

/// Whether a character can start a value.
pub open spec fn starts_value(c: char) -> bool {
    c == 'n' || c == 't' || c == 'f' || c == '"' || c == '[' || c == '{' || c == '-' || is_digit(c)
}

proof fn lemma_first_char(v: JsonModel, depth: nat)
    requires
        writable(v, depth),
    ensures
        write_value(v).len() > 0,
        starts_value(write_value(v)[0]),
{
    match v {
        JsonModel::Number(t) => {
            let p = if 0 < t.len() && t[0] == '-' {
                1int
            } else {
                0int
            };
            assert(integer_end(t, p) is Some);
        },
        JsonModel::String(t) => {
            assert(write_string(t)[0] == '"');
        },
        JsonModel::Array(items) => {
            assert(write_value(v)[0] == '[');
        },
        JsonModel::Object(members) => {
            assert(write_value(v)[0] == '{');
        },
        _ => {},
    }
}

/// The items from `k` up to, not including, `n`, written with commas
/// between them.
pub open spec fn write_range(items: Seq<JsonModel>, k: int, n: int) -> Seq<char>
    decreases n - k,
{
    if k < 0 || n > items.len() || k >= n {
        Seq::empty()
    } else if k + 1 == n {
        write_value(items[k])
    } else {
        write_range(items, k, n - 1) + seq![','] + write_value(items[n - 1])
    }
}

/// The members from `k` up to, not including, `n`, written with commas
/// between them.
pub open spec fn write_member_range(members: Seq<MemberModel>, k: int, n: int) -> Seq<char>
    decreases n - k,
{
    if k < 0 || n > members.len() || k >= n {
        Seq::empty()
    } else if k + 1 == n {
        write_member(members[k])
    } else {
        write_member_range(members, k, n - 1) + seq![','] + write_member(members[n - 1])
    }
}

proof fn lemma_write_items_is_range(items: Seq<JsonModel>, n: nat)
    requires
        n <= items.len(),
    ensures
        write_items(items, n) == write_range(items, 0, n as int),
    decreases n,
{
    if n > 1 {
        lemma_write_items_is_range(items, (n - 1) as nat);
    }
}

proof fn lemma_write_members_is_range(members: Seq<MemberModel>, n: nat)
    requires
        n <= members.len(),
    ensures
        write_members(members, n) == write_member_range(members, 0, n as int),
    decreases n,
{
    if n > 1 {
        lemma_write_members_is_range(members, (n - 1) as nat);
    }
}

proof fn lemma_write_range_front(items: Seq<JsonModel>, k: int, n: int)
    requires
        0 <= k,
        k + 1 < n <= items.len(),
    ensures
        write_range(items, k, n) == write_value(items[k]) + seq![','] + write_range(
            items,
            k + 1,
            n,
        ),
    decreases n - k,
{
    reveal_with_fuel(write_range, 2);
    if k + 2 == n {
    } else {
        lemma_write_range_front(items, k, n - 1);
        let a = write_value(items[k]);
        let b = write_range(items, k + 1, n - 1);
        let c = write_value(items[n - 1]);
        assert((a + seq![','] + b) + seq![','] + c =~= a + seq![','] + (b + seq![','] + c));
    }
}

proof fn lemma_write_member_range_front(members: Seq<MemberModel>, k: int, n: int)
    requires
        0 <= k,
        k + 1 < n <= members.len(),
    ensures
        write_member_range(members, k, n) == write_member(members[k]) + seq![',']
            + write_member_range(members, k + 1, n),
    decreases n - k,
{
    reveal_with_fuel(write_member_range, 2);
    if k + 2 == n {
    } else {
        lemma_write_member_range_front(members, k, n - 1);
        let a = write_member(members[k]);
        let b = write_member_range(members, k + 1, n - 1);
        let c = write_member(members[n - 1]);
        assert((a + seq![','] + b) + seq![','] + c =~= a + seq![','] + (b + seq![','] + c));
    }
}

/// A written value that ends a value in `s` is read back whole.
proof fn lemma_value_in(s: Seq<char>, pos: int, v: JsonModel, depth: nat)
    requires
        writable(v, depth),
        holds_at(s, pos, write_value(v)),
        ends_value(s, pos + write_value(v).len()),
    ensures
        parse_value(s, pos, depth) == Some((v, pos + write_value(v).len())),
    decreases v, 0nat,
{
    let w = write_value(v);
    lemma_first_char(v, depth);
    assert(s[pos + 0] == w[0]);
    match v {
        JsonModel::Null => {
            assert(s.subrange(pos, pos + 4) =~= seq!['n', 'u', 'l', 'l']) by {
                assert forall|j: int| 0 <= j < 4 implies s[pos + j] == w[j] by {}
            }
        },
        JsonModel::Bool(b) => {
            if b {
                assert(s.subrange(pos, pos + 4) =~= seq!['t', 'r', 'u', 'e']) by {
                    assert forall|j: int| 0 <= j < 4 implies s[pos + j] == w[j] by {}
                }
            } else {
                assert(s.subrange(pos, pos + 5) =~= seq!['f', 'a', 'l', 's', 'e']) by {
                    assert forall|j: int| 0 <= j < 5 implies s[pos + j] == w[j] by {}
                }
            }
        },
        JsonModel::Number(t) => {
            lemma_number_in(s, pos, t);
            assert(s.subrange(pos, pos + t.len()) =~= t);
        },
        JsonModel::String(t) => {
            lemma_string_in(s, pos, t);
        },
        JsonModel::Array(items) => {
            let inner = write_items(items, items.len());
            assert(w =~= seq!['['] + (inner + seq![']']));
            lemma_holds_at_parts(s, pos, seq!['['], inner + seq![']']);
            lemma_write_items_is_range(items, items.len());
            if items.len() == 0 {
                assert(s[pos + 1 + 0] == (inner + seq![']'])[0]);
                assert(items =~= Seq::<JsonModel>::empty());
            } else {
                lemma_first_char(items[0], (depth - 1) as nat);
                lemma_range_first_char(items, 0, (depth - 1) as nat);
                assert(s[pos + 1 + 0] == (inner + seq![']'])[0]);
                lemma_elements_in(s, pos + 1, items, 0, (depth - 1) as nat);
                assert(items.subrange(0, items.len() as int) =~= items);
            }
        },
        JsonModel::Object(members) => {
            let inner = write_members(members, members.len());
            assert(w =~= seq!['{'] + (inner + seq!['}']));
            lemma_holds_at_parts(s, pos, seq!['{'], inner + seq!['}']);
            lemma_write_members_is_range(members, members.len());
            if members.len() == 0 {
                assert(s[pos + 1 + 0] == (inner + seq!['}'])[0]);
                assert(members =~= Seq::<MemberModel>::empty());
            } else {
                lemma_member_range_first_char(members, 0);
                assert(s[pos + 1 + 0] == (inner + seq!['}'])[0]);
                lemma_members_in(s, pos + 1, members, 0, (depth - 1) as nat);
                assert(members.subrange(0, members.len() as int) =~= members);
            }
        },
    }
}

/// The first character of written items is that of the first item.
proof fn lemma_range_first_char(items: Seq<JsonModel>, k: int, depth: nat)
    requires
        0 <= k < items.len(),
        writable(items[k], depth),
    ensures
        write_range(items, k, items.len() as int).len() > 0,
        starts_value(write_range(items, k, items.len() as int)[0]),
{
    lemma_first_char(items[k], depth);
    if k + 1 < items.len() {
        lemma_write_range_front(items, k, items.len() as int);
    }
}

/// The first character of written members is a quote.
proof fn lemma_member_range_first_char(members: Seq<MemberModel>, k: int)
    requires
        0 <= k < members.len(),
    ensures
        write_member_range(members, k, members.len() as int).len() > 0,
        write_member_range(members, k, members.len() as int)[0] == '"',
{
    assert(write_string(members[k].key)[0] == '"');
    assert(write_member(members[k])[0] == '"');
    if k + 1 < members.len() {
        lemma_write_member_range_front(members, k, members.len() as int);
    }
}

/// Written items and the closing bracket are read back whole.
proof fn lemma_elements_in(s: Seq<char>, pos: int, items: Seq<JsonModel>, k: int, depth: nat)
    requires
        0 <= k < items.len(),
        forall|i: int| 0 <= i < items.len() ==> writable(#[trigger] items[i], depth),
        holds_at(s, pos, write_range(items, k, items.len() as int) + seq![']']),
    ensures
        parse_elements(s, pos, depth) == Some(
            (
                items.subrange(k, items.len() as int),
                pos + write_range(items, k, items.len() as int).len() + 1,
            ),
        ),
    decreases items, items.len() - k,
{
    let n = items.len() as int;
    let v = items[k];
    let w = write_value(v);
    lemma_first_char(v, depth);
    if k + 1 == n {
        lemma_holds_at_parts(s, pos, w, seq![']']);
        assert(s[pos + w.len() + 0] == seq![']'][0]);
        lemma_value_in(s, pos, v, depth);
        assert(items.subrange(k, n) =~= seq![v]);
    } else {
        lemma_write_range_front(items, k, n);
        let rest = write_range(items, k + 1, n);
        assert(write_range(items, k, n) + seq![']'] =~= w + (seq![','] + (rest + seq![']'])));
        lemma_holds_at_parts(s, pos, w, seq![','] + (rest + seq![']']));
        lemma_holds_at_parts(s, pos + w.len(), seq![','], rest + seq![']']);
        assert(s[pos + w.len() + 0] == seq![','][0]);
        lemma_value_in(s, pos, v, depth);
        lemma_range_first_char(items, k + 1, depth);
        assert(s[pos + w.len() + 1 + 0] == (rest + seq![']'])[0]);
        lemma_elements_in(s, pos + w.len() + 1, items, k + 1, depth);
        assert(seq![v] + items.subrange(k + 1, n) =~= items.subrange(k, n));
    }
}

/// A written member that ends a value in `s` is read back whole.
proof fn lemma_member_in(s: Seq<char>, pos: int, m: MemberModel, depth: nat)
    requires
        writable(m.value, depth),
        holds_at(s, pos, write_member(m)),
        ends_value(s, pos + write_member(m).len()),
    ensures
        parse_member(s, pos, depth) == Some((m, pos + write_member(m).len())),
    decreases m, 0nat,
{
    let key = write_string(m.key);
    let value = write_value(m.value);
    assert(write_member(m) =~= key + (seq![':'] + value));
    lemma_holds_at_parts(s, pos, key, seq![':'] + value);
    lemma_holds_at_parts(s, pos + key.len(), seq![':'], value);
    lemma_string_in(s, pos, m.key);
    assert(s[pos + key.len() + 0] == seq![':'][0]);
    lemma_first_char(m.value, depth);
    assert(s[pos + key.len() + 1 + 0] == value[0]);
    lemma_value_in(s, pos + key.len() + 1, m.value, depth);
}

/// Written members and the closing brace are read back whole.
proof fn lemma_members_in(s: Seq<char>, pos: int, members: Seq<MemberModel>, k: int, depth: nat)
    requires
        0 <= k < members.len(),
        forall|i: int| 0 <= i < members.len() ==> writable((#[trigger] members[i]).value, depth),
        holds_at(s, pos, write_member_range(members, k, members.len() as int) + seq!['}']),
    ensures
        parse_members(s, pos, depth) == Some(
            (
                members.subrange(k, members.len() as int),
                pos + write_member_range(members, k, members.len() as int).len() + 1,
            ),
        ),
    decreases members, members.len() - k,
{
    let n = members.len() as int;
    let m = members[k];
    let w = write_member(m);
    assert(writable(members[k].value, depth));
    assert(write_string(m.key).len() > 0);
    if k + 1 == n {
        lemma_holds_at_parts(s, pos, w, seq!['}']);
        assert(s[pos + w.len() + 0] == seq!['}'][0]);
        lemma_member_in(s, pos, m, depth);
        assert(members.subrange(k, n) =~= seq![m]);
    } else {
        lemma_write_member_range_front(members, k, n);
        let rest = write_member_range(members, k + 1, n);
        assert(write_member_range(members, k, n) + seq!['}'] =~= w + (seq![','] + (rest + seq![
            '}',
        ])));
        lemma_holds_at_parts(s, pos, w, seq![','] + (rest + seq!['}']));
        lemma_holds_at_parts(s, pos + w.len(), seq![','], rest + seq!['}']);
        assert(s[pos + w.len() + 0] == seq![','][0]);
        lemma_member_in(s, pos, m, depth);
        lemma_member_range_first_char(members, k + 1);
        assert(s[pos + w.len() + 1 + 0] == (rest + seq!['}'])[0]);
        lemma_members_in(s, pos + w.len() + 1, members, k + 1, depth);
        assert(seq![m] + members.subrange(k + 1, n) =~= members.subrange(k, n));
    }
}

/// The text written for a value parses to that value, where every number
/// in the value is a number and the value nests no deeper than a document
/// may.
pub proof fn lemma_written_text_parses(v: JsonModel)
    requires
        writable(v, MAX_DEPTH as nat),
    ensures
        parse_document(write_value(v)) == Some(v),
{
    let s = write_value(v);
    lemma_first_char(v, MAX_DEPTH as nat);
    lemma_value_in(s, 0, v, MAX_DEPTH as nat);
}

/// The digits that end at or before `n` in `s` end at the same place in
/// the part of `s` from `pos` to `n`.
proof fn lemma_skip_digits_cut(s: Seq<char>, pos: int, a: int, n: int)
    requires
        0 <= pos <= a,
        skip_digits(s, a) <= n <= s.len(),
    ensures
        skip_digits(s.subrange(pos, n), a - pos) == skip_digits(s, a) - pos,
    decreases s.len() - a,
{
    let t = s.subrange(pos, n);
    lemma_skip_digits_bounds(s, a);
    if a < n {
        assert(t[a - pos] == s[a]);
        if is_digit(s[a]) {
            lemma_skip_digits_cut(s, pos, a + 1, n);
        }
    }
}

/// A number read from `s` is a number when cut out of `s`.
proof fn lemma_number_cut(s: Seq<char>, pos: int)
    requires
        0 <= pos,
        number_end(s, pos) is Some,
    ensures
        pos < number_end(s, pos)->0 <= s.len(),
        valid_number(s.subrange(pos, number_end(s, pos)->0)),
{
    let n = number_end(s, pos)->0;
    let p = if pos < s.len() && s[pos] == '-' {
        pos + 1
    } else {
        pos
    };
    let q = integer_end(s, p)->0;
    let r = fraction_end(s, q)->0;
    lemma_skip_digits_bounds(s, p);
    lemma_skip_digits_bounds(s, q + 1);
    lemma_skip_digits_bounds(s, r + 1);
    lemma_skip_digits_bounds(s, r + 2);
    assert(p < q <= r <= n <= s.len());
    let t = s.subrange(pos, n);
    assert(t[0] == s[pos]);
    assert(t[p - pos] == s[p]);
    if s[p] != '0' {
        lemma_skip_digits_cut(s, pos, p, n);
    }
    assert(integer_end(t, p - pos) == Some(q - pos));
    if q < n {
        assert(t[q - pos] == s[q]);
        if s[q] == '.' {
            assert(t[q + 1 - pos] == s[q + 1]);
            lemma_skip_digits_cut(s, pos, q + 1, n);
        }
    }
    assert(fraction_end(t, q - pos) == Some(r - pos));
    if r < n {
        assert(t[r - pos] == s[r]);
        if s[r] == 'e' || s[r] == 'E' {
            let x = if r + 1 < s.len() && (s[r + 1] == '+' || s[r + 1] == '-') {
                r + 2
            } else {
                r + 1
            };
            lemma_skip_digits_bounds(s, x);
            lemma_skip_digits_bounds(s, x + 1);
            assert(x < n);
            assert(t[r + 1 - pos] == s[r + 1]);
            assert(t[x - pos] == s[x]);
            lemma_skip_digits_cut(s, pos, x, n);
        }
    }
    assert(exponent_end(t, r - pos) == Some(n - pos));
}

/// What is read as a value can be written and read back.
proof fn lemma_parsed_value_is_writable(s: Seq<char>, pos: int, depth: nat)
    ensures
        parse_value(s, pos, depth) matches Some((v, n)) ==> writable(v, depth),
    decreases depth, s.len() - pos, 0nat,
{
    if 0 <= pos < s.len() {
        let c = s[pos];
        if c == '[' && depth > 0 {
            let p = skip_ws(s, pos + 1);
            lemma_skip_ws_bounds(s, pos + 1);
            if !(p < s.len() && s[p] == ']') {
                lemma_parsed_elements_are_writable(s, p, (depth - 1) as nat);
            }
        } else if c == '{' && depth > 0 {
            let p = skip_ws(s, pos + 1);
            lemma_skip_ws_bounds(s, pos + 1);
            if !(p < s.len() && s[p] == '}') {
                lemma_parsed_members_are_writable(s, p, (depth - 1) as nat);
            }
        } else if c == '-' || is_digit(c) {
            if number_end(s, pos) is Some {
                lemma_number_cut(s, pos);
            }
        }
    }
}

proof fn lemma_parsed_elements_are_writable(s: Seq<char>, pos: int, depth: nat)
    ensures
        parse_elements(s, pos, depth) matches Some((items, n)) ==> forall|i: int|
            0 <= i < items.len() ==> writable(#[trigger] items[i], depth),
    decreases depth, s.len() - pos, 1nat,
{
    lemma_parsed_value_is_writable(s, pos, depth);
    if let Some((v, n)) = parse_value(s, pos, depth) {
        let p = skip_ws(s, n);
        if !(n <= pos || n > s.len() || p >= s.len()) && s[p] == ',' {
            lemma_skip_ws_bounds(s, n);
            lemma_skip_ws_bounds(s, p + 1);
            lemma_parsed_elements_are_writable(s, skip_ws(s, p + 1), depth);
        }
    }
}

proof fn lemma_parsed_members_are_writable(s: Seq<char>, pos: int, depth: nat)
    ensures
        parse_members(s, pos, depth) matches Some((members, n)) ==> forall|i: int|
            0 <= i < members.len() ==> writable((#[trigger] members[i]).value, depth),
    decreases depth, s.len() - pos, 2nat,
{
    if 0 <= pos < s.len() && s[pos] == '"' {
        if let Some((key, n)) = string_body(s, pos + 1) {
            let p = skip_ws(s, n);
            if !(n <= pos || n > s.len() || p >= s.len() || s[p] != ':') {
                lemma_skip_ws_bounds(s, n);
                lemma_skip_ws_bounds(s, p + 1);
                lemma_parsed_value_is_writable(s, skip_ws(s, p + 1), depth);
            }
        }
    }
    if let Some((member, n)) = parse_member(s, pos, depth) {
        let p = skip_ws(s, n);
        if !(n <= pos || n > s.len() || p >= s.len()) && s[p] == ',' {
            lemma_skip_ws_bounds(s, n);
            lemma_skip_ws_bounds(s, p + 1);
            lemma_parsed_members_are_writable(s, skip_ws(s, p + 1), depth);
        }
    }
}

/// Every parsed document can be written and read back.
pub proof fn lemma_parsed_document_is_writable(s: Seq<char>)
    ensures
        parse_document(s) matches Some(v) ==> writable(v, MAX_DEPTH as nat),
{
    lemma_parsed_value_is_writable(s, skip_ws(s, 0), MAX_DEPTH as nat);
}

/// Writing a parsed document and parsing what was written gives the same
/// value again.
pub proof fn lemma_parse_of_written_parse(s: Seq<char>)
    ensures
        parse_document(s) matches Some(v) ==> parse_document(write_value(v)) == Some(v),
{
    lemma_parsed_document_is_writable(s);
    if let Some(v) = parse_document(s) {
        lemma_written_text_parses(v);
    }
}

} // verus!
