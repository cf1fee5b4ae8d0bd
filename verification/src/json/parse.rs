//! The JSON parser.

use crate::json::grammar::{
    escape, hex4, hex_value, is_digit, is_ws, lemma_skip_digits_bounds, match_at, number_end, parse_document, parse_elements,
    parse_member, parse_members, parse_value, skip_digits, skip_ws, string_body, unicode_escape,
    MAX_DEPTH,
};
use crate::json::value::{
    items_view, lemma_view_array, lemma_view_object, members_view, JsonMember, JsonModel,
    JsonValue, MemberModel,
};
use crate::text::{char_from_code, slice_chars, str_chars};
use vstd::prelude::*;

verus! {

/// Whether an optional position is the one the grammar gives.
pub open spec fn end_is(r: Option<usize>, e: Option<int>) -> bool {
    match e {
        None => r is None,
        Some(n) => (r matches Some(k) && k == n),
    }
}

/// Whether an optional character and position are those the grammar gives.
pub open spec fn char_is(r: Option<(char, usize)>, e: Option<(char, int)>) -> bool {
    match e {
        None => r is None,
        Some((c, n)) => (r matches Some((x, k)) && x == c && k == n),
    }
}

/// Whether an optional text and position are those the grammar gives.
pub open spec fn text_is(r: Option<(Vec<char>, usize)>, e: Option<(Seq<char>, int)>) -> bool {
    match e {
        None => r is None,
        Some((t, n)) => (r matches Some((x, k)) && x@ == t && k == n),
    }
}

/// Whether an optional value and position are those the grammar gives.
pub open spec fn value_is(r: Option<(JsonValue, usize)>, e: Option<(JsonModel, int)>) -> bool {
    match e {
        None => r is None,
        Some((v, n)) => (r matches Some((x, k)) && x@ == v && k == n),
    }
}

/// Whether optional values and a position are those the grammar gives.
pub open spec fn items_are(r: Option<(Vec<JsonValue>, usize)>, e: Option<(Seq<JsonModel>, int)>) -> bool {
    match e {
        None => r is None,
        Some((v, n)) => (r matches Some((x, k)) && items_view(x@) == v && k == n),
    }
}

/// Whether an optional member and position are those the grammar gives.
pub open spec fn member_is(r: Option<(JsonMember, usize)>, e: Option<(MemberModel, int)>) -> bool {
    match e {
        None => r is None,
        Some((v, n)) => (r matches Some((x, k)) && x@ == v && k == n),
    }
}

/// Whether optional members and a position are those the grammar gives.
pub open spec fn members_are(
    r: Option<(Vec<JsonMember>, usize)>,
    e: Option<(Seq<MemberModel>, int)>,
) -> bool {
    match e {
        None => r is None,
        Some((v, n)) => (r matches Some((x, k)) && members_view(x@) == v && k == n),
    }
}

fn is_ws_char(c: char) -> (r: bool)
    ensures
        r == is_ws(c),
{
    c == ' ' || c == '\t' || c == '\n' || c == '\r'
}

fn is_digit_char(c: char) -> (r: bool)
    ensures
        r == is_digit(c),
{
    '0' <= c && c <= '9'
}

fn skip_ws_from(s: &Vec<char>, pos: usize) -> (r: usize)
    requires
        pos <= s.len(),
    ensures
        r == skip_ws(s@, pos as int),
        pos <= r <= s.len(),
{
    let mut i: usize = pos;
    while i < s.len() && is_ws_char(s[i])
        invariant
            pos <= i <= s.len(),
            skip_ws(s@, pos as int) == skip_ws(s@, i as int),
        decreases s.len() - i,
    {
        i += 1;
    }
    i
}

fn skip_digits_from(s: &Vec<char>, pos: usize) -> (r: usize)
    requires
        pos <= s.len(),
    ensures
        r == skip_digits(s@, pos as int),
        pos <= r <= s.len(),
{
    let mut i: usize = pos;
    while i < s.len() && is_digit_char(s[i])
        invariant
            pos <= i <= s.len(),
            skip_digits(s@, pos as int) == skip_digits(s@, i as int),
        decreases s.len() - i,
    {
        i += 1;
    }
    i
}

/// Whether `word` stands in `s` at `pos`.
pub fn match_word(s: &Vec<char>, pos: usize, word: &Vec<char>) -> (r: bool)
    requires
        pos <= s.len(),
    ensures
        r == match_at(s@, pos as int, word@),
{
    if s.len() - pos < word.len() {
        return false;
    }
    let mut i: usize = 0;
    while i < word.len()
        invariant
            i <= word.len(),
            pos + word.len() <= s.len(),
            forall|j: int| 0 <= j < i ==> s@[pos + j] == word@[j],
        decreases word.len() - i,
    {
        if s[pos + i] != word[i] {
            assert(s@.subrange(pos as int, pos + word.len())[i as int] != word@[i as int]);
            return false;
        }
        i += 1;
    }
    assert(s@.subrange(pos as int, pos + word.len()) =~= word@);
    true
}

fn number_end_at(s: &Vec<char>, pos: usize) -> (r: Option<usize>)
    requires
        pos <= s.len(),
    ensures
        end_is(r, number_end(s@, pos as int)),
        r matches Some(n) ==> pos < n <= s.len(),
{
    let len: usize = s.len();
    let p: usize = if pos < len && s[pos] == '-' {
        pos + 1
    } else {
        pos
    };
    if !(p < len && is_digit_char(s[p])) {
        return None;
    }
    let q: usize = if s[p] == '0' {
        p + 1
    } else {
        proof {
            lemma_skip_digits_bounds(s@, p + 1);
        }
        skip_digits_from(s, p)
    };
    let f: usize = if q < len && s[q] == '.' {
        if q + 1 < len && is_digit_char(s[q + 1]) {
            skip_digits_from(s, q + 1)
        } else {
            return None;
        }
    } else {
        q
    };
    if f < len && (s[f] == 'e' || s[f] == 'E') {
        let t: usize = if f + 1 < len && (s[f + 1] == '+' || s[f + 1] == '-') {
            f + 2
        } else {
            f + 1
        };
        if t < len && is_digit_char(s[t]) {
            Some(skip_digits_from(s, t))
        } else {
            None
        }
    } else {
        Some(f)
    }
}

fn hex_value_of(c: char) -> (r: Option<u32>)
    ensures
        match hex_value(c) {
            None => r is None,
            Some(v) => r == Some(v as u32) && 0 <= v < 16,
        },
{
    if '0' <= c && c <= '9' {
        Some(c as u32 - '0' as u32)
    } else if 'a' <= c && c <= 'f' {
        Some(c as u32 - 'a' as u32 + 10)
    } else if 'A' <= c && c <= 'F' {
        Some(c as u32 - 'A' as u32 + 10)
    } else {
        None
    }
}

fn hex4_at(s: &Vec<char>, pos: usize) -> (r: Option<u32>)
    requires
        pos <= s.len(),
    ensures
        match hex4(s@, pos as int) {
            None => r is None,
            Some(v) => r == Some(v as u32) && 0 <= v < 0x10000,
        },
{
    if s.len() - pos < 4 {
        return None;
    }
    match (
        hex_value_of(s[pos]),
        hex_value_of(s[pos + 1]),
        hex_value_of(s[pos + 2]),
        hex_value_of(s[pos + 3]),
    ) {
        (Some(a), Some(b), Some(c), Some(d)) => Some(a * 4096 + b * 256 + c * 16 + d),
        _ => None,
    }
}

fn unicode_escape_at(s: &Vec<char>, pos: usize) -> (r: Option<(char, usize)>)
    requires
        pos <= s.len(),
    ensures
        char_is(r, unicode_escape(s@, pos as int)),
        r matches Some((c, n)) ==> pos < n <= s.len(),
{
    match hex4_at(s, pos) {
        None => None,
        Some(h) => {
            if 0xD800 <= h && h < 0xDC00 {
                if s.len() - pos >= 6 && s[pos + 4] == '\\' && s[pos + 5] == 'u' {
                    match hex4_at(s, pos + 6) {
                        Some(l) => {
                            if 0xDC00 <= l && l < 0xE000 {
                                let code: u32 = 0x10000 + (h - 0xD800) * 0x400 + (l - 0xDC00);
                                match char_from_code(code) {
                                    Some(c) => Some((c, pos + 10)),
                                    None => None,
                                }
                            } else {
                                None
                            }
                        },
                        None => None,
                    }
                } else {
                    None
                }
            } else if 0xDC00 <= h && h < 0xE000 {
                None
            } else {
                match char_from_code(h) {
                    Some(c) => Some((c, pos + 4)),
                    None => None,
                }
            }
        },
    }
}

fn escape_at(s: &Vec<char>, pos: usize) -> (r: Option<(char, usize)>)
    requires
        pos <= s.len(),
    ensures
        char_is(r, escape(s@, pos as int)),
        r matches Some((c, n)) ==> pos < n <= s.len(),
{
    if pos >= s.len() {
        return None;
    }
    let c: char = s[pos];
    if c == '"' || c == '\\' || c == '/' {
        Some((c, pos + 1))
    } else if c == 'b' {
        Some(('\u{8}', pos + 1))
    } else if c == 'f' {
        Some(('\u{c}', pos + 1))
    } else if c == 'n' {
        Some(('\n', pos + 1))
    } else if c == 'r' {
        Some(('\r', pos + 1))
    } else if c == 't' {
        Some(('\t', pos + 1))
    } else if c == 'u' {
        unicode_escape_at(s, pos + 1)
    } else {
        None
    }
}

fn string_body_at(s: &Vec<char>, start: usize) -> (r: Option<(Vec<char>, usize)>)
    requires
        start <= s.len(),
    ensures
        text_is(r, string_body(s@, start as int)),
        r matches Some((t, n)) ==> start < n <= s.len(),
{
    let mut acc: Vec<char> = Vec::new();
    let mut pos: usize = start;
    loop
        invariant
            start <= pos <= s.len(),
            string_body(s@, start as int) == (match string_body(s@, pos as int) {
                Some((rest, m)) => Some((acc@ + rest, m)),
                None => None,
            }),
        decreases s.len() - pos,
    {
        if pos >= s.len() {
            return None;
        }
        let c: char = s[pos];
        if c == '"' {
            assert(acc@ + Seq::<char>::empty() =~= acc@);
            return Some((acc, pos + 1));
        } else if c == '\\' {
            match escape_at(s, pos + 1) {
                None => {
                    return None;
                },
                Some((e, n)) => {
                    proof {
                        if let Some((rest, m)) = string_body(s@, n as int) {
                            assert(acc@ + (seq![e] + rest) =~= acc@.push(e) + rest);
                        }
                    }
                    acc.push(e);
                    pos = n;
                },
            }
        } else if (c as u32) < 0x20 {
            return None;
        } else {
            proof {
                if let Some((rest, m)) = string_body(s@, pos + 1) {
                    assert(acc@ + (seq![c] + rest) =~= acc@.push(c) + rest);
                }
            }
            acc.push(c);
            pos += 1;
        }
    }
}

fn parse_value_at(s: &Vec<char>, pos: usize, depth: usize) -> (r: Option<(JsonValue, usize)>)
    requires
        pos <= s.len(),
    ensures
        value_is(r, parse_value(s@, pos as int, depth as nat)),
        r matches Some((v, n)) ==> pos < n <= s.len(),
    decreases depth, 0nat,
{
    if pos >= s.len() {
        return None;
    }
    let c: char = s[pos];
    if c == 'n' {
        let word: Vec<char> = vec!['n', 'u', 'l', 'l'];
        assert(word@ =~= seq!['n', 'u', 'l', 'l']);
        if match_word(s, pos, &word) {
            Some((JsonValue::Null, pos + 4))
        } else {
            None
        }
    } else if c == 't' {
        let word: Vec<char> = vec!['t', 'r', 'u', 'e'];
        assert(word@ =~= seq!['t', 'r', 'u', 'e']);
        if match_word(s, pos, &word) {
            Some((JsonValue::Bool(true), pos + 4))
        } else {
            None
        }
    } else if c == 'f' {
        let word: Vec<char> = vec!['f', 'a', 'l', 's', 'e'];
        assert(word@ =~= seq!['f', 'a', 'l', 's', 'e']);
        if match_word(s, pos, &word) {
            Some((JsonValue::Bool(false), pos + 5))
        } else {
            None
        }
    } else if c == '"' {
        match string_body_at(s, pos + 1) {
            Some((t, n)) => Some((JsonValue::String(t), n)),
            None => None,
        }
    } else if c == '[' {
        let p: usize = skip_ws_from(s, pos + 1);
        if depth == 0 {
            None
        } else if p < s.len() && s[p] == ']' {
            let items: Vec<JsonValue> = Vec::new();
            proof {
                lemma_view_array(items);
                assert(items_view(items@) =~= Seq::<JsonModel>::empty());
            }
            Some((JsonValue::Array(items), p + 1))
        } else {
            match parse_elements_at(s, p, depth - 1) {
                Some((items, n)) => {
                    proof {
                        lemma_view_array(items);
                    }
                    Some((JsonValue::Array(items), n))
                },
                None => None,
            }
        }
    } else if c == '{' {
        let p: usize = skip_ws_from(s, pos + 1);
        if depth == 0 {
            None
        } else if p < s.len() && s[p] == '}' {
            let members: Vec<JsonMember> = Vec::new();
            proof {
                lemma_view_object(members);
                assert(members_view(members@) =~= Seq::<MemberModel>::empty());
            }
            Some((JsonValue::Object(members), p + 1))
        } else {
            match parse_members_at(s, p, depth - 1) {
                Some((members, n)) => {
                    proof {
                        lemma_view_object(members);
                    }
                    Some((JsonValue::Object(members), n))
                },
                None => None,
            }
        }
    } else if c == '-' || is_digit_char(c) {
        match number_end_at(s, pos) {
            Some(n) => Some((JsonValue::Number(slice_chars(s, pos, n)), n)),
            None => None,
        }
    } else {
        None
    }
}

fn parse_elements_at(s: &Vec<char>, start: usize, depth: usize) -> (r: Option<
    (Vec<JsonValue>, usize),
>)
    requires
        start <= s.len(),
    ensures
        items_are(r, parse_elements(s@, start as int, depth as nat)),
        r matches Some((v, n)) ==> start < n <= s.len(),
    decreases depth, 1nat,
{
    let mut acc: Vec<JsonValue> = Vec::new();
    let mut pos: usize = start;
    loop
        invariant
            start <= pos <= s.len(),
            parse_elements(s@, start as int, depth as nat) == (match parse_elements(
                s@,
                pos as int,
                depth as nat,
            ) {
                Some((rest, m)) => Some((items_view(acc@) + rest, m)),
                None => None,
            }),
        decreases s.len() - pos,
    {
        match parse_value_at(s, pos, depth) {
            None => {
                return None;
            },
            Some((v, n)) => {
                let p: usize = skip_ws_from(s, n);
                if p >= s.len() {
                    return None;
                }
                let ghost before = items_view(acc@);
                let ghost item = v@;
                acc.push(v);
                assert(items_view(acc@) =~= before.push(item));
                if s[p] == ']' {
                    assert(before + seq![item] =~= before.push(item));
                    return Some((acc, p + 1));
                } else if s[p] == ',' {
                    let q: usize = skip_ws_from(s, p + 1);
                    proof {
                        if let Some((rest, m)) = parse_elements(s@, q as int, depth as nat) {
                            assert(before + (seq![item] + rest) =~= before.push(item) + rest);
                        }
                    }
                    pos = q;
                } else {
                    return None;
                }
            },
        }
    }
}

fn parse_member_at(s: &Vec<char>, pos: usize, depth: usize) -> (r: Option<(JsonMember, usize)>)
    requires
        pos <= s.len(),
    ensures
        member_is(r, parse_member(s@, pos as int, depth as nat)),
        r matches Some((v, n)) ==> pos < n <= s.len(),
    decreases depth, 1nat,
{
    if !(pos < s.len() && s[pos] == '"') {
        return None;
    }
    match string_body_at(s, pos + 1) {
        None => None,
        Some((key, n)) => {
            let p: usize = skip_ws_from(s, n);
            if p >= s.len() || s[p] != ':' {
                return None;
            }
            let q: usize = skip_ws_from(s, p + 1);
            match parse_value_at(s, q, depth) {
                Some((v, m)) => Some((JsonMember { key: key, value: v }, m)),
                None => None,
            }
        },
    }
}

fn parse_members_at(s: &Vec<char>, start: usize, depth: usize) -> (r: Option<
    (Vec<JsonMember>, usize),
>)
    requires
        start <= s.len(),
    ensures
        members_are(r, parse_members(s@, start as int, depth as nat)),
        r matches Some((v, n)) ==> start < n <= s.len(),
    decreases depth, 2nat,
{
    let mut acc: Vec<JsonMember> = Vec::new();
    let mut pos: usize = start;
    loop
        invariant
            start <= pos <= s.len(),
            parse_members(s@, start as int, depth as nat) == (match parse_members(
                s@,
                pos as int,
                depth as nat,
            ) {
                Some((rest, m)) => Some((members_view(acc@) + rest, m)),
                None => None,
            }),
        decreases s.len() - pos,
    {
        match parse_member_at(s, pos, depth) {
            None => {
                return None;
            },
            Some((member, n)) => {
                let p: usize = skip_ws_from(s, n);
                if p >= s.len() {
                    return None;
                }
                let ghost before = members_view(acc@);
                let ghost item = member@;
                acc.push(member);
                assert(members_view(acc@) =~= before.push(item));
                if s[p] == '}' {
                    assert(before + seq![item] =~= before.push(item));
                    return Some((acc, p + 1));
                } else if s[p] == ',' {
                    let q: usize = skip_ws_from(s, p + 1);
                    proof {
                        if let Some((rest, m)) = parse_members(s@, q as int, depth as nat) {
                            assert(before + (seq![item] + rest) =~= before.push(item) + rest);
                        }
                    }
                    pos = q;
                } else {
                    return None;
                }
            },
        }
    }
}

/// Parses a whole document given as characters.
pub fn parse_chars(s: &Vec<char>) -> (r: Option<JsonValue>)
    ensures
        match parse_document(s@) {
            Some(v) => (r matches Some(x) && x@ == v),
            None => r is None,
        },
{
    let start: usize = skip_ws_from(s, 0);
    match parse_value_at(s, start, MAX_DEPTH) {
        Some((v, n)) => {
            if skip_ws_from(s, n) == s.len() {
                Some(v)
            } else {
                None
            }
        },
        None => None,
    }
}

/// Parses a whole document. Malformed text gives `None`, never an error.
pub fn parse_text(text: &str) -> (r: Option<JsonValue>)
    ensures
        match parse_document(text@) {
            Some(v) => (r matches Some(x) && x@ == v),
            None => r is None,
        },
{
    let chars = str_chars(text);
    parse_chars(&chars)
}

} // verus!
