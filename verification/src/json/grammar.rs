//! The JSON grammar, as functions from a text and a position to the value
//! read there and the position after it.

use crate::json::value::{JsonModel, MemberModel};
use vstd::prelude::*;

verus! {

/// How deeply arrays and objects may nest. A document nested deeper is
/// malformed.
pub const MAX_DEPTH: usize = 128;

pub open spec fn is_ws(c: char) -> bool {
    c == ' ' || c == '\t' || c == '\n' || c == '\r'
}

pub open spec fn is_digit(c: char) -> bool {
    '0' <= c && c <= '9'
}

/// The first position at or after `pos` that holds no whitespace.
pub open spec fn skip_ws(s: Seq<char>, pos: int) -> int
    decreases s.len() - pos,
{
    if 0 <= pos < s.len() && is_ws(s[pos]) {
        skip_ws(s, pos + 1)
    } else {
        pos
    }
}

/// The first position at or after `pos` that holds no digit.
pub open spec fn skip_digits(s: Seq<char>, pos: int) -> int
    decreases s.len() - pos,
{
    if 0 <= pos < s.len() && is_digit(s[pos]) {
        skip_digits(s, pos + 1)
    } else {
        pos
    }
}

pub proof fn lemma_skip_ws_bounds(s: Seq<char>, pos: int)
    ensures
        pos <= skip_ws(s, pos),
        pos <= s.len() ==> skip_ws(s, pos) <= s.len(),
    decreases s.len() - pos,
{
    if 0 <= pos < s.len() && is_ws(s[pos]) {
        lemma_skip_ws_bounds(s, pos + 1);
    }
}

pub proof fn lemma_skip_digits_bounds(s: Seq<char>, pos: int)
    ensures
        pos <= skip_digits(s, pos),
        pos <= s.len() ==> skip_digits(s, pos) <= s.len(),
    decreases s.len() - pos,
{
    if 0 <= pos < s.len() && is_digit(s[pos]) {
        lemma_skip_digits_bounds(s, pos + 1);
    }
}

/// Whether `word` stands in `s` at `pos`.
pub open spec fn match_at(s: Seq<char>, pos: int, word: Seq<char>) -> bool {
    0 <= pos && pos + word.len() <= s.len() && s.subrange(pos, pos + word.len()) == word
}

/// Where the integer part that starts at `pos` ends: a single `0`, or a
/// nonzero digit and the digits after it.
pub open spec fn integer_end(s: Seq<char>, pos: int) -> Option<int> {
    if 0 <= pos < s.len() && is_digit(s[pos]) {
        if s[pos] == '0' {
            Some(pos + 1)
        } else {
            Some(skip_digits(s, pos))
        }
    } else {
        None
    }
}

/// Where the optional fraction that starts at `pos` ends.
pub open spec fn fraction_end(s: Seq<char>, pos: int) -> Option<int> {
    if 0 <= pos < s.len() && s[pos] == '.' {
        if pos + 1 < s.len() && is_digit(s[pos + 1]) {
            Some(skip_digits(s, pos + 1))
        } else {
            None
        }
    } else {
        Some(pos)
    }
}

/// Where the optional exponent that starts at `pos` ends.
pub open spec fn exponent_end(s: Seq<char>, pos: int) -> Option<int> {
    if 0 <= pos < s.len() && (s[pos] == 'e' || s[pos] == 'E') {
        let p = if pos + 1 < s.len() && (s[pos + 1] == '+' || s[pos + 1] == '-') {
            pos + 2
        } else {
            pos + 1
        };
        if p < s.len() && is_digit(s[p]) {
            Some(skip_digits(s, p))
        } else {
            None
        }
    } else {
        Some(pos)
    }
}

/// Where the number that starts at `pos` ends, if one starts there.
pub open spec fn number_end(s: Seq<char>, pos: int) -> Option<int> {
    let p = if 0 <= pos < s.len() && s[pos] == '-' {
        pos + 1
    } else {
        pos
    };
    match integer_end(s, p) {
        None => None,
        Some(q) => match fraction_end(s, q) {
            None => None,
            Some(r) => exponent_end(s, r),
        },
    }
}

/// The value of a hexadecimal digit.
pub open spec fn hex_value(c: char) -> Option<int> {
    if '0' <= c && c <= '9' {
        Some(c as int - '0' as int)
    } else if 'a' <= c && c <= 'f' {
        Some(c as int - 'a' as int + 10)
    } else if 'A' <= c && c <= 'F' {
        Some(c as int - 'A' as int + 10)
    } else {
        None
    }
}

/// The value of the four hexadecimal digits at `pos`.
pub open spec fn hex4(s: Seq<char>, pos: int) -> Option<int> {
    if 0 <= pos && pos + 4 <= s.len() && hex_value(s[pos]) is Some && hex_value(s[pos + 1]) is Some
        && hex_value(s[pos + 2]) is Some && hex_value(s[pos + 3]) is Some {
        Some(
            hex_value(s[pos])->0 * 4096 + hex_value(s[pos + 1])->0 * 256 + hex_value(
                s[pos + 2],
            )->0 * 16 + hex_value(s[pos + 3])->0,
        )
    } else {
        None
    }
}

/// The character that the `\u` escape whose digits start at `pos` stands
/// for, and the position after the escape. A high surrogate must be followed
/// by an escaped low surrogate; a lone surrogate is malformed.
pub open spec fn unicode_escape(s: Seq<char>, pos: int) -> Option<(char, int)> {
    match hex4(s, pos) {
        None => None,
        Some(h) => if 0xD800 <= h < 0xDC00 {
            if pos + 6 <= s.len() && s[pos + 4] == '\\' && s[pos + 5] == 'u' {
                match hex4(s, pos + 6) {
                    Some(l) => if 0xDC00 <= l < 0xE000 {
                        Some(
                            ((0x10000 + (h - 0xD800) * 0x400 + (l - 0xDC00)) as char, pos + 10),
                        )
                    } else {
                        None
                    },
                    None => None,
                }
            } else {
                None
            }
        } else if 0xDC00 <= h < 0xE000 {
            None
        } else {
            Some((h as char, pos + 4))
        },
    }
}

/// The character that the escape at `pos`, the position after the
/// backslash, stands for, and the position after the escape.
pub open spec fn escape(s: Seq<char>, pos: int) -> Option<(char, int)> {
    if 0 <= pos < s.len() {
        let c = s[pos];
        if c == '"' || c == '\\' || c == '/' {
            Some((c, pos + 1))
        } else if c == 'b' {
            Some(('\u{8}', pos + 1))
        } else if c == 'f' {
            Some(('\u{c}', pos + 1))
        } else if c == 'n' {
            Some(('\n', pos + 1))
        } else if c == 'r' {
            Some(('\r', pos + 1))
        } else if c == 't' {
            Some(('\t', pos + 1))
        } else if c == 'u' {
            unicode_escape(s, pos + 1)
        } else {
            None
        }
    } else {
        None
    }
}

/// The characters of the string whose content starts at `pos`, the position
/// after the opening quote, and the position after the closing quote.
pub open spec fn string_body(s: Seq<char>, pos: int) -> Option<(Seq<char>, int)>
    decreases s.len() - pos,
{
    if 0 <= pos < s.len() {
        let c = s[pos];
        if c == '"' {
            Some((Seq::empty(), pos + 1))
        } else if c == '\\' {
            match escape(s, pos + 1) {
                Some((e, n)) => match string_body(s, n) {
                    Some((rest, m)) => Some((seq![e] + rest, m)),
                    None => None,
                },
                None => None,
            }
        } else if (c as u32) < 0x20 {
            None
        } else {
            match string_body(s, pos + 1) {
                Some((rest, m)) => Some((seq![c] + rest, m)),
                None => None,
            }
        }
    } else {
        None
    }
}

/// The value that starts at `pos` and the position after it. `depth` is
/// how many more levels of arrays and objects may open.
pub open spec fn parse_value(s: Seq<char>, pos: int, depth: nat) -> Option<(JsonModel, int)>
    decreases depth, s.len() - pos, 0nat,
{
    if 0 <= pos < s.len() {
        let c = s[pos];
        if c == 'n' {
            if match_at(s, pos, seq!['n', 'u', 'l', 'l']) {
                Some((JsonModel::Null, pos + 4))
            } else {
                None
            }
        } else if c == 't' {
            if match_at(s, pos, seq!['t', 'r', 'u', 'e']) {
                Some((JsonModel::Bool(true), pos + 4))
            } else {
                None
            }
        } else if c == 'f' {
            if match_at(s, pos, seq!['f', 'a', 'l', 's', 'e']) {
                Some((JsonModel::Bool(false), pos + 5))
            } else {
                None
            }
        } else if c == '"' {
            match string_body(s, pos + 1) {
                Some((t, n)) => Some((JsonModel::String(t), n)),
                None => None,
            }
        } else if c == '[' {
            let p = skip_ws(s, pos + 1);
            if depth == 0 {
                None
            } else if p < s.len() && s[p] == ']' {
                Some((JsonModel::Array(Seq::empty()), p + 1))
            } else {
                proof {
                    lemma_skip_ws_bounds(s, pos + 1);
                }
                match parse_elements(s, p, (depth - 1) as nat) {
                    Some((items, n)) => Some((JsonModel::Array(items), n)),
                    None => None,
                }
            }
        } else if c == '{' {
            let p = skip_ws(s, pos + 1);
            if depth == 0 {
                None
            } else if p < s.len() && s[p] == '}' {
                Some((JsonModel::Object(Seq::empty()), p + 1))
            } else {
                proof {
                    lemma_skip_ws_bounds(s, pos + 1);
                }
                match parse_members(s, p, (depth - 1) as nat) {
                    Some((members, n)) => Some((JsonModel::Object(members), n)),
                    None => None,
                }
            }
        } else if c == '-' || is_digit(c) {
            match number_end(s, pos) {
                Some(n) => Some((JsonModel::Number(s.subrange(pos, n)), n)),
                None => None,
            }
        } else {
            None
        }
    } else {
        None
    }
}

/// The items of an array from `pos`, the start of an item, up to the closing
/// bracket, and the position after the bracket.
pub open spec fn parse_elements(s: Seq<char>, pos: int, depth: nat) -> Option<
    (Seq<JsonModel>, int),
>
    decreases depth, s.len() - pos, 1nat,
{
    match parse_value(s, pos, depth) {
        None => None,
        Some((v, n)) => {
            let p = skip_ws(s, n);
            if n <= pos || n > s.len() || p >= s.len() {
                None
            } else if s[p] == ']' {
                Some((seq![v], p + 1))
            } else if s[p] == ',' {
                proof {
                    lemma_skip_ws_bounds(s, n);
                    lemma_skip_ws_bounds(s, p + 1);
                }
                match parse_elements(s, skip_ws(s, p + 1), depth) {
                    Some((rest, m)) => Some((seq![v] + rest, m)),
                    None => None,
                }
            } else {
                None
            }
        },
    }
}

/// The member `"key" : value` that starts at `pos`, and the position after
/// it.
pub open spec fn parse_member(s: Seq<char>, pos: int, depth: nat) -> Option<(MemberModel, int)>
    decreases depth, s.len() - pos, 1nat,
{
    if 0 <= pos < s.len() && s[pos] == '"' {
        match string_body(s, pos + 1) {
            None => None,
            Some((key, n)) => {
                let p = skip_ws(s, n);
                if n <= pos || n > s.len() || p >= s.len() || s[p] != ':' {
                    None
                } else {
                    proof {
                        lemma_skip_ws_bounds(s, n);
                        lemma_skip_ws_bounds(s, p + 1);
                    }
                    match parse_value(s, skip_ws(s, p + 1), depth) {
                        Some((v, m)) => Some((MemberModel { key: key, value: v }, m)),
                        None => None,
                    }
                }
            },
        }
    } else {
        None
    }
}

/// The members of an object from `pos`, the start of a member, up to the
/// closing brace, and the position after the brace.
pub open spec fn parse_members(s: Seq<char>, pos: int, depth: nat) -> Option<
    (Seq<MemberModel>, int),
>
    decreases depth, s.len() - pos, 2nat,
{
    match parse_member(s, pos, depth) {
        None => None,
        Some((member, n)) => {
            let p = skip_ws(s, n);
            if n <= pos || n > s.len() || p >= s.len() {
                None
            } else if s[p] == '}' {
                Some((seq![member], p + 1))
            } else if s[p] == ',' {
                proof {
                    lemma_skip_ws_bounds(s, n);
                    lemma_skip_ws_bounds(s, p + 1);
                }
                match parse_members(s, skip_ws(s, p + 1), depth) {
                    Some((rest, m)) => Some((seq![member] + rest, m)),
                    None => None,
                }
            } else {
                None
            }
        },
    }
}

/// The value of a whole document: one value with whitespace around it and
/// nothing else. `None` for a malformed document.
pub open spec fn parse_document(s: Seq<char>) -> Option<JsonModel> {
    match parse_value(s, skip_ws(s, 0), MAX_DEPTH as nat) {
        Some((v, n)) => if skip_ws(s, n) == s.len() {
            Some(v)
        } else {
            None
        },
        None => None,
    }
}

} // verus!
