//! Paths into a JSON value: `$`, then any number of `.field`, `[index]`
//! and `[*]` steps.

use crate::digits::{lemma_pow10_values, pow10};
use crate::json::grammar::{is_digit, lemma_skip_digits_bounds, skip_digits};
use crate::json::value::{
    clone_value, items_view, lemma_view_array, lemma_view_object, members_view, JsonMember,
    JsonModel, JsonValue, MemberModel,
};
use crate::text::{slice_chars, str_chars};
use vstd::prelude::*;

verus! {

/// One step of a path.
#[derive(Debug, Clone, PartialEq, Eq)]
pub enum PathStep {
    /// `.name`: the first member of an object with that key.
    Field(Vec<char>),
    /// `[n]`: the item of an array at that position, counted from zero.
    Index(u64),
    /// `[*]`: every item of an array.
    Wildcard,
}

/// The mathematical value of a step.
pub enum StepModel {
    Field(Seq<char>),
    Index(nat),
    Wildcard,
}

impl View for PathStep {
    type V = StepModel;

    open spec fn view(&self) -> StepModel {
        match self {
            PathStep::Field(name) => StepModel::Field(name@),
            PathStep::Index(i) => StepModel::Index(*i as nat),
            PathStep::Wildcard => StepModel::Wildcard,
        }
    }
}

/// The models of a sequence of steps.
pub open spec fn steps_view(steps: Seq<PathStep>) -> Seq<StepModel> {
    Seq::new(steps.len(), |i: int| steps[i]@)
}

/// The most digits an index may have.
pub const MAX_INDEX_DIGITS: usize = 18;

/// The number that a sequence of decimal digits stands for.
pub open spec fn decimal_value(digits: Seq<char>) -> nat
    decreases digits.len(),
{
    if digits.len() == 0 {
        0
    } else {
        (decimal_value(digits.drop_last()) * 10 + (digits.last() as int - '0' as int)) as nat
    }
}

/// Whether a character ends a field name.
pub open spec fn ends_name(c: char) -> bool {
    c == '.' || c == '['
}

/// The first position at or after `pos` that ends a field name.
pub open spec fn name_end(s: Seq<char>, pos: int) -> int
    decreases s.len() - pos,
{
    if 0 <= pos < s.len() && !ends_name(s[pos]) {
        name_end(s, pos + 1)
    } else {
        pos
    }
}

pub proof fn lemma_name_end_bounds(s: Seq<char>, pos: int)
    ensures
        pos <= name_end(s, pos),
        pos <= s.len() ==> name_end(s, pos) <= s.len(),
    decreases s.len() - pos,
{
    if 0 <= pos < s.len() && !ends_name(s[pos]) {
        lemma_name_end_bounds(s, pos + 1);
    }
}

/// The steps written from `pos` to the end of the text. A field name is
/// not empty; an index has between one and eighteen digits.
pub open spec fn parse_steps(s: Seq<char>, pos: int) -> Option<Seq<StepModel>>
    decreases s.len() - pos,
{
    if pos < 0 || pos > s.len() {
        None
    } else if pos == s.len() {
        Some(Seq::empty())
    } else if s[pos] == '.' {
        let e = name_end(s, pos + 1);
        if e == pos + 1 {
            None
        } else {
            proof {
                lemma_name_end_bounds(s, pos + 1);
            }
            match parse_steps(s, e) {
                Some(rest) => Some(seq![StepModel::Field(s.subrange(pos + 1, e))] + rest),
                None => None,
            }
        }
    } else if s[pos] == '[' {
        if pos + 2 < s.len() && s[pos + 1] == '*' && s[pos + 2] == ']' {
            match parse_steps(s, pos + 3) {
                Some(rest) => Some(seq![StepModel::Wildcard] + rest),
                None => None,
            }
        } else {
            let e = skip_digits(s, pos + 1);
            if e == pos + 1 || e - (pos + 1) > MAX_INDEX_DIGITS || e >= s.len() || s[e] != ']' {
                None
            } else {
                proof {
                    lemma_skip_digits_bounds(s, pos + 1);
                }
                match parse_steps(s, e + 1) {
                    Some(rest) => Some(
                        seq![StepModel::Index(decimal_value(s.subrange(pos + 1, e)))] + rest,
                    ),
                    None => None,
                }
            }
        }
    } else {
        None
    }
}

/// The steps of a path: `$` and the steps after it. `None` where the text
/// is no path.
pub open spec fn parse_path(s: Seq<char>) -> Option<Seq<StepModel>> {
    if s.len() > 0 && s[0] == '$' {
        parse_steps(s, 1)
    } else {
        None
    }
}

/// The value of the first member with the given key.
pub open spec fn find_member(members: Seq<MemberModel>, name: Seq<char>) -> Option<JsonModel>
    decreases members.len(),
{
    if members.len() == 0 {
        None
    } else if members[0].key == name {
        Some(members[0].value)
    } else {
        find_member(members.drop_first(), name)
    }
}

/// The value that the steps lead to from `v`. `None` where a field is
/// missing, an index is out of bounds, or a step does not fit the value it
/// meets. `[*]` gives the array of what the remaining steps find in each
/// item, in order, leaving out the items in which they find nothing.
pub open spec fn eval(v: JsonModel, steps: Seq<StepModel>) -> Option<JsonModel>
    decreases steps.len(), 0nat,
{
    if steps.len() == 0 {
        Some(v)
    } else {
        let rest = steps.drop_first();
        match steps[0] {
            StepModel::Field(name) => match v {
                JsonModel::Object(members) => match find_member(members, name) {
                    Some(child) => eval(child, rest),
                    None => None,
                },
                _ => None,
            },
            StepModel::Index(i) => match v {
                JsonModel::Array(items) => if i < items.len() {
                    eval(items[i as int], rest)
                } else {
                    None
                },
                _ => None,
            },
            StepModel::Wildcard => match v {
                JsonModel::Array(items) => Some(JsonModel::Array(collect(items, rest))),
                _ => None,
            },
        }
    }
}

/// What the steps find in each item, in order, without the items in which
/// they find nothing.
pub open spec fn collect(items: Seq<JsonModel>, steps: Seq<StepModel>) -> Seq<JsonModel>
    decreases steps.len(), items.len() + 1,
{
    if items.len() == 0 {
        Seq::empty()
    } else {
        let before = collect(items.drop_last(), steps);
        match eval(items.last(), steps) {
            Some(found) => before.push(found),
            None => before,
        }
    }
}

/// Every character between a position and the end of the digits after it
/// is a digit.
proof fn lemma_skip_digits_are_digits(s: Seq<char>, pos: int, i: int)
    requires
        0 <= pos <= i < skip_digits(s, pos),
    ensures
        i < s.len(),
        is_digit(s[i]),
    decreases i - pos,
{
    lemma_skip_digits_bounds(s, pos);
    if pos < s.len() && is_digit(s[pos]) {
        if i > pos {
            lemma_skip_digits_are_digits(s, pos + 1, i);
        }
    }
}

/// The number that the digits of `s` from `from` to `to` stand for.
fn decimal_at(s: &Vec<char>, from: usize, to: usize) -> (r: u64)
    requires
        from <= to <= s.len(),
        to - from <= MAX_INDEX_DIGITS,
        forall|i: int| from <= i < to ==> is_digit(s@[i]),
    ensures
        r == decimal_value(s@.subrange(from as int, to as int)),
{
    let mut value: u64 = 0;
    let mut i: usize = from;
    assert(s@.subrange(from as int, from as int) =~= Seq::<char>::empty());
    proof {
        lemma_pow10_values();
    }
    while i < to
        invariant
            from <= i <= to <= s.len(),
            to - from <= MAX_INDEX_DIGITS,
            forall|j: int| from <= j < to ==> is_digit(s@[j]),
            value == decimal_value(s@.subrange(from as int, i as int)),
            value < pow10((i - from) as nat),
        decreases to - i,
    {
        let digit: u64 = (s[i] as u32 - '0' as u32) as u64;
        proof {
            let next = s@.subrange(from as int, i + 1);
            assert(next.drop_last() =~= s@.subrange(from as int, i as int));
            assert(next.last() == s@[i as int]);
            lemma_pow10_values();
            crate::digits::lemma_pow10_increases((i - from) as nat, 17);
            assert(pow10((i + 1 - from) as nat) == 10 * pow10((i - from) as nat));
        }
        value = value * 10 + digit;
        i += 1;
    }
    value
}

fn name_end_from(s: &Vec<char>, pos: usize) -> (r: usize)
    requires
        pos <= s.len(),
    ensures
        r == name_end(s@, pos as int),
        pos <= r <= s.len(),
{
    let mut i: usize = pos;
    while i < s.len() && !(s[i] == '.' || s[i] == '[')
        invariant
            pos <= i <= s.len(),
            name_end(s@, pos as int) == name_end(s@, i as int),
        decreases s.len() - i,
    {
        i += 1;
    }
    i
}

fn digits_end_from(s: &Vec<char>, pos: usize) -> (r: usize)
    requires
        pos <= s.len(),
    ensures
        r == skip_digits(s@, pos as int),
        pos <= r <= s.len(),
{
    let mut i: usize = pos;
    while i < s.len() && '0' <= s[i] && s[i] <= '9'
        invariant
            pos <= i <= s.len(),
            skip_digits(s@, pos as int) == skip_digits(s@, i as int),
        decreases s.len() - i,
    {
        i += 1;
    }
    i
}

/// Reads a path given as characters.
pub fn parse_path_chars(s: &Vec<char>) -> (r: Option<Vec<PathStep>>)
    ensures
        match parse_path(s@) {
            Some(steps) => (r matches Some(x) && steps_view(x@) == steps),
            None => r is None,
        },
{
    if !(s.len() > 0 && s[0] == '$') {
        return None;
    }
    let mut acc: Vec<PathStep> = Vec::new();
    let mut pos: usize = 1;
    loop
        invariant
            1 <= pos <= s.len(),
            s@[0] == '$',
            parse_steps(s@, 1) == (match parse_steps(s@, pos as int) {
                Some(rest) => Some(steps_view(acc@) + rest),
                None => None,
            }),
        decreases s.len() - pos,
    {
        let ghost before = steps_view(acc@);
        if pos == s.len() {
            assert(before + Seq::<StepModel>::empty() =~= before);
            return Some(acc);
        }
        let c: char = s[pos];
        if c == '.' {
            let e: usize = name_end_from(s, pos + 1);
            if e == pos + 1 {
                return None;
            }
            let step = PathStep::Field(slice_chars(s, pos + 1, e));
            proof {
                if let Some(rest) = parse_steps(s@, e as int) {
                    assert(before + (seq![step@] + rest) =~= before.push(step@) + rest);
                }
            }
            acc.push(step);
            assert(steps_view(acc@) =~= before.push(step@));
            pos = e;
        } else if c == '[' {
            if s.len() - pos > 2 && s[pos + 1] == '*' && s[pos + 2] == ']' {
                proof {
                    if let Some(rest) = parse_steps(s@, pos + 3) {
                        assert(before + (seq![StepModel::Wildcard] + rest) =~= before.push(
                            StepModel::Wildcard,
                        ) + rest);
                    }
                }
                acc.push(PathStep::Wildcard);
                assert(steps_view(acc@) =~= before.push(StepModel::Wildcard));
                pos = pos + 3;
            } else {
                let e: usize = digits_end_from(s, pos + 1);
                if e == pos + 1 || e - (pos + 1) > MAX_INDEX_DIGITS || e >= s.len() || s[e]
                    != ']' {
                    return None;
                }
                proof {
                    assert forall|i: int| pos + 1 <= i < e implies is_digit(s@[i]) by {
                        lemma_skip_digits_are_digits(s@, pos + 1, i);
                    }
                }
                let step = PathStep::Index(decimal_at(s, pos + 1, e));
                proof {
                    if let Some(rest) = parse_steps(s@, e + 1) {
                        assert(before + (seq![step@] + rest) =~= before.push(step@) + rest);
                    }
                }
                acc.push(step);
                assert(steps_view(acc@) =~= before.push(step@));
                pos = e + 1;
            }
        } else {
            return None;
        }
    }
}

/// Reads a path.
pub fn parse_path_text(path: &str) -> (r: Option<Vec<PathStep>>)
    ensures
        match parse_path(path@) {
            Some(steps) => (r matches Some(x) && steps_view(x@) == steps),
            None => r is None,
        },
{
    let chars = str_chars(path);
    parse_path_chars(&chars)
}

fn same_chars(a: &Vec<char>, b: &Vec<char>) -> (r: bool)
    ensures
        r == (a@ == b@),
{
    if a.len() != b.len() {
        return false;
    }
    let mut i: usize = 0;
    while i < a.len()
        invariant
            i <= a.len(),
            a.len() == b.len(),
            forall|j: int| 0 <= j < i ==> a@[j] == b@[j],
        decreases a.len() - i,
    {
        if a[i] != b[i] {
            return false;
        }
        i += 1;
    }
    assert(a@ =~= b@);
    true
}

/// The position of the first member with the given key.
fn find_member_index(members: &Vec<JsonMember>, name: &Vec<char>) -> (r: Option<usize>)
    ensures
        match find_member(members_view(members@), name@) {
            Some(m) => (r matches Some(i) && i < members.len() && members[i as int].value@ == m),
            None => r is None,
        },
{
    let ghost models = members_view(members@);
    let mut i: usize = 0;
    assert(models.skip(0) =~= models);
    while i < members.len()
        invariant
            i <= members.len(),
            models == members_view(members@),
            find_member(models, name@) == find_member(models.skip(i as int), name@),
        decreases members.len() - i,
    {
        assert(models.skip(i as int)[0] == models[i as int]);
        assert(models.skip(i as int).drop_first() =~= models.skip(i + 1));
        if same_chars(&members[i].key, name) {
            return Some(i);
        }
        i += 1;
    }
    assert(models.skip(i as int).len() == 0);
    None
}

/// What the steps from `from` on lead to, starting at `v`.
pub fn eval_steps(v: &JsonValue, steps: &Vec<PathStep>, from: usize) -> (r: Option<JsonValue>)
    requires
        from <= steps.len(),
    ensures
        match eval(v@, steps_view(steps@).skip(from as int)) {
            Some(m) => (r matches Some(x) && x@ == m),
            None => r is None,
        },
    decreases steps.len() - from,
{
    let ghost all = steps_view(steps@);
    if from == steps.len() {
        assert(all.skip(from as int).len() == 0);
        return Some(clone_value(v));
    }
    assert(all.skip(from as int)[0] == steps[from as int]@);
    assert(all.skip(from as int).drop_first() =~= all.skip(from + 1));
    match &steps[from] {
        PathStep::Field(name) => match v {
            JsonValue::Object(members) => {
                proof {
                    lemma_view_object(*members);
                }
                match find_member_index(members, name) {
                    Some(i) => eval_steps(&members[i].value, steps, from + 1),
                    None => None,
                }
            },
            _ => None,
        },
        PathStep::Index(i) => match v {
            JsonValue::Array(items) => {
                proof {
                    lemma_view_array(*items);
                }
                if *i < items.len() as u64 {
                    eval_steps(&items[*i as usize], steps, from + 1)
                } else {
                    None
                }
            },
            _ => None,
        },
        PathStep::Wildcard => match v {
            JsonValue::Array(items) => {
                proof {
                    lemma_view_array(*items);
                }
                let ghost models = items_view(items@);
                let ghost rest = all.skip(from + 1);
                let mut acc: Vec<JsonValue> = Vec::new();
                let mut k: usize = 0;
                assert(models.take(0) =~= Seq::<JsonModel>::empty());
                while k < items.len()
                    invariant
                        k <= items.len(),
                        from < steps.len(),
                        all == steps_view(steps@),
                        rest == all.skip(from + 1),
                        models == items_view(items@),
                        items_view(acc@) == collect(models.take(k as int), rest),
                    decreases items.len() - k,
                {
                    let ghost before = items_view(acc@);
                    proof {
                        let next = models.take(k + 1);
                        assert(next.drop_last() =~= models.take(k as int));
                        assert(next.last() == items[k as int]@);
                    }
                    match eval_steps(&items[k], steps, from + 1) {
                        Some(found) => {
                            let ghost m = found@;
                            acc.push(found);
                            assert(items_view(acc@) =~= before.push(m));
                        },
                        None => {},
                    }
                    k += 1;
                }
                proof {
                    assert(models.take(items@.len() as int) =~= models);
                    lemma_view_array(acc);
                }
                Some(JsonValue::Array(acc))
            },
            _ => None,
        },
    }
}

} // verus!
