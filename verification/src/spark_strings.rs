//! String functions, row by row: spaces, repetition, splitting, joining
//! and case.

use crate::column::{
    columns_view, ints_view, lemma_view_list, result_view, rows_view, texts_view, Column, ColumnModel,
};
use crate::error::ExtFunctionError;
use crate::json::grammar::match_at;
use crate::json::parse::match_word;
use crate::text::{chars_to_string, slice_chars, str_chars};
use vstd::prelude::*;
use vstd::string::StringExecFns;

verus! {

/// The largest count that `StringSpace` and `StringRepeat` take.
pub const MAX_COUNT: i64 = 0x7fff_ffff;

/// `t` written `n` times.
pub open spec fn repeated(t: Seq<char>, n: nat) -> Seq<char>
    decreases n,
{
    if n == 0 {
        Seq::empty()
    } else {
        repeated(t, (n - 1) as nat) + t
    }
}

/// `n` spaces; none where `n` is negative; null for null.
pub open spec fn space_row(n: Option<int>) -> Option<Seq<char>> {
    match n {
        Some(k) => Some(
            repeated(
                seq![' '],
                if k > 0 {
                    k as nat
                } else {
                    0
                },
            ),
        ),
        None => None,
    }
}

/// `t` repeated `n` times; the empty string where `n` is zero or negative;
/// null where either is null.
pub open spec fn repeat_row(t: Option<Seq<char>>, n: Option<int>) -> Option<Seq<char>> {
    match (t, n) {
        (Some(s), Some(k)) => Some(
            repeated(
                s,
                if k > 0 {
                    k as nat
                } else {
                    0
                },
            ),
        ),
        _ => None,
    }
}

/// Whether every count that is present is at most `MAX_COUNT`.
pub open spec fn counts_in_reach(values: Seq<Option<int>>) -> bool {
    forall|i: int| 0 <= i < values.len() ==> ((#[trigger] values[i]) matches Some(k) ==> k <= MAX_COUNT)
}

/// `StringSpace` on a column of counts. Refused: a column that holds no
/// integers, and a count above `MAX_COUNT`.
pub open spec fn string_space_model(col: ColumnModel) -> Result<ColumnModel, ExtFunctionError> {
    match col {
        ColumnModel::Int { values, .. } => if counts_in_reach(values) {
            Ok(ColumnModel::Utf8(Seq::new(values.len(), |i: int| space_row(values[i]))))
        } else {
            Err(ExtFunctionError::InvalidArguments)
        },
        _ => Err(ExtFunctionError::InvalidArguments),
    }
}

/// `StringRepeat` on a column of strings and a column of counts. Refused:
/// columns of other kinds or of different lengths, and a count above
/// `MAX_COUNT`.
pub open spec fn string_repeat_model(texts: ColumnModel, counts: ColumnModel) -> Result<
    ColumnModel,
    ExtFunctionError,
> {
    match (texts, counts) {
        (ColumnModel::Utf8(strings), ColumnModel::Int { values, .. }) => if strings.len()
            == values.len() && counts_in_reach(values) {
            Ok(
                ColumnModel::Utf8(
                    Seq::new(strings.len(), |i: int| repeat_row(strings[i], values[i])),
                ),
            )
        } else {
            Err(ExtFunctionError::InvalidArguments)
        },
        _ => Err(ExtFunctionError::InvalidArguments),
    }
}

fn check_counts(values: &Vec<Option<i64>>) -> (r: bool)
    ensures
        r == counts_in_reach(ints_view(values@)),
{
    let mut i: usize = 0;
    while i < values.len()
        invariant
            i <= values.len(),
            forall|j: int|
                0 <= j < i ==> ((#[trigger] ints_view(values@)[j]) matches Some(k) ==> k
                    <= MAX_COUNT),
        decreases values.len() - i,
    {
        match values[i] {
            Some(k) => {
                if k > MAX_COUNT {
                    assert(ints_view(values@)[i as int] == Some(k as int));
                    return false;
                }
            },
            None => {},
        }
        i += 1;
    }
    true
}

fn repeat_text(t: &str, n: i64) -> (s: String)
    requires
        n <= MAX_COUNT,
    ensures
        s@ == repeated(
            t@,
            if n > 0 {
                n as nat
            } else {
                0
            },
        ),
{
    let mut s = String::new();
    let mut k: i64 = 0;
    while k < n
        invariant
            0 <= k,
            n >= 0 ==> k <= n,
            n < 0 ==> k == 0,
            s@ == repeated(t@, k as nat),
        decreases n - k,
    {
        s.append(t);
        k += 1;
    }
    s
}

/// `StringSpace`.
pub fn string_space(col: &Column) -> (r: Result<Column, ExtFunctionError>)
    ensures
        result_view(r) == string_space_model(col@),
{
    match col {
        Column::Int { values, .. } => {
            if !check_counts(values) {
                return Err(ExtFunctionError::InvalidArguments);
            }
            let mut out: Vec<Option<String>> = Vec::new();
            let mut i: usize = 0;
            while i < values.len()
                invariant
                    i <= values.len(),
                    out.len() == i,
                    counts_in_reach(ints_view(values@)),
                    forall|j: int|
                        0 <= j < i ==> #[trigger] texts_view(out@)[j] == space_row(
                            ints_view(values@)[j],
                        ),
                decreases values.len() - i,
            {
                let row: Option<String> = match values[i] {
                    Some(n) => {
                        assert(ints_view(values@)[i as int] == Some(n as int));
                        proof {
                            reveal_strlit(" ");
                            assert(" "@ =~= seq![' ']);
                        }
                        Some(repeat_text(" ", n))
                    },
                    None => None,
                };
                let ghost before = out@;
                out.push(row);
                assert forall|j: int| 0 <= j < i + 1 implies #[trigger] texts_view(out@)[j]
                    == space_row(ints_view(values@)[j]) by {
                    if j < i {
                        assert(texts_view(out@)[j] == texts_view(before)[j]);
                    }
                }
                i += 1;
            }
            let result = Column::Utf8(out);
            assert(result@->Utf8_0 =~= string_space_model(col@)->Ok_0->Utf8_0);
            Ok(result)
        },
        _ => Err(ExtFunctionError::InvalidArguments),
    }
}

/// `StringRepeat`.
pub fn string_repeat(texts: &Column, counts: &Column) -> (r: Result<Column, ExtFunctionError>)
    ensures
        result_view(r) == string_repeat_model(texts@, counts@),
{
    match (texts, counts) {
        (Column::Utf8(strings), Column::Int { values, .. }) => {
            if strings.len() != values.len() || !check_counts(values) {
                return Err(ExtFunctionError::InvalidArguments);
            }
            let mut out: Vec<Option<String>> = Vec::new();
            let mut i: usize = 0;
            while i < values.len()
                invariant
                    i <= values.len(),
                    strings.len() == values.len(),
                    out.len() == i,
                    counts_in_reach(ints_view(values@)),
                    forall|j: int|
                        0 <= j < i ==> #[trigger] texts_view(out@)[j] == repeat_row(
                            texts_view(strings@)[j],
                            ints_view(values@)[j],
                        ),
                decreases values.len() - i,
            {
                let row: Option<String> = match (&strings[i], values[i]) {
                    (Some(t), Some(n)) => {
                        assert(ints_view(values@)[i as int] == Some(n as int));
                        Some(repeat_text(t.as_str(), n))
                    },
                    _ => None,
                };
                let ghost before = out@;
                out.push(row);
                assert forall|j: int| 0 <= j < i + 1 implies #[trigger] texts_view(out@)[j]
                    == repeat_row(texts_view(strings@)[j], ints_view(values@)[j]) by {
                    if j < i {
                        assert(texts_view(out@)[j] == texts_view(before)[j]);
                    }
                }
                i += 1;
            }
            let result = Column::Utf8(out);
            assert(result@->Utf8_0 =~= string_repeat_model(texts@, counts@)->Ok_0->Utf8_0);
            Ok(result)
        },
        _ => Err(ExtFunctionError::InvalidArguments),
    }
}

/// Whether the columns can be joined row by row: at least one, all of
/// strings, all of one length.
pub open spec fn all_text(cols: Seq<ColumnModel>) -> bool {
    &&& cols.len() > 0
    &&& forall|c: int| 0 <= c < cols.len() ==> (#[trigger] cols[c]) is Utf8
    &&& forall|c: int| 0 <= c < cols.len() ==> (#[trigger] cols[c]).len() == cols[0].len()
}

/// The strings of row `i`, one from each column.
pub open spec fn args_at(cols: Seq<ColumnModel>, i: int) -> Seq<Option<Seq<char>>> {
    Seq::new(
        cols.len(),
        |c: int|
            match cols[c] {
                ColumnModel::Utf8(values) => values[i],
                _ => None,
            },
    )
}

/// The strings written one after the other; null where any is null.
pub open spec fn concat_row(args: Seq<Option<Seq<char>>>) -> Option<Seq<char>>
    decreases args.len(),
{
    if args.len() == 0 {
        Some(Seq::empty())
    } else {
        match (concat_row(args.drop_last()), args.last()) {
            (Some(before), Some(last)) => Some(before + last),
            _ => None,
        }
    }
}

/// The strings that are present, in order.
pub open spec fn present(args: Seq<Option<Seq<char>>>) -> Seq<Seq<char>>
    decreases args.len(),
{
    if args.len() == 0 {
        Seq::empty()
    } else {
        match args.last() {
            Some(t) => present(args.drop_last()).push(t),
            None => present(args.drop_last()),
        }
    }
}

/// The parts written with the separator between them.
pub open spec fn joined(parts: Seq<Seq<char>>, sep: Seq<char>) -> Seq<char>
    decreases parts.len(),
{
    if parts.len() == 0 {
        Seq::empty()
    } else if parts.len() == 1 {
        parts[0]
    } else {
        joined(parts.drop_last(), sep) + sep + parts.last()
    }
}

/// The strings that are present joined with the separator. Never null.
pub open spec fn concat_ws_row(sep: Seq<char>, args: Seq<Option<Seq<char>>>) -> Seq<char> {
    joined(present(args), sep)
}

/// `StringConcat` on columns of strings. Refused: no column, a column that
/// holds no strings, columns of different lengths.
pub open spec fn string_concat_model(cols: Seq<ColumnModel>) -> Result<
    ColumnModel,
    ExtFunctionError,
> {
    if all_text(cols) {
        Ok(ColumnModel::Utf8(Seq::new(cols[0].len(), |i: int| concat_row(args_at(cols, i)))))
    } else {
        Err(ExtFunctionError::InvalidArguments)
    }
}

/// `StringConcatWs` on a separator and columns of strings. Refused as for
/// `StringConcat`.
pub open spec fn string_concat_ws_model(sep: Seq<char>, cols: Seq<ColumnModel>) -> Result<
    ColumnModel,
    ExtFunctionError,
> {
    if all_text(cols) {
        Ok(
            ColumnModel::Utf8(
                Seq::new(cols[0].len(), |i: int| Some(concat_ws_row(sep, args_at(cols, i)))),
            ),
        )
    } else {
        Err(ExtFunctionError::InvalidArguments)
    }
}

fn check_all_text(cols: &Vec<Column>) -> (r: bool)
    ensures
        r == all_text(columns_view(cols@)),
{
    if cols.len() == 0 {
        return false;
    }
    let rows: usize = cols[0].len();
    let mut c: usize = 0;
    while c < cols.len()
        invariant
            c <= cols.len(),
            cols.len() > 0,
            rows == cols[0]@.len(),
            forall|k: int| 0 <= k < c ==> (#[trigger] columns_view(cols@)[k]) is Utf8,
            forall|k: int| 0 <= k < c ==> (#[trigger] columns_view(cols@)[k]).len() == rows,
        decreases cols.len() - c,
    {
        let is_text: bool = match &cols[c] {
            Column::Utf8(_) => true,
            _ => false,
        };
        if !is_text || cols[c].len() != rows {
            assert(columns_view(cols@)[c as int] == cols[c as int]@);
            return false;
        }
        c += 1;
    }
    true
}

fn text_cell(col: &Column, i: usize) -> (r: Option<&String>)
    requires
        col@ is Utf8,
        i < col@.len(),
    ensures
        match col@->Utf8_0[i as int] {
            Some(t) => (r matches Some(s) && s@ == t),
            None => r is None,
        },
{
    match col {
        Column::Utf8(values) => match &values[i] {
            Some(s) => Some(s),
            None => None,
        },
        _ => None,
    }
}

fn concat_at(cols: &Vec<Column>, i: usize) -> (r: Option<String>)
    requires
        all_text(columns_view(cols@)),
        i < columns_view(cols@)[0].len(),
    ensures
        match concat_row(args_at(columns_view(cols@), i as int)) {
            Some(t) => (r matches Some(s) && s@ == t),
            None => r is None,
        },
{
    let ghost models = columns_view(cols@);
    let ghost args = args_at(models, i as int);
    let mut acc = String::new();
    let mut c: usize = 0;
    assert(args.take(0) =~= Seq::<Option<Seq<char>>>::empty());
    while c < cols.len()
        invariant
            c <= cols.len(),
            models == columns_view(cols@),
            all_text(models),
            i < models[0].len(),
            args == args_at(models, i as int),
            concat_row(args.take(c as int)) == Some(acc@),
        decreases cols.len() - c,
    {
        proof {
            assert(models[c as int] == cols[c as int]@);
            assert(args.take(c + 1).drop_last() =~= args.take(c as int));
            assert(args.take(c + 1).last() == args[c as int]);
        }
        match text_cell(&cols[c], i) {
            Some(t) => {
                acc.append(t.as_str());
            },
            None => {
                proof {
                    lemma_concat_null_propagates(args, c as int);
                }
                return None;
            },
        }
        c += 1;
    }
    assert(args.take(cols@.len() as int) =~= args);
    Some(acc)
}

fn concat_ws_at(sep: &str, cols: &Vec<Column>, i: usize) -> (r: String)
    requires
        all_text(columns_view(cols@)),
        i < columns_view(cols@)[0].len(),
    ensures
        r@ == concat_ws_row(sep@, args_at(columns_view(cols@), i as int)),
{
    let ghost models = columns_view(cols@);
    let ghost args = args_at(models, i as int);
    let mut acc = String::new();
    let mut any: bool = false;
    let mut c: usize = 0;
    assert(args.take(0) =~= Seq::<Option<Seq<char>>>::empty());
    while c < cols.len()
        invariant
            c <= cols.len(),
            models == columns_view(cols@),
            all_text(models),
            i < models[0].len(),
            args == args_at(models, i as int),
            acc@ == joined(present(args.take(c as int)), sep@),
            any == (present(args.take(c as int)).len() > 0),
        decreases cols.len() - c,
    {
        proof {
            assert(models[c as int] == cols[c as int]@);
            assert(args.take(c + 1).drop_last() =~= args.take(c as int));
            assert(args.take(c + 1).last() == args[c as int]);
        }
        match text_cell(&cols[c], i) {
            Some(t) => {
                let ghost before = present(args.take(c as int));
                proof {
                    assert(before.push(t@).drop_last() =~= before);
                    assert(Seq::<char>::empty() + t@ =~= t@);
                }
                if any {
                    acc.append(sep);
                }
                acc.append(t.as_str());
                any = true;
            },
            None => {},
        }
        c += 1;
    }
    assert(args.take(cols@.len() as int) =~= args);
    acc
}

/// `StringConcat`.
pub fn string_concat(cols: &Vec<Column>) -> (r: Result<Column, ExtFunctionError>)
    ensures
        result_view(r) == string_concat_model(columns_view(cols@)),
{
    if !check_all_text(cols) {
        return Err(ExtFunctionError::InvalidArguments);
    }
    let ghost models = columns_view(cols@);
    let rows: usize = cols[0].len();
    let mut out: Vec<Option<String>> = Vec::new();
    let mut i: usize = 0;
    while i < rows
        invariant
            i <= rows,
            models == columns_view(cols@),
            all_text(models),
            rows == models[0].len(),
            out.len() == i,
            forall|j: int|
                0 <= j < i ==> #[trigger] texts_view(out@)[j] == concat_row(args_at(models, j)),
        decreases rows - i,
    {
        let row: Option<String> = concat_at(cols, i);
        let ghost before = out@;
        out.push(row);
        assert forall|j: int| 0 <= j < i + 1 implies #[trigger] texts_view(out@)[j] == concat_row(
            args_at(models, j),
        ) by {
            if j < i {
                assert(texts_view(out@)[j] == texts_view(before)[j]);
            }
        }
        i += 1;
    }
    let result = Column::Utf8(out);
    assert(result@->Utf8_0 =~= string_concat_model(models)->Ok_0->Utf8_0);
    Ok(result)
}

/// `StringConcatWs`.
pub fn string_concat_ws(sep: &str, cols: &Vec<Column>) -> (r: Result<Column, ExtFunctionError>)
    ensures
        result_view(r) == string_concat_ws_model(sep@, columns_view(cols@)),
{
    if !check_all_text(cols) {
        return Err(ExtFunctionError::InvalidArguments);
    }
    let ghost models = columns_view(cols@);
    let rows: usize = cols[0].len();
    let mut out: Vec<Option<String>> = Vec::new();
    let mut i: usize = 0;
    while i < rows
        invariant
            i <= rows,
            models == columns_view(cols@),
            all_text(models),
            rows == models[0].len(),
            out.len() == i,
            forall|j: int|
                0 <= j < i ==> #[trigger] texts_view(out@)[j] == Some(
                    concat_ws_row(sep@, args_at(models, j)),
                ),
        decreases rows - i,
    {
        let row: String = concat_ws_at(sep, cols, i);
        let ghost before = out@;
        out.push(Some(row));
        assert forall|j: int| 0 <= j < i + 1 implies #[trigger] texts_view(out@)[j] == Some(
            concat_ws_row(sep@, args_at(models, j)),
        ) by {
            if j < i {
                assert(texts_view(out@)[j] == texts_view(before)[j]);
            }
        }
        i += 1;
    }
    let result = Column::Utf8(out);
    assert(result@->Utf8_0 =~= string_concat_ws_model(sep@, models)->Ok_0->Utf8_0);
    Ok(result)
}

/// One null argument makes the whole concatenation null.
pub proof fn lemma_concat_null_propagates(args: Seq<Option<Seq<char>>>, k: int)
    requires
        0 <= k < args.len(),
        args[k] is None,
    ensures
        concat_row(args) is None,
    decreases args.len(),
{
    if k < args.len() - 1 {
        lemma_concat_null_propagates(args.drop_last(), k);
    }
}

/// A null argument counts for nothing when joining with a separator: the
/// row is what it is without that argument.
pub proof fn lemma_concat_ws_skips_null(sep: Seq<char>, args: Seq<Option<Seq<char>>>, k: int)
    requires
        0 <= k < args.len(),
        args[k] is None,
    ensures
        concat_ws_row(sep, args) == concat_ws_row(sep, args.remove(k)),
{
    lemma_present_skips_null(args, k);
}

proof fn lemma_present_skips_null(args: Seq<Option<Seq<char>>>, k: int)
    requires
        0 <= k < args.len(),
        args[k] is None,
    ensures
        present(args) == present(args.remove(k)),
    decreases args.len(),
{
    if k == args.len() - 1 {
        assert(args.remove(k) =~= args.drop_last());
    } else {
        lemma_present_skips_null(args.drop_last(), k);
        assert(args.remove(k).drop_last() =~= args.drop_last().remove(k));
        assert(args.remove(k).last() == args.last());
    }
}

/// The lower-case form that `str::to_lowercase` gives a string.
pub uninterp spec fn lowercase_of(s: Seq<char>) -> Seq<char>;

/// The upper-case form that `str::to_uppercase` gives a string.
pub uninterp spec fn uppercase_of(s: Seq<char>) -> Seq<char>;

/// Calls `str::to_lowercase`, which maps by the Unicode `Lowercase`
/// property whatever the locale: the result is named, not described.
#[verifier::external_body]
fn to_lowercase(s: &str) -> (r: String)
    ensures
        r@ == lowercase_of(s@),
{
    s.to_lowercase()
}

/// Calls `str::to_uppercase`, which maps by the Unicode `Uppercase`
/// property whatever the locale: the result is named, not described.
#[verifier::external_body]
fn to_uppercase(s: &str) -> (r: String)
    ensures
        r@ == uppercase_of(s@),
{
    s.to_uppercase()
}

/// The lower-case form of a row; null for null.
pub open spec fn lower_row(t: Option<Seq<char>>) -> Option<Seq<char>> {
    match t {
        Some(s) => Some(lowercase_of(s)),
        None => None,
    }
}

/// The upper-case form of a row; null for null.
pub open spec fn upper_row(t: Option<Seq<char>>) -> Option<Seq<char>> {
    match t {
        Some(s) => Some(uppercase_of(s)),
        None => None,
    }
}

/// `StringLower` on a column of strings; any other column is refused.
pub open spec fn string_lower_model(col: ColumnModel) -> Result<ColumnModel, ExtFunctionError> {
    match col {
        ColumnModel::Utf8(values) => Ok(
            ColumnModel::Utf8(Seq::new(values.len(), |i: int| lower_row(values[i]))),
        ),
        _ => Err(ExtFunctionError::InvalidArguments),
    }
}

/// `StringUpper` on a column of strings; any other column is refused.
pub open spec fn string_upper_model(col: ColumnModel) -> Result<ColumnModel, ExtFunctionError> {
    match col {
        ColumnModel::Utf8(values) => Ok(
            ColumnModel::Utf8(Seq::new(values.len(), |i: int| upper_row(values[i]))),
        ),
        _ => Err(ExtFunctionError::InvalidArguments),
    }
}

/// `StringLower`.
pub fn string_lower(col: &Column) -> (r: Result<Column, ExtFunctionError>)
    ensures
        result_view(r) == string_lower_model(col@),
{
    match col {
        Column::Utf8(values) => {
            let mut out: Vec<Option<String>> = Vec::new();
            let mut i: usize = 0;
            while i < values.len()
                invariant
                    i <= values.len(),
                    out.len() == i,
                    forall|j: int|
                        0 <= j < i ==> #[trigger] texts_view(out@)[j] == lower_row(
                            texts_view(values@)[j],
                        ),
                decreases values.len() - i,
            {
                let row: Option<String> = match &values[i] {
                    Some(t) => Some(to_lowercase(t.as_str())),
                    None => None,
                };
                let ghost before = out@;
                out.push(row);
                assert forall|j: int| 0 <= j < i + 1 implies #[trigger] texts_view(out@)[j]
                    == lower_row(texts_view(values@)[j]) by {
                    if j < i {
                        assert(texts_view(out@)[j] == texts_view(before)[j]);
                    }
                }
                i += 1;
            }
            let result = Column::Utf8(out);
            assert(result@->Utf8_0 =~= string_lower_model(col@)->Ok_0->Utf8_0);
            Ok(result)
        },
        _ => Err(ExtFunctionError::InvalidArguments),
    }
}

/// `StringUpper`.
pub fn string_upper(col: &Column) -> (r: Result<Column, ExtFunctionError>)
    ensures
        result_view(r) == string_upper_model(col@),
{
    match col {
        Column::Utf8(values) => {
            let mut out: Vec<Option<String>> = Vec::new();
            let mut i: usize = 0;
            while i < values.len()
                invariant
                    i <= values.len(),
                    out.len() == i,
                    forall|j: int|
                        0 <= j < i ==> #[trigger] texts_view(out@)[j] == upper_row(
                            texts_view(values@)[j],
                        ),
                decreases values.len() - i,
            {
                let row: Option<String> = match &values[i] {
                    Some(t) => Some(to_uppercase(t.as_str())),
                    None => None,
                };
                let ghost before = out@;
                out.push(row);
                assert forall|j: int| 0 <= j < i + 1 implies #[trigger] texts_view(out@)[j]
                    == upper_row(texts_view(values@)[j]) by {
                    if j < i {
                        assert(texts_view(out@)[j] == texts_view(before)[j]);
                    }
                }
                i += 1;
            }
            let result = Column::Utf8(out);
            assert(result@->Utf8_0 =~= string_upper_model(col@)->Ok_0->Utf8_0);
            Ok(result)
        },
        _ => Err(ExtFunctionError::InvalidArguments),
    }
}

/// The first position at or after `from` where the delimiter stands.
pub open spec fn first_match(t: Seq<char>, d: Seq<char>, from: int) -> Option<int>
    decreases t.len() - from + 1,
{
    if from < 0 || from + d.len() > t.len() {
        None
    } else if match_at(t, from, d) {
        Some(from)
    } else {
        first_match(t, d, from + 1)
    }
}

/// The pieces of `t` between the occurrences of the delimiter, found from
/// the left, none overlapping. Two occurrences side by side, and one at
/// either end, give an empty piece. An empty delimiter splits nothing.
pub open spec fn split(t: Seq<char>, d: Seq<char>) -> Seq<Seq<char>>
    decreases t.len(),
{
    if d.len() == 0 {
        seq![t]
    } else {
        match first_match(t, d, 0) {
            Some(k) => if 0 <= k && k + d.len() <= t.len() {
                seq![t.subrange(0, k)] + split(t.subrange(k + d.len(), t.len() as int), d)
            } else {
                seq![t]
            },
            None => seq![t],
        }
    }
}

/// The pieces of a row, each present, as the column of the row's elements;
/// null for null.
pub open spec fn split_row(t: Option<Seq<char>>, d: Seq<char>) -> Option<ColumnModel> {
    match t {
        Some(s) => Some(
            ColumnModel::Utf8(Seq::new(split(s, d).len(), |k: int| Some(split(s, d)[k]))),
        ),
        None => None,
    }
}

/// `StringSplit` on a column of strings and a delimiter: a column of
/// arrays of strings. Any other column is refused.
pub open spec fn string_split_model(col: ColumnModel, d: Seq<char>) -> Result<
    ColumnModel,
    ExtFunctionError,
> {
    match col {
        ColumnModel::Utf8(values) => Ok(
            ColumnModel::List(Seq::new(values.len(), |i: int| split_row(values[i], d))),
        ),
        _ => Err(ExtFunctionError::InvalidArguments),
    }
}

/// The parts after the first, each with the separator before it.
pub open spec fn joined_after(parts: Seq<Seq<char>>, sep: Seq<char>) -> Seq<char>
    decreases parts.len(),
{
    if parts.len() == 0 {
        Seq::empty()
    } else {
        joined_after(parts.drop_last(), sep) + sep + parts.last()
    }
}

proof fn lemma_joined_from_front(first: Seq<char>, rest: Seq<Seq<char>>, sep: Seq<char>)
    ensures
        joined(seq![first] + rest, sep) == first + joined_after(rest, sep),
    decreases rest.len(),
{
    let all = seq![first] + rest;
    if rest.len() == 0 {
        assert(all =~= seq![first]);
        assert(first + Seq::<char>::empty() =~= first);
    } else {
        lemma_joined_from_front(first, rest.drop_last(), sep);
        assert(all.drop_last() =~= seq![first] + rest.drop_last());
        assert(all.last() == rest.last());
        assert((first + joined_after(rest.drop_last(), sep)) + sep + rest.last() =~= first + (
        joined_after(rest.drop_last(), sep) + sep + rest.last()));
    }
}

proof fn lemma_joined_after_is_joined(parts: Seq<Seq<char>>, sep: Seq<char>)
    requires
        parts.len() > 0,
    ensures
        joined_after(parts, sep) == sep + joined(parts, sep),
    decreases parts.len(),
{
    if parts.len() == 1 {
        assert(parts.drop_last() =~= Seq::<Seq<char>>::empty());
        assert(joined_after(parts.drop_last(), sep) =~= Seq::<char>::empty());
        assert(Seq::<char>::empty() + sep + parts.last() =~= sep + parts[0]);
    } else {
        lemma_joined_after_is_joined(parts.drop_last(), sep);
        assert((sep + joined(parts.drop_last(), sep)) + sep + parts.last() =~= sep + (joined(
            parts.drop_last(),
            sep,
        ) + sep + parts.last()));
    }
}

/// Splitting loses nothing: the pieces joined with the delimiter are the
/// string again. There is always at least one piece.
pub proof fn lemma_join_of_split(t: Seq<char>, d: Seq<char>)
    ensures
        split(t, d).len() > 0,
        joined(split(t, d), d) == t,
    decreases t.len(),
{
    if d.len() == 0 {
    } else {
        lemma_first_match_bounds(t, d, 0);
        match first_match(t, d, 0) {
            Some(k) => {
                let head = t.subrange(0, k);
                let tail = t.subrange(k + d.len(), t.len() as int);
                lemma_join_of_split(tail, d);
                lemma_joined_from_front(head, split(tail, d), d);
                lemma_joined_after_is_joined(split(tail, d), d);
                assert(t.subrange(k, k + d.len()) == d);
                assert(head + (d + tail) =~= t);
            },
            None => {},
        }
    }
}

/// No piece that a split ends before holds the delimiter: each occurrence
/// found from the left is cut out.
pub proof fn lemma_first_piece_has_no_delimiter(t: Seq<char>, d: Seq<char>, j: int)
    requires
        d.len() > 0,
        first_match(t, d, 0) matches Some(k) && 0 <= j < k,
    ensures
        !match_at(t, j, d),
{
    lemma_no_match_before(t, d, 0, j);
}

proof fn lemma_no_match_before(t: Seq<char>, d: Seq<char>, from: int, j: int)
    requires
        first_match(t, d, from) matches Some(k) && from <= j < k,
    ensures
        !match_at(t, j, d),
    decreases t.len() - from + 1,
{
    if from < 0 || from + d.len() > t.len() {
    } else if match_at(t, from, d) {
    } else if j > from {
        lemma_no_match_before(t, d, from + 1, j);
    }
}

proof fn lemma_first_match_bounds(t: Seq<char>, d: Seq<char>, from: int)
    ensures
        first_match(t, d, from) matches Some(k) ==> from <= k && k + d.len() <= t.len()
            && match_at(t, k, d),
    decreases t.len() - from + 1,
{
    if from < 0 || from + d.len() > t.len() {
    } else if match_at(t, from, d) {
    } else {
        lemma_first_match_bounds(t, d, from + 1);
    }
}

/// The first position at or after `from` where the delimiter stands in the
/// part of `t` that starts at `start`.
fn find_from(t: &Vec<char>, d: &Vec<char>, start: usize) -> (r: Option<usize>)
    requires
        start <= t.len(),
        d.len() > 0,
    ensures
        match first_match(t@.subrange(start as int, t@.len() as int), d@, 0) {
            Some(k) => r == Some((start + k) as usize) && 0 <= k && start + k + d@.len()
                <= t@.len(),
            None => r is None,
        },
{
    let ghost rest = t@.subrange(start as int, t@.len() as int);
    proof {
        lemma_first_match_bounds(rest, d@, 0);
    }
    if t.len() - start < d.len() {
        return None;
    }
    let last: usize = t.len() - d.len();
    let mut k: usize = start;
    while k <= last
        invariant
            start <= k <= last + 1,
            d.len() > 0,
            last == t.len() - d.len(),
            rest == t@.subrange(start as int, t@.len() as int),
            first_match(rest, d@, 0) == first_match(rest, d@, k - start),
        decreases last + 1 - k,
    {
        proof {
            assert(rest.subrange(k - start, k - start + d@.len()) =~= t@.subrange(
                k as int,
                k + d@.len(),
            ));
        }
        if match_word(t, k, d) {
            return Some(k);
        }
        k += 1;
    }
    None
}

fn split_text(t: &Vec<char>, d: &Vec<char>) -> (r: Vec<Option<String>>)
    ensures
        texts_view(r@) == Seq::new(split(t@, d@).len(), |k: int| Some(split(t@, d@)[k])),
{
    let mut out: Vec<Option<String>> = Vec::new();
    if d.len() == 0 {
        out.push(Some(chars_to_string(t)));
        assert(texts_view(out@) =~= Seq::new(split(t@, d@).len(), |k: int| Some(split(t@, d@)[k])));
        return out;
    }
    let ghost mut pieces: Seq<Seq<char>> = Seq::empty();
    let mut start: usize = 0;
    assert(t@.subrange(0, t@.len() as int) =~= t@);
    assert(pieces + split(t@, d@) =~= split(t@, d@));
    loop
        invariant
            start <= t.len(),
            d.len() > 0,
            out.len() == pieces.len(),
            forall|j: int| 0 <= j < out.len() ==> #[trigger] texts_view(out@)[j] == Some(pieces[j]),
            split(t@, d@) == pieces + split(t@.subrange(start as int, t@.len() as int), d@),
        decreases t.len() - start,
    {
        let ghost rest = t@.subrange(start as int, t@.len() as int);
        let ghost before = out@;
        let ghost old_pieces = pieces;
        match find_from(t, d, start) {
            Some(at) => {
                let piece = chars_to_string(&slice_chars(t, start, at));
                proof {
                    let k = at - start;
                    assert(rest.subrange(0, k) =~= t@.subrange(start as int, at as int));
                    assert(rest.subrange(k + d@.len(), rest.len() as int) =~= t@.subrange(
                        at + d@.len(),
                        t@.len() as int,
                    ));
                    pieces = pieces.push(piece@);
                    let tail = split(t@.subrange(at + d@.len(), t@.len() as int), d@);
                    assert(old_pieces + (seq![piece@] + tail) =~= pieces + tail);
                }
                out.push(Some(piece));
                assert forall|j: int| 0 <= j < out@.len() implies #[trigger] texts_view(out@)[j]
                    == Some(pieces[j]) by {
                    if j < before.len() {
                        assert(texts_view(out@)[j] == texts_view(before)[j]);
                    }
                }
                start = at + d.len();
            },
            None => {
                let piece = chars_to_string(&slice_chars(t, start, t.len()));
                proof {
                    pieces = pieces.push(piece@);
                    assert(old_pieces + seq![rest] =~= pieces);
                }
                out.push(Some(piece));
                assert forall|j: int| 0 <= j < out@.len() implies #[trigger] texts_view(out@)[j]
                    == Some(pieces[j]) by {
                    if j < before.len() {
                        assert(texts_view(out@)[j] == texts_view(before)[j]);
                    }
                }
                assert(texts_view(out@) =~= Seq::new(
                    split(t@, d@).len(),
                    |k: int| Some(split(t@, d@)[k]),
                ));
                return out;
            },
        }
    }
}

/// `StringSplit`.
pub fn string_split(col: &Column, delimiter: &str) -> (r: Result<Column, ExtFunctionError>)
    ensures
        result_view(r) == string_split_model(col@, delimiter@),
{
    match col {
        Column::Utf8(values) => {
            let d = str_chars(delimiter);
            let mut out: Vec<Option<Column>> = Vec::new();
            let mut i: usize = 0;
            while i < values.len()
                invariant
                    i <= values.len(),
                    out.len() == i,
                    d@ == delimiter@,
                    forall|j: int|
                        0 <= j < i ==> #[trigger] rows_view(out@)[j] == split_row(
                            texts_view(values@)[j],
                            delimiter@,
                        ),
                decreases values.len() - i,
            {
                let row: Option<Column> = match &values[i] {
                    Some(t) => {
                        let chars = str_chars(t.as_str());
                        Some(Column::Utf8(split_text(&chars, &d)))
                    },
                    None => None,
                };
                let ghost before = out@;
                out.push(row);
                assert forall|j: int| 0 <= j < i + 1 implies #[trigger] rows_view(out@)[j]
                    == split_row(texts_view(values@)[j], delimiter@) by {
                    if j < i {
                        assert(rows_view(out@)[j] == rows_view(before)[j]);
                    }
                }
                i += 1;
            }
            proof {
                lemma_view_list(out);
            }
            let result = Column::List(out);
            assert(result@->List_0 =~= string_split_model(col@, delimiter@)->Ok_0->List_0);
            Ok(result)
        },
        _ => Err(ExtFunctionError::InvalidArguments),
    }
}

} // verus!
