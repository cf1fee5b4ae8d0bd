//! `MakeArray`: one array per row from the values of several columns.

use crate::column::{
    columns_view, ints_view, values_well_formed, lemma_view_list, result_view, rows_view, texts_view, wide_ints_view, Column,
    ColumnModel, IntWidth,
};
use crate::decimal::fits;
use crate::error::ExtFunctionError;
use vstd::prelude::*;

verus! {

/// Whether a column can stand beside `first` in an array: integers of any
/// width with integers, strings with strings, decimals with decimals of
/// the same precision and scale.
pub open spec fn same_kind(first: ColumnModel, col: ColumnModel) -> bool {
    match (first, col) {
        (ColumnModel::Int { .. }, ColumnModel::Int { .. }) => true,
        (ColumnModel::Utf8(_), ColumnModel::Utf8(_)) => true,
        (
            ColumnModel::Decimal { precision: p, scale: s, .. },
            ColumnModel::Decimal { precision, scale, .. },
        ) => p == precision && s == scale,
        _ => false,
    }
}

/// Whether the columns can be made into arrays: at least one, all of one
/// kind, all of one length.
pub open spec fn array_accepts(cols: Seq<ColumnModel>) -> bool {
    &&& cols.len() > 0
    &&& forall|c: int| 0 <= c < cols.len() ==> same_kind(cols[0], #[trigger] cols[c])
    &&& forall|c: int| 0 <= c < cols.len() ==> (#[trigger] cols[c]).len() == cols[0].len()
}

/// The widest width among the first `n` columns of integers.
pub open spec fn common_width(cols: Seq<ColumnModel>, n: nat) -> IntWidth
    decreases n,
{
    if n == 0 {
        IntWidth::W8
    } else {
        match cols[n - 1] {
            ColumnModel::Int { width, .. } => common_width(cols, (n - 1) as nat).widest_spec(width),
            _ => common_width(cols, (n - 1) as nat),
        }
    }
}

/// The integer or unscaled decimal of row `i` of a column.
pub open spec fn number_at(col: ColumnModel, i: int) -> Option<int> {
    match col {
        ColumnModel::Int { values, .. } => values[i],
        ColumnModel::Decimal { values, .. } => values[i],
        _ => None,
    }
}

/// The string of row `i` of a column.
pub open spec fn text_at(col: ColumnModel, i: int) -> Option<Seq<char>> {
    match col {
        ColumnModel::Utf8(values) => values[i],
        _ => None,
    }
}

/// The array of row `i`: the values of that row, one from each column in
/// order, a null where the column has a null. Integers take the widest of
/// the columns' widths.
pub open spec fn array_row(cols: Seq<ColumnModel>, i: int) -> ColumnModel {
    match cols[0] {
        ColumnModel::Int { .. } => ColumnModel::Int {
            width: common_width(cols, cols.len()),
            values: Seq::new(cols.len(), |c: int| number_at(cols[c], i)),
        },
        ColumnModel::Decimal { precision, scale, .. } => ColumnModel::Decimal {
            precision: precision,
            scale: scale,
            values: Seq::new(cols.len(), |c: int| number_at(cols[c], i)),
        },
        _ => ColumnModel::Utf8(Seq::new(cols.len(), |c: int| text_at(cols[c], i))),
    }
}

/// `MakeArray` on columns of one kind and length: a column of arrays, no
/// row of it null. Refused: no column, columns of different kinds or
/// lengths, columns of JSON values or of arrays.
pub open spec fn array_model(cols: Seq<ColumnModel>) -> Result<ColumnModel, ExtFunctionError> {
    if array_accepts(cols) {
        Ok(ColumnModel::List(Seq::new(cols[0].len(), |i: int| Some(array_row(cols, i)))))
    } else {
        Err(ExtFunctionError::InvalidArguments)
    }
}

fn is_same_kind(first: &Column, col: &Column) -> (r: bool)
    ensures
        r == same_kind(first@, col@),
{
    match (first, col) {
        (Column::Int { .. }, Column::Int { .. }) => true,
        (Column::Utf8(_), Column::Utf8(_)) => true,
        (
            Column::Decimal { precision: p, scale: s, .. },
            Column::Decimal { precision, scale, .. },
        ) => *p == *precision && *s == *scale,
        _ => false,
    }
}

fn accepts(cols: &Vec<Column>) -> (r: Option<IntWidth>)
    ensures
        r is Some == array_accepts(columns_view(cols@)),
        r matches Some(w) ==> w == common_width(columns_view(cols@), cols@.len()),
{
    if cols.len() == 0 {
        return None;
    }
    let ghost models = columns_view(cols@);
    let rows: usize = cols[0].len();
    let mut width: IntWidth = IntWidth::W8;
    let mut c: usize = 0;
    while c < cols.len()
        invariant
            c <= cols.len(),
            cols.len() > 0,
            models == columns_view(cols@),
            rows == cols[0]@.len(),
            width == common_width(models, c as nat),
            forall|k: int| 0 <= k < c ==> same_kind(models[0], #[trigger] models[k]),
            forall|k: int| 0 <= k < c ==> (#[trigger] models[k]).len() == rows,
        decreases cols.len() - c,
    {
        assert(models[c as int] == cols[c as int]@);
        assert(models[0] == cols[0]@);
        if !is_same_kind(&cols[0], &cols[c]) || cols[c].len() != rows {
            return None;
        }
        match &cols[c] {
            Column::Int { width: w, .. } => {
                width = width.widest(*w);
            },
            _ => {},
        }
        c += 1;
    }
    Some(width)
}

fn number_cell(col: &Column, i: usize) -> (r: Option<i128>)
    requires
        i < col@.len(),
    ensures
        match number_at(col@, i as int) {
            Some(v) => r == Some(v as i128) && (col@ is Int ==> IntWidth::W64.holds(v)),
            None => r is None,
        },
{
    match col {
        Column::Int { values, .. } => match values[i] {
            Some(v) => Some(v as i128),
            None => None,
        },
        Column::Decimal { values, .. } => values[i],
        _ => None,
    }
}

fn text_cell(col: &Column, i: usize) -> (r: Option<String>)
    requires
        i < col@.len(),
    ensures
        match text_at(col@, i as int) {
            Some(t) => (r matches Some(s) && s@ == t),
            None => r is None,
        },
{
    match col {
        Column::Utf8(values) => match &values[i] {
            Some(s) => Some(s.clone()),
            None => None,
        },
        _ => None,
    }
}

fn row_of(cols: &Vec<Column>, i: usize, width: IntWidth) -> (row: Column)
    requires
        array_accepts(columns_view(cols@)),
        i < columns_view(cols@)[0].len(),
        width == common_width(columns_view(cols@), cols@.len()),
    ensures
        row@ == array_row(columns_view(cols@), i as int),
{
    let ghost models = columns_view(cols@);
    assert(models[0] == cols[0]@);
    match &cols[0] {
        Column::Int { .. } => {
            let mut values: Vec<Option<i64>> = Vec::new();
            let mut c: usize = 0;
            while c < cols.len()
                invariant
                    c <= cols.len(),
                    models == columns_view(cols@),
                    array_accepts(models),
                    models[0] is Int,
                    i < models[0].len(),
                    values.len() == c,
                    forall|k: int|
                        0 <= k < c ==> #[trigger] ints_view(values@)[k] == number_at(
                            models[k],
                            i as int,
                        ),
                decreases cols.len() - c,
            {
                assert(models[c as int] == cols[c as int]@);
                assert(same_kind(models[0], models[c as int]));
                let cell: Option<i64> = match number_cell(&cols[c], i) {
                    Some(v) => Some(v as i64),
                    None => None,
                };
                let ghost before = values@;
                values.push(cell);
                assert forall|k: int| 0 <= k < c + 1 implies #[trigger] ints_view(values@)[k]
                    == number_at(models[k], i as int) by {
                    if k < c {
                        assert(ints_view(values@)[k] == ints_view(before)[k]);
                    }
                }
                c += 1;
            }
            let row = Column::Int { width: width, values: values };
            assert(row@->Int_values =~= array_row(models, i as int)->Int_values);
            row
        },
        Column::Decimal { precision, scale, .. } => {
            let mut values: Vec<Option<i128>> = Vec::new();
            let mut c: usize = 0;
            while c < cols.len()
                invariant
                    c <= cols.len(),
                    models == columns_view(cols@),
                    array_accepts(models),
                    i < models[0].len(),
                    values.len() == c,
                    forall|k: int|
                        0 <= k < c ==> #[trigger] wide_ints_view(values@)[k] == number_at(
                            models[k],
                            i as int,
                        ),
                decreases cols.len() - c,
            {
                assert(models[c as int] == cols[c as int]@);
                let cell: Option<i128> = number_cell(&cols[c], i);
                let ghost before = values@;
                values.push(cell);
                assert forall|k: int| 0 <= k < c + 1 implies #[trigger] wide_ints_view(values@)[k]
                    == number_at(models[k], i as int) by {
                    if k < c {
                        assert(wide_ints_view(values@)[k] == wide_ints_view(before)[k]);
                    }
                }
                c += 1;
            }
            let row = Column::Decimal { precision: *precision, scale: *scale, values: values };
            assert(row@->Decimal_values =~= array_row(models, i as int)->Decimal_values);
            row
        },
        _ => {
            let mut values: Vec<Option<String>> = Vec::new();
            let mut c: usize = 0;
            while c < cols.len()
                invariant
                    c <= cols.len(),
                    models == columns_view(cols@),
                    array_accepts(models),
                    i < models[0].len(),
                    values.len() == c,
                    forall|k: int|
                        0 <= k < c ==> #[trigger] texts_view(values@)[k] == text_at(
                            models[k],
                            i as int,
                        ),
                decreases cols.len() - c,
            {
                assert(models[c as int] == cols[c as int]@);
                let cell: Option<String> = text_cell(&cols[c], i);
                let ghost before = values@;
                values.push(cell);
                assert forall|k: int| 0 <= k < c + 1 implies #[trigger] texts_view(values@)[k]
                    == text_at(models[k], i as int) by {
                    if k < c {
                        assert(texts_view(values@)[k] == texts_view(before)[k]);
                    }
                }
                c += 1;
            }
            let row = Column::Utf8(values);
            assert(row@->Utf8_0 =~= array_row(models, i as int)->Utf8_0);
            row
        },
    }
}

/// `MakeArray`.
pub fn array(cols: &Vec<Column>) -> (r: Result<Column, ExtFunctionError>)
    ensures
        result_view(r) == array_model(columns_view(cols@)),
{
    let width: IntWidth = match accepts(cols) {
        Some(w) => w,
        None => {
            return Err(ExtFunctionError::InvalidArguments);
        },
    };
    let ghost models = columns_view(cols@);
    let rows: usize = cols[0].len();
    let mut out: Vec<Option<Column>> = Vec::new();
    let mut i: usize = 0;
    while i < rows
        invariant
            i <= rows,
            models == columns_view(cols@),
            array_accepts(models),
            rows == models[0].len(),
            width == common_width(models, cols@.len()),
            out.len() == i,
            forall|j: int| 0 <= j < i ==> #[trigger] rows_view(out@)[j] == Some(array_row(models, j)),
        decreases rows - i,
    {
        let row: Column = row_of(cols, i, width);
        let ghost before = out@;
        out.push(Some(row));
        assert forall|j: int| 0 <= j < i + 1 implies #[trigger] rows_view(out@)[j] == Some(
            array_row(models, j),
        ) by {
            if j < i {
                assert(rows_view(out@)[j] == rows_view(before)[j]);
            }
        }
        i += 1;
    }
    proof {
        lemma_view_list(out);
    }
    let result = Column::List(out);
    assert(result@->List_0 =~= array_model(models)->Ok_0->List_0);
    Ok(result)
}

/// No row of the result is null, each row has one element for each
/// column, and an element is null exactly where its column has a null in
/// that row.
pub proof fn lemma_array_nulls_are_per_element(cols: Seq<ColumnModel>, i: int, c: int)
    requires
        array_accepts(cols),
        0 <= i < cols[0].len(),
        0 <= c < cols.len(),
    ensures
        array_model(cols) matches Ok(ColumnModel::List(rows)) && rows.len() == cols[0].len() && (
        rows[i] matches Some(row) && row.len() == cols.len() && row.is_null(c) == cols[c].is_null(
            i,
        )),
{
    assert(same_kind(cols[0], cols[c]));
}

proof fn lemma_common_width_holds(cols: Seq<ColumnModel>, n: nat, c: int, v: int)
    requires
        n <= cols.len(),
        0 <= c < n,
        cols[c] matches ColumnModel::Int { width, .. } && width.holds(v),
    ensures
        common_width(cols, n).holds(v),
    decreases n,
{
    if c < n - 1 {
        lemma_common_width_holds(cols, (n - 1) as nat, c, v);
    }
}

/// `MakeArray` of well-formed columns is well formed: the widest width
/// holds every integer of every column.
pub proof fn lemma_arrays_are_well_formed(cols: Seq<ColumnModel>)
    requires
        forall|c: int| 0 <= c < cols.len() ==> (#[trigger] cols[c]).well_formed(),
    ensures
        array_model(cols) matches Ok(out) ==> out.well_formed(),
{
    if array_accepts(cols) {
        let rows = array_model(cols)->Ok_0->List_0;
        assert forall|i: int| 0 <= i < rows.len() implies ((#[trigger] rows[i]) matches Some(row)
            ==> values_well_formed(row)) by {
            let row = array_row(cols, i);
            assert(cols[0].well_formed());
            match cols[0] {
                ColumnModel::Int { .. } => {
                    assert forall|c: int| 0 <= c < cols.len() implies ((
                    #[trigger] row->Int_values[c]) matches Some(v) ==> common_width(
                        cols,
                        cols.len(),
                    ).holds(v)) by {
                        assert(same_kind(cols[0], cols[c]));
                        assert(cols[c].well_formed());
                        assert(cols[c].len() == cols[0].len());
                        if let Some(v) = number_at(cols[c], i) {
                            assert(cols[c]->Int_values[i] == Some(v));
                            lemma_common_width_holds(cols, cols.len(), c, v);
                        }
                    }
                },
                ColumnModel::Decimal { precision, .. } => {
                    assert forall|c: int| 0 <= c < cols.len() implies ((
                    #[trigger] row->Decimal_values[c]) matches Some(v) ==> fits(v, precision)) by {
                        assert(same_kind(cols[0], cols[c]));
                        assert(cols[c].well_formed());
                        assert(cols[c].len() == cols[0].len());
                        if let Some(v) = number_at(cols[c], i) {
                            assert(cols[c]->Decimal_values[i] == Some(v));
                        }
                    }
                },
                _ => {},
            }
        }
    }
}

} // verus!
