//! `NullIfZero`: null where a number is zero.

use crate::column::{ints_view, result_view, wide_ints_view, Column, ColumnModel};
use crate::error::ExtFunctionError;
use vstd::prelude::*;

verus! {

/// Null for zero and for null, the number itself otherwise.
pub open spec fn null_if_zero_row(v: Option<int>) -> Option<int> {
    match v {
        Some(x) => if x == 0 {
            None
        } else {
            Some(x)
        },
        None => None,
    }
}

/// `NullIfZero` on a column of integers or decimals: the same type, each
/// row by `null_if_zero_row`. Any other column is refused.
pub open spec fn null_if_zero_model(col: ColumnModel) -> Result<ColumnModel, ExtFunctionError> {
    match col {
        ColumnModel::Int { width, values } => Ok(
            ColumnModel::Int {
                width: width,
                values: Seq::new(values.len(), |i: int| null_if_zero_row(values[i])),
            },
        ),
        ColumnModel::Decimal { precision, scale, values } => Ok(
            ColumnModel::Decimal {
                precision: precision,
                scale: scale,
                values: Seq::new(values.len(), |i: int| null_if_zero_row(values[i])),
            },
        ),
        _ => Err(ExtFunctionError::InvalidArguments),
    }
}

/// `NullIfZero`.
pub fn spark_null_if_zero(col: &Column) -> (r: Result<Column, ExtFunctionError>)
    ensures
        result_view(r) == null_if_zero_model(col@),
{
    match col {
        Column::Int { width, values } => {
            let mut out: Vec<Option<i64>> = Vec::new();
            let mut i: usize = 0;
            while i < values.len()
                invariant
                    i <= values.len(),
                    out.len() == i,
                    forall|j: int|
                        0 <= j < i ==> #[trigger] ints_view(out@)[j] == null_if_zero_row(
                            ints_view(values@)[j],
                        ),
                decreases values.len() - i,
            {
                let row: Option<i64> = match values[i] {
                    Some(v) => if v == 0 {
                        None
                    } else {
                        Some(v)
                    },
                    None => None,
                };
                let ghost before = out@;
                out.push(row);
                assert forall|j: int| 0 <= j < i + 1 implies #[trigger] ints_view(out@)[j]
                    == null_if_zero_row(ints_view(values@)[j]) by {
                    if j < i {
                        assert(ints_view(out@)[j] == ints_view(before)[j]);
                    }
                }
                i += 1;
            }
            let result = Column::Int { width: *width, values: out };
            assert(result@->Int_values =~= null_if_zero_model(col@)->Ok_0->Int_values);
            Ok(result)
        },
        Column::Decimal { precision, scale, values } => {
            let mut out: Vec<Option<i128>> = Vec::new();
            let mut i: usize = 0;
            while i < values.len()
                invariant
                    i <= values.len(),
                    out.len() == i,
                    forall|j: int|
                        0 <= j < i ==> #[trigger] wide_ints_view(out@)[j] == null_if_zero_row(
                            wide_ints_view(values@)[j],
                        ),
                decreases values.len() - i,
            {
                let row: Option<i128> = match values[i] {
                    Some(v) => if v == 0 {
                        None
                    } else {
                        Some(v)
                    },
                    None => None,
                };
                let ghost before = out@;
                out.push(row);
                assert forall|j: int| 0 <= j < i + 1 implies #[trigger] wide_ints_view(out@)[j]
                    == null_if_zero_row(wide_ints_view(values@)[j]) by {
                    if j < i {
                        assert(wide_ints_view(out@)[j] == wide_ints_view(before)[j]);
                    }
                }
                i += 1;
            }
            let result = Column::Decimal { precision: *precision, scale: *scale, values: out };
            assert(result@->Decimal_values =~= null_if_zero_model(col@)->Ok_0->Decimal_values);
            Ok(result)
        },
        _ => Err(ExtFunctionError::InvalidArguments),
    }
}

/// `NullIfZero` keeps a well-formed column well formed.
pub proof fn lemma_null_if_zero_keeps_well_formed(col: ColumnModel)
    requires
        col.well_formed(),
    ensures
        null_if_zero_model(col) matches Ok(out) ==> out.well_formed(),
{
}

} // verus!
