//! `MakeDecimal`: a decimal from an unscaled integer.

use crate::column::{ints_view, result_view, wide_ints_view, Column, ColumnModel};
use crate::decimal::{any_lost, fits, fits_in, valid_type, OverflowPolicy};
use crate::error::ExtFunctionError;
use vstd::prelude::*;

verus! {

/// The unscaled integer where it has at most `precision` digits, null
/// otherwise and for null.
pub open spec fn make_decimal_row(v: Option<int>, precision: nat) -> Option<int> {
    match v {
        Some(x) => if fits(x, precision) {
            Some(x)
        } else {
            None
        },
        None => None,
    }
}

/// The rows of `MakeDecimal`.
pub open spec fn make_decimal_rows(values: Seq<Option<int>>, precision: nat) -> Seq<Option<int>> {
    Seq::new(values.len(), |i: int| make_decimal_row(values[i], precision))
}

/// `MakeDecimal` on a column of integers: a decimal column of the given
/// type holding the integers as unscaled values. An integer with more
/// digits than the precision is an overflow: under the strict policy the
/// call fails, under the lenient one the row is null. Refused: a column
/// that holds no integers, and a precision and scale that describe no
/// decimal type.
pub open spec fn make_decimal_model(
    col: ColumnModel,
    precision: nat,
    scale: nat,
    policy: OverflowPolicy,
) -> Result<ColumnModel, ExtFunctionError> {
    match col {
        ColumnModel::Int { values, .. } => {
            let rows = make_decimal_rows(values, precision);
            if !valid_type(precision, scale) {
                Err(ExtFunctionError::InvalidArguments)
            } else if policy == OverflowPolicy::Strict && any_lost(values, rows) {
                Err(ExtFunctionError::ArithmeticOverflow)
            } else {
                Ok(ColumnModel::Decimal { precision: precision, scale: scale, values: rows })
            }
        },
        _ => Err(ExtFunctionError::InvalidArguments),
    }
}

/// `MakeDecimal`.
pub fn spark_make_decimal(col: &Column, precision: u8, scale: u8, policy: OverflowPolicy) -> (r:
    Result<Column, ExtFunctionError>)
    ensures
        result_view(r) == make_decimal_model(col@, precision as nat, scale as nat, policy),
{
    match col {
        Column::Int { values, .. } => {
            if !(1 <= precision && precision <= 38 && scale <= precision) {
                return Err(ExtFunctionError::InvalidArguments);
            }
            let ghost input = ints_view(values@);
            let ghost rows = make_decimal_rows(input, precision as nat);
            let mut out: Vec<Option<i128>> = Vec::new();
            let mut lost: bool = false;
            let mut i: usize = 0;
            while i < values.len()
                invariant
                    i <= values.len(),
                    precision <= 38,
                    out.len() == i,
                    input == ints_view(values@),
                    rows == make_decimal_rows(input, precision as nat),
                    forall|j: int| 0 <= j < i ==> #[trigger] wide_ints_view(out@)[j] == rows[j],
                    lost == (exists|j: int|
                        0 <= j < i && input[j] is Some && (#[trigger] rows[j]) is None),
                decreases values.len() - i,
            {
                let row: Option<i128> = match values[i] {
                    Some(v) => if fits_in(v as i128, precision) {
                        Some(v as i128)
                    } else {
                        None
                    },
                    None => None,
                };
                if values[i].is_some() && row.is_none() {
                    assert(input[i as int] is Some && rows[i as int] is None);
                    lost = true;
                }
                let ghost before = out@;
                out.push(row);
                assert forall|j: int| 0 <= j < i + 1 implies #[trigger] wide_ints_view(out@)[j]
                    == rows[j] by {
                    if j < i {
                        assert(wide_ints_view(out@)[j] == wide_ints_view(before)[j]);
                    }
                }
                i += 1;
            }
            if lost && matches!(policy, OverflowPolicy::Strict) {
                return Err(ExtFunctionError::ArithmeticOverflow);
            }
            let result = Column::Decimal { precision: precision, scale: scale, values: out };
            assert(result@->Decimal_values =~= rows);
            Ok(result)
        },
        _ => Err(ExtFunctionError::InvalidArguments),
    }
}

/// Every decimal that `MakeDecimal` gives fits its precision.
pub proof fn lemma_made_decimals_are_well_formed(
    col: ColumnModel,
    precision: nat,
    scale: nat,
    policy: OverflowPolicy,
)
    ensures
        make_decimal_model(col, precision, scale, policy) matches Ok(out) ==> out.well_formed(),
{
}

} // verus!
