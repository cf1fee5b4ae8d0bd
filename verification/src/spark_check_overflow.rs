//! `CheckOverflow`: a decimal rescaled and held to a precision.

use crate::column::{result_view, wide_ints_view, Column, ColumnModel};
use crate::decimal::{any_lost, fits, rescale, rescale_checked, valid_type, OverflowPolicy};
use crate::error::ExtFunctionError;
use vstd::prelude::*;

verus! {

/// The unscaled integer rescaled from scale `from` to `scale` where the
/// result has at most `precision` digits, null otherwise and for null.
pub open spec fn check_overflow_row(v: Option<int>, from: nat, precision: nat, scale: nat)
    -> Option<int> {
    match v {
        Some(x) => if fits(rescale(x, from, scale), precision) {
            Some(rescale(x, from, scale))
        } else {
            None
        },
        None => None,
    }
}

/// The rows of `CheckOverflow`.
pub open spec fn check_overflow_rows(
    values: Seq<Option<int>>,
    from: nat,
    precision: nat,
    scale: nat,
) -> Seq<Option<int>> {
    Seq::new(values.len(), |i: int| check_overflow_row(values[i], from, precision, scale))
}

/// `CheckOverflow` on a decimal column: a decimal column of the given type,
/// each value rescaled to the new scale, a half rounded away from zero. A
/// rescaled value with more digits than the precision is an overflow:
/// under the strict policy the call fails, under the lenient one the row
/// is null. Refused: a column that holds no decimals, and a precision and
/// scale, the column's own or the target's, that describe no decimal type.
pub open spec fn check_overflow_model(
    col: ColumnModel,
    precision: nat,
    scale: nat,
    policy: OverflowPolicy,
) -> Result<ColumnModel, ExtFunctionError> {
    match col {
        ColumnModel::Decimal { precision: own_precision, scale: from, values } => {
            let rows = check_overflow_rows(values, from, precision, scale);
            if !valid_type(own_precision, from) || !valid_type(precision, scale) {
                Err(ExtFunctionError::InvalidArguments)
            } else if policy == OverflowPolicy::Strict && any_lost(values, rows) {
                Err(ExtFunctionError::ArithmeticOverflow)
            } else {
                Ok(ColumnModel::Decimal { precision: precision, scale: scale, values: rows })
            }
        },
        _ => Err(ExtFunctionError::InvalidArguments),
    }
}

fn is_valid_type(precision: u8, scale: u8) -> (r: bool)
    ensures
        r == valid_type(precision as nat, scale as nat),
{
    1 <= precision && precision <= 38 && scale <= precision
}

/// `CheckOverflow`.
pub fn spark_check_overflow(col: &Column, precision: u8, scale: u8, policy: OverflowPolicy) -> (r:
    Result<Column, ExtFunctionError>)
    ensures
        result_view(r) == check_overflow_model(col@, precision as nat, scale as nat, policy),
{
    match col {
        Column::Decimal { precision: own_precision, scale: from, values } => {
            if !is_valid_type(*own_precision, *from) || !is_valid_type(precision, scale) {
                return Err(ExtFunctionError::InvalidArguments);
            }
            let ghost input = wide_ints_view(values@);
            let ghost rows = check_overflow_rows(
                input,
                *from as nat,
                precision as nat,
                scale as nat,
            );
            let mut out: Vec<Option<i128>> = Vec::new();
            let mut lost: bool = false;
            let mut i: usize = 0;
            while i < values.len()
                invariant
                    i <= values.len(),
                    precision <= 38,
                    scale <= 38,
                    *from <= 38,
                    out.len() == i,
                    input == wide_ints_view(values@),
                    rows == check_overflow_rows(
                        input,
                        *from as nat,
                        precision as nat,
                        scale as nat,
                    ),
                    forall|j: int| 0 <= j < i ==> #[trigger] wide_ints_view(out@)[j] == rows[j],
                    lost == (exists|j: int|
                        0 <= j < i && input[j] is Some && (#[trigger] rows[j]) is None),
                decreases values.len() - i,
            {
                let row: Option<i128> = match values[i] {
                    Some(v) => rescale_checked(v, *from, scale, precision),
                    None => None,
                };
                if values[i].is_some() && row.is_none() {
                    assert(input[i as int] is Some && rows[i as int] is None);
                    lost = true;
                }
                let ghost before = out@;
                out.push(row);
                assert forall|j: int| 0 <= j < i + 1 implies #[trigger] wide_ints_view(out@)[j]
                    == rows[j] by {
                    if j < i {
                        assert(wide_ints_view(out@)[j] == wide_ints_view(before)[j]);
                    }
                }
                i += 1;
            }
            if lost && matches!(policy, OverflowPolicy::Strict) {
                return Err(ExtFunctionError::ArithmeticOverflow);
            }
            let result = Column::Decimal { precision: precision, scale: scale, values: out };
            assert(result@->Decimal_values =~= rows);
            Ok(result)
        },
        _ => Err(ExtFunctionError::InvalidArguments),
    }
}

/// Every decimal that `CheckOverflow` gives fits its precision.
pub proof fn lemma_checked_decimals_are_well_formed(
    col: ColumnModel,
    precision: nat,
    scale: nat,
    policy: OverflowPolicy,
)
    ensures
        check_overflow_model(col, precision, scale, policy) matches Ok(out) ==> out.well_formed(),
{
}

/// Under the strict policy a value with more digits than the precision is
/// rejected, and under the lenient policy the same row is null.
pub proof fn lemma_policy_decides_overflow(
    values: Seq<Option<int>>,
    from: nat,
    own_precision: nat,
    precision: nat,
    scale: nat,
    i: int,
)
    requires
        valid_type(own_precision, from),
        valid_type(precision, scale),
        0 <= i < values.len(),
        values[i] matches Some(x) && !fits(rescale(x, from, scale), precision),
    ensures
        check_overflow_model(
            ColumnModel::Decimal { precision: own_precision, scale: from, values: values },
            precision,
            scale,
            OverflowPolicy::Strict,
        ) == Err::<ColumnModel, ExtFunctionError>(ExtFunctionError::ArithmeticOverflow),
        check_overflow_model(
            ColumnModel::Decimal { precision: own_precision, scale: from, values: values },
            precision,
            scale,
            OverflowPolicy::Lenient,
        ) matches Ok(ColumnModel::Decimal { values: out, .. }) && out.len() == values.len()
            && out[i] is None,
{
    let rows = check_overflow_rows(values, from, precision, scale);
    assert(values[i] is Some && rows[i] is None);
}

} // verus!
