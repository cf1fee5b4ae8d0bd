//! `UnscaledValue`: the unscaled integer of a decimal.

use crate::column::{ints_view, result_view, wide_ints_view, Column, ColumnModel, IntWidth};
use crate::decimal::{any_lost, OverflowPolicy};
use crate::spark_make_decimal::{make_decimal_model, make_decimal_rows};
use crate::error::ExtFunctionError;
use vstd::prelude::*;

verus! {

/// The unscaled integer where 64 bits hold it, null otherwise and for null.
pub open spec fn unscaled_value_row(v: Option<int>) -> Option<int> {
    match v {
        Some(x) => if IntWidth::W64.holds(x) {
            Some(x)
        } else {
            None
        },
        None => None,
    }
}

/// The rows of `UnscaledValue`.
pub open spec fn unscaled_value_rows(values: Seq<Option<int>>) -> Seq<Option<int>> {
    Seq::new(values.len(), |i: int| unscaled_value_row(values[i]))
}

/// `UnscaledValue` on a decimal column: a column of 64-bit integers
/// holding the unscaled values, without precision and scale. An unscaled
/// value that 64 bits do not hold is an overflow: under the strict policy
/// the call fails, under the lenient one the row is null. A column that
/// holds no decimals is refused.
pub open spec fn unscaled_value_model(col: ColumnModel, policy: OverflowPolicy) -> Result<
    ColumnModel,
    ExtFunctionError,
> {
    match col {
        ColumnModel::Decimal { values, .. } => {
            let rows = unscaled_value_rows(values);
            if policy == OverflowPolicy::Strict && any_lost(values, rows) {
                Err(ExtFunctionError::ArithmeticOverflow)
            } else {
                Ok(ColumnModel::Int { width: IntWidth::W64, values: rows })
            }
        },
        _ => Err(ExtFunctionError::InvalidArguments),
    }
}

/// `UnscaledValue`.
pub fn spark_unscaled_value(col: &Column, policy: OverflowPolicy) -> (r: Result<
    Column,
    ExtFunctionError,
>)
    ensures
        result_view(r) == unscaled_value_model(col@, policy),
{
    match col {
        Column::Decimal { values, .. } => {
            let ghost input = wide_ints_view(values@);
            let ghost rows = unscaled_value_rows(input);
            let mut out: Vec<Option<i64>> = Vec::new();
            let mut lost: bool = false;
            let mut i: usize = 0;
            while i < values.len()
                invariant
                    i <= values.len(),
                    out.len() == i,
                    input == wide_ints_view(values@),
                    rows == unscaled_value_rows(input),
                    forall|j: int| 0 <= j < i ==> #[trigger] ints_view(out@)[j] == rows[j],
                    lost == (exists|j: int|
                        0 <= j < i && input[j] is Some && (#[trigger] rows[j]) is None),
                decreases values.len() - i,
            {
                let row: Option<i64> = match values[i] {
                    Some(v) => if -0x8000_0000_0000_0000i128 <= v && v
                        <= 0x7fff_ffff_ffff_ffffi128 {
                        Some(v as i64)
                    } else {
                        None
                    },
                    None => None,
                };
                if values[i].is_some() && row.is_none() {
                    assert(input[i as int] is Some && rows[i as int] is None);
                    lost = true;
                }
                let ghost before = out@;
                out.push(row);
                assert forall|j: int| 0 <= j < i + 1 implies #[trigger] ints_view(out@)[j]
                    == rows[j] by {
                    if j < i {
                        assert(ints_view(out@)[j] == ints_view(before)[j]);
                    }
                }
                i += 1;
            }
            if lost && matches!(policy, OverflowPolicy::Strict) {
                return Err(ExtFunctionError::ArithmeticOverflow);
            }
            let result = Column::Int { width: IntWidth::W64, values: out };
            assert(result@->Int_values =~= rows);
            Ok(result)
        },
        _ => Err(ExtFunctionError::InvalidArguments),
    }
}

/// Every integer that `UnscaledValue` gives is held by 64 bits.
pub proof fn lemma_unscaled_values_are_well_formed(col: ColumnModel, policy: OverflowPolicy)
    ensures
        unscaled_value_model(col, policy) matches Ok(out) ==> out.well_formed(),
{
}

/// `UnscaledValue` undoes `MakeDecimal`: where 64-bit integers were made
/// into decimals without overflow, their unscaled values are the integers
/// again, whatever the precision, the scale and the policy.
pub proof fn lemma_unscaled_value_of_made_decimal(
    width: IntWidth,
    values: Seq<Option<int>>,
    precision: nat,
    scale: nat,
    policy: OverflowPolicy,
)
    requires
        forall|i: int|
            0 <= i < values.len() ==> ((#[trigger] values[i]) matches Some(v)
                ==> IntWidth::W64.holds(v)),
        make_decimal_model(
            ColumnModel::Int { width: width, values: values },
            precision,
            scale,
            OverflowPolicy::Strict,
        ) is Ok,
    ensures
        make_decimal_model(
            ColumnModel::Int { width: width, values: values },
            precision,
            scale,
            OverflowPolicy::Strict,
        ) matches Ok(made) && unscaled_value_model(made, policy) == Ok::<
            ColumnModel,
            ExtFunctionError,
        >(ColumnModel::Int { width: IntWidth::W64, values: values }),
{
    let made_rows = make_decimal_rows(values, precision);
    assert forall|i: int| 0 <= i < values.len() implies made_rows[i] == values[i] by {
        if values[i] is Some && made_rows[i] is None {
            assert(any_lost(values, made_rows));
        }
    }
    assert(made_rows =~= values);
    let back = unscaled_value_rows(made_rows);
    assert(back =~= values);
    assert(!any_lost(made_rows, back));
}

} // verus!
