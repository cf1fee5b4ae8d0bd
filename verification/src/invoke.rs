//! The one call shape that every entry of the catalogue shares.

use crate::column::{
    columns_view, result_view, scalars_view, Column, ColumnModel, Scalar, ScalarModel,
};
use crate::decimal::OverflowPolicy;
use crate::error::ExtFunctionError;
use crate::registry::SparkExtFunction;
use crate::spark_check_overflow::{check_overflow_model, spark_check_overflow};
use crate::spark_get_json_object::{
    get_json_object_model, get_parsed_json_object_model, parse_json_model, spark_get_json_object,
    spark_get_parsed_json_object, spark_parse_json,
};
use crate::spark_make_array::{array, array_model};
use crate::spark_make_decimal::{make_decimal_model, spark_make_decimal};
use crate::spark_murmur3_hash::{murmur3_hash_model, spark_murmur3_hash};
use crate::spark_null_if_zero::{null_if_zero_model, spark_null_if_zero};
use crate::spark_strings::{
    string_concat, string_concat_model, string_concat_ws, string_concat_ws_model, string_lower,
    string_lower_model, string_repeat, string_repeat_model, string_space, string_space_model,
    string_split, string_split_model, string_upper, string_upper_model,
};
use crate::spark_unscaled_value::{spark_unscaled_value, unscaled_value_model};
use vstd::prelude::*;

verus! {

/// The precision and scale that two scalar arguments give, where they are
/// two integers between 0 and 255.
pub open spec fn decimal_type_of(scalars: Seq<ScalarModel>) -> Option<(nat, nat)> {
    if scalars.len() == 2 {
        match (scalars[0], scalars[1]) {
            (ScalarModel::Int(p), ScalarModel::Int(s)) => if 0 <= p <= 255 && 0 <= s <= 255 {
                Some((p as nat, s as nat))
            } else {
                None
            },
            _ => None,
        }
    } else {
        None
    }
}

/// The seed that the scalar arguments give, where they are one 32-bit
/// integer.
pub open spec fn seed_of(scalars: Seq<ScalarModel>) -> Option<i32> {
    if scalars.len() == 1 {
        match scalars[0] {
            ScalarModel::Int(v) => if -0x8000_0000 <= v <= 0x7fff_ffff {
                Some(v as i32)
            } else {
                None
            },
            _ => None,
        }
    } else {
        None
    }
}

/// The text that the scalar arguments give, where they are one string.
pub open spec fn text_of(scalars: Seq<ScalarModel>) -> Option<Seq<char>> {
    if scalars.len() == 1 {
        match scalars[0] {
            ScalarModel::Utf8(t) => Some(t),
            _ => None,
        }
    } else {
        None
    }
}

/// What invoking an entry on the given columns and scalar arguments
/// gives. The placeholder fails whatever it is given. Every other entry
/// takes the columns and scalars listed here, hands them to its function,
/// and refuses any other shape:
///
/// | entry | columns | scalars |
/// |---|---|---|
/// | `NullIfZero`, `UnscaledValue`, `ParseJson`, `StringSpace`, `StringLower`, `StringUpper` | one | none |
/// | `MakeDecimal`, `CheckOverflow` | one | precision, scale |
/// | `Murmur3Hash` | any | seed |
/// | `GetJsonObject`, `GetParsedJsonObject` | one | path |
/// | `MakeArray`, `StringConcat` | any | none |
/// | `StringRepeat` | strings, counts | none |
/// | `StringSplit` | one | delimiter |
/// | `StringConcatWs` | any | separator |
pub open spec fn invoke_model(
    f: SparkExtFunction,
    cols: Seq<ColumnModel>,
    scalars: Seq<ScalarModel>,
    policy: OverflowPolicy,
) -> Result<ColumnModel, ExtFunctionError> {
    let refused = Err::<ColumnModel, ExtFunctionError>(ExtFunctionError::InvalidArguments);
    let one = cols.len() == 1;
    let bare = scalars.len() == 0;
    match f {
        SparkExtFunction::Placeholder => Err(ExtFunctionError::InvariantViolation),
        SparkExtFunction::NullIfZero => if one && bare {
            null_if_zero_model(cols[0])
        } else {
            refused
        },
        SparkExtFunction::UnscaledValue => if one && bare {
            unscaled_value_model(cols[0], policy)
        } else {
            refused
        },
        SparkExtFunction::MakeDecimal => match decimal_type_of(scalars) {
            Some((p, s)) => if one {
                make_decimal_model(cols[0], p, s, policy)
            } else {
                refused
            },
            None => refused,
        },
        SparkExtFunction::CheckOverflow => match decimal_type_of(scalars) {
            Some((p, s)) => if one {
                check_overflow_model(cols[0], p, s, policy)
            } else {
                refused
            },
            None => refused,
        },
        SparkExtFunction::Murmur3Hash => match seed_of(scalars) {
            Some(seed) => murmur3_hash_model(cols, seed),
            None => refused,
        },
        SparkExtFunction::GetJsonObject => match text_of(scalars) {
            Some(path) => if one {
                get_json_object_model(cols[0], path)
            } else {
                refused
            },
            None => refused,
        },
        SparkExtFunction::GetParsedJsonObject => match text_of(scalars) {
            Some(path) => if one {
                get_parsed_json_object_model(cols[0], path)
            } else {
                refused
            },
            None => refused,
        },
        SparkExtFunction::ParseJson => if one && bare {
            parse_json_model(cols[0])
        } else {
            refused
        },
        SparkExtFunction::MakeArray => if bare {
            array_model(cols)
        } else {
            refused
        },
        SparkExtFunction::StringSpace => if one && bare {
            string_space_model(cols[0])
        } else {
            refused
        },
        SparkExtFunction::StringRepeat => if cols.len() == 2 && bare {
            string_repeat_model(cols[0], cols[1])
        } else {
            refused
        },
        SparkExtFunction::StringSplit => match text_of(scalars) {
            Some(d) => if one {
                string_split_model(cols[0], d)
            } else {
                refused
            },
            None => refused,
        },
        SparkExtFunction::StringConcat => if bare {
            string_concat_model(cols)
        } else {
            refused
        },
        SparkExtFunction::StringConcatWs => match text_of(scalars) {
            Some(sep) => string_concat_ws_model(sep, cols),
            None => refused,
        },
        SparkExtFunction::StringLower => if one && bare {
            string_lower_model(cols[0])
        } else {
            refused
        },
        SparkExtFunction::StringUpper => if one && bare {
            string_upper_model(cols[0])
        } else {
            refused
        },
    }
}

fn decimal_type(scalars: &Vec<Scalar>) -> (r: Option<(u8, u8)>)
    ensures
        match decimal_type_of(scalars_view(scalars@)) {
            Some((p, s)) => r == Some((p as u8, s as u8)) && p <= 255 && s <= 255,
            None => r is None,
        },
{
    if scalars.len() != 2 {
        return None;
    }
    assert(scalars_view(scalars@)[0] == scalars[0]@);
    assert(scalars_view(scalars@)[1] == scalars[1]@);
    match (&scalars[0], &scalars[1]) {
        (Scalar::Int(p), Scalar::Int(s)) => {
            if 0 <= *p && *p <= 255 && 0 <= *s && *s <= 255 {
                Some((*p as u8, *s as u8))
            } else {
                None
            }
        },
        _ => None,
    }
}

fn seed(scalars: &Vec<Scalar>) -> (r: Option<i32>)
    ensures
        r == seed_of(scalars_view(scalars@)),
{
    if scalars.len() != 1 {
        return None;
    }
    assert(scalars_view(scalars@)[0] == scalars[0]@);
    match &scalars[0] {
        Scalar::Int(v) => {
            if -0x8000_0000 <= *v && *v <= 0x7fff_ffff {
                Some(*v as i32)
            } else {
                None
            }
        },
        _ => None,
    }
}

fn text(scalars: &Vec<Scalar>) -> (r: Option<&str>)
    ensures
        match text_of(scalars_view(scalars@)) {
            Some(t) => (r matches Some(s) && s@ == t),
            None => r is None,
        },
{
    if scalars.len() != 1 {
        return None;
    }
    assert(scalars_view(scalars@)[0] == scalars[0]@);
    match &scalars[0] {
        Scalar::Utf8(s) => Some(s.as_str()),
        _ => None,
    }
}

impl SparkExtFunction {
    /// How many scalar arguments the entry takes.
    pub open spec fn scalar_count_spec(self) -> nat {
        match self {
            SparkExtFunction::MakeDecimal | SparkExtFunction::CheckOverflow => 2,
            SparkExtFunction::Murmur3Hash
            | SparkExtFunction::GetJsonObject
            | SparkExtFunction::GetParsedJsonObject
            | SparkExtFunction::StringSplit
            | SparkExtFunction::StringConcatWs => 1,
            _ => 0,
        }
    }

    /// How many scalar arguments the entry takes.
    pub fn scalar_count(&self) -> (n: usize)
        ensures
            n == self.scalar_count_spec(),
    {
        match self {
            SparkExtFunction::MakeDecimal | SparkExtFunction::CheckOverflow => 2,
            SparkExtFunction::Murmur3Hash
            | SparkExtFunction::GetJsonObject
            | SparkExtFunction::GetParsedJsonObject
            | SparkExtFunction::StringSplit
            | SparkExtFunction::StringConcatWs => 1,
            _ => 0,
        }
    }

    /// Whether the scalar arguments are written before the columns, as the
    /// separator of `StringConcatWs` is, and not after them.
    pub fn scalars_lead(&self) -> (r: bool)
        ensures
            r == (*self == SparkExtFunction::StringConcatWs),
    {
        match self {
            SparkExtFunction::StringConcatWs => true,
            _ => false,
        }
    }

    /// Invokes the entry on one batch: the input columns, the scalar
    /// arguments, and the policy on decimal overflow.
    pub fn invoke(
        &self,
        columns: &Vec<Column>,
        scalars: &Vec<Scalar>,
        policy: OverflowPolicy,
    ) -> (r: Result<Column, ExtFunctionError>)
        ensures
            result_view(r) == invoke_model(
                *self,
                columns_view(columns@),
                scalars_view(scalars@),
                policy,
            ),
    {
        let one: bool = columns.len() == 1;
        let bare: bool = scalars.len() == 0;
        proof {
            if columns.len() > 0 {
                assert(columns_view(columns@)[0] == columns[0]@);
            }
            if columns.len() > 1 {
                assert(columns_view(columns@)[1] == columns[1]@);
            }
        }
        match self {
            SparkExtFunction::Placeholder => Err(ExtFunctionError::InvariantViolation),
            SparkExtFunction::NullIfZero => {
                if one && bare {
                    spark_null_if_zero(&columns[0])
                } else {
                    Err(ExtFunctionError::InvalidArguments)
                }
            },
            SparkExtFunction::UnscaledValue => {
                if one && bare {
                    spark_unscaled_value(&columns[0], policy)
                } else {
                    Err(ExtFunctionError::InvalidArguments)
                }
            },
            SparkExtFunction::MakeDecimal => match decimal_type(scalars) {
                Some((p, s)) => {
                    if one {
                        spark_make_decimal(&columns[0], p, s, policy)
                    } else {
                        Err(ExtFunctionError::InvalidArguments)
                    }
                },
                None => Err(ExtFunctionError::InvalidArguments),
            },
            SparkExtFunction::CheckOverflow => match decimal_type(scalars) {
                Some((p, s)) => {
                    if one {
                        spark_check_overflow(&columns[0], p, s, policy)
                    } else {
                        Err(ExtFunctionError::InvalidArguments)
                    }
                },
                None => Err(ExtFunctionError::InvalidArguments),
            },
            SparkExtFunction::Murmur3Hash => match seed(scalars) {
                Some(seed) => spark_murmur3_hash(columns, seed),
                None => Err(ExtFunctionError::InvalidArguments),
            },
            SparkExtFunction::GetJsonObject => match text(scalars) {
                Some(path) => {
                    if one {
                        spark_get_json_object(&columns[0], path)
                    } else {
                        Err(ExtFunctionError::InvalidArguments)
                    }
                },
                None => Err(ExtFunctionError::InvalidArguments),
            },
            SparkExtFunction::GetParsedJsonObject => match text(scalars) {
                Some(path) => {
                    if one {
                        spark_get_parsed_json_object(&columns[0], path)
                    } else {
                        Err(ExtFunctionError::InvalidArguments)
                    }
                },
                None => Err(ExtFunctionError::InvalidArguments),
            },
            SparkExtFunction::ParseJson => {
                if one && bare {
                    spark_parse_json(&columns[0])
                } else {
                    Err(ExtFunctionError::InvalidArguments)
                }
            },
            SparkExtFunction::MakeArray => {
                if bare {
                    array(columns)
                } else {
                    Err(ExtFunctionError::InvalidArguments)
                }
            },
            SparkExtFunction::StringSpace => {
                if one && bare {
                    string_space(&columns[0])
                } else {
                    Err(ExtFunctionError::InvalidArguments)
                }
            },
            SparkExtFunction::StringRepeat => {
                if columns.len() == 2 && bare {
                    string_repeat(&columns[0], &columns[1])
                } else {
                    Err(ExtFunctionError::InvalidArguments)
                }
            },
            SparkExtFunction::StringSplit => match text(scalars) {
                Some(d) => {
                    if one {
                        string_split(&columns[0], d)
                    } else {
                        Err(ExtFunctionError::InvalidArguments)
                    }
                },
                None => Err(ExtFunctionError::InvalidArguments),
            },
            SparkExtFunction::StringConcat => {
                if bare {
                    string_concat(columns)
                } else {
                    Err(ExtFunctionError::InvalidArguments)
                }
            },
            SparkExtFunction::StringConcatWs => match text(scalars) {
                Some(sep) => string_concat_ws(sep, columns),
                None => Err(ExtFunctionError::InvalidArguments),
            },
            SparkExtFunction::StringLower => {
                if one && bare {
                    string_lower(&columns[0])
                } else {
                    Err(ExtFunctionError::InvalidArguments)
                }
            },
            SparkExtFunction::StringUpper => {
                if one && bare {
                    string_upper(&columns[0])
                } else {
                    Err(ExtFunctionError::InvalidArguments)
                }
            },
        }
    }
}

/// Invoking the placeholder fails with an invariant violation whatever it
/// is given, and no other entry ever fails so: the failure cannot be taken
/// for another, nor for a result.
pub proof fn lemma_placeholder_fails_distinctly(
    f: SparkExtFunction,
    cols: Seq<ColumnModel>,
    scalars: Seq<ScalarModel>,
    policy: OverflowPolicy,
)
    ensures
        invoke_model(f, cols, scalars, policy) == Err::<ColumnModel, ExtFunctionError>(
            ExtFunctionError::InvariantViolation,
        ) <==> f == SparkExtFunction::Placeholder,
{
}

/// An entry other than the placeholder refuses any number of scalar
/// arguments but its own.
pub proof fn lemma_scalar_count_is_required(
    f: SparkExtFunction,
    cols: Seq<ColumnModel>,
    scalars: Seq<ScalarModel>,
    policy: OverflowPolicy,
)
    requires
        f != SparkExtFunction::Placeholder,
        scalars.len() != f.scalar_count_spec(),
    ensures
        invoke_model(f, cols, scalars, policy) == Err::<ColumnModel, ExtFunctionError>(
            ExtFunctionError::InvalidArguments,
        ),
{
}

/// Invoked on well-formed columns, every entry gives a well-formed
/// column: integers within their width, decimals within their precision,
/// in the column itself and in each array of a column of arrays.
pub proof fn lemma_invoke_keeps_columns_well_formed(
    f: SparkExtFunction,
    cols: Seq<ColumnModel>,
    scalars: Seq<ScalarModel>,
    policy: OverflowPolicy,
)
    requires
        forall|c: int| 0 <= c < cols.len() ==> (#[trigger] cols[c]).well_formed(),
    ensures
        invoke_model(f, cols, scalars, policy) matches Ok(out) ==> out.well_formed(),
{
    if cols.len() > 0 {
        assert(cols[0].well_formed());
    }
    match f {
        SparkExtFunction::NullIfZero => {
            if cols.len() == 1 {
                crate::spark_null_if_zero::lemma_null_if_zero_keeps_well_formed(cols[0]);
            }
        },
        SparkExtFunction::MakeArray => {
            crate::spark_make_array::lemma_arrays_are_well_formed(cols);
        },
        _ => {},
    }
}

/// No invocation fails as unimplemented: that failure belongs to the
/// lookup alone.
pub proof fn lemma_invoke_is_never_unimplemented(
    f: SparkExtFunction,
    cols: Seq<ColumnModel>,
    scalars: Seq<ScalarModel>,
    policy: OverflowPolicy,
)
    ensures
        !(invoke_model(f, cols, scalars, policy) matches Err(ExtFunctionError::Unimplemented(_))),
{
}

} // verus!
