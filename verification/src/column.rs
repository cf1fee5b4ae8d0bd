//! Columns: sequences of typed values, each present or null.

use crate::decimal::{fits, fits_in, valid_type};
use crate::error::ExtFunctionError;
use crate::json::value::{JsonModel, JsonValue};
use vstd::prelude::*;

verus! {

/// The width of the integers of a column.
#[derive(Debug, Clone, Copy, PartialEq, Eq, Structural)]
pub enum IntWidth {
    W8,
    W16,
    W32,
    W64,
}

impl IntWidth {
    /// The number of bytes of an integer of this width.
    pub open spec fn bytes_spec(self) -> nat {
        match self {
            IntWidth::W8 => 1,
            IntWidth::W16 => 2,
            IntWidth::W32 => 4,
            IntWidth::W64 => 8,
        }
    }

    /// The number of bytes of an integer of this width.
    pub fn bytes(&self) -> (n: usize)
        ensures
            n == self.bytes_spec(),
    {
        match self {
            IntWidth::W8 => 1,
            IntWidth::W16 => 2,
            IntWidth::W32 => 4,
            IntWidth::W64 => 8,
        }
    }

    /// The smallest integer of this width.
    pub open spec fn min_spec(self) -> int {
        match self {
            IntWidth::W8 => -0x80,
            IntWidth::W16 => -0x8000,
            IntWidth::W32 => -0x8000_0000,
            IntWidth::W64 => -0x8000_0000_0000_0000,
        }
    }

    /// The largest integer of this width.
    pub open spec fn max_spec(self) -> int {
        match self {
            IntWidth::W8 => 0x7f,
            IntWidth::W16 => 0x7fff,
            IntWidth::W32 => 0x7fff_ffff,
            IntWidth::W64 => 0x7fff_ffff_ffff_ffff,
        }
    }

    /// Whether an integer of this width can hold `v`.
    pub open spec fn holds(self, v: int) -> bool {
        self.min_spec() <= v <= self.max_spec()
    }

    /// Whether an integer of this width can hold `v`.
    pub fn can_hold(&self, v: i64) -> (r: bool)
        ensures
            r == self.holds(v as int),
    {
        match self {
            IntWidth::W8 => -0x80 <= v && v <= 0x7f,
            IntWidth::W16 => -0x8000 <= v && v <= 0x7fff,
            IntWidth::W32 => -0x8000_0000 <= v && v <= 0x7fff_ffff,
            IntWidth::W64 => true,
        }
    }

    /// The wider of two widths.
    pub open spec fn widest_spec(self, other: IntWidth) -> IntWidth {
        if self.bytes_spec() >= other.bytes_spec() {
            self
        } else {
            other
        }
    }

    /// The wider of two widths.
    pub fn widest(self, other: IntWidth) -> (w: IntWidth)
        ensures
            w == self.widest_spec(other),
    {
        if self.bytes() >= other.bytes() {
            self
        } else {
            other
        }
    }
}

/// A column of values, each present or null.
#[derive(Debug, PartialEq, Eq)]
pub enum Column {
    /// Integers of one width.
    Int { width: IntWidth, values: Vec<Option<i64>> },
    /// Decimals of one precision and scale, held as unscaled integers.
    Decimal { precision: u8, scale: u8, values: Vec<Option<i128>> },
    /// UTF-8 text.
    Utf8(Vec<Option<String>>),
    /// Parsed JSON values.
    Json(Vec<Option<JsonValue>>),
    /// Arrays: each row that is present is the column of its elements.
    List(Vec<Option<Column>>),
}

/// The mathematical value of a column.
#[verifier::ext_equal]
pub enum ColumnModel {
    Int { width: IntWidth, values: Seq<Option<int>> },
    Decimal { precision: nat, scale: nat, values: Seq<Option<int>> },
    Utf8(Seq<Option<Seq<char>>>),
    Json(Seq<Option<JsonModel>>),
    List(Seq<Option<ColumnModel>>),
}

/// The integers of a column of 64-bit integers.
pub open spec fn ints_view(values: Seq<Option<i64>>) -> Seq<Option<int>> {
    Seq::new(
        values.len(),
        |i: int|
            match values[i] {
                Some(v) => Some(v as int),
                None => None,
            },
    )
}

/// The integers of a column of 128-bit integers.
pub open spec fn wide_ints_view(values: Seq<Option<i128>>) -> Seq<Option<int>> {
    Seq::new(
        values.len(),
        |i: int|
            match values[i] {
                Some(v) => Some(v as int),
                None => None,
            },
    )
}

/// The texts of a column of strings.
pub open spec fn texts_view(values: Seq<Option<String>>) -> Seq<Option<Seq<char>>> {
    Seq::new(
        values.len(),
        |i: int|
            match values[i] {
                Some(s) => Some(s@),
                None => None,
            },
    )
}

/// The models of a column of JSON values.
pub open spec fn jsons_view(values: Seq<Option<JsonValue>>) -> Seq<Option<JsonModel>> {
    Seq::new(
        values.len(),
        |i: int|
            match values[i] {
                Some(v) => Some(v@),
                None => None,
            },
    )
}

impl View for Column {
    type V = ColumnModel;

    open spec fn view(&self) -> ColumnModel
        decreases self,
    {
        match self {
            Column::Int { width, values } => ColumnModel::Int {
                width: *width,
                values: ints_view(values@),
            },
            Column::Decimal { precision, scale, values } => ColumnModel::Decimal {
                precision: *precision as nat,
                scale: *scale as nat,
                values: wide_ints_view(values@),
            },
            Column::Utf8(values) => ColumnModel::Utf8(texts_view(values@)),
            Column::Json(values) => ColumnModel::Json(jsons_view(values@)),
            Column::List(rows) => ColumnModel::List(
                Seq::new(
                    rows@.len(),
                    |i: int|
                        if 0 <= i < rows@.len() {
                            row_view(rows@[i])
                        } else {
                            None
                        },
                ),
            ),
        }
    }
}

/// The model of one row of a column of arrays.
pub open spec fn row_view(row: Option<Column>) -> Option<ColumnModel>
    decreases row,
{
    match row {
        Some(elements) => Some(elements.view()),
        None => None,
    }
}

/// The models of the rows of a column of arrays.
pub open spec fn rows_view(rows: Seq<Option<Column>>) -> Seq<Option<ColumnModel>> {
    Seq::new(rows.len(), |i: int| row_view(rows[i]))
}

/// The view of a column of arrays is the sequence of its rows' views.
pub proof fn lemma_view_list(rows: Vec<Option<Column>>)
    ensures
        Column::List(rows)@ == ColumnModel::List(rows_view(rows@)),
{
    assert(Column::List(rows)@->List_0 =~= rows_view(rows@));
}

/// The models of a sequence of columns.
pub open spec fn columns_view(cols: Seq<Column>) -> Seq<ColumnModel> {
    Seq::new(cols.len(), |i: int| cols[i]@)
}

/// An argument that is one value for the whole batch.
#[derive(Debug, Clone, PartialEq, Eq)]
pub enum Scalar {
    Int(i64),
    Utf8(String),
}

/// The mathematical value of a scalar argument.
pub enum ScalarModel {
    Int(int),
    Utf8(Seq<char>),
}

impl View for Scalar {
    type V = ScalarModel;

    open spec fn view(&self) -> ScalarModel {
        match self {
            Scalar::Int(v) => ScalarModel::Int(*v as int),
            Scalar::Utf8(s) => ScalarModel::Utf8(s@),
        }
    }
}

/// The models of a sequence of scalar arguments.
pub open spec fn scalars_view(scalars: Seq<Scalar>) -> Seq<ScalarModel> {
    Seq::new(scalars.len(), |i: int| scalars[i]@)
}

/// The model of the outcome of a function on columns.
pub open spec fn result_view(r: Result<Column, ExtFunctionError>) -> Result<
    ColumnModel,
    ExtFunctionError,
> {
    match r {
        Ok(col) => Ok(col@),
        Err(e) => Err(e),
    }
}

/// Whether the values of a column that holds no arrays are what its type
/// allows: each integer within the column's width; a decimal column of a
/// valid type, each unscaled value within its precision.
pub open spec fn values_well_formed(col: ColumnModel) -> bool {
    match col {
        ColumnModel::Int { width, values } => forall|i: int|
            0 <= i < values.len() ==> ((#[trigger] values[i]) matches Some(v) ==> width.holds(v)),
        ColumnModel::Decimal { precision, scale, values } => valid_type(precision, scale)
            && forall|i: int|
            0 <= i < values.len() ==> ((#[trigger] values[i]) matches Some(v) ==> fits(
                v,
                precision,
            )),
        ColumnModel::Utf8(_) => true,
        ColumnModel::Json(_) => true,
        ColumnModel::List(_) => false,
    }
}

impl ColumnModel {
    /// Whether the column is well formed: its values are what its type
    /// allows, and those of each array of a column of arrays, whose
    /// elements are no arrays themselves.
    pub open spec fn well_formed(self) -> bool {
        match self {
            ColumnModel::List(rows) => forall|i: int|
                0 <= i < rows.len() ==> ((#[trigger] rows[i]) matches Some(row)
                    ==> values_well_formed(row)),
            _ => values_well_formed(self),
        }
    }

    /// The number of rows.
    pub open spec fn len(self) -> nat {
        match self {
            ColumnModel::Int { values, .. } => values.len(),
            ColumnModel::Decimal { values, .. } => values.len(),
            ColumnModel::Utf8(values) => values.len(),
            ColumnModel::Json(values) => values.len(),
            ColumnModel::List(rows) => rows.len(),
        }
    }

    /// Whether row `i` is null.
    pub open spec fn is_null(self, i: int) -> bool {
        match self {
            ColumnModel::Int { values, .. } => values[i] is None,
            ColumnModel::Decimal { values, .. } => values[i] is None,
            ColumnModel::Utf8(values) => values[i] is None,
            ColumnModel::Json(values) => values[i] is None,
            ColumnModel::List(rows) => rows[i] is None,
        }
    }
}

#[verifier::loop_isolation(false)]
fn values_are_well_formed(col: &Column) -> (r: bool)
    ensures
        r == values_well_formed(col@),
{
    match col {
        Column::Int { width, values } => {
            let mut i: usize = 0;
            while i < values.len()
                invariant
                    i <= values.len(),
                    forall|j: int|
                        0 <= j < i ==> ((#[trigger] ints_view(values@)[j]) matches Some(v)
                            ==> width.holds(v)),
                decreases values.len() - i,
            {
                match values[i] {
                    Some(v) => {
                        if !width.can_hold(v) {
                            assert(ints_view(values@)[i as int] == Some(v as int));
                            return false;
                        }
                    },
                    None => {},
                }
                i += 1;
            }
            true
        },
        Column::Decimal { precision, scale, values } => {
            if !(1 <= *precision && *precision <= 38 && *scale <= *precision) {
                return false;
            }
            let mut i: usize = 0;
            while i < values.len()
                invariant
                    i <= values.len(),
                    *precision <= 38,
                    forall|j: int|
                        0 <= j < i ==> ((#[trigger] wide_ints_view(values@)[j]) matches Some(v)
                            ==> fits(v, *precision as nat)),
                decreases values.len() - i,
            {
                match values[i] {
                    Some(v) => {
                        if !fits_in(v, *precision) {
                            assert(wide_ints_view(values@)[i as int] == Some(v as int));
                            return false;
                        }
                    },
                    None => {},
                }
                i += 1;
            }
            true
        },
        Column::Utf8(_) => true,
        Column::Json(_) => true,
        Column::List(_) => false,
    }
}

impl Column {
    /// Whether the column is well formed.
    #[verifier::loop_isolation(false)]
    pub fn is_well_formed(&self) -> (r: bool)
        ensures
            r == self@.well_formed(),
    {
        match self {
            Column::List(rows) => {
                proof {
                    lemma_view_list(*rows);
                }
                let mut i: usize = 0;
                while i < rows.len()
                    invariant
                        i <= rows.len(),
                        forall|j: int|
                            0 <= j < i ==> ((#[trigger] rows_view(rows@)[j]) matches Some(row)
                                ==> values_well_formed(row)),
                    decreases rows.len() - i,
                {
                    match &rows[i] {
                        Some(row) => {
                            if !values_are_well_formed(row) {
                                assert(rows_view(rows@)[i as int] == Some(row@));
                                return false;
                            }
                        },
                        None => {},
                    }
                    i += 1;
                }
                true
            },
            _ => values_are_well_formed(self),
        }
    }

    /// The number of rows.
    pub fn len(&self) -> (n: usize)
        ensures
            n == self@.len(),
    {
        match self {
            Column::Int { values, .. } => values.len(),
            Column::Decimal { values, .. } => values.len(),
            Column::Utf8(values) => values.len(),
            Column::Json(values) => values.len(),
            Column::List(rows) => {
                proof {
                    lemma_view_list(*rows);
                }
                rows.len()
            },
        }
    }
}

} // verus!
