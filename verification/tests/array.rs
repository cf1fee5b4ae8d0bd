use datafusion_ext_functions::column::{Column, IntWidth};
use datafusion_ext_functions::error::ExtFunctionError;
use datafusion_ext_functions::spark_make_array::array;

fn ints(width: IntWidth, values: Vec<Option<i64>>) -> Column {
    Column::Int { width, values }
}

fn texts(values: &[Option<&str>]) -> Column {
    Column::Utf8(values.iter().map(|v| v.map(|s| s.to_string())).collect())
}

const REFUSED: Result<Column, ExtFunctionError> = Err(ExtFunctionError::InvalidArguments);

#[test]
fn make_array_keeps_rows_and_nulls_elements() {
    let col1 = ints(IntWidth::W32, vec![Some(1), None]);
    let col2 = ints(IntWidth::W32, vec![Some(2), Some(3)]);
    assert_eq!(
        array(&vec![col1, col2]),
        Ok(Column::List(vec![
            Some(ints(IntWidth::W32, vec![Some(1), Some(2)])),
            Some(ints(IntWidth::W32, vec![None, Some(3)])),
        ]))
    );
}

#[test]
fn make_array_unifies_integer_widths() {
    let out = array(&vec![
        ints(IntWidth::W8, vec![Some(1)]),
        ints(IntWidth::W32, vec![Some(100_000)]),
        ints(IntWidth::W16, vec![None]),
    ]);
    assert_eq!(
        out,
        Ok(Column::List(vec![Some(ints(
            IntWidth::W32,
            vec![Some(1), Some(100_000), None]
        ))]))
    );
    assert_eq!(
        array(&vec![ints(IntWidth::W64, vec![Some(i64::MIN)]), ints(IntWidth::W8, vec![Some(0)])]),
        Ok(Column::List(vec![Some(ints(IntWidth::W64, vec![Some(i64::MIN), Some(0)]))]))
    );
    assert_eq!(
        array(&vec![ints(IntWidth::W8, vec![Some(5), Some(6)])]),
        Ok(Column::List(vec![
            Some(ints(IntWidth::W8, vec![Some(5)])),
            Some(ints(IntWidth::W8, vec![Some(6)])),
        ]))
    );
}

#[test]
fn make_array_of_strings_and_decimals() {
    assert_eq!(
        array(&vec![texts(&[Some("a"), None]), texts(&[None, None]), texts(&[Some("c"), Some("")])]),
        Ok(Column::List(vec![
            Some(texts(&[Some("a"), None, Some("c")])),
            Some(texts(&[None, None, Some("")])),
        ]))
    );
    let d = |values: Vec<Option<i128>>| Column::Decimal { precision: 10, scale: 2, values };
    assert_eq!(
        array(&vec![d(vec![Some(150), None]), d(vec![Some(-1), Some(i128::MAX)])]),
        Ok(Column::List(vec![
            Some(d(vec![Some(150), Some(-1)])),
            Some(d(vec![None, Some(i128::MAX)])),
        ]))
    );
}

#[test]
fn make_array_of_no_rows_is_empty() {
    assert_eq!(
        array(&vec![ints(IntWidth::W32, vec![]), ints(IntWidth::W64, vec![])]),
        Ok(Column::List(vec![]))
    );
}

#[test]
fn make_array_refuses_what_it_cannot_unify() {
    assert_eq!(array(&vec![]), REFUSED);
    assert_eq!(
        array(&vec![ints(IntWidth::W32, vec![Some(1)]), texts(&[Some("a")])]),
        REFUSED
    );
    assert_eq!(
        array(&vec![ints(IntWidth::W32, vec![Some(1)]), ints(IntWidth::W32, vec![])]),
        REFUSED
    );
    assert_eq!(
        array(&vec![
            Column::Decimal { precision: 10, scale: 2, values: vec![Some(1)] },
            Column::Decimal { precision: 10, scale: 3, values: vec![Some(1)] },
        ]),
        REFUSED
    );
    assert_eq!(
        array(&vec![
            Column::Decimal { precision: 10, scale: 2, values: vec![Some(1)] },
            ints(IntWidth::W64, vec![Some(1)]),
        ]),
        REFUSED
    );
    assert_eq!(array(&vec![Column::Json(vec![])]), REFUSED);
    assert_eq!(array(&vec![Column::List(vec![])]), REFUSED);
}
