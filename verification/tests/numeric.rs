use datafusion_ext_functions::column::{Column, IntWidth};
use datafusion_ext_functions::decimal::{fits_in, pow10_of, rescale_checked, OverflowPolicy};
use datafusion_ext_functions::error::ExtFunctionError;
use datafusion_ext_functions::spark_check_overflow::spark_check_overflow;
use datafusion_ext_functions::spark_make_decimal::spark_make_decimal;
use datafusion_ext_functions::spark_null_if_zero::spark_null_if_zero;
use datafusion_ext_functions::spark_unscaled_value::spark_unscaled_value;

fn ints(width: IntWidth, values: Vec<Option<i64>>) -> Column {
    Column::Int { width, values }
}

fn decimals(precision: u8, scale: u8, values: Vec<Option<i128>>) -> Column {
    Column::Decimal { precision, scale, values }
}

const REFUSED: Result<Column, ExtFunctionError> = Err(ExtFunctionError::InvalidArguments);
const OVERFLOW: Result<Column, ExtFunctionError> = Err(ExtFunctionError::ArithmeticOverflow);

#[test]
fn null_if_zero_on_integers() {
    assert_eq!(
        spark_null_if_zero(&ints(IntWidth::W32, vec![Some(0), Some(5), None])),
        Ok(ints(IntWidth::W32, vec![None, Some(5), None]))
    );
    assert_eq!(
        spark_null_if_zero(&ints(IntWidth::W8, vec![Some(-1), Some(0), Some(i64::MIN)])),
        Ok(ints(IntWidth::W8, vec![Some(-1), None, Some(i64::MIN)]))
    );
    assert_eq!(
        spark_null_if_zero(&ints(IntWidth::W64, vec![])),
        Ok(ints(IntWidth::W64, vec![]))
    );
}

#[test]
fn null_if_zero_on_decimals_keeps_the_type() {
    assert_eq!(
        spark_null_if_zero(&decimals(10, 2, vec![Some(0), Some(500), None, Some(-1)])),
        Ok(decimals(10, 2, vec![None, Some(500), None, Some(-1)]))
    );
}

#[test]
fn null_if_zero_refuses_other_columns() {
    assert_eq!(spark_null_if_zero(&Column::Utf8(vec![Some("0".to_string())])), REFUSED);
    assert_eq!(spark_null_if_zero(&Column::Json(vec![])), REFUSED);
    assert_eq!(spark_null_if_zero(&Column::List(vec![])), REFUSED);
}

#[test]
fn unscaled_value_of_made_decimal_is_the_integer() {
    let made = spark_make_decimal(
        &ints(IntWidth::W64, vec![Some(12345)]),
        10,
        2,
        OverflowPolicy::Strict,
    );
    assert_eq!(made, Ok(decimals(10, 2, vec![Some(12345)])));
    assert_eq!(
        spark_unscaled_value(&made.unwrap(), OverflowPolicy::Strict),
        Ok(ints(IntWidth::W64, vec![Some(12345)]))
    );
}

#[test]
fn make_decimal_round_trips_a_column() {
    let values = vec![Some(0), None, Some(-999_999), Some(999_999), Some(1)];
    for policy in [OverflowPolicy::Strict, OverflowPolicy::Lenient] {
        let made = spark_make_decimal(&ints(IntWidth::W32, values.clone()), 6, 3, policy).unwrap();
        assert_eq!(
            spark_unscaled_value(&made, policy),
            Ok(ints(IntWidth::W64, values.clone()))
        );
    }
}

#[test]
fn make_decimal_overflow_follows_the_policy() {
    let col = ints(IntWidth::W64, vec![Some(99_999), Some(100_000), None, Some(-100_000), Some(-99_999)]);
    assert_eq!(spark_make_decimal(&col, 5, 0, OverflowPolicy::Strict), OVERFLOW);
    assert_eq!(
        spark_make_decimal(&col, 5, 0, OverflowPolicy::Lenient),
        Ok(decimals(5, 0, vec![Some(99_999), None, None, None, Some(-99_999)]))
    );
    assert_eq!(
        spark_make_decimal(&col, 6, 6, OverflowPolicy::Strict),
        Ok(decimals(
            6,
            6,
            vec![Some(99_999), Some(100_000), None, Some(-100_000), Some(-99_999)]
        ))
    );
    assert_eq!(
        spark_make_decimal(&ints(IntWidth::W64, vec![Some(i64::MIN), Some(i64::MAX)]), 38, 0, OverflowPolicy::Strict),
        Ok(decimals(38, 0, vec![Some(i64::MIN as i128), Some(i64::MAX as i128)]))
    );
}

#[test]
fn make_decimal_refuses_bad_types_and_columns() {
    let col = ints(IntWidth::W64, vec![Some(1)]);
    for (p, s) in [(0u8, 0u8), (39, 0), (5, 6), (255, 255), (0, 1)] {
        assert_eq!(spark_make_decimal(&col, p, s, OverflowPolicy::Lenient), REFUSED);
    }
    assert_eq!(
        spark_make_decimal(&decimals(5, 0, vec![]), 5, 0, OverflowPolicy::Strict),
        REFUSED
    );
    assert_eq!(
        spark_make_decimal(&Column::Utf8(vec![]), 5, 0, OverflowPolicy::Strict),
        REFUSED
    );
}

#[test]
fn the_default_policy_signals_overflow() {
    assert_eq!(OverflowPolicy::default(), OverflowPolicy::Strict);
}

#[test]
fn check_overflow_rejects_or_nulls_what_does_not_fit() {
    let col = decimals(10, 2, vec![Some(12_345_678), Some(99_999), None]);
    assert_eq!(spark_check_overflow(&col, 5, 2, OverflowPolicy::Strict), OVERFLOW);
    assert_eq!(
        spark_check_overflow(&col, 5, 2, OverflowPolicy::Lenient),
        Ok(decimals(5, 2, vec![None, Some(99_999), None]))
    );
    assert_eq!(
        spark_check_overflow(&col, 8, 2, OverflowPolicy::Strict),
        Ok(decimals(8, 2, vec![Some(12_345_678), Some(99_999), None]))
    );
}

#[test]
fn check_overflow_rescales_with_rounding_half_up() {
    let col = decimals(
        10,
        2,
        vec![Some(12_345), Some(-12_345), Some(12_344), Some(-12_344), Some(5), Some(-5), Some(4), Some(0)],
    );
    assert_eq!(
        spark_check_overflow(&col, 10, 1, OverflowPolicy::Strict),
        Ok(decimals(
            10,
            1,
            vec![Some(1_235), Some(-1_235), Some(1_234), Some(-1_234), Some(1), Some(-1), Some(0), Some(0)]
        ))
    );
    assert_eq!(
        spark_check_overflow(&col, 10, 4, OverflowPolicy::Strict),
        Ok(decimals(
            10,
            4,
            vec![
                Some(1_234_500),
                Some(-1_234_500),
                Some(1_234_400),
                Some(-1_234_400),
                Some(500),
                Some(-500),
                Some(400),
                Some(0)
            ]
        ))
    );
    assert_eq!(
        spark_check_overflow(&col, 3, 0, OverflowPolicy::Strict),
        Ok(decimals(
            3,
            0,
            vec![Some(123), Some(-123), Some(123), Some(-123), Some(0), Some(0), Some(0), Some(0)]
        ))
    );
}

#[test]
fn check_overflow_rounding_can_overflow() {
    let col = decimals(5, 1, vec![Some(9_995)]);
    assert_eq!(spark_check_overflow(&col, 3, 0, OverflowPolicy::Strict), OVERFLOW);
    assert_eq!(
        spark_check_overflow(&col, 4, 0, OverflowPolicy::Strict),
        Ok(decimals(4, 0, vec![Some(1_000)]))
    );
    let up = decimals(3, 0, vec![Some(10)]);
    assert_eq!(spark_check_overflow(&up, 3, 2, OverflowPolicy::Strict), OVERFLOW);
    assert_eq!(
        spark_check_overflow(&up, 3, 2, OverflowPolicy::Lenient),
        Ok(decimals(3, 2, vec![None]))
    );
    assert_eq!(
        spark_check_overflow(&up, 4, 2, OverflowPolicy::Strict),
        Ok(decimals(4, 2, vec![Some(1_000)]))
    );
}

#[test]
fn check_overflow_refuses_bad_types_and_columns() {
    assert_eq!(
        spark_check_overflow(&ints(IntWidth::W64, vec![]), 5, 2, OverflowPolicy::Strict),
        REFUSED
    );
    assert_eq!(
        spark_check_overflow(&decimals(5, 2, vec![]), 0, 0, OverflowPolicy::Strict),
        REFUSED
    );
    assert_eq!(
        spark_check_overflow(&decimals(5, 2, vec![]), 39, 2, OverflowPolicy::Strict),
        REFUSED
    );
    assert_eq!(
        spark_check_overflow(&decimals(5, 2, vec![]), 5, 6, OverflowPolicy::Strict),
        REFUSED
    );
    assert_eq!(
        spark_check_overflow(&decimals(40, 2, vec![]), 5, 2, OverflowPolicy::Strict),
        REFUSED
    );
    assert_eq!(
        spark_check_overflow(&decimals(5, 6, vec![]), 5, 2, OverflowPolicy::Strict),
        REFUSED
    );
}

#[test]
fn unscaled_value_beyond_64_bits_follows_the_policy() {
    let big = i64::MAX as i128 + 1;
    let small = i64::MIN as i128 - 1;
    let col = decimals(38, 0, vec![Some(big), Some(i64::MAX as i128), None, Some(small), Some(i64::MIN as i128)]);
    assert_eq!(spark_unscaled_value(&col, OverflowPolicy::Strict), OVERFLOW);
    assert_eq!(
        spark_unscaled_value(&col, OverflowPolicy::Lenient),
        Ok(ints(IntWidth::W64, vec![None, Some(i64::MAX), None, None, Some(i64::MIN)]))
    );
    assert_eq!(
        spark_unscaled_value(&ints(IntWidth::W64, vec![]), OverflowPolicy::Lenient),
        REFUSED
    );
}

#[test]
fn well_formed_columns_hold_what_their_type_allows() {
    assert!(ints(IntWidth::W8, vec![Some(127), Some(-128), None]).is_well_formed());
    assert!(!ints(IntWidth::W8, vec![Some(128)]).is_well_formed());
    assert!(!ints(IntWidth::W16, vec![Some(-32769)]).is_well_formed());
    assert!(ints(IntWidth::W32, vec![Some(i32::MIN as i64), Some(i32::MAX as i64)]).is_well_formed());
    assert!(!ints(IntWidth::W32, vec![None, Some(i32::MAX as i64 + 1)]).is_well_formed());
    assert!(ints(IntWidth::W64, vec![Some(i64::MIN), Some(i64::MAX)]).is_well_formed());
    assert!(decimals(3, 1, vec![Some(999), Some(-999), None]).is_well_formed());
    assert!(!decimals(3, 1, vec![Some(1000)]).is_well_formed());
    assert!(!decimals(0, 0, vec![]).is_well_formed());
    assert!(!decimals(39, 0, vec![]).is_well_formed());
    assert!(!decimals(3, 4, vec![]).is_well_formed());
    assert!(Column::Utf8(vec![None]).is_well_formed());
    assert!(Column::Json(vec![]).is_well_formed());
    assert!(Column::List(vec![None, Some(ints(IntWidth::W8, vec![Some(1)]))]).is_well_formed());
    assert!(!Column::List(vec![Some(ints(IntWidth::W8, vec![Some(1000)]))]).is_well_formed());
    assert!(!Column::List(vec![Some(Column::List(vec![]))]).is_well_formed());
    assert_eq!(ints(IntWidth::W8, vec![None, None]).len(), 2);
    assert_eq!(Column::List(vec![None]).len(), 1);
    assert_eq!(IntWidth::W16.bytes(), 2);
    assert_eq!(IntWidth::W16.widest(IntWidth::W64), IntWidth::W64);
    assert_eq!(IntWidth::W32.widest(IntWidth::W8), IntWidth::W32);
}

#[test]
fn rescaling_agrees_with_plain_arithmetic() {
    for from in 0u8..4 {
        for to in 0u8..4 {
            for precision in 1u8..5 {
                for v in -2100i128..2100 {
                    let exact = if to >= from {
                        v * 10i128.pow((to - from) as u32)
                    } else {
                        let d = 10i128.pow((from - to) as u32);
                        let q = v.abs() / d;
                        let r = v.abs() % d;
                        let m = if 2 * r >= d { q + 1 } else { q };
                        if v < 0 { -m } else { m }
                    };
                    let expected =
                        if exact.abs() < 10i128.pow(precision as u32) { Some(exact) } else { None };
                    assert_eq!(
                        rescale_checked(v, from, to, precision),
                        expected,
                        "{} from {} to {} at {}",
                        v,
                        from,
                        to,
                        precision
                    );
                }
            }
        }
    }
}

#[test]
fn decimal_arithmetic_at_the_edges() {
    assert_eq!(pow10_of(0), 1);
    assert_eq!(pow10_of(38), 10u128.pow(38));
    assert!(fits_in(10i128.pow(38) - 1, 38));
    assert!(!fits_in(10i128.pow(38), 38));
    assert!(!fits_in(i128::MIN, 38));
    assert!(fits_in(0, 0));
    assert!(!fits_in(1, 0));
    assert_eq!(rescale_checked(i128::MAX, 38, 0, 38), Some(2));
    assert_eq!(rescale_checked(i128::MIN, 38, 0, 38), Some(-2));
    assert_eq!(rescale_checked(10i128.pow(37), 0, 1, 38), None);
    assert_eq!(rescale_checked(10i128.pow(36), 0, 1, 38), Some(10i128.pow(37)));
    assert_eq!(rescale_checked(0, 0, 38, 1), Some(0));
    assert_eq!(rescale_checked(1, 0, 38, 38), None);
    assert_eq!(rescale_checked(5, 1, 0, 38), Some(1));
    assert_eq!(rescale_checked(-5, 1, 0, 38), Some(-1));
    assert_eq!(rescale_checked(49, 2, 0, 38), Some(0));
    assert_eq!(rescale_checked(50, 2, 0, 38), Some(1));
    assert_eq!(rescale_checked(7, 3, 3, 1), Some(7));
    assert_eq!(rescale_checked(10, 3, 3, 1), None);
}
