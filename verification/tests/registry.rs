use datafusion_ext_functions::column::{Column, IntWidth, Scalar};
use datafusion_ext_functions::decimal::OverflowPolicy;
use datafusion_ext_functions::error::ExtFunctionError;
use datafusion_ext_functions::json::value::JsonValue;
use datafusion_ext_functions::registry::{catalogue, create_spark_ext_function, SparkExtFunction};

const CATALOGUE: [(&str, SparkExtFunction); 17] = [
    ("Placeholder", SparkExtFunction::Placeholder),
    ("NullIfZero", SparkExtFunction::NullIfZero),
    ("UnscaledValue", SparkExtFunction::UnscaledValue),
    ("MakeDecimal", SparkExtFunction::MakeDecimal),
    ("CheckOverflow", SparkExtFunction::CheckOverflow),
    ("Murmur3Hash", SparkExtFunction::Murmur3Hash),
    ("GetJsonObject", SparkExtFunction::GetJsonObject),
    ("GetParsedJsonObject", SparkExtFunction::GetParsedJsonObject),
    ("ParseJson", SparkExtFunction::ParseJson),
    ("MakeArray", SparkExtFunction::MakeArray),
    ("StringSpace", SparkExtFunction::StringSpace),
    ("StringRepeat", SparkExtFunction::StringRepeat),
    ("StringSplit", SparkExtFunction::StringSplit),
    ("StringConcat", SparkExtFunction::StringConcat),
    ("StringConcatWs", SparkExtFunction::StringConcatWs),
    ("StringLower", SparkExtFunction::StringLower),
    ("StringUpper", SparkExtFunction::StringUpper),
];

const REFUSED: Result<Column, ExtFunctionError> = Err(ExtFunctionError::InvalidArguments);

fn ints(width: IntWidth, values: Vec<Option<i64>>) -> Column {
    Column::Int { width, values }
}

fn texts(values: &[Option<&str>]) -> Column {
    Column::Utf8(values.iter().map(|v| v.map(|s| s.to_string())).collect())
}

fn word(s: &str) -> Scalar {
    Scalar::Utf8(s.to_string())
}

#[test]
fn every_catalogue_name_resolves_to_its_entry() {
    for (name, entry) in CATALOGUE {
        assert_eq!(create_spark_ext_function(name), Ok(entry));
        assert_eq!(entry.name(), name);
    }
}

#[test]
fn the_catalogue_lists_every_entry_once() {
    let all = catalogue();
    assert_eq!(all.len(), 17);
    for (_, entry) in CATALOGUE {
        assert_eq!(all.iter().filter(|e| **e == entry).count(), 1);
    }
    for entry in all {
        assert_eq!(create_spark_ext_function(entry.name()), Ok(entry));
        assert_eq!(
            entry.scalar_count(),
            match entry {
                SparkExtFunction::MakeDecimal | SparkExtFunction::CheckOverflow => 2,
                SparkExtFunction::Murmur3Hash
                | SparkExtFunction::GetJsonObject
                | SparkExtFunction::GetParsedJsonObject
                | SparkExtFunction::StringSplit
                | SparkExtFunction::StringConcatWs => 1,
                _ => 0,
            }
        );
        assert_eq!(entry.scalars_lead(), entry == SparkExtFunction::StringConcatWs);
    }
}

#[test]
fn other_names_are_unimplemented() {
    for name in [
        "", " ", "nullifzero", "NULLIFZERO", "NullIfZero ", " NullIfZero", "NullIfZer", "NullIfZeroo",
        "placeholder", "Murmur3hash", "StringConcatWS", "Unknown", "StringLower\0", "Null\u{ef}fZero",
    ] {
        assert_eq!(
            create_spark_ext_function(name),
            Err(ExtFunctionError::Unimplemented(name.to_string())),
            "{:?}",
            name
        );
    }
}

#[test]
fn errors_have_their_own_messages() {
    assert_eq!(
        create_spark_ext_function("Nope").unwrap_err().message(),
        "spark ext function not implemented: Nope"
    );
    assert_eq!(ExtFunctionError::ArithmeticOverflow.message(), "arithmetic overflow");
    assert_eq!(
        ExtFunctionError::InvariantViolation.message(),
        "placeholder() should never be called"
    );
    assert_eq!(ExtFunctionError::InvalidArguments.message(), "invalid arguments");
}

#[test]
fn the_placeholder_always_fails_as_an_invariant_violation() {
    let f = create_spark_ext_function("Placeholder").unwrap();
    let violation = Err(ExtFunctionError::InvariantViolation);
    for policy in [OverflowPolicy::Strict, OverflowPolicy::Lenient] {
        assert_eq!(f.invoke(&vec![], &vec![], policy), violation);
        assert_eq!(f.invoke(&vec![ints(IntWidth::W32, vec![Some(1)])], &vec![], policy), violation);
        assert_eq!(
            f.invoke(&vec![texts(&[None])], &vec![Scalar::Int(1), word("x")], policy),
            violation
        );
    }
}

#[test]
fn no_other_entry_fails_as_the_placeholder_does() {
    let shapes: Vec<(Vec<Column>, Vec<Scalar>)> = vec![
        (vec![], vec![]),
        (vec![ints(IntWidth::W32, vec![Some(0)])], vec![]),
        (vec![texts(&[Some("a")])], vec![word("$")]),
        (vec![texts(&[Some("a")]), ints(IntWidth::W32, vec![Some(2)])], vec![]),
        (vec![ints(IntWidth::W64, vec![Some(1)])], vec![Scalar::Int(5), Scalar::Int(2)]),
        (vec![ints(IntWidth::W64, vec![Some(1)])], vec![Scalar::Int(42)]),
    ];
    for (_, entry) in CATALOGUE {
        if entry == SparkExtFunction::Placeholder {
            continue;
        }
        for (columns, scalars) in &shapes {
            for policy in [OverflowPolicy::Strict, OverflowPolicy::Lenient] {
                let out = entry.invoke(columns, scalars, policy);
                assert_ne!(out, Err(ExtFunctionError::InvariantViolation));
                assert!(!matches!(out, Err(ExtFunctionError::Unimplemented(_))));
            }
        }
    }
}

#[test]
fn invoke_hands_the_arguments_to_the_function() {
    let strict = OverflowPolicy::Strict;
    let lenient = OverflowPolicy::Lenient;
    let call = |name: &str, columns: Vec<Column>, scalars: Vec<Scalar>, policy: OverflowPolicy| {
        create_spark_ext_function(name).unwrap().invoke(&columns, &scalars, policy)
    };
    assert_eq!(
        call("NullIfZero", vec![ints(IntWidth::W32, vec![Some(0), Some(5), None])], vec![], strict),
        Ok(ints(IntWidth::W32, vec![None, Some(5), None]))
    );
    let made = call(
        "MakeDecimal",
        vec![ints(IntWidth::W64, vec![Some(12345)])],
        vec![Scalar::Int(10), Scalar::Int(2)],
        strict,
    );
    assert_eq!(
        made,
        Ok(Column::Decimal { precision: 10, scale: 2, values: vec![Some(12345)] })
    );
    assert_eq!(
        call("UnscaledValue", vec![made.unwrap()], vec![], strict),
        Ok(ints(IntWidth::W64, vec![Some(12345)]))
    );
    let wide = || Column::Decimal { precision: 10, scale: 2, values: vec![Some(12_345_678)] };
    let target = vec![Scalar::Int(5), Scalar::Int(2)];
    assert_eq!(
        call("CheckOverflow", vec![wide()], target.clone(), strict),
        Err(ExtFunctionError::ArithmeticOverflow)
    );
    assert_eq!(
        call("CheckOverflow", vec![wide()], target, lenient),
        Ok(Column::Decimal { precision: 5, scale: 2, values: vec![None] })
    );
    assert_eq!(
        call("Murmur3Hash", vec![ints(IntWidth::W32, vec![Some(1)])], vec![Scalar::Int(42)], strict),
        Ok(ints(IntWidth::W32, vec![Some(0xdea578e3u32 as i32 as i64)]))
    );
    assert_eq!(
        call("GetJsonObject", vec![texts(&[Some("{\"a\":1}"), Some("not json")])], vec![word("$.a")], strict),
        Ok(texts(&[Some("1"), None]))
    );
    let parsed = call("ParseJson", vec![texts(&[Some("{\"a\":true}")])], vec![], strict);
    assert_eq!(
        call("GetParsedJsonObject", vec![parsed.unwrap()], vec![word("$.a")], strict),
        Ok(Column::Json(vec![Some(JsonValue::Bool(true))]))
    );
    assert_eq!(
        call(
            "MakeArray",
            vec![ints(IntWidth::W32, vec![Some(1), None]), ints(IntWidth::W32, vec![Some(2), Some(3)])],
            vec![],
            strict
        ),
        Ok(Column::List(vec![
            Some(ints(IntWidth::W32, vec![Some(1), Some(2)])),
            Some(ints(IntWidth::W32, vec![None, Some(3)])),
        ]))
    );
    assert_eq!(
        call("StringSpace", vec![ints(IntWidth::W32, vec![Some(2)])], vec![], strict),
        Ok(texts(&[Some("  ")]))
    );
    assert_eq!(
        call(
            "StringRepeat",
            vec![texts(&[Some("ab")]), ints(IntWidth::W32, vec![Some(2)])],
            vec![],
            strict
        ),
        Ok(texts(&[Some("abab")]))
    );
    assert_eq!(
        call("StringSplit", vec![texts(&[Some("a,,b")])], vec![word(",")], strict),
        Ok(Column::List(vec![Some(texts(&[Some("a"), Some(""), Some("b")]))]))
    );
    let abc = || vec![texts(&[Some("a")]), texts(&[None]), texts(&[Some("b")])];
    assert_eq!(call("StringConcat", abc(), vec![], strict), Ok(texts(&[None])));
    assert_eq!(
        call("StringConcatWs", abc(), vec![word(",")], strict),
        Ok(texts(&[Some("a,b")]))
    );
    assert_eq!(
        call("StringLower", vec![texts(&[Some("AbC")])], vec![], strict),
        Ok(texts(&[Some("abc")]))
    );
    assert_eq!(
        call("StringUpper", vec![texts(&[Some("AbC")])], vec![], strict),
        Ok(texts(&[Some("ABC")]))
    );
}

#[test]
fn invoke_refuses_other_shapes() {
    let strict = OverflowPolicy::Strict;
    let call = |entry: SparkExtFunction, columns: Vec<Column>, scalars: Vec<Scalar>| {
        entry.invoke(&columns, &scalars, strict)
    };
    let one_int = || vec![ints(IntWidth::W32, vec![Some(1)])];
    let one_text = || vec![texts(&[Some("a")])];
    assert_eq!(call(SparkExtFunction::NullIfZero, vec![], vec![]), REFUSED);
    assert_eq!(call(SparkExtFunction::NullIfZero, one_int(), vec![Scalar::Int(1)]), REFUSED);
    assert_eq!(call(SparkExtFunction::UnscaledValue, one_int(), vec![]), REFUSED);
    assert_eq!(call(SparkExtFunction::MakeDecimal, one_int(), vec![]), REFUSED);
    assert_eq!(call(SparkExtFunction::MakeDecimal, one_int(), vec![Scalar::Int(5)]), REFUSED);
    assert_eq!(
        call(SparkExtFunction::MakeDecimal, one_int(), vec![Scalar::Int(256), Scalar::Int(0)]),
        REFUSED
    );
    assert_eq!(
        call(SparkExtFunction::MakeDecimal, one_int(), vec![Scalar::Int(5), Scalar::Int(-1)]),
        REFUSED
    );
    assert_eq!(
        call(SparkExtFunction::MakeDecimal, one_int(), vec![Scalar::Int(5), word("2")]),
        REFUSED
    );
    assert_eq!(
        call(SparkExtFunction::MakeDecimal, vec![], vec![Scalar::Int(5), Scalar::Int(2)]),
        REFUSED
    );
    assert_eq!(
        call(SparkExtFunction::CheckOverflow, one_int(), vec![Scalar::Int(5), Scalar::Int(2)]),
        REFUSED
    );
    assert_eq!(call(SparkExtFunction::Murmur3Hash, one_int(), vec![]), REFUSED);
    assert_eq!(
        call(SparkExtFunction::Murmur3Hash, one_int(), vec![Scalar::Int(0x8000_0000)]),
        REFUSED
    );
    assert_eq!(call(SparkExtFunction::Murmur3Hash, one_int(), vec![word("42")]), REFUSED);
    assert_eq!(call(SparkExtFunction::Murmur3Hash, vec![], vec![Scalar::Int(42)]), REFUSED);
    assert_eq!(call(SparkExtFunction::GetJsonObject, one_text(), vec![]), REFUSED);
    assert_eq!(call(SparkExtFunction::GetJsonObject, one_text(), vec![Scalar::Int(1)]), REFUSED);
    assert_eq!(call(SparkExtFunction::GetJsonObject, vec![], vec![word("$")]), REFUSED);
    assert_eq!(call(SparkExtFunction::GetParsedJsonObject, one_text(), vec![word("$")]), REFUSED);
    assert_eq!(call(SparkExtFunction::ParseJson, one_int(), vec![]), REFUSED);
    assert_eq!(call(SparkExtFunction::MakeArray, one_int(), vec![Scalar::Int(1)]), REFUSED);
    assert_eq!(call(SparkExtFunction::StringSpace, one_text(), vec![]), REFUSED);
    assert_eq!(call(SparkExtFunction::StringRepeat, one_text(), vec![]), REFUSED);
    assert_eq!(call(SparkExtFunction::StringSplit, one_text(), vec![]), REFUSED);
    assert_eq!(call(SparkExtFunction::StringConcat, one_text(), vec![word(",")]), REFUSED);
    assert_eq!(call(SparkExtFunction::StringConcatWs, one_text(), vec![]), REFUSED);
    assert_eq!(call(SparkExtFunction::StringLower, one_int(), vec![]), REFUSED);
    assert_eq!(call(SparkExtFunction::StringUpper, vec![], vec![]), REFUSED);
}
