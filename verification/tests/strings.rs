use datafusion_ext_functions::column::{Column, IntWidth};
use datafusion_ext_functions::error::ExtFunctionError;
use datafusion_ext_functions::spark_strings::{
    string_concat, string_concat_ws, string_lower, string_repeat, string_space, string_split,
    string_upper,
};
use datafusion_ext_functions::text::{chars_to_string, slice_chars, str_chars, str_equal};

fn texts(values: &[Option<&str>]) -> Column {
    Column::Utf8(values.iter().map(|v| v.map(|s| s.to_string())).collect())
}

fn counts(values: Vec<Option<i64>>) -> Column {
    Column::Int { width: IntWidth::W32, values }
}

fn pieces(values: &[&str]) -> Option<Column> {
    Some(Column::Utf8(values.iter().map(|s| Some(s.to_string())).collect()))
}

const REFUSED: Result<Column, ExtFunctionError> = Err(ExtFunctionError::InvalidArguments);

#[test]
fn concat_is_null_where_any_argument_is_null() {
    let cols = vec![texts(&[Some("a")]), texts(&[None]), texts(&[Some("b")])];
    assert_eq!(string_concat(&cols), Ok(texts(&[None])));
}

#[test]
fn concat_ws_skips_null_arguments() {
    let cols = vec![texts(&[Some("a")]), texts(&[None]), texts(&[Some("b")])];
    assert_eq!(string_concat_ws(",", &cols), Ok(texts(&[Some("a,b")])));
}

#[test]
fn concat_joins_rows_in_column_order() {
    let cols = vec![
        texts(&[Some("a"), Some(""), None, Some("x")]),
        texts(&[Some("b"), Some(""), Some("q"), Some("\u{e9}")]),
        texts(&[Some("c"), Some(""), Some("r"), None]),
    ];
    assert_eq!(string_concat(&cols), Ok(texts(&[Some("abc"), Some(""), None, None])));
    assert_eq!(
        string_concat(&vec![texts(&[Some("solo"), None])]),
        Ok(texts(&[Some("solo"), None]))
    );
}

#[test]
fn concat_ws_joins_what_is_present() {
    let cols = vec![
        texts(&[Some("a"), None, None, Some(""), Some("x")]),
        texts(&[Some("b"), None, Some("q"), Some(""), None]),
        texts(&[Some("c"), None, None, Some("z"), None]),
    ];
    assert_eq!(
        string_concat_ws("--", &cols),
        Ok(texts(&[Some("a--b--c"), Some(""), Some("q"), Some("----z"), Some("x")]))
    );
    assert_eq!(
        string_concat_ws("", &cols),
        Ok(texts(&[Some("abc"), Some(""), Some("q"), Some("z"), Some("x")]))
    );
}

#[test]
fn concat_refuses_bad_columns() {
    assert_eq!(string_concat(&vec![]), REFUSED);
    assert_eq!(string_concat_ws(",", &vec![]), REFUSED);
    assert_eq!(string_concat(&vec![texts(&[Some("a")]), counts(vec![Some(1)])]), REFUSED);
    assert_eq!(string_concat(&vec![texts(&[Some("a")]), texts(&[])]), REFUSED);
    assert_eq!(string_concat_ws(",", &vec![counts(vec![])]), REFUSED);
    assert_eq!(
        string_concat_ws(",", &vec![texts(&[]), texts(&[Some("a")])]),
        REFUSED
    );
}

#[test]
fn space_gives_that_many_spaces() {
    assert_eq!(
        string_space(&counts(vec![Some(3), Some(0), Some(-2), None, Some(1)])),
        Ok(texts(&[Some("   "), Some(""), Some(""), None, Some(" ")]))
    );
    assert_eq!(string_space(&counts(vec![Some(0x8000_0000)])), REFUSED);
    assert_eq!(string_space(&texts(&[Some("3")])), REFUSED);
    assert_eq!(
        string_space(&counts(vec![Some(i64::MIN)])),
        Ok(texts(&[Some("")]))
    );
}

#[test]
fn repeat_writes_the_string_that_many_times() {
    assert_eq!(
        string_repeat(
            &texts(&[Some("ab"), Some("ab"), Some("ab"), None, Some("ab"), Some(""), Some("\u{e9}x")]),
            &counts(vec![Some(3), Some(0), Some(-1), Some(2), None, Some(5), Some(2)])
        ),
        Ok(texts(&[
            Some("ababab"),
            Some(""),
            Some(""),
            None,
            None,
            Some(""),
            Some("\u{e9}x\u{e9}x")
        ]))
    );
}

#[test]
fn repeat_refuses_bad_columns() {
    assert_eq!(string_repeat(&texts(&[Some("a")]), &counts(vec![])), REFUSED);
    assert_eq!(string_repeat(&counts(vec![Some(1)]), &counts(vec![Some(1)])), REFUSED);
    assert_eq!(string_repeat(&texts(&[Some("a")]), &texts(&[Some("a")])), REFUSED);
    assert_eq!(
        string_repeat(&texts(&[None]), &counts(vec![Some(0x8000_0000)])),
        REFUSED
    );
}

#[test]
fn split_keeps_empty_pieces() {
    let col = texts(&[
        Some("a,b,c"),
        Some("a,,b"),
        Some(",a,"),
        Some(""),
        Some(","),
        None,
        Some("abc"),
        Some(",,"),
    ]);
    assert_eq!(
        string_split(&col, ","),
        Ok(Column::List(vec![
            pieces(&["a", "b", "c"]),
            pieces(&["a", "", "b"]),
            pieces(&["", "a", ""]),
            pieces(&[""]),
            pieces(&["", ""]),
            None,
            pieces(&["abc"]),
            pieces(&["", "", ""]),
        ]))
    );
}

#[test]
fn split_finds_delimiters_from_the_left_without_overlap() {
    assert_eq!(
        string_split(&texts(&[Some("aaaa"), Some("aaa"), Some("xabay"), Some("ab")]), "aa"),
        Ok(Column::List(vec![
            pieces(&["", "", ""]),
            pieces(&["", "a"]),
            pieces(&["xabay"]),
            pieces(&["ab"]),
        ]))
    );
    assert_eq!(
        string_split(&texts(&[Some("1\u{20ac}\u{20ac}2\u{20ac}")]), "\u{20ac}"),
        Ok(Column::List(vec![pieces(&["1", "", "2", ""])]))
    );
    assert_eq!(
        string_split(&texts(&[Some("a--b-c---d")]), "--"),
        Ok(Column::List(vec![pieces(&["a", "b-c", "-d"])]))
    );
}

#[test]
fn split_on_an_empty_delimiter_splits_nothing() {
    assert_eq!(
        string_split(&texts(&[Some("abc"), Some("")]), ""),
        Ok(Column::List(vec![pieces(&["abc"]), pieces(&[""])]))
    );
    assert_eq!(string_split(&counts(vec![]), ","), REFUSED);
}

#[test]
fn joining_the_pieces_gives_the_string_back() {
    for d in [",", "ab", "aa", "\u{e9}"] {
        for t in ["", "a", ",", "a,b", "abab", "aaaaa", "xaby,ab,,", "\u{e9}\u{e9}a\u{e9}"] {
            let out = string_split(&texts(&[Some(t)]), d).unwrap();
            let row = match out {
                Column::List(mut rows) => rows.remove(0).unwrap(),
                other => panic!("unexpected {:?}", other),
            };
            let parts: Vec<String> = match row {
                Column::Utf8(values) => values.into_iter().map(|v| v.unwrap()).collect(),
                other => panic!("unexpected {:?}", other),
            };
            assert_eq!(parts.join(d), t);
            assert_eq!(parts, t.split(d).map(|s| s.to_string()).collect::<Vec<_>>());
        }
    }
}

#[test]
fn lower_and_upper_fold_case() {
    let col = texts(&[Some("Hello World"), None, Some(""), Some("\u{c0}B\u{df}1"), Some("i\u{130}")]);
    assert_eq!(
        string_lower(&col),
        Ok(texts(&[
            Some("hello world"),
            None,
            Some(""),
            Some("\u{e0}b\u{df}1"),
            Some("ii\u{307}")
        ]))
    );
    assert_eq!(
        string_upper(&col),
        Ok(texts(&[
            Some("HELLO WORLD"),
            None,
            Some(""),
            Some("\u{c0}BSS1"),
            Some("I\u{130}")
        ]))
    );
    assert_eq!(string_lower(&counts(vec![])), REFUSED);
    assert_eq!(string_upper(&Column::Json(vec![])), REFUSED);
}

#[test]
fn text_helpers_agree_with_std() {
    assert!(str_equal("", ""));
    assert!(str_equal("a\u{e9}", "a\u{e9}"));
    assert!(!str_equal("a", "A"));
    assert!(!str_equal("a", "ab"));
    assert_eq!(str_chars("a\u{1F600}b"), vec!['a', '\u{1F600}', 'b']);
    assert_eq!(chars_to_string(&vec!['x', '\u{e9}', 'y']), "x\u{e9}y");
    assert_eq!(slice_chars(&vec!['a', 'b', 'c', 'd'], 1, 3), vec!['b', 'c']);
    assert_eq!(slice_chars(&vec!['a'], 1, 1), Vec::<char>::new());
}
