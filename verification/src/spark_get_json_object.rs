//! Parsing JSON text and extracting values from it by path, row by row.
//! No row ever fails: malformed text, a malformed path and a path that
//! finds nothing all give null.

use crate::column::{jsons_view, result_view, texts_view, Column, ColumnModel};
use crate::error::ExtFunctionError;
use crate::json::grammar::parse_document;
use crate::json::parse::parse_text;
use crate::json::path::{
    eval, eval_steps, parse_path, parse_path_text, steps_view, PathStep, StepModel,
};
use crate::json::roundtrip::lemma_parse_of_written_parse;
use crate::json::value::{JsonModel, JsonValue};
use crate::json::write::{write_chars, write_value};
use crate::text::chars_to_string;
use vstd::prelude::*;

verus! {

/// The characters of an optional string.
pub open spec fn text_view(t: Option<String>) -> Option<Seq<char>> {
    match t {
        Some(s) => Some(s@),
        None => None,
    }
}

/// The model of an optional JSON value.
pub open spec fn json_view(v: Option<JsonValue>) -> Option<JsonModel> {
    match v {
        Some(x) => Some(x@),
        None => None,
    }
}

/// The value of a row of JSON text: null for a null row and for malformed
/// text.
pub open spec fn parsed_row(text: Option<Seq<char>>) -> Option<JsonModel> {
    match text {
        Some(t) => parse_document(t),
        None => None,
    }
}

/// What a path addresses in a row: null for a null row, for a malformed
/// path, where the path finds nothing, and where it finds JSON `null`.
pub open spec fn extracted_row(doc: Option<JsonModel>, path: Option<Seq<StepModel>>) -> Option<
    JsonModel,
> {
    match (doc, path) {
        (Some(d), Some(p)) => match eval(d, p) {
            Some(JsonModel::Null) => None,
            Some(found) => Some(found),
            None => None,
        },
        _ => None,
    }
}

/// A found value as text: the characters of a string as they are, any
/// other value as compact JSON.
pub open spec fn rendered_row(found: Option<JsonModel>) -> Option<Seq<char>> {
    match found {
        Some(JsonModel::String(t)) => Some(t),
        Some(v) => Some(write_value(v)),
        None => None,
    }
}

/// `GetJsonObject` on one row.
pub open spec fn json_object_row(text: Option<Seq<char>>, path: Seq<char>) -> Option<Seq<char>> {
    rendered_row(extracted_row(parsed_row(text), parse_path(path)))
}

fn extract_from(doc: &JsonValue, steps: &Vec<PathStep>) -> (r: Option<JsonValue>)
    ensures
        json_view(r) == extracted_row(Some(doc@), Some(steps_view(steps@))),
{
    assert(steps_view(steps@).skip(0) =~= steps_view(steps@));
    match eval_steps(doc, steps, 0) {
        Some(JsonValue::Null) => None,
        Some(found) => Some(found),
        None => None,
    }
}

fn render(found: &JsonValue) -> (r: String)
    ensures
        Some(r@) == rendered_row(Some(found@)),
{
    match found {
        JsonValue::String(t) => chars_to_string(t),
        _ => {
            let chars = write_chars(found);
            chars_to_string(&chars)
        },
    }
}

/// Each row of text parsed into a JSON value.
pub fn parse_json_rows(texts: &Vec<Option<String>>) -> (r: Vec<Option<JsonValue>>)
    ensures
        r.len() == texts.len(),
        forall|i: int|
            0 <= i < texts.len() ==> json_view(#[trigger] r[i]) == parsed_row(text_view(texts[i])),
{
    let mut out: Vec<Option<JsonValue>> = Vec::new();
    let mut i: usize = 0;
    while i < texts.len()
        invariant
            i <= texts.len(),
            out.len() == i,
            forall|j: int|
                0 <= j < i ==> json_view(#[trigger] out[j]) == parsed_row(text_view(texts[j])),
        decreases texts.len() - i,
    {
        let row: Option<JsonValue> = match &texts[i] {
            Some(t) => parse_text(t.as_str()),
            None => None,
        };
        out.push(row);
        i += 1;
    }
    out
}

/// What the path addresses in each parsed row.
pub fn get_parsed_json_object_rows(values: &Vec<Option<JsonValue>>, path: &str) -> (r: Vec<
    Option<JsonValue>,
>)
    ensures
        r.len() == values.len(),
        forall|i: int|
            0 <= i < values.len() ==> json_view(#[trigger] r[i]) == extracted_row(
                json_view(values[i]),
                parse_path(path@),
            ),
{
    let steps: Option<Vec<PathStep>> = parse_path_text(path);
    let mut out: Vec<Option<JsonValue>> = Vec::new();
    let mut i: usize = 0;
    while i < values.len()
        invariant
            i <= values.len(),
            out.len() == i,
            match parse_path(path@) {
                Some(p) => (steps matches Some(x) && steps_view(x@) == p),
                None => steps is None,
            },
            forall|j: int|
                0 <= j < i ==> json_view(#[trigger] out[j]) == extracted_row(
                    json_view(values[j]),
                    parse_path(path@),
                ),
        decreases values.len() - i,
    {
        let row: Option<JsonValue> = match (&values[i], &steps) {
            (Some(doc), Some(p)) => extract_from(doc, p),
            _ => None,
        };
        out.push(row);
        i += 1;
    }
    out
}

/// The text of what the path addresses in each row of JSON text.
pub fn get_json_object_rows(texts: &Vec<Option<String>>, path: &str) -> (r: Vec<Option<String>>)
    ensures
        r.len() == texts.len(),
        forall|i: int|
            0 <= i < texts.len() ==> text_view(#[trigger] r[i]) == json_object_row(
                text_view(texts[i]),
                path@,
            ),
{
    let steps: Option<Vec<PathStep>> = parse_path_text(path);
    let mut out: Vec<Option<String>> = Vec::new();
    let mut i: usize = 0;
    while i < texts.len()
        invariant
            i <= texts.len(),
            out.len() == i,
            match parse_path(path@) {
                Some(p) => (steps matches Some(x) && steps_view(x@) == p),
                None => steps is None,
            },
            forall|j: int|
                0 <= j < i ==> text_view(#[trigger] out[j]) == json_object_row(
                    text_view(texts[j]),
                    path@,
                ),
        decreases texts.len() - i,
    {
        let row: Option<String> = match (&texts[i], &steps) {
            (Some(t), Some(p)) => match parse_text(t.as_str()) {
                Some(doc) => match extract_from(&doc, p) {
                    Some(found) => Some(render(&found)),
                    None => None,
                },
                None => None,
            },
            _ => None,
        };
        out.push(row);
        i += 1;
    }
    out
}

/// Extraction never yields JSON `null`: that too is a null row.
pub proof fn lemma_extracted_is_not_null(doc: Option<JsonModel>, path: Option<Seq<StepModel>>)
    ensures
        extracted_row(doc, path) != Some(JsonModel::Null),
{
}

/// `ParseJson` on a column of strings: a column of JSON values, each row
/// by `parsed_row`. Any other column is refused.
pub open spec fn parse_json_model(col: ColumnModel) -> Result<ColumnModel, ExtFunctionError> {
    match col {
        ColumnModel::Utf8(values) => Ok(
            ColumnModel::Json(Seq::new(values.len(), |i: int| parsed_row(values[i]))),
        ),
        _ => Err(ExtFunctionError::InvalidArguments),
    }
}

/// `GetParsedJsonObject` on a column of JSON values and a path: a column of
/// JSON values, each row by `extracted_row`. Any other column is refused.
pub open spec fn get_parsed_json_object_model(col: ColumnModel, path: Seq<char>) -> Result<
    ColumnModel,
    ExtFunctionError,
> {
    match col {
        ColumnModel::Json(values) => Ok(
            ColumnModel::Json(
                Seq::new(values.len(), |i: int| extracted_row(values[i], parse_path(path))),
            ),
        ),
        _ => Err(ExtFunctionError::InvalidArguments),
    }
}

/// `GetJsonObject` on a column of strings and a path: a column of strings,
/// each row by `json_object_row`. Any other column is refused.
pub open spec fn get_json_object_model(col: ColumnModel, path: Seq<char>) -> Result<
    ColumnModel,
    ExtFunctionError,
> {
    match col {
        ColumnModel::Utf8(values) => Ok(
            ColumnModel::Utf8(Seq::new(values.len(), |i: int| json_object_row(values[i], path))),
        ),
        _ => Err(ExtFunctionError::InvalidArguments),
    }
}

/// `ParseJson`.
pub fn spark_parse_json(col: &Column) -> (r: Result<Column, ExtFunctionError>)
    ensures
        result_view(r) == parse_json_model(col@),
{
    match col {
        Column::Utf8(values) => {
            let out = parse_json_rows(values);
            let result = Column::Json(out);
            assert(result@->Json_0 =~= parse_json_model(col@)->Ok_0->Json_0) by {
                assert forall|i: int| 0 <= i < values@.len() implies jsons_view(out@)[i]
                    == parsed_row(texts_view(values@)[i]) by {
                    assert(json_view(out[i]) == parsed_row(text_view(values[i])));
                }
            }
            Ok(result)
        },
        _ => Err(ExtFunctionError::InvalidArguments),
    }
}

/// `GetParsedJsonObject`.
pub fn spark_get_parsed_json_object(col: &Column, path: &str) -> (r: Result<
    Column,
    ExtFunctionError,
>)
    ensures
        result_view(r) == get_parsed_json_object_model(col@, path@),
{
    match col {
        Column::Json(values) => {
            let out = get_parsed_json_object_rows(values, path);
            let result = Column::Json(out);
            assert(result@->Json_0 =~= get_parsed_json_object_model(col@, path@)->Ok_0->Json_0)
                by {
                assert forall|i: int| 0 <= i < values@.len() implies jsons_view(out@)[i]
                    == extracted_row(jsons_view(values@)[i], parse_path(path@)) by {
                    assert(json_view(out[i]) == extracted_row(
                        json_view(values[i]),
                        parse_path(path@),
                    ));
                }
            }
            Ok(result)
        },
        _ => Err(ExtFunctionError::InvalidArguments),
    }
}

/// `GetJsonObject`.
pub fn spark_get_json_object(col: &Column, path: &str) -> (r: Result<Column, ExtFunctionError>)
    ensures
        result_view(r) == get_json_object_model(col@, path@),
{
    match col {
        Column::Utf8(values) => {
            let out = get_json_object_rows(values, path);
            let result = Column::Utf8(out);
            assert(result@->Utf8_0 =~= get_json_object_model(col@, path@)->Ok_0->Utf8_0) by {
                assert forall|i: int| 0 <= i < values@.len() implies texts_view(out@)[i]
                    == json_object_row(texts_view(values@)[i], path@) by {
                    assert(text_view(out[i]) == json_object_row(text_view(values[i]), path@));
                }
            }
            Ok(result)
        },
        _ => Err(ExtFunctionError::InvalidArguments),
    }
}

/// Extracting from text gives the text of what extracting from the parsed
/// text gives: `GetJsonObject` is `ParseJson`, then `GetParsedJsonObject`,
/// then writing each value found.
pub proof fn lemma_get_json_object_composes(texts: Seq<Option<Seq<char>>>, path: Seq<char>, i: int)
    requires
        0 <= i < texts.len(),
    ensures
        parse_json_model(ColumnModel::Utf8(texts)) matches Ok(parsed)
            && get_parsed_json_object_model(parsed, path) matches Ok(ColumnModel::Json(found))
            && get_json_object_model(ColumnModel::Utf8(texts), path) matches Ok(
            ColumnModel::Utf8(written),
        ) && written[i] == rendered_row(found[i]),
{
}

/// Extracting the root of a document that is an array, an object, a
/// number or a boolean gives a text that parses to the same value: the
/// document without its whitespace.
pub proof fn lemma_root_extraction_keeps_the_value(text: Seq<char>)
    requires
        parse_document(text) matches Some(v) && !(v is Null) && !(v is String),
    ensures
        json_object_row(Some(text), "$"@) matches Some(written) && parse_document(written)
            == parse_document(text),
{
    reveal_strlit("$");
    assert("$"@.len() == 1 && "$"@[0] == '$');
    lemma_parse_of_written_parse(text);
}

} // verus!
