//! The catalogue of functions and the lookup by identifier.

use crate::error::ExtFunctionError;
use crate::text::str_equal;
use vstd::prelude::*;
use vstd::string::StringExecFns;

verus! {

/// One entry of the fixed catalogue.
#[derive(Debug, Clone, Copy, PartialEq, Eq, Hash, Structural)]
pub enum SparkExtFunction {
    /// Reserved entry that a well-built plan never invokes.
    Placeholder,
    /// Null where the input is zero, the input elsewhere.
    NullIfZero,
    /// The unscaled integer of a decimal.
    UnscaledValue,
    /// A decimal from an unscaled integer, a precision and a scale.
    MakeDecimal,
    /// A decimal rescaled and checked against a precision.
    CheckOverflow,
    /// A seeded 32-bit hash over one or more columns.
    Murmur3Hash,
    /// The text of the value that a path addresses in a JSON text.
    GetJsonObject,
    /// The value that a path addresses in a parsed JSON value.
    GetParsedJsonObject,
    /// A JSON text parsed into a value.
    ParseJson,
    /// An array per row from the values of several columns.
    MakeArray,
    /// A string of spaces.
    StringSpace,
    /// A string repeated.
    StringRepeat,
    /// A string split on a delimiter.
    StringSplit,
    /// Strings joined end to end; null if any is null.
    StringConcat,
    /// Non-null strings joined with a separator.
    StringConcatWs,
    /// A string in lower case.
    StringLower,
    /// A string in upper case.
    StringUpper,
}

impl SparkExtFunction {
    /// The identifier under which the entry is registered.
    pub open spec fn name_spec(self) -> Seq<char> {
        match self {
            SparkExtFunction::Placeholder => "Placeholder"@,
            SparkExtFunction::NullIfZero => "NullIfZero"@,
            SparkExtFunction::UnscaledValue => "UnscaledValue"@,
            SparkExtFunction::MakeDecimal => "MakeDecimal"@,
            SparkExtFunction::CheckOverflow => "CheckOverflow"@,
            SparkExtFunction::Murmur3Hash => "Murmur3Hash"@,
            SparkExtFunction::GetJsonObject => "GetJsonObject"@,
            SparkExtFunction::GetParsedJsonObject => "GetParsedJsonObject"@,
            SparkExtFunction::ParseJson => "ParseJson"@,
            SparkExtFunction::MakeArray => "MakeArray"@,
            SparkExtFunction::StringSpace => "StringSpace"@,
            SparkExtFunction::StringRepeat => "StringRepeat"@,
            SparkExtFunction::StringSplit => "StringSplit"@,
            SparkExtFunction::StringConcat => "StringConcat"@,
            SparkExtFunction::StringConcatWs => "StringConcatWs"@,
            SparkExtFunction::StringLower => "StringLower"@,
            SparkExtFunction::StringUpper => "StringUpper"@,
        }
    }

    /// The identifier under which the entry is registered.
    pub fn name(&self) -> (s: &'static str)
        ensures
            s@ == self.name_spec(),
    {
        match self {
            SparkExtFunction::Placeholder => "Placeholder",
            SparkExtFunction::NullIfZero => "NullIfZero",
            SparkExtFunction::UnscaledValue => "UnscaledValue",
            SparkExtFunction::MakeDecimal => "MakeDecimal",
            SparkExtFunction::CheckOverflow => "CheckOverflow",
            SparkExtFunction::Murmur3Hash => "Murmur3Hash",
            SparkExtFunction::GetJsonObject => "GetJsonObject",
            SparkExtFunction::GetParsedJsonObject => "GetParsedJsonObject",
            SparkExtFunction::ParseJson => "ParseJson",
            SparkExtFunction::MakeArray => "MakeArray",
            SparkExtFunction::StringSpace => "StringSpace",
            SparkExtFunction::StringRepeat => "StringRepeat",
            SparkExtFunction::StringSplit => "StringSplit",
            SparkExtFunction::StringConcat => "StringConcat",
            SparkExtFunction::StringConcatWs => "StringConcatWs",
            SparkExtFunction::StringLower => "StringLower",
            SparkExtFunction::StringUpper => "StringUpper",
        }
    }
}

/// The entry registered under `name`, if any. The match is exact and
/// case-sensitive.
pub open spec fn lookup(name: Seq<char>) -> Option<SparkExtFunction> {
    if name == "Placeholder"@ {
        Some(SparkExtFunction::Placeholder)
    } else if name == "NullIfZero"@ {
        Some(SparkExtFunction::NullIfZero)
    } else if name == "UnscaledValue"@ {
        Some(SparkExtFunction::UnscaledValue)
    } else if name == "MakeDecimal"@ {
        Some(SparkExtFunction::MakeDecimal)
    } else if name == "CheckOverflow"@ {
        Some(SparkExtFunction::CheckOverflow)
    } else if name == "Murmur3Hash"@ {
        Some(SparkExtFunction::Murmur3Hash)
    } else if name == "GetJsonObject"@ {
        Some(SparkExtFunction::GetJsonObject)
    } else if name == "GetParsedJsonObject"@ {
        Some(SparkExtFunction::GetParsedJsonObject)
    } else if name == "ParseJson"@ {
        Some(SparkExtFunction::ParseJson)
    } else if name == "MakeArray"@ {
        Some(SparkExtFunction::MakeArray)
    } else if name == "StringSpace"@ {
        Some(SparkExtFunction::StringSpace)
    } else if name == "StringRepeat"@ {
        Some(SparkExtFunction::StringRepeat)
    } else if name == "StringSplit"@ {
        Some(SparkExtFunction::StringSplit)
    } else if name == "StringConcat"@ {
        Some(SparkExtFunction::StringConcat)
    } else if name == "StringConcatWs"@ {
        Some(SparkExtFunction::StringConcatWs)
    } else if name == "StringLower"@ {
        Some(SparkExtFunction::StringLower)
    } else if name == "StringUpper"@ {
        Some(SparkExtFunction::StringUpper)
    } else {
        None
    }
}

/// Resolves an identifier to its catalogue entry, or fails with
/// `Unimplemented` carrying the identifier.
pub fn create_spark_ext_function(name: &str) -> (r: Result<SparkExtFunction, ExtFunctionError>)
    ensures
        match r {
            Ok(f) => lookup(name@) == Some(f),
            Err(e) => lookup(name@) is None && (e matches ExtFunctionError::Unimplemented(n)
                && n@ == name@),
        },
{
    if str_equal(name, "Placeholder") {
        Ok(SparkExtFunction::Placeholder)
    } else if str_equal(name, "NullIfZero") {
        Ok(SparkExtFunction::NullIfZero)
    } else if str_equal(name, "UnscaledValue") {
        Ok(SparkExtFunction::UnscaledValue)
    } else if str_equal(name, "MakeDecimal") {
        Ok(SparkExtFunction::MakeDecimal)
    } else if str_equal(name, "CheckOverflow") {
        Ok(SparkExtFunction::CheckOverflow)
    } else if str_equal(name, "Murmur3Hash") {
        Ok(SparkExtFunction::Murmur3Hash)
    } else if str_equal(name, "GetJsonObject") {
        Ok(SparkExtFunction::GetJsonObject)
    } else if str_equal(name, "GetParsedJsonObject") {
        Ok(SparkExtFunction::GetParsedJsonObject)
    } else if str_equal(name, "ParseJson") {
        Ok(SparkExtFunction::ParseJson)
    } else if str_equal(name, "MakeArray") {
        Ok(SparkExtFunction::MakeArray)
    } else if str_equal(name, "StringSpace") {
        Ok(SparkExtFunction::StringSpace)
    } else if str_equal(name, "StringRepeat") {
        Ok(SparkExtFunction::StringRepeat)
    } else if str_equal(name, "StringSplit") {
        Ok(SparkExtFunction::StringSplit)
    } else if str_equal(name, "StringConcat") {
        Ok(SparkExtFunction::StringConcat)
    } else if str_equal(name, "StringConcatWs") {
        Ok(SparkExtFunction::StringConcatWs)
    } else if str_equal(name, "StringLower") {
        Ok(SparkExtFunction::StringLower)
    } else if str_equal(name, "StringUpper") {
        Ok(SparkExtFunction::StringUpper)
    } else {
        Err(ExtFunctionError::Unimplemented(String::from_str(name)))
    }
}

/// Every entry of the catalogue, each once.
pub fn catalogue() -> (v: Vec<SparkExtFunction>)
    ensures
        v.len() == 17,
        forall|f: SparkExtFunction| v@.contains(f),
        forall|i: int, j: int| 0 <= i < j < v.len() ==> v[i] != v[j],
{
    let mut v: Vec<SparkExtFunction> = Vec::new();
    v.push(SparkExtFunction::Placeholder);
    v.push(SparkExtFunction::NullIfZero);
    v.push(SparkExtFunction::UnscaledValue);
    v.push(SparkExtFunction::MakeDecimal);
    v.push(SparkExtFunction::CheckOverflow);
    v.push(SparkExtFunction::Murmur3Hash);
    v.push(SparkExtFunction::GetJsonObject);
    v.push(SparkExtFunction::GetParsedJsonObject);
    v.push(SparkExtFunction::ParseJson);
    v.push(SparkExtFunction::MakeArray);
    v.push(SparkExtFunction::StringSpace);
    v.push(SparkExtFunction::StringRepeat);
    v.push(SparkExtFunction::StringSplit);
    v.push(SparkExtFunction::StringConcat);
    v.push(SparkExtFunction::StringConcatWs);
    v.push(SparkExtFunction::StringLower);
    v.push(SparkExtFunction::StringUpper);
    proof {
        assert forall|f: SparkExtFunction| v@.contains(f) by {
            let i: int = match f {
                SparkExtFunction::Placeholder => 0,
                SparkExtFunction::NullIfZero => 1,
                SparkExtFunction::UnscaledValue => 2,
                SparkExtFunction::MakeDecimal => 3,
                SparkExtFunction::CheckOverflow => 4,
                SparkExtFunction::Murmur3Hash => 5,
                SparkExtFunction::GetJsonObject => 6,
                SparkExtFunction::GetParsedJsonObject => 7,
                SparkExtFunction::ParseJson => 8,
                SparkExtFunction::MakeArray => 9,
                SparkExtFunction::StringSpace => 10,
                SparkExtFunction::StringRepeat => 11,
                SparkExtFunction::StringSplit => 12,
                SparkExtFunction::StringConcat => 13,
                SparkExtFunction::StringConcatWs => 14,
                SparkExtFunction::StringLower => 15,
                SparkExtFunction::StringUpper => 16,
            };
            assert(v@[i] == f);
        }
    }
    v
}

/// Reveals the length and the characters of every identifier of the
/// catalogue.
proof fn reveal_names()
    ensures
        "Placeholder"@.len() == 11,
        "Placeholder"@[0] == 'P',
        "Placeholder"@[1] == 'l',
        "Placeholder"@[2] == 'a',
        "Placeholder"@[3] == 'c',
        "Placeholder"@[4] == 'e',
        "Placeholder"@[5] == 'h',
        "Placeholder"@[6] == 'o',
        "Placeholder"@[7] == 'l',
        "Placeholder"@[8] == 'd',
        "Placeholder"@[9] == 'e',
        "Placeholder"@[10] == 'r',
        "NullIfZero"@.len() == 10,
        "NullIfZero"@[0] == 'N',
        "NullIfZero"@[1] == 'u',
        "NullIfZero"@[2] == 'l',
        "NullIfZero"@[3] == 'l',
        "NullIfZero"@[4] == 'I',
        "NullIfZero"@[5] == 'f',
        "NullIfZero"@[6] == 'Z',
        "NullIfZero"@[7] == 'e',
        "NullIfZero"@[8] == 'r',
        "NullIfZero"@[9] == 'o',
        "UnscaledValue"@.len() == 13,
        "UnscaledValue"@[0] == 'U',
        "UnscaledValue"@[1] == 'n',
        "UnscaledValue"@[2] == 's',
        "UnscaledValue"@[3] == 'c',
        "UnscaledValue"@[4] == 'a',
        "UnscaledValue"@[5] == 'l',
        "UnscaledValue"@[6] == 'e',
        "UnscaledValue"@[7] == 'd',
        "UnscaledValue"@[8] == 'V',
        "UnscaledValue"@[9] == 'a',
        "UnscaledValue"@[10] == 'l',
        "UnscaledValue"@[11] == 'u',
        "UnscaledValue"@[12] == 'e',
        "MakeDecimal"@.len() == 11,
        "MakeDecimal"@[0] == 'M',
        "MakeDecimal"@[1] == 'a',
        "MakeDecimal"@[2] == 'k',
        "MakeDecimal"@[3] == 'e',
        "MakeDecimal"@[4] == 'D',
        "MakeDecimal"@[5] == 'e',
        "MakeDecimal"@[6] == 'c',
        "MakeDecimal"@[7] == 'i',
        "MakeDecimal"@[8] == 'm',
        "MakeDecimal"@[9] == 'a',
        "MakeDecimal"@[10] == 'l',
        "CheckOverflow"@.len() == 13,
        "CheckOverflow"@[0] == 'C',
        "CheckOverflow"@[1] == 'h',
        "CheckOverflow"@[2] == 'e',
        "CheckOverflow"@[3] == 'c',
        "CheckOverflow"@[4] == 'k',
        "CheckOverflow"@[5] == 'O',
        "CheckOverflow"@[6] == 'v',
        "CheckOverflow"@[7] == 'e',
        "CheckOverflow"@[8] == 'r',
        "CheckOverflow"@[9] == 'f',
        "CheckOverflow"@[10] == 'l',
        "CheckOverflow"@[11] == 'o',
        "CheckOverflow"@[12] == 'w',
        "Murmur3Hash"@.len() == 11,
        "Murmur3Hash"@[0] == 'M',
        "Murmur3Hash"@[1] == 'u',
        "Murmur3Hash"@[2] == 'r',
        "Murmur3Hash"@[3] == 'm',
        "Murmur3Hash"@[4] == 'u',
        "Murmur3Hash"@[5] == 'r',
        "Murmur3Hash"@[6] == '3',
        "Murmur3Hash"@[7] == 'H',
        "Murmur3Hash"@[8] == 'a',
        "Murmur3Hash"@[9] == 's',
        "Murmur3Hash"@[10] == 'h',
        "GetJsonObject"@.len() == 13,
        "GetJsonObject"@[0] == 'G',
        "GetJsonObject"@[1] == 'e',
        "GetJsonObject"@[2] == 't',
        "GetJsonObject"@[3] == 'J',
        "GetJsonObject"@[4] == 's',
        "GetJsonObject"@[5] == 'o',
        "GetJsonObject"@[6] == 'n',
        "GetJsonObject"@[7] == 'O',
        "GetJsonObject"@[8] == 'b',
        "GetJsonObject"@[9] == 'j',
        "GetJsonObject"@[10] == 'e',
        "GetJsonObject"@[11] == 'c',
        "GetJsonObject"@[12] == 't',
        "GetParsedJsonObject"@.len() == 19,
        "GetParsedJsonObject"@[0] == 'G',
        "GetParsedJsonObject"@[1] == 'e',
        "GetParsedJsonObject"@[2] == 't',
        "GetParsedJsonObject"@[3] == 'P',
        "GetParsedJsonObject"@[4] == 'a',
        "GetParsedJsonObject"@[5] == 'r',
        "GetParsedJsonObject"@[6] == 's',
        "GetParsedJsonObject"@[7] == 'e',
        "GetParsedJsonObject"@[8] == 'd',
        "GetParsedJsonObject"@[9] == 'J',
        "GetParsedJsonObject"@[10] == 's',
        "GetParsedJsonObject"@[11] == 'o',
        "GetParsedJsonObject"@[12] == 'n',
        "GetParsedJsonObject"@[13] == 'O',
        "GetParsedJsonObject"@[14] == 'b',
        "GetParsedJsonObject"@[15] == 'j',
        "GetParsedJsonObject"@[16] == 'e',
        "GetParsedJsonObject"@[17] == 'c',
        "GetParsedJsonObject"@[18] == 't',
        "ParseJson"@.len() == 9,
        "ParseJson"@[0] == 'P',
        "ParseJson"@[1] == 'a',
        "ParseJson"@[2] == 'r',
        "ParseJson"@[3] == 's',
        "ParseJson"@[4] == 'e',
        "ParseJson"@[5] == 'J',
        "ParseJson"@[6] == 's',
        "ParseJson"@[7] == 'o',
        "ParseJson"@[8] == 'n',
        "MakeArray"@.len() == 9,
        "MakeArray"@[0] == 'M',
        "MakeArray"@[1] == 'a',
        "MakeArray"@[2] == 'k',
        "MakeArray"@[3] == 'e',
        "MakeArray"@[4] == 'A',
        "MakeArray"@[5] == 'r',
        "MakeArray"@[6] == 'r',
        "MakeArray"@[7] == 'a',
        "MakeArray"@[8] == 'y',
        "StringSpace"@.len() == 11,
        "StringSpace"@[0] == 'S',
        "StringSpace"@[1] == 't',
        "StringSpace"@[2] == 'r',
        "StringSpace"@[3] == 'i',
        "StringSpace"@[4] == 'n',
        "StringSpace"@[5] == 'g',
        "StringSpace"@[6] == 'S',
        "StringSpace"@[7] == 'p',
        "StringSpace"@[8] == 'a',
        "StringSpace"@[9] == 'c',
        "StringSpace"@[10] == 'e',
        "StringRepeat"@.len() == 12,
        "StringRepeat"@[0] == 'S',
        "StringRepeat"@[1] == 't',
        "StringRepeat"@[2] == 'r',
        "StringRepeat"@[3] == 'i',
        "StringRepeat"@[4] == 'n',
        "StringRepeat"@[5] == 'g',
        "StringRepeat"@[6] == 'R',
        "StringRepeat"@[7] == 'e',
        "StringRepeat"@[8] == 'p',
        "StringRepeat"@[9] == 'e',
        "StringRepeat"@[10] == 'a',
        "StringRepeat"@[11] == 't',
        "StringSplit"@.len() == 11,
        "StringSplit"@[0] == 'S',
        "StringSplit"@[1] == 't',
        "StringSplit"@[2] == 'r',
        "StringSplit"@[3] == 'i',
        "StringSplit"@[4] == 'n',
        "StringSplit"@[5] == 'g',
        "StringSplit"@[6] == 'S',
        "StringSplit"@[7] == 'p',
        "StringSplit"@[8] == 'l',
        "StringSplit"@[9] == 'i',
        "StringSplit"@[10] == 't',
        "StringConcat"@.len() == 12,
        "StringConcat"@[0] == 'S',
        "StringConcat"@[1] == 't',
        "StringConcat"@[2] == 'r',
        "StringConcat"@[3] == 'i',
        "StringConcat"@[4] == 'n',
        "StringConcat"@[5] == 'g',
        "StringConcat"@[6] == 'C',
        "StringConcat"@[7] == 'o',
        "StringConcat"@[8] == 'n',
        "StringConcat"@[9] == 'c',
        "StringConcat"@[10] == 'a',
        "StringConcat"@[11] == 't',
        "StringConcatWs"@.len() == 14,
        "StringConcatWs"@[0] == 'S',
        "StringConcatWs"@[1] == 't',
        "StringConcatWs"@[2] == 'r',
        "StringConcatWs"@[3] == 'i',
        "StringConcatWs"@[4] == 'n',
        "StringConcatWs"@[5] == 'g',
        "StringConcatWs"@[6] == 'C',
        "StringConcatWs"@[7] == 'o',
        "StringConcatWs"@[8] == 'n',
        "StringConcatWs"@[9] == 'c',
        "StringConcatWs"@[10] == 'a',
        "StringConcatWs"@[11] == 't',
        "StringConcatWs"@[12] == 'W',
        "StringConcatWs"@[13] == 's',
        "StringLower"@.len() == 11,
        "StringLower"@[0] == 'S',
        "StringLower"@[1] == 't',
        "StringLower"@[2] == 'r',
        "StringLower"@[3] == 'i',
        "StringLower"@[4] == 'n',
        "StringLower"@[5] == 'g',
        "StringLower"@[6] == 'L',
        "StringLower"@[7] == 'o',
        "StringLower"@[8] == 'w',
        "StringLower"@[9] == 'e',
        "StringLower"@[10] == 'r',
        "StringUpper"@.len() == 11,
        "StringUpper"@[0] == 'S',
        "StringUpper"@[1] == 't',
        "StringUpper"@[2] == 'r',
        "StringUpper"@[3] == 'i',
        "StringUpper"@[4] == 'n',
        "StringUpper"@[5] == 'g',
        "StringUpper"@[6] == 'U',
        "StringUpper"@[7] == 'p',
        "StringUpper"@[8] == 'p',
        "StringUpper"@[9] == 'e',
        "StringUpper"@[10] == 'r',
{
    reveal_strlit("Placeholder");
    reveal_strlit("NullIfZero");
    reveal_strlit("UnscaledValue");
    reveal_strlit("MakeDecimal");
    reveal_strlit("CheckOverflow");
    reveal_strlit("Murmur3Hash");
    reveal_strlit("GetJsonObject");
    reveal_strlit("GetParsedJsonObject");
    reveal_strlit("ParseJson");
    reveal_strlit("MakeArray");
    reveal_strlit("StringSpace");
    reveal_strlit("StringRepeat");
    reveal_strlit("StringSplit");
    reveal_strlit("StringConcat");
    reveal_strlit("StringConcatWs");
    reveal_strlit("StringLower");
    reveal_strlit("StringUpper");
}

/// Every entry of the catalogue is found under its own identifier.
pub proof fn lemma_catalogue_resolves(f: SparkExtFunction)
    ensures
        lookup(f.name_spec()) == Some(f),
{
    reveal_names();
}

/// No two entries share an identifier.
pub proof fn lemma_names_are_unique(f: SparkExtFunction, g: SparkExtFunction)
    requires
        f.name_spec() == g.name_spec(),
    ensures
        f == g,
{
    lemma_catalogue_resolves(f);
    lemma_catalogue_resolves(g);
}

/// An identifier resolves to an entry exactly when it is that entry's
/// identifier, character for character.
pub proof fn lemma_lookup_exact(name: Seq<char>, f: SparkExtFunction)
    ensures
        lookup(name) == Some(f) <==> name == f.name_spec(),
{
    reveal_names();
}

/// An identifier that is no entry's identifier resolves to nothing: lookup
/// fails exactly on the strings outside the catalogue.
pub proof fn lemma_lookup_none(name: Seq<char>)
    ensures
        lookup(name) is None <==> forall|f: SparkExtFunction| name != #[trigger] f.name_spec(),
{
    reveal_names();
    if lookup(name) is Some {
        let f = lookup(name)->0;
        assert(name == f.name_spec());
    }
}

} // verus!
