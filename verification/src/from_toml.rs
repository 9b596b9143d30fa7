//! The converter that parses toml text into structured values.

use vstd::prelude::*;

use crate::error::{ErrModel, ShellError};
use crate::pipeline::{joined_text, pd_items, PdModel, PipelineData};
use crate::span::Span;
use crate::value::Value as EngineValue;
use toml::Value as TomlDocument;

verus! {

#[verifier::external_type_specification]
#[verifier::external_body]
pub struct ExTomlValue(TomlDocument);

pub uninterp spec fn toml_parsed(s: Seq<char>, span: Span) -> Option<crate::value::ValModel>;

/// Relies on toml's `from_str`: whether the text parses, and into which
/// document, depend on the text alone; `convert_toml_to_value` then
/// maps the document structurally onto the value model, every node at
/// the given span.
#[verifier::external_body]
fn toml_to_value(s: &String, span: Span) -> (r: Option<EngineValue>)
    ensures
        (match r {
            Option::Some(v) => Option::Some(crate::value::vmodel(v)),
            Option::None => Option::None,
        }) == toml_parsed(s@, span),
{
    match toml::from_str::<TomlDocument>(s.as_str()) {
        Ok(t) => Option::Some(convert_toml_to_value(&t, span)),
        Err(_) => Option::None,
    }
}

/// Relies on toml's `Value` accessors: maps a parsed toml document onto
/// the value model, node for node — arrays to lists, tables to records
/// in the table's key order, scalars to their kinds, and datetimes and
/// floats to their textual renderings (the model holds no float).
#[verifier::external_body]
fn convert_toml_to_value(value: &TomlDocument, span: Span) -> EngineValue {
    match value {
        TomlDocument::Array(a) => EngineValue::List { vals: a.iter().map(|x| convert_toml_to_value(x, span)).collect(), span },
        TomlDocument::Boolean(b) => EngineValue::Bool { val: *b, span },
        TomlDocument::Integer(i) => EngineValue::Int { val: *i, span },
        TomlDocument::Table(k) => EngineValue::Record { cols: k.keys().cloned().collect(), vals: k.values().map(|x| convert_toml_to_value(x, span)).collect(), span },
        TomlDocument::String(s) => EngineValue::String { val: s.clone(), span },
        other => EngineValue::String { val: other.to_string(), span },
    }
}

/// Parses toml text: the parsed document on success, a conversion
/// diagnostic at the given span otherwise.
pub fn convert_string_to_value(string_input: String, span: Span) -> (r: Result<
    crate::value::Value,
    ShellError,
>)
    ensures
        (match toml_parsed(string_input@, span) {
            Option::Some(m) => r matches Ok(v) && crate::value::vmodel(v) == m,
            Option::None => r matches Err(e) && e@ == ErrModel::CantConvert(
                "structured data from toml"@,
                "string"@,
                span,
            ),
        }),
{
    match toml_to_value(&string_input, span) {
        Option::Some(v) => Result::Ok(v),
        Option::None => {
            let what = String::from_str("structured data from toml");
            let from = String::from_str("string");
            proof {
                reveal_strlit("structured data from toml");
                reveal_strlit("string");
                assert(what@ =~= "structured data from toml"@);
                assert(from@ =~= "string"@);
            }
            Result::Err(ShellError::CantConvert(what, from, span))
        },
    }
}

/// The toml converter command.
pub struct FromToml;

impl FromToml {
    pub fn name(&self) -> (r: String)
        ensures
            r@ == "from toml"@,
    {
        String::from_str("from toml")
    }

    pub fn usage(&self) -> (r: String)
        ensures
            r@ == "Parse text as .toml and create table."@,
    {
        String::from_str("Parse text as .toml and create table.")
    }

    /// Collects the input to one string, appends the newline the parser
    /// wants after a trailing table, and parses it as toml.
    pub fn run(&self, input: PipelineData, span: Span) -> (r: Result<PipelineData, ShellError>)
        ensures
            ({
                let text = joined_text(
                    pd_items(input@),
                    Seq::empty(),
                    pd_items(input@).len() as int,
                ) + "\n"@;
                match toml_parsed(text, span) {
                    Option::Some(m) => r matches Ok(pd) && pd@ == PdModel::Value(m),
                    Option::None => r matches Err(e) && e@ == ErrModel::CantConvert(
                        "structured data from toml"@,
                        "string"@,
                        span,
                    ),
                }
            }),
    {
        let empty_sep = String::new();
        let mut string_input = input.collect_string(empty_sep.as_str());
        string_input.append("\n");
        match convert_string_to_value(string_input, span) {
            Result::Ok(v) => Result::Ok(PipelineData::Value(v)),
            Result::Err(e) => Result::Err(e),
        }
    }
}

} // verus!
