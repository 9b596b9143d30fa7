//! The command that reads the query out of url strings.

use vstd::prelude::*;

use crate::cell_path::CellPath;
use crate::error::{type_text, ShellError};
use crate::operate::{operate, operate_model, paths_view};
use crate::pipeline::{pd_items, Interrupt, PipelineData};
use crate::span::Span;
use crate::url_host::url_ok;
use crate::value::{model_type, wf_model, ValModel, Value};

verus! {

pub uninterp spec fn query_of(s: Seq<char>) -> Seq<char>;

/// Relies on url's `Url::parse` and `Url::query`: whether the text
/// parses, and which query it carries (the empty string where it has
/// none), depend on the text alone.
#[verifier::external_body]
fn parse_query(s: &String) -> (r: Option<String>)
    ensures
        (r is Some) == url_ok(s@),
        r matches Option::Some(h) ==> h@ == query_of(s@),
{
    match url::Url::parse(s.as_str()) {
        Ok(u) => Option::Some(String::from(u.query().unwrap_or(""))),
        Err(_) => Option::None,
    }
}

/// The image of one element: a parsable url string answers its query, an
/// unparsable one becomes an error value, and so does a non-string.
pub open spec fn query_action_model(m: ValModel, head: Span) -> ValModel {
    match m {
        ValModel::String { val, span } => if url_ok(val) {
            ValModel::String { val: query_of(val), span: head }
        } else {
            ValModel::Error {
                error: crate::error::ErrModel::UnsupportedInput(
                    "Incomplete or incorrect url"@,
                    span,
                ),
            }
        },
        _ => ValModel::Error {
            error: crate::error::ErrModel::UnsupportedInput(
                "Expected a string, got "@ + type_text(model_type(m)),
                head,
            ),
        },
    }
}

/// Reads the query of one url value.
pub fn query(input: &Value, head: &Span) -> (r: Value)
    ensures
        r@ == query_action_model(input@, *head),
        wf_model(r@),
{
    match input {
        Value::String { val, span } => match parse_query(val) {
            Option::Some(h) => Value::String { val: h, span: *head },
            Option::None => {
                let msg = String::from_str("Incomplete or incorrect url");
                proof {
                    reveal_strlit("Incomplete or incorrect url");
                    assert(msg@ =~= "Incomplete or incorrect url"@);
                }
                Value::Error { error: ShellError::UnsupportedInput(msg, *span) }
            },
        },
        other => {
            let ty = other.get_type();
            let msg = String::from_str("Expected a string, got ").concat(ty.label().as_str());
            proof {
                reveal_strlit("Expected a string, got ");
                assert(msg@ =~= "Expected a string, got "@ + type_text(model_type(input@)));
            }
            Value::Error { error: ShellError::UnsupportedInput(msg, *head) }
        },
    }
}

/// The url query command.
pub struct SubCommand;

impl SubCommand {
    pub fn name(&self) -> (r: String)
        ensures
            r@ == "url query"@,
    {
        String::from_str("url query")
    }

    pub fn usage(&self) -> (r: String)
        ensures
            r@ == "gets the query of a url"@,
    {
        String::from_str("gets the query of a url")
    }

    /// Reads the query of every element, or of the addressed cells only.
    pub fn run(
        &self,
        input: PipelineData,
        column_paths: &Vec<CellPath>,
        head: Span,
        ctrlc: Option<Interrupt>,
    ) -> (r: Result<PipelineData, ShellError>)
        requires
            forall|k: int|
                0 <= k < pd_items(input@).len() ==> wf_model(#[trigger] pd_items(input@)[k]),
        ensures
            r matches Ok(pd) && pd@ is Stream && pd@->Stream_0.len() <= pd_items(input@).len()
                && (forall|k: int|
                0 <= k < pd@->Stream_0.len() ==> #[trigger] pd@->Stream_0[k] == operate_model(
                    pd_items(input@)[k],
                    paths_view(column_paths@),
                    |m: ValModel| query_action_model(m, head),
                )) && (ctrlc is None ==> pd@->Stream_0.len() == pd_items(input@).len()),
    {
        let f = |v: &Value| -> (nv: Value)
            ensures
                nv@ == query_action_model(v@, head) && wf_model(nv@),
            { query(v, &head) };
        let r = operate(
            input,
            column_paths,
            f,
            ctrlc,
            Ghost(|m: ValModel| query_action_model(m, head)),
        );
        Result::Ok(r)
    }
}

} // verus!
