//! The command that strips ansi escape sequences out of strings.

use vstd::prelude::*;

use crate::cell_path::CellPath;
use crate::error::{type_text, ShellError};
use crate::operate::{operate, operate_model, paths_view};
use crate::pipeline::{pd_items, Interrupt, PipelineData};
use crate::span::Span;
use crate::value::{model_span, model_type, wf_model, ValModel, Value};

verus! {

pub uninterp spec fn ansi_stripped_of(s: Seq<char>) -> Seq<char>;

/// Relies on strip-ansi-escapes' `strip` over the string's bytes,
/// decoded back leniently: the result depends on the input characters
/// alone, and an input the stripper refuses comes back unchanged.
#[verifier::external_body]
fn strip_ansi(s: &String) -> (r: String)
    ensures
        r@ == ansi_stripped_of(s@),
{
    match strip_ansi_escapes::strip(s.as_bytes()) {
        Ok(b) => String::from_utf8_lossy(&b).to_string(),
        Err(_) => s.clone(),
    }
}

/// The image of one element: a string is stripped and keeps its span;
/// anything else becomes an error value naming the offending type,
/// anchored at the value's own span where it has one.
pub open spec fn strip_action_model(m: ValModel, head: Span) -> ValModel {
    match m {
        ValModel::String { val, span } => ValModel::String { val: ansi_stripped_of(val), span },
        _ => ValModel::Error {
            error: crate::error::ErrModel::TypeMismatch(
                "value is "@ + type_text(model_type(m)) + ", not string"@,
                if m is Error {
                    head
                } else {
                    model_span(m)
                },
            ),
        },
    }
}

/// Strips one value, turning a non-string into an error value.
pub fn action(input: &Value, command_span: &Span) -> (r: Value)
    ensures
        r@ == strip_action_model(input@, *command_span),
        wf_model(r@),
{
    match input {
        Value::String { val, span } => {
            let stripped_string = strip_ansi(val);
            Value::String { val: stripped_string, span: *span }
        },
        other => {
            let ty = other.get_type();
            let msg = String::from_str("value is ").concat(ty.label().as_str()).concat(
                ", not string",
            );
            proof {
                reveal_strlit("value is ");
                reveal_strlit(", not string");
                assert(msg@ =~= "value is "@ + type_text(model_type(input@)) + ", not string"@);
            }
            let sp = match other {
                Value::Error { .. } => *command_span,
                _ => other.span(),
            };
            Value::Error { error: ShellError::TypeMismatch(msg, sp) }
        },
    }
}

/// The ansi strip command.
pub struct SubCommand;

impl SubCommand {
    pub fn name(&self) -> (r: String)
        ensures
            r@ == "ansi strip"@,
    {
        String::from_str("ansi strip")
    }

    pub fn usage(&self) -> (r: String)
        ensures
            r@ == "strip ansi escape sequences from string"@,
    {
        String::from_str("strip ansi escape sequences from string")
    }

    /// Strips every element, or only the addressed cells of each row
    /// when column paths were given.
    pub fn run(
        &self,
        input: PipelineData,
        column_paths: &Vec<CellPath>,
        head: Span,
        ctrlc: Option<Interrupt>,
    ) -> (r: Result<PipelineData, ShellError>)
        requires
            forall|k: int|
                0 <= k < pd_items(input@).len() ==> wf_model(#[trigger] pd_items(input@)[k]),
        ensures
            r matches Ok(pd) && pd@ is Stream && pd@->Stream_0.len() <= pd_items(input@).len()
                && (forall|k: int|
                0 <= k < pd@->Stream_0.len() ==> #[trigger] pd@->Stream_0[k] == operate_model(
                    pd_items(input@)[k],
                    paths_view(column_paths@),
                    |m: ValModel| strip_action_model(m, head),
                )) && (ctrlc is None ==> pd@->Stream_0.len() == pd_items(input@).len()),
    {
        let f = |v: &Value| -> (nv: Value)
            ensures
                nv@ == strip_action_model(v@, head) && wf_model(nv@),
            { action(v, &head) };
        let r = operate(
            input,
            column_paths,
            f,
            ctrlc,
            Ghost(|m: ValModel| strip_action_model(m, head)),
        );
        Result::Ok(r)
    }
}

} // verus!
