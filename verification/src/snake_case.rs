//! The SCREAMING_SNAKE_CASE string conversion command.

use vstd::prelude::*;

use crate::cell_path::CellPath;
use crate::error::{type_text, ShellError};
use crate::operate::{operate, operate_model, paths_view};
use crate::pipeline::{pd_items, Interrupt, PipelineData};
use crate::span::Span;
use crate::value::{model_type, wf_model, ValModel, Value};

verus! {

pub uninterp spec fn screaming_snake_of(s: Seq<char>) -> Seq<char>;

/// Relies on inflector's `to_screaming_snake_case`: the result depends
/// on the input characters alone.
#[verifier::external_body]
fn to_screaming_snake(s: &String) -> (r: String)
    ensures
        r@ == screaming_snake_of(s@),
{
    inflector::cases::screamingsnakecase::to_screaming_snake_case(s.as_str())
}

/// The image of one element under the conversion: a string converts,
/// anything else becomes an error value naming the offending type.
pub open spec fn case_action_model(m: ValModel, head: Span) -> ValModel {
    match m {
        ValModel::String { val, span } => ValModel::String { val: screaming_snake_of(val), span },
        _ => ValModel::Error {
            error: crate::error::ErrModel::UnsupportedInput(
                "Input's type is "@ + type_text(model_type(m))
                    + ". This command only works with strings."@,
                head,
            ),
        },
    }
}

/// Converts one value, turning a non-string into an error value.
pub fn action(input: &Value, head: Span) -> (r: Value)
    ensures
        r@ == case_action_model(input@, head),
        wf_model(r@),
{
    match input {
        Value::String { val, span } => Value::String { val: to_screaming_snake(val), span: *span },
        other => {
            let ty = other.get_type();
            let msg = String::from_str("Input's type is ").concat(ty.label().as_str()).concat(
                ". This command only works with strings.",
            );
            proof {
                reveal_strlit("Input's type is ");
                reveal_strlit(". This command only works with strings.");
                assert(msg@ =~= "Input's type is "@ + type_text(model_type(input@))
                    + ". This command only works with strings."@);
            }
            Value::Error { error: ShellError::UnsupportedInput(msg, head) }
        },
    }
}

/// The SCREAMING_SNAKE_CASE conversion command.
pub struct SubCommand;

impl SubCommand {
    pub fn name(&self) -> (r: String)
        ensures
            r@ == "str screaming-snake-case"@,
    {
        String::from_str("str screaming-snake-case")
    }

    pub fn usage(&self) -> (r: String)
        ensures
            r@ == "converts a string to SCREAMING_SNAKE_CASE"@,
    {
        String::from_str("converts a string to SCREAMING_SNAKE_CASE")
    }

    /// Converts every element, or only the addressed cells of each row
    /// when column paths were given.
    pub fn run(
        &self,
        input: PipelineData,
        column_paths: &Vec<CellPath>,
        head: Span,
        ctrlc: Option<Interrupt>,
    ) -> (r: Result<PipelineData, ShellError>)
        requires
            forall|k: int|
                0 <= k < pd_items(input@).len() ==> wf_model(#[trigger] pd_items(input@)[k]),
        ensures
            r matches Ok(pd) && pd@ is Stream && pd@->Stream_0.len() <= pd_items(input@).len()
                && (forall|k: int|
                0 <= k < pd@->Stream_0.len() ==> #[trigger] pd@->Stream_0[k] == operate_model(
                    pd_items(input@)[k],
                    paths_view(column_paths@),
                    |m: ValModel| case_action_model(m, head),
                )) && (ctrlc is None ==> pd@->Stream_0.len() == pd_items(input@).len()),
    {
        let f = |v: &Value| -> (nv: Value)
            ensures
                nv@ == case_action_model(v@, head) && wf_model(nv@),
            { action(v, head) };
        let r = operate(
            input,
            column_paths,
            f,
            ctrlc,
            Ghost(|m: ValModel| case_action_model(m, head)),
        );
        Result::Ok(r)
    }
}

} // verus!
