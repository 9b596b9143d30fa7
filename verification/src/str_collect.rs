//! The command that collects a whole pipeline into one string.

use vstd::prelude::*;

use crate::error::ShellError;
use crate::pipeline::{joined_text, pd_items, PipelineData};
use crate::span::Span;
use crate::value::{ValModel, Value};

verus! {

/// The string-collecting command: renders every element to text and
/// joins the pieces, with an optional separator between them.
pub struct StrCollect;

impl StrCollect {
    pub fn name(&self) -> (r: String)
        ensures
            r@ == "str collect"@,
    {
        String::from_str("str collect")
    }

    pub fn usage(&self) -> (r: String)
        ensures
            r@ == "creates a string from the input, optionally using a separator"@,
    {
        String::from_str("creates a string from the input, optionally using a separator")
    }

    /// Collects the pipeline into a single string value at the call's
    /// span: every element rendered in order, joined by the separator,
    /// or by nothing when none was given. This is an intentional,
    /// eager collection point.
    pub fn run(
        &self,
        input: PipelineData,
        separator: Option<String>,
        head: Span,
    ) -> (r: Result<PipelineData, ShellError>)
        ensures
            r matches Ok(pd) && pd@ == crate::pipeline::PdModel::Value(
                ValModel::String {
                    val: joined_text(
                        pd_items(input@),
                        match separator {
                            Option::Some(s) => s@,
                            Option::None => Seq::empty(),
                        },
                        pd_items(input@).len() as int,
                    ),
                    span: head,
                },
            ),
    {
        let output = match &separator {
            Option::Some(s) => input.collect_string(s.as_str()),
            Option::None => {
                let empty = String::new();
                let o = input.collect_string(empty.as_str());
                o
            },
        };
        Result::Ok(PipelineData::Value(Value::String { val: output, span: head }))
    }
}

} // verus!
