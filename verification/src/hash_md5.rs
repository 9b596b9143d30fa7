//! The md5 digest command: hashes a string's bytes or a binary buffer
//! and renders the digest in lowercase hexadecimal.

use vstd::prelude::*;

use crate::cell_path::CellPath;
use crate::error::{type_text, ShellError};
use crate::operate::{operate, operate_model, paths_view};
use crate::pipeline::{pd_items, Interrupt, PipelineData};
use crate::span::Span;
use crate::text::hex_text;
use crate::value::{model_type, wf_model, ValModel, Value};

verus! {

pub uninterp spec fn md5_of(data: Seq<u8>) -> Seq<u8>;

/// Relies on md5's `compute`: the sixteen-byte digest depends on the
/// input bytes alone.
#[verifier::external_body]
fn md5_digest(data: &Vec<u8>) -> (r: Vec<u8>)
    ensures
        r@ == md5_of(data@),
        r@.len() == 16,
{
    md5::compute(data.as_slice()).0.to_vec()
}

/// The image of one element: strings hash their encoded bytes, binary
/// buffers hash as they are, both rendering the digest in hexadecimal;
/// anything else becomes an error value naming the offending type.
pub open spec fn md5_action_model(m: ValModel, head: Span) -> ValModel {
    match m {
        ValModel::String { val, span } => ValModel::String {
            val: hex_text(md5_of(vstd::utf8::encode_utf8(val))),
            span,
        },
        ValModel::Binary { val, span } => ValModel::String { val: hex_text(md5_of(val)), span },
        _ => ValModel::Error {
            error: crate::error::ErrModel::UnsupportedInput(
                "Type "@ + type_text(model_type(m)) + " is not supported"@,
                head,
            ),
        },
    }
}

/// Hashes one value.
pub fn action(input: &Value) -> (r: Value)
    ensures
        r@ == md5_action_model(input@, Span { start: 0, end: 0 }),
        wf_model(r@),
{
    action_at(input, &Span { start: 0, end: 0 })
}

/// Hashes one value, anchoring failures at the command's span.
pub fn action_at(input: &Value, head: &Span) -> (r: Value)
    ensures
        r@ == md5_action_model(input@, *head),
        wf_model(r@),
{
    match input {
        Value::String { val, span } => {
            let bytes = val.as_str().as_bytes_vec();
            let digest = md5_digest(&bytes);
            Value::String { val: crate::text::bytes_to_hex(&digest), span: *span }
        },
        Value::Binary { val, span } => {
            let digest = md5_digest(val);
            Value::String { val: crate::text::bytes_to_hex(&digest), span: *span }
        },
        other => {
            let ty = other.get_type();
            let msg = String::from_str("Type ").concat(ty.label().as_str()).concat(
                " is not supported",
            );
            proof {
                reveal_strlit("Type ");
                reveal_strlit(" is not supported");
                assert(msg@ =~= "Type "@ + type_text(model_type(input@)) + " is not supported"@);
            }
            Value::Error { error: ShellError::UnsupportedInput(msg, *head) }
        },
    }
}

/// The md5 digest command.
pub struct HashMd5;

impl HashMd5 {
    pub fn name(&self) -> (r: String)
        ensures
            r@ == "hash md5"@,
    {
        String::from_str("hash md5")
    }

    /// Hashes every element, or only the addressed cells of each row.
    pub fn run(
        &self,
        input: PipelineData,
        column_paths: &Vec<CellPath>,
        head: Span,
        ctrlc: Option<Interrupt>,
    ) -> (r: Result<PipelineData, ShellError>)
        requires
            forall|k: int|
                0 <= k < pd_items(input@).len() ==> wf_model(#[trigger] pd_items(input@)[k]),
        ensures
            r matches Ok(pd) && pd@ is Stream && pd@->Stream_0.len() <= pd_items(input@).len()
                && (forall|k: int|
                0 <= k < pd@->Stream_0.len() ==> #[trigger] pd@->Stream_0[k] == operate_model(
                    pd_items(input@)[k],
                    paths_view(column_paths@),
                    |m: ValModel| md5_action_model(m, head),
                )) && (ctrlc is None ==> pd@->Stream_0.len() == pd_items(input@).len()),
    {
        let f = |v: &Value| -> (nv: Value)
            ensures
                nv@ == md5_action_model(v@, head) && wf_model(nv@),
            { action_at(v, &head) };
        let r = operate(
            input,
            column_paths,
            f,
            ctrlc,
            Ghost(|m: ValModel| md5_action_model(m, head)),
        );
        Result::Ok(r)
    }
}

} // verus!
