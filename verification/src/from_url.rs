//! The converter that parses a url-encoded string into a record.

use vstd::prelude::*;

use crate::error::{ErrModel, ShellError};
use crate::pipeline::{joined_text, pd_items, PdModel, PipelineData};
use crate::span::Span;
use crate::value::{vmodels, lemma_vmodels, ValModel, Value};

verus! {

broadcast use vstd::std_specs::vec::group_vec_axioms;

pub uninterp spec fn url_decoded(s: Seq<char>) -> Option<Seq<(Seq<char>, Seq<char>)>>;

/// Relies on serde_urlencoded's `from_str` into a list of key/value
/// string pairs: whether the text decodes, and into which pairs in
/// which order, depend on the text alone.
#[verifier::external_body]
fn urlencoded_pairs(s: &String) -> (r: Option<Vec<(String, String)>>)
    ensures
        (match r {
            Option::Some(v) => Option::Some(v.deep_view()),
            Option::None => Option::None,
        }) == url_decoded(s@),
{
    match serde_urlencoded::from_str::<Vec<(String, String)>>(s.as_str()) {
        Ok(v) => Option::Some(v),
        Err(_) => Option::None,
    }
}

/// The record a decoded pair list yields: keys as columns, values as
/// string children, all at the command's span.
pub open spec fn url_record_model(pairs: Seq<(Seq<char>, Seq<char>)>, head: Span) -> ValModel {
    ValModel::Record {
        cols: Seq::new(pairs.len(), |i: int| pairs[i].0),
        vals: Seq::new(pairs.len(), |i: int| ValModel::String { val: pairs[i].1, span: head }),
        span: head,
    }
}

/// Collects the input to one string and parses it as a url-encoded
/// form: on success a record of its pairs in decoding order, otherwise
/// an unsupported-input diagnostic at the command's span.
#[verifier::loop_isolation(false)]
pub fn from_url(input: PipelineData, head: Span) -> (r: Result<PipelineData, ShellError>)
    ensures
        ({
            let text = joined_text(pd_items(input@), Seq::empty(), pd_items(input@).len() as int);
            match url_decoded(text) {
                Option::Some(pairs) => r matches Ok(pd) && pd@ == PdModel::Value(
                    url_record_model(pairs, head),
                ),
                Option::None => r matches Err(e) && e@ == ErrModel::UnsupportedInput(
                    "String not compatible with url-encoding"@,
                    head,
                ),
            }
        }),
{
    let empty_sep = String::new();
    let concat_string = input.collect_string(empty_sep.as_str());
    match urlencoded_pairs(&concat_string) {
        Option::Some(result) => {
            let ghost pairs = result.deep_view();
            let mut cols: Vec<String> = Vec::new();
            let mut vals: Vec<Value> = Vec::new();
            let mut i: usize = 0;
            while i < result.len()
                invariant
                    pairs == result.deep_view(),
                    pairs.len() == result@.len(),
                    0 <= i <= result@.len(),
                    cols@.len() == i as int,
                    vals@.len() == i as int,
                    vmodels(vals@).len() == i as int,
                    forall|k: int| 0 <= k < i ==> cols@[k]@ == pairs[k].0,
                    forall|k: int|
                        0 <= k < i ==> #[trigger] vmodels(vals@)[k] == (ValModel::String {
                            val: pairs[k].1,
                            span: head,
                        }),
                decreases result@.len() - i,
            {
                let ghost prevals = vals@;
                let k0 = result[i].0.clone();
                let v0 = result[i].1.clone();
                cols.push(k0);
                vals.push(Value::String { val: v0, span: head });
                proof {
                    lemma_vmodels(vals@);
                    lemma_vmodels(prevals);
                    assert(pairs[i as int] == result@[i as int].deep_view());
                    assert forall|k: int|
                        0 <= k < i + 1 implies #[trigger] vmodels(vals@)[k] == (ValModel::String {
                        val: pairs[k].1,
                        span: head,
                    }) by {
                        if k < i {
                            assert(vmodels(vals@)[k] == vmodels(prevals)[k]) by {
                                assert(vals@[k] == prevals[k]);
                            }
                        } else {
                            assert(vmodels(vals@)[k] == crate::value::vmodel(vals@[k]));
                        }
                    }
                }
                i = i + 1;
            }
            let rec = Value::Record { cols, vals, span: head };
            proof {
                assert(crate::value::vmodel(rec) =~= url_record_model(pairs, head)) by {
                    assert(crate::value::strs_view(rec->Record_cols@) =~= Seq::new(
                        pairs.len(),
                        |i: int| pairs[i].0,
                    ));
                    assert(vmodels(rec->Record_vals@) =~= Seq::new(
                        pairs.len(),
                        |i: int| ValModel::String { val: pairs[i].1, span: head },
                    ));
                }
            }
            Result::Ok(PipelineData::Value(rec))
        },
        Option::None => {
            let msg = String::from_str("String not compatible with url-encoding");
            proof {
                reveal_strlit("String not compatible with url-encoding");
                assert(msg@ =~= "String not compatible with url-encoding"@);
            }
            Result::Err(ShellError::UnsupportedInput(msg, head))
        },
    }
}

/// The url-form converter command.
pub struct FromUrl;

impl FromUrl {
    pub fn name(&self) -> (r: String)
        ensures
            r@ == "from url"@,
    {
        String::from_str("from url")
    }

    pub fn usage(&self) -> (r: String)
        ensures
            r@ == "Parse url-encoded string as a table."@,
    {
        String::from_str("Parse url-encoded string as a table.")
    }

    /// Parses the collected input text as a url-encoded form.
    pub fn run(&self, input: PipelineData, head: Span) -> (r: Result<PipelineData, ShellError>)
        ensures
            ({
                let text = joined_text(
                    pd_items(input@),
                    Seq::empty(),
                    pd_items(input@).len() as int,
                );
                match url_decoded(text) {
                    Option::Some(pairs) => r matches Ok(pd) && pd@ == PdModel::Value(
                        url_record_model(pairs, head),
                    ),
                    Option::None => r matches Err(e) && e@ == ErrModel::UnsupportedInput(
                        "String not compatible with url-encoding"@,
                        head,
                    ),
                }
            }),
    {
        from_url(input, head)
    }
}

} // verus!
