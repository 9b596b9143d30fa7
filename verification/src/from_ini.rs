//! The converter that parses ini text into a record of sections.

use vstd::prelude::*;

use crate::error::{ErrModel, ShellError};
use crate::pipeline::{joined_text, pd_items, PdModel, PipelineData};
use crate::span::Span;
use crate::value::{vmodels, lemma_vmodels, ValModel, Value};

verus! {

broadcast use vstd::std_specs::vec::group_vec_axioms;

pub uninterp spec fn ini_parsed(s: Seq<char>) -> Option<
    Seq<(Seq<char>, Seq<(Seq<char>, Seq<char>)>)>,
>;

pub uninterp spec fn ini_err_of(s: Seq<char>) -> Seq<char>;

/// Relies on serde_ini's `from_str` into an insertion-ordered map of
/// sections, each a map of properties: whether the text parses, the
/// sections and properties in order, and the failure's rendering all
/// depend on the text alone.
#[verifier::external_body]
fn ini_sections(s: &String) -> (r: Result<Vec<(String, Vec<(String, String)>)>, String>)
    ensures
        (match r {
            Result::Ok(v) => Option::Some(v.deep_view()),
            Result::Err(_) => Option::None,
        }) == ini_parsed(s@),
        r matches Result::Err(m) ==> m@ == ini_err_of(s@),
{
    let v: Result<
        indexmap::IndexMap<String, indexmap::IndexMap<String, String>>,
        serde_ini::de::Error,
    > = serde_ini::from_str(s.as_str());
    match v {
        Ok(m) => Ok(
            m.into_iter().map(|(k, sec)| (k, sec.into_iter().collect::<Vec<_>>())).collect(),
        ),
        Err(e) => Err(format!("{}", e)),
    }
}

/// One parsed section as a record of its properties.
pub open spec fn ini_section_model(props: Seq<(Seq<char>, Seq<char>)>, span: Span) -> ValModel {
    ValModel::Record {
        cols: Seq::new(props.len(), |i: int| props[i].0),
        vals: Seq::new(props.len(), |i: int| ValModel::String { val: props[i].1, span }),
        span,
    }
}

/// The whole parse as a record of sections.
pub open spec fn ini_model(
    secs: Seq<(Seq<char>, Seq<(Seq<char>, Seq<char>)>)>,
    span: Span,
) -> ValModel {
    ValModel::Record {
        cols: Seq::new(secs.len(), |i: int| secs[i].0),
        vals: Seq::new(secs.len(), |i: int| ini_section_model(secs[i].1, span)),
        span,
    }
}

/// Builds one section's record.
#[verifier::loop_isolation(false)]
fn build_section(props: &Vec<(String, String)>, span: Span) -> (r: Value)
    ensures
        crate::value::vmodel(r) == ini_section_model(props.deep_view(), span),
{
    let ghost pv = props.deep_view();
    let mut cols: Vec<String> = Vec::new();
    let mut vals: Vec<Value> = Vec::new();
    let mut i: usize = 0;
    while i < props.len()
        invariant
            pv == props.deep_view(),
            pv.len() == props@.len(),
            0 <= i <= props@.len(),
            cols@.len() == i as int,
            vals@.len() == i as int,
            vmodels(vals@).len() == i as int,
            forall|k: int| 0 <= k < i ==> cols@[k]@ == pv[k].0,
            forall|k: int|
                0 <= k < i ==> #[trigger] vmodels(vals@)[k] == (ValModel::String {
                    val: pv[k].1,
                    span,
                }),
        decreases props@.len() - i,
    {
        let ghost prevals = vals@;
        cols.push(props[i].0.clone());
        vals.push(Value::String { val: props[i].1.clone(), span });
        proof {
            lemma_vmodels(vals@);
            lemma_vmodels(prevals);
            assert(pv[i as int] == props@[i as int].deep_view());
            assert forall|k: int|
                0 <= k < i + 1 implies #[trigger] vmodels(vals@)[k] == (ValModel::String {
                val: pv[k].1,
                span,
            }) by {
                if k < i {
                    assert(vmodels(vals@)[k] == vmodels(prevals)[k]) by {
                        assert(vals@[k] == prevals[k]);
                    }
                } else {
                    assert(vmodels(vals@)[k] == crate::value::vmodel(vals@[k]));
                }
            }
        }
        i = i + 1;
    }
    let rec = Value::Record { cols, vals, span };
    proof {
        assert(crate::value::vmodel(rec) =~= ini_section_model(pv, span)) by {
            assert(crate::value::strs_view(rec->Record_cols@) =~= Seq::new(
                pv.len(),
                |i: int| pv[i].0,
            ));
            assert(vmodels(rec->Record_vals@) =~= Seq::new(
                pv.len(),
                |i: int| ValModel::String { val: pv[i].1, span },
            ));
        }
    }
    rec
}

/// Parses ini text into a record whose columns are the sections in
/// parse order, each section a record of its properties; an unparsable
/// text fails with the parser's rendering of the failure.
#[verifier::loop_isolation(false)]
pub fn from_ini_string_to_value(s: String, span: Span) -> (r: Result<Value, ShellError>)
    ensures
        (match ini_parsed(s@) {
            Option::Some(secs) => r matches Ok(v) && crate::value::vmodel(v) == ini_model(
                secs,
                span,
            ),
            Option::None => r matches Err(e) && e@ == ErrModel::UnsupportedInput(
                "Could not load ini: "@ + ini_err_of(s@),
                span,
            ),
        }),
{
    match ini_sections(&s) {
        Result::Ok(secs) => {
            let ghost sv = secs.deep_view();
            let mut cols: Vec<String> = Vec::new();
            let mut vals: Vec<Value> = Vec::new();
            let mut i: usize = 0;
            while i < secs.len()
                invariant
                    sv == secs.deep_view(),
                    sv.len() == secs@.len(),
                    0 <= i <= secs@.len(),
                    cols@.len() == i as int,
                    vals@.len() == i as int,
                    vmodels(vals@).len() == i as int,
                    forall|k: int| 0 <= k < i ==> cols@[k]@ == sv[k].0,
                    forall|k: int|
                        0 <= k < i ==> #[trigger] vmodels(vals@)[k] == ini_section_model(
                            sv[k].1,
                            span,
                        ),
                decreases secs@.len() - i,
            {
                let ghost prevals = vals@;
                cols.push(secs[i].0.clone());
                let sec = build_section(&secs[i].1, span);
                vals.push(sec);
                proof {
                    lemma_vmodels(vals@);
                    lemma_vmodels(prevals);
                    assert(sv[i as int] == secs@[i as int].deep_view());
                    assert forall|k: int|
                        0 <= k < i + 1 implies #[trigger] vmodels(vals@)[k] == ini_section_model(
                        sv[k].1,
                        span,
                    ) by {
                        if k < i {
                            assert(vmodels(vals@)[k] == vmodels(prevals)[k]) by {
                                assert(vals@[k] == prevals[k]);
                            }
                        } else {
                            assert(vmodels(vals@)[k] == crate::value::vmodel(vals@[k]));
                        }
                    }
                }
                i = i + 1;
            }
            let rec = Value::Record { cols, vals, span };
            proof {
                assert(crate::value::vmodel(rec) =~= ini_model(sv, span)) by {
                    assert(crate::value::strs_view(rec->Record_cols@) =~= Seq::new(
                        sv.len(),
                        |i: int| sv[i].0,
                    ));
                    assert(vmodels(rec->Record_vals@) =~= Seq::new(
                        sv.len(),
                        |i: int| ini_section_model(sv[i].1, span),
                    ));
                }
            }
            Result::Ok(rec)
        },
        Result::Err(err) => {
            let msg = String::from_str("Could not load ini: ").concat(err.as_str());
            proof {
                reveal_strlit("Could not load ini: ");
                assert(msg@ =~= "Could not load ini: "@ + ini_err_of(s@));
            }
            Result::Err(ShellError::UnsupportedInput(msg, span))
        },
    }
}

/// The ini converter command.
pub struct FromIni;

impl FromIni {
    pub fn name(&self) -> (r: String)
        ensures
            r@ == "from ini"@,
    {
        String::from_str("from ini")
    }

    pub fn usage(&self) -> (r: String)
        ensures
            r@ == "Parse text as .ini and create table"@,
    {
        String::from_str("Parse text as .ini and create table")
    }

    /// Collects the input to one string and parses it as ini text.
    pub fn run(&self, input: PipelineData, head: Span) -> (r: Result<PipelineData, ShellError>)
        ensures
            ({
                let text = joined_text(
                    pd_items(input@),
                    Seq::empty(),
                    pd_items(input@).len() as int,
                );
                match ini_parsed(text) {
                    Option::Some(secs) => r matches Ok(pd) && pd@ == PdModel::Value(
                        ini_model(secs, head),
                    ),
                    Option::None => r matches Err(e) && e@ == ErrModel::UnsupportedInput(
                        "Could not load ini: "@ + ini_err_of(text),
                        head,
                    ),
                }
            }),
    {
        let empty_sep = String::new();
        let concat_string = input.collect_string(empty_sep.as_str());
        match from_ini_string_to_value(concat_string, head) {
            Result::Ok(x) => Result::Ok(PipelineData::Value(x)),
            Result::Err(other) => Result::Err(other),
        }
    }
}

} // verus!
