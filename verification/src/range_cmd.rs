//! The row-range filter: returns only the selected rows of the input.
//!
//! A non-negative range never materializes the input; an end-relative
//! (negative) bound must buffer the whole input first, since a
//! single-pass stream cannot be indexed from its end, and that cost is
//! paid only when a negative bound actually occurs.

use vstd::prelude::*;

use crate::error::ShellError;
use crate::pipeline::{pd_items, Interrupt, PdModel, PipelineData, ValueStream};
use crate::span::Span;
use crate::value::{vmodel, vmodels, lemma_vmodels, ValModel, Value};

verus! {

broadcast use vstd::std_specs::vec::group_vec_axioms;

/// The numeric bound a range endpoint carries: its integer value, or
/// zero for any other kind of value.
pub open spec fn range_val_model(m: ValModel) -> int {
    match m {
        ValModel::Int { val, .. } => val as int,
        _ => 0,
    }
}

/// Reads one range endpoint.
pub fn get_range_val(rows_val: &Value) -> (r: i64)
    ensures
        r as int == range_val_model(rows_val@),
{
    match rows_val {
        Value::Int { val, .. } => *val,
        _ => 0,
    }
}

/// The rows the filter selects: bounds are taken inclusive; a negative
/// bound counts back from the end; a backwards range selects nothing at
/// all and answers a single nothing-value. A negative start that still
/// lies before the beginning selects nothing; an end past the last row
/// is clamped to it.
pub open spec fn range_rows_model(items: Seq<ValModel>, f: int, t: int, head: Span) -> PdModel {
    let n = items.len() as int;
    if f < 0 || t < 0 {
        let from2 = if f < 0 {
            n + f
        } else {
            f
        };
        let to2 = if t < 0 {
            n + t
        } else if t > n {
            n
        } else {
            t
        };
        if from2 < 0 {
            PdModel::Value(ValModel::Nothing { span: head })
        } else if to2 < 0 {
            PdModel::Stream(items.subrange(if from2 > n {
                n
            } else {
                from2
            }, n))
        } else if from2 > to2 {
            PdModel::Value(ValModel::Nothing { span: head })
        } else {
            PdModel::Stream(
                items.subrange(
                    if from2 > n {
                        n
                    } else {
                        from2
                    },
                    if to2 + 1 > n {
                        n
                    } else if to2 + 1 < from2 {
                        from2
                    } else {
                        to2 + 1
                    },
                ),
            )
        }
    } else {
        if f > t {
            PdModel::Value(ValModel::Nothing { span: head })
        } else {
            PdModel::Stream(
                items.subrange(
                    if f > n {
                        n
                    } else {
                        f
                    },
                    if t + 1 > n {
                        n
                    } else if t + 1 < f {
                        f
                    } else {
                        t + 1
                    },
                ),
            )
        }
    }
}

/// Copies `items[lo..hi]` out of a value list.
#[verifier::loop_isolation(false)]
fn slice_rows(items: &Vec<Value>, lo: usize, hi: usize) -> (r: Vec<Value>)
    requires
        lo <= hi <= items@.len(),
    ensures
        vmodels(r@) == vmodels(items@).subrange(lo as int, hi as int),
{
    proof {
        lemma_vmodels(items@);
    }
    let mut out: Vec<Value> = Vec::new();
    let mut i: usize = lo;
    while i < hi
        invariant
            lo <= i <= hi,
            out@.len() == i - lo,
            forall|k: int| 0 <= k < out@.len() ==> vmodel(#[trigger] out@[k]) == vmodel(
                items@[lo + k],
            ),
        decreases hi - i,
    {
        let v = items[i].clone();
        out.push(v);
        i = i + 1;
    }
    proof {
        lemma_vmodels(out@);
        assert(vmodels(out@) =~= vmodels(items@).subrange(lo as int, hi as int)) by {
            lemma_vmodels(items@);
            assert forall|k: int|
                0 <= k < vmodels(out@).len() implies vmodels(out@)[k] == vmodels(items@).subrange(
                lo as int,
                hi as int,
            )[k] by {
                assert(vmodels(out@)[k] == vmodel(out@[k]));
            }
        }
    }
    out
}

/// The row-range command.
pub struct Range;

impl Range {
    pub fn name(&self) -> (r: String)
        ensures
            r@ == "range"@,
    {
        String::from_str("range")
    }

    pub fn usage(&self) -> (r: String)
        ensures
            r@ == "Return only the selected rows."@,
    {
        String::from_str("Return only the selected rows.")
    }

    /// Selects the rows between the two endpoint values, each read with
    /// `get_range_val`.
    #[verifier::loop_isolation(false)]
    pub fn run(
        &self,
        input: PipelineData,
        rows_from: &Value,
        rows_to: &Value,
        head: Span,
        ctrlc: Option<Interrupt>,
    ) -> (r: Result<PipelineData, ShellError>)
        ensures
            r matches Ok(pd) && pd@ == range_rows_model(
                pd_items(input@),
                range_val_model(rows_from@),
                range_val_model(rows_to@),
                head,
            ),
    {
        let f = get_range_val(rows_from);
        let t = get_range_val(rows_to);
        let ghost items = pd_items(input@);
        let stream = input.into_value_stream(Option::None);
        let invals = stream.vals;
        proof {
            lemma_vmodels(invals@);
        }
        let n = invals.len();
        let fw: i128 = if f < 0 {
            n as i128 + f as i128
        } else {
            f as i128
        };
        let tw: i128 = if t < 0 {
            n as i128 + t as i128
        } else if t as i128 > n as i128 {
            n as i128
        } else {
            t as i128
        };
        if f < 0 || t < 0 {
            if fw < 0 {
                return Result::Ok(PipelineData::Value(Value::Nothing { span: head }));
            }
            if tw < 0 {
                let lo: usize = if fw > n as i128 {
                    n
                } else {
                    fw as usize
                };
                let sliced = slice_rows(&invals, lo, n);
                return Result::Ok(
                    PipelineData::Stream(ValueStream { vals: sliced, ctrlc }),
                );
            }
            if fw > tw {
                return Result::Ok(PipelineData::Value(Value::Nothing { span: head }));
            }
            let lo: usize = if fw > n as i128 {
                n
            } else {
                fw as usize
            };
            let hi: usize = if tw + 1 > n as i128 {
                n
            } else if tw + 1 < lo as i128 {
                lo
            } else {
                (tw + 1) as usize
            };
            let sliced = slice_rows(&invals, lo, hi);
            Result::Ok(PipelineData::Stream(ValueStream { vals: sliced, ctrlc }))
        } else {
            if f > t {
                return Result::Ok(PipelineData::Value(Value::Nothing { span: head }));
            }
            let lo: usize = if f as i128 > n as i128 {
                n
            } else {
                f as usize
            };
            let hi: usize = if t as i128 + 1 > n as i128 {
                n
            } else if (t as i128) + 1 < lo as i128 {
                lo
            } else {
                ((t as i128) + 1) as usize
            };
            let sliced = slice_rows(&invals, lo, hi);
            Result::Ok(PipelineData::Stream(ValueStream { vals: sliced, ctrlc }))
        }
    }
}

} // verus!
