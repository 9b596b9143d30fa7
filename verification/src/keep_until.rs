//! The filter that keeps input elements until a predicate first holds.

use vstd::prelude::*;

use crate::error::ShellError;
use crate::pipeline::{pd_items, Interrupt, PdModel, PipelineData, ValueStream};
use crate::value::{vmodel, vmodels, lemma_vmodels, ValModel, Value};

verus! {

broadcast use vstd::std_specs::vec::group_vec_axioms;

/// What one predicate call promises: `b` is an answer the predicate can
/// give for the element.
pub open spec fn pred_said<F: Fn(&Value) -> bool>(f: F, v: ValModel, b: bool) -> bool {
    exists|a: Value| a@ == v && #[trigger] f.ensures((&a,), b)
}

/// The keep-until filter command.
pub struct KeepUntil;

impl KeepUntil {
    pub fn name(&self) -> (r: String)
        ensures
            r@ == "keep until"@,
    {
        String::from_str("keep until")
    }

    pub fn usage(&self) -> (r: String)
        ensures
            r@ == "Keep elements of the input until a predicate is true."@,
    {
        String::from_str("Keep elements of the input until a predicate is true.")
    }

    /// Keeps the longest prefix of elements the predicate rejected: the
    /// output holds exactly the input elements before the first one the
    /// predicate accepted, in order; the accepted element and everything
    /// after it are dropped. A raised cancellation flag may cut the
    /// prefix short, which is no error.
    #[verifier::loop_isolation(false)]
    pub fn run<F: Fn(&Value) -> bool>(
        &self,
        input: PipelineData,
        predicate: F,
        ctrlc: Option<Interrupt>,
    ) -> (r: Result<PipelineData, ShellError>)
        requires
            forall|v: &Value| predicate.requires((v,)),
        ensures
            r matches Ok(pd) && {
                let items = pd_items(input@);
                &&& pd@ is Stream
                &&& pd@->Stream_0.len() <= items.len()
                &&& forall|k: int|
                    0 <= k < pd@->Stream_0.len() ==> #[trigger] pd@->Stream_0[k] == items[k]
                &&& forall|k: int|
                    0 <= k < pd@->Stream_0.len() ==> pred_said(
                        predicate,
                        #[trigger] pd@->Stream_0[k],
                        false,
                    )
                &&& (ctrlc is None && pd@->Stream_0.len() < items.len()) ==> pred_said(
                    predicate,
                    items[pd@->Stream_0.len() as int],
                    true,
                )
            },
    {
        let ghost items = pd_items(input@);
        let stream = input.into_value_stream(Option::None);
        let invals = stream.vals;
        proof {
            lemma_vmodels(invals@);
        }
        let mut out: Vec<Value> = Vec::new();
        let mut i: usize = 0;
        let mut stopped = false;
        let mut hit = false;
        let ghost mut wits: Seq<Value> = Seq::empty();
        while i < invals.len() && !stopped && !hit
            invariant
                forall|v: &Value| predicate.requires((v,)),
                items.len() == invals@.len(),
                forall|x: int| 0 <= x < invals@.len() ==> #[trigger] items[x] == vmodel(
                    invals@[x],
                ),
                0 <= i <= invals@.len(),
                out@.len() == i as int,
                vmodels(out@).len() == out@.len(),
                stopped ==> ctrlc is Some,
                wits.len() == i as int,
                forall|k: int| 0 <= k < i ==> #[trigger] vmodels(out@)[k] == items[k],
                forall|k: int|
                    0 <= k < i ==> (#[trigger] wits[k])@ == items[k] && predicate.ensures(
                        (&wits[k],),
                        false,
                    ),
                hit ==> i < invals@.len() && pred_said(predicate, items[i as int], true),
            decreases invals@.len() - i + (if stopped || hit {
                0int
            } else {
                1int
            }),
        {
            let cancelled = match &ctrlc {
                Option::Some(intr) => intr.is_triggered(),
                Option::None => false,
            };
            if cancelled {
                stopped = true;
            } else {
                let accept = predicate(&invals[i]);
                if accept {
                    proof {
                        assert(invals@[i as int]@ == items[i as int]);
                    }
                    hit = true;
                } else {
                    let ghost preout = out@;
                    let v = invals[i].clone();
                    proof {
                        wits = wits.push(invals@[i as int]);
                    }
                    out.push(v);
                    proof {
                        lemma_vmodels(out@);
                        lemma_vmodels(preout);
                        assert forall|k: int|
                            0 <= k < i + 1 implies #[trigger] vmodels(out@)[k] == items[k] by {
                            if k < i {
                                assert(vmodels(out@)[k] == vmodels(preout)[k]) by {
                                    assert(out@[k] == preout[k]);
                                }
                            } else {
                                assert(vmodels(out@)[k] == vmodel(out@[k]));
                            }
                        }
                    }
                    i = i + 1;
                }
            }
        }
        proof {
            lemma_vmodels(out@);
        }
        let ghost outm = vmodels(out@);
        let rp = PipelineData::Stream(ValueStream { vals: out, ctrlc });
        proof {
            assert(rp@ matches PdModel::Stream(oo) && oo == outm);
            assert forall|k: int|
                0 <= k < rp@->Stream_0.len() implies #[trigger] rp@->Stream_0[k] == items[k]
                && pred_said(predicate, rp@->Stream_0[k], false) by {
                assert(rp@->Stream_0[k] == outm[k]);
                let a = wits[k];
                assert(a@ == items[k] && predicate.ensures((&a,), false));
            }
        }
        Result::Ok(rp)
    }
}

} // verus!
