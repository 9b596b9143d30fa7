//! The shared per-cell operation behind the string-transforming
//! commands: apply an action to every element of a pipeline, or, when
//! column paths were given, rewrite exactly the addressed cells of every
//! row, turning a per-row traversal failure into an error value in that
//! row's place rather than aborting the whole pipeline. Cancellation is
//! inherited from the pipeline map.

use vstd::prelude::*;

use crate::cell_path::{follow_model, update_model, CellPath, PmModel};
use crate::pipeline::{pd_items, Interrupt, PdModel, PipelineData, ValueStream};
use crate::value::{vmodel, vmodels, lemma_vmodels, wf_model, ValModel, Value};

verus! {

broadcast use vstd::std_specs::vec::group_vec_axioms;

/// The image of one element after the paths starting at `i` are
/// rewritten in order with the action `g` at each addressed cell. The
/// first traversal failure becomes the element's image and ends the
/// walk.
pub open spec fn apply_paths_model(
    m: ValModel,
    paths: Seq<Seq<PmModel>>,
    i: int,
    g: spec_fn(ValModel) -> ValModel,
) -> ValModel
    decreases paths.len() - i,
{
    if i < 0 || i >= paths.len() {
        m
    } else {
        match follow_model(m, paths[i], 0) {
            Result::Ok(lv) => apply_paths_model(
                update_model(m, paths[i], 0, g(lv)),
                paths,
                i + 1,
                g,
            ),
            Result::Err(e) => ValModel::Error { error: e },
        }
    }
}

/// The image of one element under the whole operation: the action
/// itself when no paths were given, else the path rewrite.
pub open spec fn operate_model(
    m: ValModel,
    paths: Seq<Seq<PmModel>>,
    g: spec_fn(ValModel) -> ValModel,
) -> ValModel {
    if paths.len() == 0 {
        g(m)
    } else {
        apply_paths_model(m, paths, 0, g)
    }
}

/// The views of a path list.
pub open spec fn paths_view(paths: Seq<CellPath>) -> Seq<Seq<PmModel>> {
    Seq::new(paths.len(), |i: int| paths[i].members.deep_view())
}

/// Applies the action over the pipeline: element by element without
/// paths, cell by cell with them. The output stream holds, in order,
/// the image of every input element up to the point cancellation was
/// observed; without a cancellation flag it is complete.
#[verifier::loop_isolation(false)]
pub fn operate<F: Fn(&Value) -> Value>(
    input: PipelineData,
    column_paths: &Vec<CellPath>,
    f: F,
    ctrlc: Option<Interrupt>,
    Ghost(g): Ghost<spec_fn(ValModel) -> ValModel>,
) -> (r: PipelineData)
    requires
        forall|v: &Value| f.requires((v,)),
        forall|a: &Value, b: Value| #[trigger] f.ensures((a,), b) ==> b@ == g(a@) && wf_model(b@),
        forall|k: int| 0 <= k < pd_items(input@).len() ==> wf_model(#[trigger] pd_items(input@)[k]),
    ensures
        r@ is Stream,
        r@->Stream_0.len() <= pd_items(input@).len(),
        forall|k: int|
            0 <= k < r@->Stream_0.len() ==> #[trigger] r@->Stream_0[k] == operate_model(
                pd_items(input@)[k],
                paths_view(column_paths@),
                g,
            ),
        ctrlc is None ==> r@->Stream_0.len() == pd_items(input@).len(),
{
    let ghost items = pd_items(input@);
    let ghost pathsv = paths_view(column_paths@);
    let stream = input.into_value_stream(Option::None);
    let invals = stream.vals;
    proof {
        lemma_vmodels(invals@);
    }
    let mut out: Vec<Value> = Vec::new();
    let mut i: usize = 0;
    let mut stopped = false;
    while i < invals.len() && !stopped
        invariant
            items.len() == invals@.len(),
            forall|x: int| 0 <= x < invals@.len() ==> #[trigger] items[x] == vmodel(invals@[x]),
            0 <= i <= invals@.len(),
            out@.len() == i as int,
            vmodels(out@).len() == out@.len(),
            stopped ==> ctrlc is Some,
            forall|k: int|
                0 <= k < i ==> #[trigger] vmodels(out@)[k] == operate_model(items[k], pathsv, g),
        decreases invals@.len() - i + (if stopped {
            0int
        } else {
            1int
        }),
    {
        let cancelled = match &ctrlc {
            Option::Some(intr) => intr.is_triggered(),
            Option::None => false,
        };
        if cancelled {
            stopped = true;
        } else {
            let ghost preout = out@;
            proof {
                assert(pd_items(input@)[i as int] == items[i as int]);
                assert(wf_model(items[i as int]));
            }
            let nv = operate_one(&invals[i], column_paths, &f, Ghost(g));
            out.push(nv);
            proof {
                lemma_vmodels(out@);
                lemma_vmodels(preout);
                assert forall|k: int|
                    0 <= k < i + 1 implies #[trigger] vmodels(out@)[k] == operate_model(
                    items[k],
                    pathsv,
                    g,
                ) by {
                    if k < i {
                        assert(vmodels(out@)[k] == vmodels(preout)[k]) by {
                            assert(out@[k] == preout[k]);
                        }
                    } else {
                        assert(vmodels(out@)[k] == vmodel(nv));
                    }
                }
            }
            i = i + 1;
        }
    }
    proof {
        lemma_vmodels(out@);
    }
    let ghost outm = vmodels(out@);
    let r = PipelineData::Stream(ValueStream { vals: out, ctrlc });
    proof {
        assert(r@ matches PdModel::Stream(oo) && oo == outm);
        assert forall|k: int|
            0 <= k < r@->Stream_0.len() implies #[trigger] r@->Stream_0[k] == operate_model(
            pd_items(input@)[k],
            pathsv,
            g,
        ) by {
            assert(r@->Stream_0[k] == outm[k]);
            assert(pd_items(input@)[k] == items[k]);
        }
    }
    r
}

/// One element's worth of the operation.
#[verifier::loop_isolation(false)]
fn operate_one<F: Fn(&Value) -> Value>(
    v: &Value,
    column_paths: &Vec<CellPath>,
    f: &F,
    Ghost(g): Ghost<spec_fn(ValModel) -> ValModel>,
) -> (r: Value)
    requires
        forall|lv: &Value| f.requires((lv,)),
        forall|a: &Value, b: Value| #[trigger] f.ensures((a,), b) ==> b@ == g(a@) && wf_model(b@),
        wf_model(v@),
    ensures
        r@ == operate_model(v@, paths_view(column_paths@), g),
{
    let ghost pathsv = paths_view(column_paths@);
    if column_paths.len() == 0 {
        let rv = f(v);
        return rv;
    }
    let mut ret = v.clone();
    let mut p: usize = 0;
    while p < column_paths.len()
        invariant
            0 <= p <= column_paths@.len(),
            wf_model(ret@),
            apply_paths_model(v@, pathsv, 0, g) == apply_paths_model(ret@, pathsv, p as int, g),
        decreases column_paths@.len() - p,
    {
        let ghost pre = ret@;
        let cl = |old_v: &Value| -> (nv: Value)
            ensures
                nv@ == g(old_v@) && wf_model(nv@),
            { f(old_v) };
        let res = ret.update_cell_path(&column_paths[p].members, cl);
        proof {
            assert(pathsv[p as int] == column_paths@[p as int].members.deep_view());
        }
        match res {
            Result::Ok(()) => {
                proof {
                    let (lv, nv) = choose|lv: Value, nv: Value|
                        Result::Ok::<ValModel, crate::error::ErrModel>(lv@) == follow_model(
                            pre,
                            pathsv[p as int],
                            0,
                        ) && #[trigger] call_ensures(cl, (&lv,), nv) && ret@ == update_model(
                            pre,
                            pathsv[p as int],
                            0,
                            nv@,
                        );
                    assert(apply_paths_model(pre, pathsv, p as int, g) == apply_paths_model(
                        ret@,
                        pathsv,
                        p as int + 1,
                        g,
                    ));
                    crate::cell_path::lemma_update_wf(pre, pathsv[p as int], 0, nv@);
                }
            },
            Result::Err(e) => {
                let rv = Value::Error { error: e };
                proof {
                    assert(apply_paths_model(pre, pathsv, p as int, g) == (ValModel::Error {
                        error: e@,
                    }));
                }
                return rv;
            },
        }
        p = p + 1;
    }
    ret
}

} // verus!
