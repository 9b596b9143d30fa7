//! The streaming envelope between pipeline stages.
//!
//! A `PipelineData` is one of nothing, a single fully materialized
//! value, or a stream: a single-pass producer of values that supports
//! cooperative cancellation through a shared interrupt flag. Every
//! row-transforming command goes through `map`, which checks the flag
//! between elements and stops early without error when it is raised, so
//! cancellation comes for free and the truncated output is an ordered
//! prefix of the complete one. Elements are delivered in exactly the
//! order the producer yields them.

use vstd::prelude::*;

use crate::error::ShellError;
use crate::span::Span;
use crate::value::{vmodel, vmodels, lemma_vmodels, ValModel, Value};

verus! {

broadcast use vstd::std_specs::vec::group_vec_axioms;

/// A shared cancellation flag: one holder raises it, every consumer
/// polls it between elements. What a poll answers depends on the other
/// holders, so nothing is promised of the outcome; everything the
/// engine guarantees holds whatever a poll returns.
pub struct Interrupt {
    flag: std::sync::Arc<core::sync::atomic::AtomicBool>,
}

impl Interrupt {
    /// Relies on `AtomicBool::new`: allocates a fresh shared flag.
    #[verifier::external_body]
    pub fn new() -> Interrupt {
        Interrupt { flag: std::sync::Arc::new(core::sync::atomic::AtomicBool::new(false)) }
    }

    /// Relies on `AtomicBool::load`: answers the flag's current value.
    /// Another holder may raise it at any moment, so no outcome is
    /// promised.
    #[verifier::external_body]
    pub fn is_triggered(&self) -> bool {
        self.flag.load(core::sync::atomic::Ordering::SeqCst)
    }

    /// Relies on `AtomicBool::store`: raises the flag.
    #[verifier::external_body]
    pub fn trigger(&self) {
        self.flag.store(true, core::sync::atomic::Ordering::SeqCst)
    }
}

impl Clone for Interrupt {
    /// Relies on `Arc::clone`: the clone shares the same flag.
    #[verifier::external_body]
    fn clone(&self) -> Interrupt {
        Interrupt { flag: std::sync::Arc::clone(&self.flag) }
    }
}

/// A single-pass producer of values, optionally cancellable. The values
/// it will yield, in order, are its mathematical image.
pub struct ValueStream {
    pub vals: Vec<Value>,
    pub ctrlc: Option<Interrupt>,
}

impl View for ValueStream {
    type V = Seq<ValModel>;

    open spec fn view(&self) -> Seq<ValModel> {
        vmodels(self.vals@)
    }
}

impl ValueStream {
    /// A stream over the given values.
    pub fn from_vec(vals: Vec<Value>, ctrlc: Option<Interrupt>) -> (r: ValueStream)
        ensures
            r@ == vmodels(vals@),
    {
        ValueStream { vals, ctrlc }
    }

    /// Pulls the next value; the stream is single-pass, so the value is
    /// gone from it afterwards.
    pub fn next(&mut self) -> (r: Option<Value>)
        ensures
            old(self)@.len() == 0 ==> r is None && final(self)@ == old(self)@,
            old(self)@.len() > 0 ==> (r matches Option::Some(v) && v@ == old(self)@[0]
                && final(self)@ == old(self)@.skip(1)),
    {
        proof {
            lemma_vmodels(self.vals@);
        }
        if self.vals.len() == 0 {
            Option::None
        } else {
            let ghost oldvals = self.vals@;
            let v = self.vals.remove(0);
            proof {
                lemma_vmodels(self.vals@);
                assert(self.vals@ =~= oldvals.skip(1));
                assert(vmodels(self.vals@) =~= vmodels(oldvals).skip(1)) by {
                    lemma_vmodels(oldvals);
                    lemma_vmodels(oldvals.skip(1));
                    assert forall|k: int|
                        0 <= k < vmodels(oldvals).skip(1).len() implies vmodels(oldvals).skip(
                        1,
                    )[k] == vmodels(oldvals.skip(1))[k] by {
                        assert(oldvals.skip(1)[k] == oldvals[k + 1]);
                    }
                }
            }
            Option::Some(v)
        }
    }
}

/// The mathematical image of a pipeline envelope.
#[verifier::ext_equal]
pub ghost enum PdModel {
    Empty,
    Value(ValModel),
    Stream(Seq<ValModel>),
}

/// The envelope between two pipeline stages: nothing, one materialized
/// value, or a stream.
pub enum PipelineData {
    Empty,
    Value(Value),
    Stream(ValueStream),
}

impl View for PipelineData {
    type V = PdModel;

    open spec fn view(&self) -> PdModel {
        match *self {
            PipelineData::Empty => PdModel::Empty,
            PipelineData::Value(v) => PdModel::Value(vmodel(v)),
            PipelineData::Stream(s) => PdModel::Stream(vmodels(s.vals@)),
        }
    }
}

/// What one mapped element promises: the output at a position is a
/// possible answer of the transformation on the input at that position.
pub open spec fn map_entry_ok<F: Fn(&Value) -> Value>(f: F, src: ValModel, dst: ValModel) -> bool {
    exists|a: Value, b: Value| a@ == src && b@ == dst && #[trigger] f.ensures((&a,), b)
}

/// The elements iterating an envelope yields: a record or a list
/// expands to its children, a stream forwards its own elements, any
/// other single value is yielded once, and nothing yields nothing.
pub open spec fn pd_items(m: PdModel) -> Seq<ValModel> {
    match m {
        PdModel::Empty => Seq::empty(),
        PdModel::Value(v) => match v {
            ValModel::List { vals, .. } => vals,
            ValModel::Record { vals, .. } => vals,
            _ => seq![v],
        },
        PdModel::Stream(items) => items,
    }
}

impl PipelineData {
    /// Turns the envelope into the stream of its elements, in producer
    /// order.
    pub fn into_value_stream(self, ctrlc: Option<Interrupt>) -> (r: ValueStream)
        ensures
            r@ == pd_items(self@),
    {
        match self {
            PipelineData::Empty => ValueStream { vals: Vec::new(), ctrlc },
            PipelineData::Value(v) => match v {
                Value::List { vals, .. } => ValueStream { vals, ctrlc },
                Value::Record { vals, .. } => ValueStream { vals, ctrlc },
                other => {
                    let mut vs: Vec<Value> = Vec::new();
                    let ghost om = vmodel(other);
                    vs.push(other);
                    proof {
                        lemma_vmodels(vs@);
                        assert(vmodels(vs@) =~= seq![om]);
                    }
                    ValueStream { vals: vs, ctrlc }
                },
            },
            PipelineData::Stream(s) => ValueStream { vals: s.vals, ctrlc },
        }
    }

    /// Materializes the whole envelope into one value: a stream becomes
    /// a list of everything it would have produced, or nothing at all
    /// when it was empty. This is the deliberate collection point that
    /// end-relative consumers pay for.
    pub fn into_value(self, span: Span) -> (r: Value)
        ensures
            self@ is Value ==> r@ == self@->Value_0,
            self@ is Empty ==> r@ == (ValModel::Nothing { span }),
            self@ matches PdModel::Stream(items) ==> if items.len() == 0 {
                r@ == (ValModel::Nothing { span })
            } else {
                r@ == (ValModel::List { vals: items, span })
            },
    {
        match self {
            PipelineData::Empty => Value::Nothing { span },
            PipelineData::Value(v) => v,
            PipelineData::Stream(s) => {
                if s.vals.len() == 0 {
                    proof {
                        lemma_vmodels(s.vals@);
                    }
                    Value::Nothing { span }
                } else {
                    Value::List { vals: s.vals, span }
                }
            },
        }
    }

    /// Applies a transformation to every element, checking the shared
    /// cancellation flag between elements: once the flag is observed
    /// raised, consumption stops and what was already produced is the
    /// result, with no error — the output is a prefix of the complete
    /// output, aligned element for element with the input. Without a
    /// flag the output is complete.
    pub fn map<F: Fn(&Value) -> Value>(self, f: F, ctrlc: Option<Interrupt>) -> (r: PipelineData)
        requires
            forall|v: &Value| f.requires((v,)),
        ensures
            r@ is Stream,
            r@->Stream_0.len() <= pd_items(self@).len(),
            forall|k: int|
                0 <= k < r@->Stream_0.len() ==> #[trigger] map_entry_ok(
                    f,
                    pd_items(self@)[k],
                    r@->Stream_0[k],
                ),
            ctrlc is None ==> r@->Stream_0.len() == pd_items(self@).len(),
    {
        let ghost items = pd_items(self@);
        let stream = self.into_value_stream(Option::None);
        let invals = stream.vals;
        proof {
            lemma_vmodels(invals@);
        }
        let mut out: Vec<Value> = Vec::new();
        let mut i: usize = 0;
        let mut stopped = false;
        let ghost mut wits: Seq<(Value, Value)> = Seq::empty();
        while i < invals.len() && !stopped
            invariant
                forall|v: &Value| f.requires((v,)),
                items == vmodels(invals@),
                items.len() == invals@.len(),
                forall|x: int| 0 <= x < invals@.len() ==> #[trigger] items[x] == vmodel(
                    invals@[x],
                ),
                0 <= i <= invals@.len(),
                out@.len() == i as int,
                vmodels(out@).len() == out@.len(),
                stopped ==> ctrlc is Some,
                wits.len() == i as int,
                forall|k: int|
                    0 <= k < i ==> ((#[trigger] wits[k]).0@ == items[k] && wits[k].1@ == vmodels(
                        out@,
                    )[k] && f.ensures((&wits[k].0,), wits[k].1)),
            decreases invals@.len() - i + (if stopped {
                0int
            } else {
                1int
            }),
        {
            let cancelled = match &ctrlc {
                Option::Some(intr) => intr.is_triggered(),
                Option::None => false,
            };
            if cancelled {
                stopped = true;
            } else {
                let ghost preout = out@;
                let nv = f(&invals[i]);
                proof {
                    wits = wits.push((invals@[i as int], nv));
                }
                out.push(nv);
                proof {
                    lemma_vmodels(out@);
                    lemma_vmodels(preout);
                    assert forall|k: int|
                        0 <= k < i + 1 implies ((#[trigger] wits[k]).0@ == items[k] && wits[k].1@
                        == vmodels(out@)[k] && f.ensures((&wits[k].0,), wits[k].1)) by {
                        if k < i {
                            assert(vmodels(out@)[k] == vmodels(preout)[k]) by {
                                assert(out@[k] == preout[k]);
                            }
                        } else {
                            assert(wits[k] == (invals@[i as int], nv));
                            assert(vmodels(out@)[k] == vmodel(nv));
                        }
                    }
                }
                i = i + 1;
            }
        }
        proof {
            lemma_vmodels(out@);
        }
        let ghost outm = vmodels(out@);
        let r = PipelineData::Stream(ValueStream { vals: out, ctrlc });
        proof {
            assert(r@ matches PdModel::Stream(oo) && oo == outm);
            assert forall|k: int|
                0 <= k < r@->Stream_0.len() implies #[trigger] map_entry_ok(
                f,
                pd_items(self@)[k],
                r@->Stream_0[k],
            ) by {
                assert(r@->Stream_0[k] == outm[k]);
                let a = wits[k].0;
                let b = wits[k].1;
                assert(pd_items(self@)[k] == items[k]);
                assert(a@ == pd_items(self@)[k] && b@ == r@->Stream_0[k] && f.ensures((&a,), b));
            }
        }
        r
    }

    /// `map` for a transformation with a known mathematical image: the
    /// output at every index is exactly `g` of the input there. The same
    /// cancellation rule applies: a raised flag truncates the output to
    /// a prefix, and without a flag the output is complete.
    pub fn map_exact<F: Fn(&Value) -> Value>(
        self,
        f: F,
        ctrlc: Option<Interrupt>,
        Ghost(g): Ghost<spec_fn(ValModel) -> ValModel>,
    ) -> (r: PipelineData)
        requires
            forall|v: &Value| f.requires((v,)),
            forall|a: &Value, b: Value| #[trigger] f.ensures((a,), b) ==> b@ == g(a@),
        ensures
            r@ is Stream,
            r@->Stream_0.len() <= pd_items(self@).len(),
            forall|k: int|
                0 <= k < r@->Stream_0.len() ==> #[trigger] r@->Stream_0[k] == g(
                    pd_items(self@)[k],
                ),
            ctrlc is None ==> r@->Stream_0.len() == pd_items(self@).len(),
    {
        let ghost items = pd_items(self@);
        let stream = self.into_value_stream(Option::None);
        let invals = stream.vals;
        proof {
            lemma_vmodels(invals@);
        }
        let mut out: Vec<Value> = Vec::new();
        let mut i: usize = 0;
        let mut stopped = false;
        while i < invals.len() && !stopped
            invariant
                forall|v: &Value| f.requires((v,)),
                forall|a: &Value, b: Value| #[trigger] f.ensures((a,), b) ==> b@ == g(a@),
                items == vmodels(invals@),
                items.len() == invals@.len(),
                forall|x: int| 0 <= x < invals@.len() ==> #[trigger] items[x] == vmodel(
                    invals@[x],
                ),
                0 <= i <= invals@.len(),
                out@.len() == i as int,
                vmodels(out@).len() == out@.len(),
                stopped ==> ctrlc is Some,
                forall|k: int|
                    0 <= k < i ==> #[trigger] vmodels(out@)[k] == g(items[k]),
            decreases invals@.len() - i + (if stopped {
                0int
            } else {
                1int
            }),
        {
            let cancelled = match &ctrlc {
                Option::Some(intr) => intr.is_triggered(),
                Option::None => false,
            };
            if cancelled {
                stopped = true;
            } else {
                let ghost preout = out@;
                let nv = f(&invals[i]);
                out.push(nv);
                proof {
                    lemma_vmodels(out@);
                    lemma_vmodels(preout);
                    assert forall|k: int|
                        0 <= k < i + 1 implies #[trigger] vmodels(out@)[k] == g(items[k]) by {
                        if k < i {
                            assert(vmodels(out@)[k] == vmodels(preout)[k]) by {
                                assert(out@[k] == preout[k]);
                            }
                        } else {
                            assert(vmodels(out@)[k] == vmodel(nv));
                        }
                    }
                }
                i = i + 1;
            }
        }
        proof {
            lemma_vmodels(out@);
        }
        let ghost outm = vmodels(out@);
        let r = PipelineData::Stream(ValueStream { vals: out, ctrlc });
        proof {
            assert(r@ matches PdModel::Stream(oo) && oo == outm);
            assert forall|k: int|
                0 <= k < r@->Stream_0.len() implies #[trigger] r@->Stream_0[k] == g(
                pd_items(self@)[k],
            ) by {
                assert(r@->Stream_0[k] == outm[k]);
                assert(pd_items(self@)[k] == items[k]);
            }
        }
        r
    }

    /// Renders every element to text and joins the pieces with the
    /// separator: the deliberate, eager collection point text-oriented
    /// converters use.
    #[verifier::loop_isolation(false)]
    pub fn collect_string(self, separator: &str) -> (r: String)
        ensures
            r@ == joined_text(pd_items(self@), separator@, pd_items(self@).len() as int),
    {
        let ghost items = pd_items(self@);
        let stream = self.into_value_stream(Option::None);
        let invals = stream.vals;
        proof {
            lemma_vmodels(invals@);
        }
        let mut r = String::new();
        let mut i: usize = 0;
        while i < invals.len()
            invariant
                items == vmodels(invals@),
                items.len() == invals@.len(),
                forall|x: int| 0 <= x < invals@.len() ==> #[trigger] items[x] == vmodel(
                    invals@[x],
                ),
                0 <= i <= invals@.len(),
                r@ == joined_text(items, separator@, i as int),
            decreases invals@.len() - i,
        {
            if i > 0 {
                r.append(separator);
            }
            let piece = invals[i].into_string();
            r.append(piece.as_str());
            proof {
                assert(r@ =~= joined_text(items, separator@, i as int + 1));
            }
            i = i + 1;
        }
        r
    }
}

/// The first `n` renderings joined by the separator.
pub open spec fn joined_text(items: Seq<ValModel>, sep: Seq<char>, n: int) -> Seq<char>
    decreases n,
{
    if n <= 0 || n > items.len() {
        Seq::empty()
    } else if n == 1 {
        crate::text::text_of(items[0])
    } else {
        joined_text(items, sep, n - 1) + sep + crate::text::text_of(items[n - 1])
    }
}

/// Splits values round-robin over `workers` buckets, remembering each
/// value's original index: bucket `k` holds, in order, the elements at
/// indices `k`, `k + workers`, `k + 2*workers`, and so on. The split is
/// deterministic, so workers can run independently and the results be
/// put back in original order afterwards.
pub fn partition_by_index(vals: Vec<Value>, workers: usize) -> (r: Vec<Vec<(usize, Value)>>)
    requires
        workers >= 1,
    ensures
        r@.len() == workers,
        forall|k: int, t: int|
            0 <= k < workers && 0 <= t < r@[k]@.len() ==> (#[trigger] r@[k]@[t]).0 == k + t
                * workers && r@[k]@[t].0 < vals@.len() && vmodel(r@[k]@[t].1) == vmodel(
                vals@[k + t * workers],
            ),
        forall|k: int|
            0 <= k < workers ==> (#[trigger] r@[k]@.len()) * workers + k >= vals@.len(),
{
    let n = vals.len();
    let mut r: Vec<Vec<(usize, Value)>> = Vec::new();
    let mut k: usize = 0;
    while k < workers
        invariant
            workers >= 1,
            n == vals@.len(),
            0 <= k <= workers,
            r@.len() == k as int,
            forall|kk: int, t: int|
                0 <= kk < k && 0 <= t < r@[kk]@.len() ==> (#[trigger] r@[kk]@[t]).0 == kk + t
                    * workers && r@[kk]@[t].0 < vals@.len() && vmodel(r@[kk]@[t].1) == vmodel(
                    vals@[kk + t * workers],
                ),
            forall|kk: int|
                0 <= kk < k ==> (#[trigger] r@[kk]@.len()) * workers + kk >= vals@.len(),
        decreases workers - k,
    {
        let mut bucket: Vec<(usize, Value)> = Vec::new();
        let mut i: usize = k;
        let mut t: usize = 0;
        let mut done = false;
        proof {
            assert(k + 0 * workers == k) by (nonlinear_arith);
        }
        while i < n && !done
            invariant
                workers >= 1,
                0 <= k < workers,
                n == vals@.len(),
                bucket@.len() == t as int,
                !done ==> i == k + t * workers,
                done ==> t * workers + k >= n && t >= 1,
                forall|x: int|
                    0 <= x < t ==> (#[trigger] bucket@[x]).0 == k + x * workers
                        && bucket@[x].0 < vals@.len() && vmodel(bucket@[x].1) == vmodel(
                        vals@[k + x * workers],
                    ),
            decreases n - i + (if done {
                0int
            } else {
                1int
            }),
        {
            let v = vals[i].clone();
            bucket.push((i, v));
            proof {
                assert((k + t * workers) + workers == k + (t + 1) * workers) by (nonlinear_arith);
            }
            t = bucket.len();
            if workers < n - i {
                i = i + workers;
            } else {
                proof {
                    assert(t * workers + k >= n) by (nonlinear_arith)
                        requires
                            i == k + (t - 1) * workers,
                            i + workers >= n,
                            workers >= 1,
                            t >= 1,
                    ;
                }
                done = true;
            }
        }
        proof {
            if !done {
                assert(i >= n);
                assert(t * workers + k >= n) by (nonlinear_arith)
                    requires
                        i == k + t * workers,
                        i >= n,
                ;
            }
            assert(bucket@.len() * workers + k >= vals@.len());
        }
        r.push(bucket);
        k = k + 1;
    }
    r
}

/// Puts round-robin buckets back into one ordered list: the element at
/// original index `i` is the one bucket `i % workers` holds at position
/// `i / workers`. Together with `partition_by_index` this is how the
/// explicit parallel evaluator preserves output order by original
/// index, whatever its worker scheduling did.
#[verifier::loop_isolation(false)]
pub fn reassemble(n: usize, parts: Vec<Vec<(usize, Value)>>) -> (r: Result<
    Vec<Value>,
    ShellError,
>)
    requires
        parts@.len() >= 1,
        forall|k: int, t: int|
            0 <= k < parts@.len() && 0 <= t < parts@[k]@.len() ==> (#[trigger] parts@[k]@[t]).0
                == k + t * parts@.len(),
        forall|k: int|
            0 <= k < parts@.len() ==> (#[trigger] parts@[k]@.len()) * parts@.len() + k >= n,
    ensures
        r matches Ok(out) && out@.len() == n && forall|i: int|
            0 <= i < n ==> vmodel(#[trigger] out@[i]) == vmodel(
                parts@[i % parts@.len() as int]@[i / parts@.len() as int].1,
            ),
{
    let w = parts.len();
    let mut out: Vec<Value> = Vec::new();
    let mut i: usize = 0;
    while i < n
        invariant
            w == parts@.len(),
            w >= 1,
            forall|k: int, t: int|
                0 <= k < parts@.len() && 0 <= t < parts@[k]@.len() ==> (#[trigger] parts@[k]@[t]).0
                    == k + t * parts@.len(),
            forall|k: int|
                0 <= k < parts@.len() ==> (#[trigger] parts@[k]@.len()) * parts@.len() + k >= n,
            0 <= i <= n,
            out@.len() == i as int,
            forall|x: int|
                0 <= x < i ==> vmodel(#[trigger] out@[x]) == vmodel(
                    parts@[x % parts@.len() as int]@[x / parts@.len() as int].1,
                ),
        decreases n - i,
    {
        let k = i % w;
        let t = i / w;
        proof {
            assert(k < w);
            assert(t * w + k == i) by (nonlinear_arith)
                requires
                    k == i % w,
                    t == i / w,
                    w >= 1,
            ;
            assert(t < parts@[k as int]@.len()) by (nonlinear_arith)
                requires
                    parts@[k as int]@.len() * w + k >= n,
                    t * w + k == i,
                    i < n,
                    w >= 1,
                    t >= 0,
            ;
        }
        let v = parts[k][t].1.clone();
        out.push(v);
        i = i + 1;
    }
    Result::Ok(out)
}

/// Output order is decided by original index alone: when every bucket
/// entry holds the image of the input at its recorded index under one
/// transformation, the reassembled element at index `i` is exactly the
/// transformation of the input at `i` — what a purely sequential map
/// would have produced there, regardless of how many workers ran or
/// how they were scheduled.
pub proof fn lemma_parallel_order_preserved(
    vals: Seq<ValModel>,
    parts: Seq<Seq<(usize, ValModel)>>,
    out: Seq<ValModel>,
    g: spec_fn(ValModel) -> ValModel,
    w: int,
)
    requires
        w >= 1,
        parts.len() == w,
        forall|k: int, t: int|
            0 <= k < w && 0 <= t < parts[k].len() ==> (#[trigger] parts[k][t]).0 == k + t * w && k
                + t * w < vals.len() && parts[k][t].1 == g(vals[k + t * w]),
        out.len() == vals.len(),
        forall|i: int| 0 <= i < out.len() ==> #[trigger] out[i] == parts[i % w][i / w].1,
        forall|k: int| 0 <= k < w ==> (#[trigger] parts[k].len()) * w + k >= vals.len(),
    ensures
        forall|i: int| 0 <= i < vals.len() ==> #[trigger] out[i] == g(vals[i]),
{
    assert forall|i: int| 0 <= i < vals.len() implies #[trigger] out[i] == g(vals[i]) by {
        let k = i % w;
        let t = i / w;
        assert(0 <= k < w);
        assert(t >= 0);
        assert(t * w + k == i) by (nonlinear_arith)
            requires
                k == i % w,
                t == i / w,
                w >= 1,
                i >= 0,
        ;
        assert(t < parts[k].len()) by (nonlinear_arith)
            requires
                parts[k].len() * w + k >= vals.len(),
                t * w + k == i,
                i < vals.len(),
                w >= 1,
                t >= 0,
        ;
        assert(parts[k][t].0 == k + t * w);
        assert(parts[k][t].1 == g(vals[k + t * w]));
    }
}

} // verus!
