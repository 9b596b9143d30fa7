//! The structured value model: the tagged union every pipeline stage
//! produces and consumes, together with its mathematical image.
//!
//! A `Value` either is a scalar, carries nested values (records keep an
//! ordered column list parallel to their children), or wraps a diagnostic,
//! so that per-row failures can flow through a pipeline as data. Every
//! contract in the crate speaks about values through `ValModel`, the ghost
//! image in which strings and byte buffers are sequences.

use vstd::prelude::*;

use crate::error::{ErrModel, ShellError, Type};
use crate::span::Span;

verus! {

broadcast use vstd::std_specs::vec::group_vec_axioms;

/// A runtime value. Every variant but the composite ones carries the span
/// of the expression it originated from.
#[derive(Debug)]
pub enum Value {
    Nothing { span: Span },
    Bool { val: bool, span: Span },
    Int { val: i64, span: Span },
    String { val: std::string::String, span: Span },
    Binary { val: Vec<u8>, span: Span },
    /// Ordered unique column names and the parallel child values.
    Record { cols: Vec<std::string::String>, vals: Vec<Value>, span: Span },
    List { vals: Vec<Value>, span: Span },
    /// A numeric range with stride; `inclusive` tells whether `to` itself
    /// belongs to the range.
    Range { from: i64, to: i64, step: i64, inclusive: bool, span: Span },
    /// A diagnostic carried as data, so pipelines need no exceptions.
    Error { error: ShellError },
    /// An opaque reference into the parsed-program block table.
    Block { val: usize, span: Span },
}

/// The mathematical image of a `Value`.
#[verifier::ext_equal]
pub ghost enum ValModel {
    Nothing { span: Span },
    Bool { val: bool, span: Span },
    Int { val: i64, span: Span },
    String { val: Seq<char>, span: Span },
    Binary { val: Seq<u8>, span: Span },
    Record { cols: Seq<Seq<char>>, vals: Seq<ValModel>, span: Span },
    List { vals: Seq<ValModel>, span: Span },
    Range { from: i64, to: i64, step: i64, inclusive: bool, span: Span },
    Error { error: ErrModel },
    Block { val: usize, span: Span },
}

/// The views of a sequence of owned strings.
pub open spec fn strs_view(s: Seq<std::string::String>) -> Seq<Seq<char>> {
    Seq::new(s.len(), |i: int| s[i]@)
}

/// Maps a value onto its mathematical image.
pub open spec fn vmodel(v: Value) -> ValModel
    decreases v,
{
    match v {
        Value::Nothing { span } => ValModel::Nothing { span },
        Value::Bool { val, span } => ValModel::Bool { val, span },
        Value::Int { val, span } => ValModel::Int { val, span },
        Value::String { val, span } => ValModel::String { val: val@, span },
        Value::Binary { val, span } => ValModel::Binary { val: val@, span },
        Value::Record { .. } => ValModel::Record {
            cols: strs_view(v->Record_cols@),
            vals: vmodels(v->Record_vals@),
            span: v->Record_span,
        },
        Value::List { .. } => ValModel::List {
            vals: vmodels(v->List_vals@),
            span: v->List_span,
        },
        Value::Range { from, to, step, inclusive, span } => ValModel::Range {
            from,
            to,
            step,
            inclusive,
            span,
        },
        Value::Error { error } => ValModel::Error { error: error@ },
        Value::Block { val, span } => ValModel::Block { val, span },
    }
}

/// Maps each value of a sequence onto its image.
pub open spec fn vmodels(s: Seq<Value>) -> Seq<ValModel>
    decreases s,
{
    if s.len() == 0 {
        Seq::empty()
    } else {
        vmodels(s.drop_last()).push(vmodel(s.last()))
    }
}

/// `vmodels` is the pointwise image.
pub proof fn lemma_vmodels(s: Seq<Value>)
    ensures
        vmodels(s).len() == s.len(),
        forall|i: int| 0 <= i < s.len() ==> vmodels(s)[i] == vmodel(s[i]),
    decreases s.len(),
{
    if s.len() > 0 {
        lemma_vmodels(s.drop_last());
    }
}

/// Two value sequences with pointwise equal images have equal images.
pub proof fn lemma_vmodels_pointwise(s1: Seq<Value>, s2: Seq<Value>)
    requires
        s1.len() == s2.len(),
        forall|i: int| 0 <= i < s1.len() ==> vmodel(s1[i]) == vmodel(s2[i]),
    ensures
        vmodels(s1) == vmodels(s2),
{
    lemma_vmodels(s1);
    lemma_vmodels(s2);
    assert(vmodels(s1) =~= vmodels(s2));
}

/// Column names are unique within one record.
pub open spec fn unique_cols(cols: Seq<Seq<char>>) -> bool {
    forall|i: int, j: int| 0 <= i < j < cols.len() ==> cols[i] != cols[j]
}

/// The engine invariant every value satisfies by construction: a record's
/// column list and child list have the same length, its column names are
/// unique, and the invariant holds of every child. Violating it is a
/// defect in the engine, never a user error.
pub open spec fn wf_model(m: ValModel) -> bool
    decreases m,
{
    match m {
        ValModel::Record { cols, vals, .. } => cols.len() == vals.len() && unique_cols(cols)
            && (forall|k: int| 0 <= k < vals.len() ==> wf_model(#[trigger] vals[k])),
        ValModel::List { vals, .. } => forall|k: int|
            0 <= k < vals.len() ==> wf_model(#[trigger] vals[k]),
        _ => true,
    }
}

impl View for Value {
    type V = ValModel;

    open spec fn view(&self) -> ValModel {
        vmodel(*self)
    }
}

impl DeepView for Value {
    type V = ValModel;

    open spec fn deep_view(&self) -> ValModel {
        vmodel(*self)
    }
}

/// The span a value's image carries. Error values answer with the span of
/// their first label where one exists, else the unknown span; the exec
/// side keeps this simple by answering the unknown span for errors.
pub open spec fn model_span(m: ValModel) -> Span {
    match m {
        ValModel::Nothing { span } => span,
        ValModel::Bool { span, .. } => span,
        ValModel::Int { span, .. } => span,
        ValModel::String { span, .. } => span,
        ValModel::Binary { span, .. } => span,
        ValModel::Record { span, .. } => span,
        ValModel::List { span, .. } => span,
        ValModel::Range { span, .. } => span,
        ValModel::Error { .. } => Span { start: 0, end: 0 },
        ValModel::Block { span, .. } => span,
    }
}

/// The runtime type of a value's image.
pub open spec fn model_type(m: ValModel) -> Type {
    match m {
        ValModel::Nothing { .. } => Type::Nothing,
        ValModel::Bool { .. } => Type::Bool,
        ValModel::Int { .. } => Type::Int,
        ValModel::String { .. } => Type::String,
        ValModel::Binary { .. } => Type::Binary,
        ValModel::Record { .. } => Type::Record,
        ValModel::List { .. } => Type::List,
        ValModel::Range { .. } => Type::Range,
        ValModel::Error { .. } => Type::Error,
        ValModel::Block { .. } => Type::Block,
    }
}

impl Value {
    /// The span this value originated from.
    pub fn span(&self) -> (r: Span)
        ensures
            r == model_span(self@),
    {
        match self {
            Value::Nothing { span } => *span,
            Value::Bool { span, .. } => *span,
            Value::Int { span, .. } => *span,
            Value::String { span, .. } => *span,
            Value::Binary { span, .. } => *span,
            Value::Record { span, .. } => *span,
            Value::List { span, .. } => *span,
            Value::Range { span, .. } => *span,
            Value::Error { .. } => Span { start: 0, end: 0 },
            Value::Block { span, .. } => *span,
        }
    }

    /// The runtime type of this value.
    pub fn get_type(&self) -> (r: Type)
        ensures
            r == model_type(self@),
    {
        match self {
            Value::Nothing { .. } => Type::Nothing,
            Value::Bool { .. } => Type::Bool,
            Value::Int { .. } => Type::Int,
            Value::String { .. } => Type::String,
            Value::Binary { .. } => Type::Binary,
            Value::Record { .. } => Type::Record,
            Value::List { .. } => Type::List,
            Value::Range { .. } => Type::Range,
            Value::Error { .. } => Type::Error,
            Value::Block { .. } => Type::Block,
        }
    }

    /// The string this value holds, or a pipeline-mismatch diagnostic.
    pub fn as_string(&self) -> (r: Result<std::string::String, ShellError>)
        ensures
            self@ matches ValModel::String { val, .. } ==> r matches Ok(s) && s@ == val,
            !(self@ is String) ==> r is Err,
    {
        match self {
            Value::String { val, .. } => Ok(val.clone()),
            _ => Err(
                ShellError::PipelineMismatch(
                    std::string::String::from_str("string"),
                    self.span(),
                    self.span(),
                ),
            ),
        }
    }

    /// True exactly of the boolean value `true`.
    pub fn is_true(&self) -> (r: bool)
        ensures
            r == (self@ matches ValModel::Bool { val: true, .. }),
    {
        match self {
            Value::Bool { val, .. } => *val,
            _ => false,
        }
    }

    /// A string value for tests and builders, at the unknown span.
    pub fn test_string(s: &str) -> (r: Value)
        ensures
            r@ == (ValModel::String { val: s@, span: Span { start: 0, end: 0 } }),
    {
        Value::String { val: s.to_owned(), span: Span { start: 0, end: 0 } }
    }

    /// An integer value for tests and builders, at the unknown span.
    pub fn test_int(i: i64) -> (r: Value)
        ensures
            r@ == (ValModel::Int { val: i, span: Span { start: 0, end: 0 } }),
    {
        Value::Int { val: i, span: Span { start: 0, end: 0 } }
    }
}

/// Rebuilds a value equal in image to the given one.
pub fn value_clone(v: &Value) -> (r: Value)
    ensures
        r@ == v@,
    decreases *v,
{
    match v {
        Value::Nothing { span } => Value::Nothing { span: *span },
        Value::Bool { val, span } => Value::Bool { val: *val, span: *span },
        Value::Int { val, span } => Value::Int { val: *val, span: *span },
        Value::String { val, span } => Value::String { val: val.clone(), span: *span },
        Value::Binary { val, span } => Value::Binary { val: bytes_clone(val), span: *span },
        Value::Record { cols, vals, span } => {
            let c2 = strings_clone(cols);
            let mut v2: Vec<Value> = Vec::new();
            let mut i: usize = 0;
            while i < vals.len()
                invariant
                    *v is Record,
                    vals == v->Record_vals,
                    0 <= i <= vals@.len(),
                    v2@.len() == i as int,
                    forall|k: int| 0 <= k < i ==> v2@[k]@ == vals@[k]@,
                decreases vals@.len() - i,
            {
                proof {
                    assert(decreases_to!(*v => v->Record_vals@[i as int]));
                }
                let c = value_clone(&vals[i]);
                v2.push(c);
                i = i + 1;
            }
            proof {
                lemma_vmodels_pointwise(v2@, vals@);
                assert(strs_view(c2@) =~= strs_view(cols@));
            }
            Value::Record { cols: c2, vals: v2, span: *span }
        },
        Value::List { vals, span } => {
            let mut v2: Vec<Value> = Vec::new();
            let mut i: usize = 0;
            while i < vals.len()
                invariant
                    *v is List,
                    vals == v->List_vals,
                    0 <= i <= vals@.len(),
                    v2@.len() == i as int,
                    forall|k: int| 0 <= k < i ==> v2@[k]@ == vals@[k]@,
                decreases vals@.len() - i,
            {
                proof {
                    assert(decreases_to!(*v => v->List_vals@[i as int]));
                }
                let c = value_clone(&vals[i]);
                v2.push(c);
                i = i + 1;
            }
            proof {
                lemma_vmodels_pointwise(v2@, vals@);
            }
            Value::List { vals: v2, span: *span }
        },
        Value::Range { from, to, step, inclusive, span } => Value::Range {
            from: *from,
            to: *to,
            step: *step,
            inclusive: *inclusive,
            span: *span,
        },
        Value::Error { error } => Value::Error { error: error.duplicate() },
        Value::Block { val, span } => Value::Block { val: *val, span: *span },
    }
}

impl Clone for Value {
    /// Cloning keeps the mathematical image.
    fn clone(&self) -> (r: Self)
        ensures
            r@ == self@,
    {
        value_clone(self)
    }
}

/// Compares two values by their mathematical images.
pub fn value_eq(a: &Value, b: &Value) -> (r: bool)
    ensures
        r == (a@ == b@),
    decreases *a, 2int,
{
    match (a, b) {
        (Value::Nothing { span: s1 }, Value::Nothing { span: s2 }) => *s1 == *s2,
        (Value::Bool { val: v1, span: s1 }, Value::Bool { val: v2, span: s2 }) => *v1 == *v2 && *s1
            == *s2,
        (Value::Int { val: v1, span: s1 }, Value::Int { val: v2, span: s2 }) => *v1 == *v2 && *s1
            == *s2,
        (Value::String { val: v1, span: s1 }, Value::String { val: v2, span: s2 }) => *v1 == *v2
            && *s1 == *s2,
        (Value::Binary { val: v1, span: s1 }, Value::Binary { val: v2, span: s2 }) => bytes_eq(
            v1,
            v2,
        ) && *s1 == *s2,
        (
            Value::Record { cols: c1, vals: v1, span: s1 },
            Value::Record { cols: c2, vals: v2, span: s2 },
        ) => {
            if !(*s1 == *s2) || !strings_eq(c1, c2) {
                false
            } else {
                values_eq_record(a, b, c1, c2, v1, v2)
            }
        },
        (Value::List { vals: v1, span: s1 }, Value::List { vals: v2, span: s2 }) => {
            if !(*s1 == *s2) {
                false
            } else {
                values_eq_list(a, b, v1, v2)
            }
        },
        (
            Value::Range { from: f1, to: t1, step: p1, inclusive: i1, span: s1 },
            Value::Range { from: f2, to: t2, step: p2, inclusive: i2, span: s2 },
        ) => *f1 == *f2 && *t1 == *t2 && *p1 == *p2 && *i1 == *i2 && *s1 == *s2,
        (Value::Error { error: e1 }, Value::Error { error: e2 }) => crate::error::err_eq(e1, e2),
        (Value::Block { val: v1, span: s1 }, Value::Block { val: v2, span: s2 }) => *v1 == *v2
            && *s1 == *s2,
        _ => false,
    }
}

/// Child comparison for two records whose spans and columns already agree.
fn values_eq_record(
    a: &Value,
    b: &Value,
    c1: &Vec<std::string::String>,
    c2: &Vec<std::string::String>,
    v1: &Vec<Value>,
    v2: &Vec<Value>,
) -> (r: bool)
    requires
        *a is Record,
        *b is Record,
        c1 == a->Record_cols,
        c2 == b->Record_cols,
        v1 == a->Record_vals,
        v2 == b->Record_vals,
        a->Record_span == b->Record_span,
        strs_view(c1@) == strs_view(c2@),
    ensures
        r == (a@ == b@),
    decreases *a, 1int,
{
    proof {
        lemma_vmodels(v1@);
        lemma_vmodels(v2@);
    }
    if v1.len() != v2.len() {
        proof {
            assert(vmodels(v1@).len() != vmodels(v2@).len());
        }
        return false;
    }
    let mut i: usize = 0;
    while i < v1.len()
        invariant
            *a is Record,
            *b is Record,
            v1 == a->Record_vals,
            v2 == b->Record_vals,
            v1@.len() == v2@.len(),
            0 <= i <= v1@.len(),
            forall|k: int| 0 <= k < i ==> vmodel(v1@[k]) == vmodel(v2@[k]),
        decreases v1@.len() - i,
    {
        proof {
            assert(decreases_to!(*a => a->Record_vals@[i as int]));
        }
        if !value_eq(&v1[i], &v2[i]) {
            proof {
                lemma_vmodels(v1@);
                lemma_vmodels(v2@);
                assert(vmodels(v1@)[i as int] == vmodel(v1@[i as int]));
                assert(vmodels(v2@)[i as int] == vmodel(v2@[i as int]));
                assert(vmodels(v1@) != vmodels(v2@));
            }
            return false;
        }
        i = i + 1;
    }
    proof {
        lemma_vmodels_pointwise(v1@, v2@);
    }
    true
}

/// Child comparison for two lists whose spans already agree.
fn values_eq_list(a: &Value, b: &Value, v1: &Vec<Value>, v2: &Vec<Value>) -> (r: bool)
    requires
        *a is List,
        *b is List,
        v1 == a->List_vals,
        v2 == b->List_vals,
        a->List_span == b->List_span,
    ensures
        r == (a@ == b@),
    decreases *a, 1int,
{
    proof {
        lemma_vmodels(v1@);
        lemma_vmodels(v2@);
    }
    if v1.len() != v2.len() {
        proof {
            assert(vmodels(v1@).len() != vmodels(v2@).len());
        }
        return false;
    }
    let mut i: usize = 0;
    while i < v1.len()
        invariant
            *a is List,
            *b is List,
            v1 == a->List_vals,
            v2 == b->List_vals,
            v1@.len() == v2@.len(),
            0 <= i <= v1@.len(),
            forall|k: int| 0 <= k < i ==> vmodel(v1@[k]) == vmodel(v2@[k]),
        decreases v1@.len() - i,
    {
        proof {
            assert(decreases_to!(*a => a->List_vals@[i as int]));
        }
        if !value_eq(&v1[i], &v2[i]) {
            proof {
                lemma_vmodels(v1@);
                lemma_vmodels(v2@);
                assert(vmodels(v1@)[i as int] == vmodel(v1@[i as int]));
                assert(vmodels(v2@)[i as int] == vmodel(v2@[i as int]));
                assert(vmodels(v1@) != vmodels(v2@));
            }
            return false;
        }
        i = i + 1;
    }
    proof {
        lemma_vmodels_pointwise(v1@, v2@);
    }
    true
}

impl PartialEq for Value {
    /// Equality of values is equality of their mathematical images.
    fn eq(&self, other: &Self) -> (r: bool) {
        value_eq(self, other)
    }
}

impl vstd::std_specs::cmp::PartialEqSpecImpl for Value {
    open spec fn obeys_eq_spec() -> bool {
        true
    }

    open spec fn eq_spec(&self, other: &Self) -> bool {
        self@ == other@
    }
}

/// Compares two byte buffers.
pub fn bytes_eq(a: &Vec<u8>, b: &Vec<u8>) -> (r: bool)
    ensures
        r == (a@ == b@),
{
    if a.len() != b.len() {
        return false;
    }
    let mut i: usize = 0;
    while i < a.len()
        invariant
            a@.len() == b@.len(),
            0 <= i <= a@.len(),
            forall|k: int| 0 <= k < i ==> a@[k] == b@[k],
        decreases a@.len() - i,
    {
        if a[i] != b[i] {
            return false;
        }
        i = i + 1;
    }
    proof {
        assert(a@ =~= b@);
    }
    true
}

/// Compares two column lists by their views.
pub fn strings_eq(a: &Vec<std::string::String>, b: &Vec<std::string::String>) -> (r: bool)
    ensures
        r == (strs_view(a@) == strs_view(b@)),
{
    if a.len() != b.len() {
        proof {
            assert(strs_view(a@).len() != strs_view(b@).len());
        }
        return false;
    }
    let mut i: usize = 0;
    while i < a.len()
        invariant
            a@.len() == b@.len(),
            0 <= i <= a@.len(),
            forall|k: int| 0 <= k < i ==> a@[k]@ == b@[k]@,
        decreases a@.len() - i,
    {
        if !vec_str_eq_at(a, b, i) {
            proof {
                assert(strs_view(a@)[i as int] != strs_view(b@)[i as int]);
            }
            return false;
        }
        i = i + 1;
    }
    proof {
        assert(strs_view(a@) =~= strs_view(b@));
    }
    true
}

/// Compares one column name of each list.
fn vec_str_eq_at(a: &Vec<std::string::String>, b: &Vec<std::string::String>, i: usize) -> (r: bool)
    requires
        i < a@.len(),
        i < b@.len(),
    ensures
        r == (a@[i as int]@ == b@[i as int]@),
{
    let x: &std::string::String = &a[i];
    let y: &std::string::String = &b[i];
    *x == *y
}

/// Copies a byte buffer.
pub fn bytes_clone(v: &Vec<u8>) -> (r: Vec<u8>)
    ensures
        r@ == v@,
{
    let mut out: Vec<u8> = Vec::new();
    let mut i: usize = 0;
    while i < v.len()
        invariant
            0 <= i <= v@.len(),
            out@.len() == i as int,
            forall|k: int| 0 <= k < i ==> out@[k] == v@[k],
        decreases v@.len() - i,
    {
        out.push(v[i]);
        i = i + 1;
    }
    proof {
        assert(out@ =~= v@);
    }
    out
}

/// Copies a column list; the result's views equal the original's.
pub fn strings_clone(v: &Vec<std::string::String>) -> (r: Vec<std::string::String>)
    ensures
        r@.len() == v@.len(),
        forall|k: int| 0 <= k < v@.len() ==> r@[k]@ == v@[k]@,
{
    let mut out: Vec<std::string::String> = Vec::new();
    let mut i: usize = 0;
    while i < v.len()
        invariant
            0 <= i <= v@.len(),
            out@.len() == i as int,
            forall|k: int| 0 <= k < i ==> out@[k]@ == v@[k]@,
        decreases v@.len() - i,
    {
        out.push(v[i].clone());
        i = i + 1;
    }
    out
}

} // verus!
