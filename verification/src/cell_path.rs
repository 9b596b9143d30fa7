//! Cell-path addressing: reading and rewriting nested values.
//!
//! A cell path is an ordered sequence of members, each a record column
//! name or a list index, built once from user syntax and then applied to
//! many rows. Traversal walks the members left to right and reports the
//! most specific failure with the spans involved; a missing column also
//! proposes the existing column nearest in edit distance.

use vstd::prelude::*;

use crate::error::{nearest_match, type_text, ErrModel, ShellError};
use crate::span::Span;
use crate::value::{
    model_span, model_type, strs_view, vmodel, vmodels, lemma_vmodels, lemma_vmodels_pointwise,
    ValModel, Value,
};

verus! {

broadcast use vstd::std_specs::vec::group_vec_axioms;

/// One step of a cell path: a record column name or a list row index.
#[derive(Debug)]
pub enum PathMember {
    String { val: std::string::String, span: Span },
    Int { val: usize, span: Span },
}

/// The mathematical image of a path member.
#[verifier::ext_equal]
pub ghost enum PmModel {
    String { val: Seq<char>, span: Span },
    Int { val: usize, span: Span },
}

/// Maps a path member onto its image.
pub open spec fn pm_model(m: PathMember) -> PmModel {
    match m {
        PathMember::String { val, span } => PmModel::String { val: val@, span },
        PathMember::Int { val, span } => PmModel::Int { val, span },
    }
}

impl View for PathMember {
    type V = PmModel;

    open spec fn view(&self) -> PmModel {
        pm_model(*self)
    }
}

impl DeepView for PathMember {
    type V = PmModel;

    open spec fn deep_view(&self) -> PmModel {
        pm_model(*self)
    }
}

impl Clone for PathMember {
    /// Cloning keeps the image.
    fn clone(&self) -> (r: Self)
        ensures
            r@ == self@,
    {
        match self {
            PathMember::String { val, span } => PathMember::String {
                val: val.clone(),
                span: *span,
            },
            PathMember::Int { val, span } => PathMember::Int { val: *val, span: *span },
        }
    }
}

/// A full path: the members applied left to right.
#[derive(Debug)]
pub struct CellPath {
    pub members: Vec<PathMember>,
}

impl View for CellPath {
    type V = Seq<PmModel>;

    open spec fn view(&self) -> Seq<PmModel> {
        self.members.deep_view()
    }
}

impl Clone for CellPath {
    /// Cloning keeps the image.
    fn clone(&self) -> (r: Self)
        ensures
            r@ == self@,
    {
        let mut ms: Vec<PathMember> = Vec::new();
        let mut i: usize = 0;
        while i < self.members.len()
            invariant
                0 <= i <= self.members@.len(),
                ms@.len() == i as int,
                forall|k: int| 0 <= k < i ==> ms@[k]@ == self.members@[k]@,
            decreases self.members@.len() - i,
        {
            let m = self.members[i].clone();
            ms.push(m);
            i = i + 1;
        }
        let r = CellPath { members: ms };
        proof {
            assert(r@ =~= self@);
        }
        r
    }
}

/// The first column index at or after `i` whose name is `name`.
pub open spec fn found_col(cols: Seq<Seq<char>>, name: Seq<char>, i: int) -> Option<int>
    decreases cols.len() - i,
{
    if i < 0 || i >= cols.len() {
        Option::None
    } else if cols[i] == name {
        Option::Some(i)
    } else {
        found_col(cols, name, i + 1)
    }
}

/// What `found_col` finds from the start: the first matching index, and
/// nothing when no column matches.
pub proof fn lemma_found_col(cols: Seq<Seq<char>>, name: Seq<char>, i: int)
    requires
        0 <= i <= cols.len(),
    ensures
        found_col(cols, name, i) matches Option::Some(j) ==> i <= j < cols.len() && cols[j] == name
            && (forall|k: int| i <= k < j ==> cols[k] != name),
        found_col(cols, name, i) is None ==> forall|k: int| i <= k < cols.len() ==> cols[k] != name,
    decreases cols.len() - i,
{
    if i < cols.len() && cols[i] != name {
        lemma_found_col(cols, name, i + 1);
    }
}

/// Finds the first column of the given name.
pub fn find_col(cols: &Vec<std::string::String>, name: &std::string::String) -> (r: Option<usize>)
    ensures
        (match r {
            Option::Some(j) => Option::Some(j as int),
            Option::None => Option::None::<int>,
        }) == found_col(strs_view(cols@), name@, 0),
{
    let ghost cview = strs_view(cols@);
    let mut i: usize = 0;
    while i < cols.len()
        invariant
            0 <= i <= cols@.len(),
            cview == strs_view(cols@),
            cview.len() == cols@.len(),
            found_col(cview, name@, 0) == found_col(cview, name@, i as int),
        decreases cols@.len() - i,
    {
        let ci: &std::string::String = &cols[i];
        if *ci == *name {
            proof {
                assert(cview[i as int] == name@);
            }
            return Option::Some(i);
        }
        proof {
            assert(cview[i as int] != name@);
        }
        i = i + 1;
    }
    Option::None
}

/// The suggestion a missing-column diagnostic carries: the nearest
/// existing column, where the record has any column at all.
pub open spec fn column_suggestion(cols: Seq<Seq<char>>, name: Seq<char>) -> Option<Seq<char>> {
    if cols.len() == 0 {
        Option::None
    } else {
        Option::Some(nearest_match(cols, name, cols.len() as int))
    }
}

/// Where one traversal step of `follow` lands from a value: the child the
/// member addresses, or the failure the walk reports.
pub open spec fn follow_model(m: ValModel, path: Seq<PmModel>, i: int) -> Result<ValModel, ErrModel>
    decreases path.len() - i,
{
    if i < 0 || i >= path.len() {
        Result::Ok(m)
    } else {
        match path[i] {
            PmModel::Int { val, span } => match m {
                ValModel::List { vals, .. } => if (val as int) < vals.len() {
                    follow_model(vals[val as int], path, i + 1)
                } else {
                    Result::Err(ErrModel::AccessBeyondEnd(vals.len() as usize, span))
                },
                _ => Result::Err(ErrModel::NotAList(span, model_span(m))),
            },
            PmModel::String { val, span } => match m {
                ValModel::Record { cols, vals, .. } => match found_col(cols, val, 0) {
                    Option::Some(j) => follow_model(vals[j], path, i + 1),
                    Option::None => Result::Err(
                        ErrModel::CantFindColumn {
                            col_name: val,
                            suggestion: column_suggestion(cols, val),
                            col_span: span,
                            src_span: model_span(m),
                        },
                    ),
                },
                _ => Result::Err(
                    ErrModel::IncompatiblePathAccess(type_text(model_type(m)), span),
                ),
            },
        }
    }
}

impl Value {
    /// Walks the members left to right and returns the addressed child.
    /// A string member against a record looks the column up exactly and
    /// case-sensitively; when absent, the failure carries the lookup span,
    /// the span the record originated from, and the nearest column name.
    /// A string member against anything else, or an integer member
    /// against a non-list, fails naming the offending type; an integer
    /// past the end fails with the list's length.
    pub fn follow_cell_path(&self, members: &Vec<PathMember>) -> (r: Result<Value, ShellError>)
        requires
            crate::value::wf_model(self@),
        ensures
            (match r {
                Result::Ok(v) => Result::Ok(v@),
                Result::Err(e) => Result::Err(e@),
            }) == follow_model(self@, members.deep_view(), 0),
    {
        follow_at(self, members, 0)
    }
}

/// The recursive traversal behind `follow_cell_path`.
fn follow_at(v: &Value, members: &Vec<PathMember>, i: usize) -> (r: Result<Value, ShellError>)
    requires
        i <= members@.len(),
        crate::value::wf_model(v@),
    ensures
        (match r {
            Result::Ok(nv) => Result::Ok(nv@),
            Result::Err(e) => Result::Err(e@),
        }) == follow_model(v@, members.deep_view(), i as int),
    decreases members@.len() - i,
{
    let ghost path = members.deep_view();
    if i >= members.len() {
        return Result::Ok(v.clone());
    }
    match &members[i] {
        PathMember::Int { val, span } => match v {
            Value::List { vals, .. } => {
                if *val < vals.len() {
                    proof {
                        lemma_vmodels(vals@);
                        assert(v@->List_vals[*val as int] == vmodel(vals@[*val as int]));
                        assert(crate::value::wf_model(v@->List_vals[*val as int]));
                    }
                    follow_at(&vals[*val], members, i + 1)
                } else {
                    proof {
                        lemma_vmodels(vals@);
                    }
                    Result::Err(ShellError::AccessBeyondEnd(vals.len(), *span))
                }
            },
            _ => Result::Err(ShellError::NotAList(*span, v.span())),
        },
        PathMember::String { val, span } => match v {
            Value::Record { cols, vals, .. } => {
                proof {
                    assert(strs_view(cols@) =~= cols.deep_view());
                    lemma_vmodels(vals@);
                }
                match find_col(cols, val) {
                    Option::Some(j) => {
                        proof {
                            lemma_found_col(strs_view(cols@), val@, 0);
                            assert(v@->Record_vals[j as int] == vmodel(vals@[j as int]));
                            assert(crate::value::wf_model(v@->Record_vals[j as int]));
                        }
                        follow_at(&vals[j], members, i + 1)
                    },
                    Option::None => {
                        let suggestion = crate::error::did_you_mean(cols, val.as_str());
                        Result::Err(
                            ShellError::CantFindColumn {
                                col_name: val.clone(),
                                suggestion,
                                col_span: *span,
                                src_span: v.span(),
                            },
                        )
                    },
                }
            },
            _ => {
                let ty = v.get_type();
                Result::Err(ShellError::IncompatiblePathAccess(ty.label(), *span))
            },
        },
    }
}

/// The image of a value after the addressed slot is replaced by `leaf`.
/// Meaningful only where `follow_model` succeeds on the same path.
pub open spec fn update_model(m: ValModel, path: Seq<PmModel>, i: int, leaf: ValModel) -> ValModel
    decreases path.len() - i,
{
    if i < 0 || i >= path.len() {
        leaf
    } else {
        match path[i] {
            PmModel::Int { val, .. } => match m {
                ValModel::List { vals, span } => if (val as int) < vals.len() {
                    ValModel::List {
                        vals: vals.update(
                            val as int,
                            update_model(vals[val as int], path, i + 1, leaf),
                        ),
                        span,
                    }
                } else {
                    m
                },
                _ => m,
            },
            PmModel::String { val, .. } => match m {
                ValModel::Record { cols, vals, span } => match found_col(cols, val, 0) {
                    Option::Some(j) => ValModel::Record {
                        cols,
                        vals: vals.update(j, update_model(vals[j], path, i + 1, leaf)),
                        span,
                    },
                    Option::None => m,
                },
                _ => m,
            },
        }
    }
}

impl Value {
    /// Rewrites the addressed slot in place through the replacement
    /// function; only the ancestors on the path to the slot are rebuilt.
    /// Traversal failures are reported exactly as `follow_cell_path`
    /// reports them, and leave the value unchanged; what the replacement
    /// function answers (possibly an error value) is stored as the new
    /// leaf.
    pub fn update_cell_path<F: Fn(&Value) -> Value>(
        &mut self,
        members: &Vec<PathMember>,
        replace_fn: F,
    ) -> (r: Result<(), ShellError>)
        requires
            crate::value::wf_model(old(self)@),
            forall|lv: &Value| replace_fn.requires((lv,)),
        ensures
            (match r {
                Result::Ok(()) => follow_model(old(self)@, members.deep_view(), 0) is Ok,
                Result::Err(e) => follow_model(old(self)@, members.deep_view(), 0) == Result::Err::<
                    ValModel,
                    ErrModel,
                >(e@),
            }),
            r is Ok ==> exists|lv: Value, nv: Value|
                Result::Ok::<ValModel, ErrModel>(lv@) == follow_model(old(self)@, members.deep_view(), 0)
                    && #[trigger] replace_fn.ensures((&lv,), nv) && final(self)@ == update_model(
                    old(self)@,
                    members.deep_view(),
                    0,
                    nv@,
                ),
            r is Err ==> final(self)@ == old(self)@,
    {
        let mut tmp = Value::Nothing { span: Span { start: 0, end: 0 } };
        core::mem::swap(self, &mut tmp);
        match update_at(tmp, members, 0, &replace_fn) {
            Result::Ok(nv) => {
                *self = nv;
                Result::Ok(())
            },
            Result::Err((back, e)) => {
                *self = back;
                Result::Err(e)
            },
        }
    }
}

/// The recursive rebuild behind `update_cell_path`. On failure the value
/// is handed back unchanged beside the diagnostic.
fn update_at<F: Fn(&Value) -> Value>(
    v: Value,
    members: &Vec<PathMember>,
    i: usize,
    replace_fn: &F,
) -> (r: Result<Value, (Value, ShellError)>)
    requires
        i <= members@.len(),
        crate::value::wf_model(v@),
        forall|lv: &Value| replace_fn.requires((lv,)),
    ensures
        (match r {
            Result::Ok(_) => follow_model(v@, members.deep_view(), i as int) is Ok,
            Result::Err((back, e)) => back@ == v@ && follow_model(
                v@,
                members.deep_view(),
                i as int,
            ) == Result::Err::<ValModel, ErrModel>(e@),
        }),
        r matches Result::Ok(nv) ==> exists|lv: Value, out: Value|
            Result::Ok::<ValModel, ErrModel>(lv@) == follow_model(v@, members.deep_view(), i as int)
                && #[trigger] replace_fn.ensures((&lv,), out) && nv@ == update_model(
                v@,
                members.deep_view(),
                i as int,
                out@,
            ),
    decreases members@.len() - i,
{
    let ghost path = members.deep_view();
    if i >= members.len() {
        let out = replace_fn(&v);
        proof {
            let lv = v;
            assert(Result::Ok::<ValModel, ErrModel>(lv@) == follow_model(v@, path, i as int));
        }
        return Result::Ok(out);
    }
    match &members[i] {
        PathMember::Int { val, span } => {
            let val: usize = *val;
            let span: Span = *span;
            match v {
                Value::List { mut vals, span: vspan } => {
                    proof {
                        lemma_vmodels(vals@);
                    }
                    if val < vals.len() {
                        let ghost oldvals = vals@;
                        proof {
                            assert(v@->List_vals[val as int] == vmodel(oldvals[val as int]));
                            assert(crate::value::wf_model(vmodel(oldvals[val as int])));
                        }
                        let child = vals.remove(val);
                        proof {
                            assert(child == oldvals[val as int]);
                        }
                        match update_at(child, members, i + 1, replace_fn) {
                            Result::Ok(nv) => {
                                vals.insert(val, nv);
                                proof {
                                    lemma_restore_update(oldvals, vals@, val as int);
                                }
                                Result::Ok(Value::List { vals, span: vspan })
                            },
                            Result::Err((back, e)) => {
                                vals.insert(val, back);
                                proof {
                                    lemma_restore_same(oldvals, vals@, val as int);
                                }
                                Result::Err((Value::List { vals, span: vspan }, e))
                            },
                        }
                    } else {
                        let n = vals.len();
                        Result::Err(
                            (
                                Value::List { vals, span: vspan },
                                ShellError::AccessBeyondEnd(n, span),
                            ),
                        )
                    }
                },
                other => {
                    let osp = other.span();
                    Result::Err((other, ShellError::NotAList(span, osp)))
                },
            }
        },
        PathMember::String { val, span } => {
            let name: std::string::String = val.clone();
            let span: Span = *span;
            match v {
                Value::Record { cols, mut vals, span: vspan } => {
                    proof {
                        assert(strs_view(cols@) =~= cols.deep_view());
                        lemma_vmodels(vals@);
                    }
                    match find_col(&cols, &name) {
                        Option::Some(j) => {
                            proof {
                                lemma_found_col(strs_view(cols@), name@, 0);
                            }
                            let ghost oldvals = vals@;
                            proof {
                                assert(v@->Record_vals[j as int] == vmodel(oldvals[j as int]));
                                assert(crate::value::wf_model(vmodel(oldvals[j as int])));
                            }
                            let child = vals.remove(j);
                            match update_at(child, members, i + 1, replace_fn) {
                                Result::Ok(nv) => {
                                    vals.insert(j, nv);
                                    proof {
                                        lemma_restore_update(oldvals, vals@, j as int);
                                    }
                                    Result::Ok(Value::Record { cols, vals, span: vspan })
                                },
                                Result::Err((back, e)) => {
                                    vals.insert(j, back);
                                    proof {
                                        lemma_restore_same(oldvals, vals@, j as int);
                                    }
                                    Result::Err((Value::Record { cols, vals, span: vspan }, e))
                                },
                            }
                        },
                        Option::None => {
                            let suggestion = crate::error::did_you_mean(&cols, name.as_str());
                            let rec = Value::Record { cols, vals, span: vspan };
                            let rsp = rec.span();
                            Result::Err(
                                (
                                    rec,
                                    ShellError::CantFindColumn {
                                        col_name: name,
                                        suggestion,
                                        col_span: span,
                                        src_span: rsp,
                                    },
                                ),
                            )
                        },
                    }
                },
                other => {
                    let ty = other.get_type();
                    Result::Err((other, ShellError::IncompatiblePathAccess(ty.label(), span)))
                },
            }
        },
    }
}

/// Rewriting one addressed slot with a well-formed leaf keeps the whole
/// value well formed: the rebuilt ancestors keep their lengths and
/// column names, and every untouched child keeps its own invariant.
pub proof fn lemma_update_wf(m: ValModel, path: Seq<PmModel>, i: int, leaf: ValModel)
    requires
        crate::value::wf_model(m),
        crate::value::wf_model(leaf),
    ensures
        crate::value::wf_model(update_model(m, path, i, leaf)),
    decreases path.len() - i,
{
    if i < 0 || i >= path.len() {
    } else {
        match path[i] {
            PmModel::Int { val, .. } => {
                match m {
                    ValModel::List { vals, span } => {
                        if (val as int) < vals.len() {
                            lemma_update_wf(vals[val as int], path, i + 1, leaf);
                            let nv = vals.update(
                                val as int,
                                update_model(vals[val as int], path, i + 1, leaf),
                            );
                            assert forall|k: int|
                                0 <= k < nv.len() implies crate::value::wf_model(
                                #[trigger] nv[k],
                            ) by {
                                if k != val as int {
                                    assert(nv[k] == vals[k]);
                                }
                            }
                        }
                    },
                    _ => {},
                }
            },
            PmModel::String { val, .. } => {
                match m {
                    ValModel::Record { cols, vals, span } => {
                        match found_col(cols, val, 0) {
                            Option::Some(j) => {
                                lemma_found_col(cols, val, 0);
                                lemma_update_wf(vals[j], path, i + 1, leaf);
                                let nv = vals.update(j, update_model(vals[j], path, i + 1, leaf));
                                assert forall|k: int|
                                    0 <= k < nv.len() implies crate::value::wf_model(
                                    #[trigger] nv[k],
                                ) by {
                                    if k != j {
                                        assert(nv[k] == vals[k]);
                                    }
                                }
                            },
                            Option::None => {},
                        }
                    },
                    _ => {},
                }
            },
        }
    }
}

/// Putting a child whose image equals the removed one back restores the
/// whole sequence's image.
proof fn lemma_restore_same(oldvals: Seq<Value>, newvals: Seq<Value>, j: int)
    requires
        0 <= j < oldvals.len(),
        newvals.len() == oldvals.len(),
        forall|k: int| 0 <= k < j ==> newvals[k] == oldvals[k],
        forall|k: int| j < k < oldvals.len() ==> newvals[k] == oldvals[k],
        vmodel(newvals[j]) == vmodel(oldvals[j]),
    ensures
        vmodels(newvals) == vmodels(oldvals),
{
    lemma_vmodels_pointwise(newvals, oldvals);
}

/// Putting a rewritten child back yields the pointwise-updated image.
proof fn lemma_restore_update(oldvals: Seq<Value>, newvals: Seq<Value>, j: int)
    requires
        0 <= j < oldvals.len(),
        newvals.len() == oldvals.len(),
        forall|k: int| 0 <= k < j ==> newvals[k] == oldvals[k],
        forall|k: int| j < k < oldvals.len() ==> newvals[k] == oldvals[k],
    ensures
        vmodels(newvals) == vmodels(oldvals).update(j, vmodel(newvals[j])),
{
    lemma_vmodels(newvals);
    lemma_vmodels(oldvals);
    assert(vmodels(newvals) =~= vmodels(oldvals).update(j, vmodel(newvals[j])));
}

} // verus!
