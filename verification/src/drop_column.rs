//! The filter that removes the last columns of a table.
//!
//! The keep-set is the first row's column names with the trailing
//! requested count removed (clamped at zero); every row is then
//! projected independently onto exactly that name ordering, so
//! heterogeneous rows are normalized to the first row's schema. An
//! empty table contributes a single empty-name placeholder column.

use vstd::prelude::*;

use crate::cell_path::{follow_model, CellPath, PathMember, PmModel};
use crate::error::{ErrModel, ShellError};
use crate::pipeline::{Interrupt, PdModel, PipelineData, ValueStream};
use crate::span::Span;
use crate::value::{
    strs_view, vmodel, vmodels, lemma_vmodels, wf_model, strings_clone, ValModel, Value,
};

verus! {

broadcast use vstd::std_specs::vec::group_vec_axioms;

/// The schema a table is read with: the first row's column names, or a
/// single empty-name placeholder where there is no first record.
pub open spec fn cols_of(items: Seq<ValModel>) -> Seq<Seq<char>> {
    if items.len() > 0 && items[0] is Record {
        items[0]->Record_cols
    } else {
        seq![Seq::<char>::empty()]
    }
}

/// The names kept after dropping the trailing `n`: the name-ordered
/// prefix, clamped at zero when `n` exceeds the column count.
pub open spec fn keep_of(cols: Seq<Seq<char>>, n: int) -> Seq<Seq<char>> {
    let n2 = if n > cols.len() {
        cols.len() as int
    } else {
        n
    };
    cols.take(cols.len() - n2)
}

/// The single-member path a kept column is read through.
pub open spec fn col_path(name: Seq<char>) -> Seq<PmModel> {
    seq![PmModel::String { val: name, span: Span { start: 0, end: 0 } }]
}

/// The children one row contributes under the first `j` kept names.
pub open spec fn project_vals(m: ValModel, names: Seq<Seq<char>>, j: int) -> Result<
    Seq<ValModel>,
    ErrModel,
>
    decreases j,
{
    if j <= 0 {
        Result::Ok(Seq::empty())
    } else {
        match project_vals(m, names, j - 1) {
            Result::Ok(vs) => match follow_model(m, col_path(names[j - 1]), 0) {
                Result::Ok(v) => Result::Ok(vs.push(v)),
                Result::Err(e) => Result::Err(e),
            },
            Result::Err(e) => Result::Err(e),
        }
    }
}

/// One row projected onto the kept names.
pub open spec fn project_row(m: ValModel, names: Seq<Seq<char>>, span: Span) -> Result<
    ValModel,
    ErrModel,
> {
    match project_vals(m, names, names.len() as int) {
        Result::Ok(vs) => Result::Ok(ValModel::Record { cols: names, vals: vs, span }),
        Result::Err(e) => Result::Err(e),
    }
}

/// The first `i` rows projected; the first failing row aborts the whole
/// projection.
pub open spec fn project_rows(
    items: Seq<ValModel>,
    names: Seq<Seq<char>>,
    span: Span,
    i: int,
) -> Result<Seq<ValModel>, ErrModel>
    decreases i,
{
    if i <= 0 {
        Result::Ok(Seq::empty())
    } else {
        match project_rows(items, names, span, i - 1) {
            Result::Ok(rs) => match project_row(items[i - 1], names, span) {
                Result::Ok(r) => Result::Ok(rs.push(r)),
                Result::Err(e) => Result::Err(e),
            },
            Result::Err(e) => Result::Err(e),
        }
    }
}

/// The first row's column names, or the placeholder.
pub fn get_input_cols(input: &Vec<Value>) -> (r: Vec<String>)
    ensures
        strs_view(r@) == cols_of(vmodels(input@)),
{
    proof {
        lemma_vmodels(input@);
    }
    if input.len() > 0 {
        match &input[0] {
            Value::Record { cols, .. } => {
                let r = strings_clone(cols);
                proof {
                    assert(strs_view(r@) =~= cols_of(vmodels(input@)));
                }
                return r;
            },
            _ => {},
        }
    }
    let mut r: Vec<String> = Vec::new();
    r.push(String::new());
    proof {
        assert(strs_view(r@) =~= cols_of(vmodels(input@)));
    }
    r
}

/// The kept prefix of the column names.
pub fn get_keep_columns(input: Vec<String>, num_of_columns_to_drop: i64) -> (r: Vec<String>)
    requires
        num_of_columns_to_drop >= 0,
    ensures
        strs_view(r@) == keep_of(strs_view(input@), num_of_columns_to_drop as int),
{
    let vlen: usize = input.len();
    let nd: u64 = num_of_columns_to_drop as u64;
    let n2: usize = if nd > vlen as u64 {
        vlen
    } else {
        nd as usize
    };
    let keep: usize = vlen - n2;
    let mut r: Vec<String> = Vec::new();
    let mut i: usize = 0;
    while i < keep
        invariant
            keep <= input@.len(),
            0 <= i <= keep,
            r@.len() == i as int,
            forall|k: int| 0 <= k < i ==> r@[k]@ == input@[k]@,
        decreases keep - i,
    {
        r.push(input[i].clone());
        i = i + 1;
    }
    proof {
        assert(strs_view(r@) =~= keep_of(strs_view(input@), num_of_columns_to_drop as int));
    }
    r
}

/// One single-member path per kept name.
pub fn get_cellpath_columns(keep_cols: Vec<String>) -> (r: Vec<CellPath>)
    ensures
        r@.len() == keep_cols@.len(),
        forall|k: int|
            0 <= k < r@.len() ==> (#[trigger] r@[k])@ == col_path(keep_cols@[k]@),
{
    let mut r: Vec<CellPath> = Vec::new();
    let mut i: usize = 0;
    while i < keep_cols.len()
        invariant
            0 <= i <= keep_cols@.len(),
            r@.len() == i as int,
            forall|k: int| 0 <= k < i ==> (#[trigger] r@[k])@ == col_path(keep_cols@[k]@),
        decreases keep_cols@.len() - i,
    {
        let mut members: Vec<PathMember> = Vec::new();
        members.push(PathMember::String { val: keep_cols[i].clone(), span: Span::unknown() });
        let cp = CellPath { members };
        proof {
            assert(cp@ =~= col_path(keep_cols@[i as int]@));
        }
        r.push(cp);
        i = i + 1;
    }
    r
}

/// Projects every row of the input onto the kept schema. A row that
/// lacks a kept column aborts the whole command with that row's
/// diagnostic; a single non-table value is projected onto an empty
/// schema, yielding the empty record.
#[verifier::loop_isolation(false)]
pub fn dropcol(
    input: PipelineData,
    span: Span,
    columns: i64,
    ctrlc: Option<Interrupt>,
) -> (r: Result<PipelineData, ShellError>)
    requires
        columns >= 0,
        (match input@ {
            PdModel::Value(v) => v matches ValModel::List { vals, .. } ==> forall|k: int|
                0 <= k < vals.len() ==> wf_model(#[trigger] vals[k]),
            PdModel::Stream(items) => forall|k: int|
                0 <= k < items.len() ==> wf_model(#[trigger] items[k]),
            PdModel::Empty => true,
        }),
    ensures
        (match input@ {
            PdModel::Value(v) => (match v {
                ValModel::List { vals, .. } => (match project_rows(
                    vals,
                    keep_of(cols_of(vals), columns as int),
                    span,
                    vals.len() as int,
                ) {
                    Result::Ok(rs) => r matches Ok(pd) && pd@ == PdModel::Stream(rs),
                    Result::Err(e) => r matches Err(re) && re@ == e,
                }),
                _ => r matches Ok(pd) && pd@ == PdModel::Value(
                    ValModel::Record { cols: Seq::empty(), vals: Seq::empty(), span },
                ),
            }),
            PdModel::Stream(items) => (match project_rows(
                items,
                keep_of(cols_of(items), columns as int),
                span,
                items.len() as int,
            ) {
                Result::Ok(rs) => r matches Ok(pd) && pd@ == PdModel::Stream(rs),
                Result::Err(e) => r matches Err(re) && re@ == e,
            }),
            PdModel::Empty => r matches Ok(pd) && pd@ == PdModel::Value(
                ValModel::Record { cols: Seq::empty(), vals: Seq::empty(), span },
            ),
        }),
{
    let rows: Vec<Value> = match input {
        PipelineData::Value(v) => match v {
            Value::List { vals, .. } => vals,
            _ => {
                return Result::Ok(
                    PipelineData::Value(
                        Value::Record { cols: Vec::new(), vals: Vec::new(), span },
                    ),
                );
            },
        },
        PipelineData::Stream(s) => s.vals,
        PipelineData::Empty => {
            return Result::Ok(
                PipelineData::Value(Value::Record { cols: Vec::new(), vals: Vec::new(), span }),
            );
        },
    };
    proof {
        lemma_vmodels(rows@);
    }
    let ghost items = vmodels(rows@);
    let input_cols = get_input_cols(&rows);
    let kc = get_keep_columns(input_cols, columns);
    let kcc = strings_clone(&kc);
    let keep_columns = get_cellpath_columns(kcc);
    let ghost names = keep_of(cols_of(items), columns as int);
    proof {
        assert(strs_view(kc@) == names);
    }
    let mut output: Vec<Value> = Vec::new();
    let mut i: usize = 0;
    while i < rows.len()
        invariant
            0 <= i <= rows@.len(),
            output@.len() == i as int,
            vmodels(output@).len() == output@.len(),
            project_rows(items, names, span, i as int) == Result::Ok::<Seq<ValModel>, ErrModel>(
                vmodels(output@),
            ),
        decreases rows@.len() - i,
    {
        let ghost preout = output@;
        let mut cols: Vec<String> = Vec::new();
        let mut vals: Vec<Value> = Vec::new();
        let mut p: usize = 0;
        while p < keep_columns.len()
            invariant
                0 <= p <= keep_columns@.len(),
                0 <= i < rows@.len(),
                cols@.len() == p as int,
                vals@.len() == p as int,
                forall|k: int| 0 <= k < p ==> cols@[k]@ == names[k],
                project_vals(items[i as int], names, p as int) == Result::Ok::<
                    Seq<ValModel>,
                    ErrModel,
                >(vmodels(vals@)),
                vmodels(vals@).len() == vals@.len(),
            decreases keep_columns@.len() - p,
        {
            let ghost prevals = vals@;
            proof {
                assert(wf_model(items[i as int]));
                assert(vmodel(rows@[i as int]) == items[i as int]);
            }
            match rows[i].follow_cell_path(&keep_columns[p].members) {
                Result::Ok(fetched) => {
                    cols.push(kc[p].clone());
                    vals.push(fetched);
                    proof {
                        lemma_vmodels(vals@);
                        lemma_vmodels(prevals);
                        assert(keep_columns@[p as int]@ == col_path(names[p as int]));
                        assert(vmodels(vals@) =~= vmodels(prevals).push(
                            vmodel(vals@[vals@.len() - 1]),
                        ));
                    }
                },
                Result::Err(e) => {
                    proof {
                        assert(keep_columns@[p as int]@ == col_path(names[p as int]));
                        assert(project_vals(items[i as int], names, p as int + 1)
                            == Result::Err::<Seq<ValModel>, ErrModel>(e@));
                        lemma_project_vals_err(items[i as int], names, p as int + 1);
                        lemma_project_rows_err(items, names, span, i as int + 1, rows@.len() as int);
                    }
                    return Result::Err(e);
                },
            }
            p = p + 1;
        }
        let row = Value::Record { cols, vals, span };
        output.push(row);
        proof {
            lemma_vmodels(output@);
            lemma_vmodels(preout);
            assert(strs_view(row->Record_cols@) =~= names);
            assert(vmodel(row) == (ValModel::Record {
                cols: names,
                vals: vmodels(row->Record_vals@),
                span,
            }));
            assert(vmodels(output@) =~= vmodels(preout).push(vmodel(row)));
        }
        i = i + 1;
    }
    proof {
        assert(project_rows(items, names, span, items.len() as int) == Result::Ok::<
            Seq<ValModel>,
            ErrModel,
        >(vmodels(output@)));
    }
    Result::Ok(PipelineData::Stream(ValueStream { vals: output, ctrlc }))
}

/// A failing prefix of a row projection fails the longer projections
/// the same way.
proof fn lemma_project_vals_err(m: ValModel, names: Seq<Seq<char>>, j: int)
    requires
        0 < j <= names.len(),
        project_vals(m, names, j) is Err,
    ensures
        project_vals(m, names, names.len() as int) == project_vals(m, names, j),
    decreases names.len() - j,
{
    if j < names.len() {
        lemma_project_vals_err(m, names, j + 1);
    }
}

/// A failing row fails the whole table projection the same way.
proof fn lemma_project_rows_err(
    items: Seq<ValModel>,
    names: Seq<Seq<char>>,
    span: Span,
    i: int,
    n: int,
)
    requires
        0 < i <= n <= items.len(),
        project_rows(items, names, span, i) is Err,
    ensures
        project_rows(items, names, span, n) == project_rows(items, names, span, i),
    decreases n - i,
{
    if i < n {
        lemma_project_rows_err(items, names, span, i + 1, n);
    }
}

/// The drop-column command.
pub struct DropColumn;

impl DropColumn {
    pub fn name(&self) -> (r: String)
        ensures
            r@ == "drop column"@,
    {
        String::from_str("drop column")
    }

    pub fn usage(&self) -> (r: String)
        ensures
            r@
                == "Remove the last number of columns. If you want to remove columns by name, try 'reject'."@,
    {
        String::from_str(
            "Remove the last number of columns. If you want to remove columns by name, try 'reject'.",
        )
    }

    /// Drops the requested number of trailing columns; with no count
    /// given one column is dropped.
    pub fn run(
        &self,
        input: PipelineData,
        columns: Option<i64>,
        span: Span,
        ctrlc: Option<Interrupt>,
    ) -> (r: Result<PipelineData, ShellError>)
        requires
            (match columns {
                Option::Some(q) => q >= 0,
                Option::None => true,
            }),
            (match input@ {
                PdModel::Value(v) => v matches ValModel::List { vals, .. } ==> forall|k: int|
                    0 <= k < vals.len() ==> wf_model(#[trigger] vals[k]),
                PdModel::Stream(items) => forall|k: int|
                    0 <= k < items.len() ==> wf_model(#[trigger] items[k]),
                PdModel::Empty => true,
            }),
        ensures
            (match input@ {
                PdModel::Stream(items) => (match project_rows(
                    items,
                    keep_of(
                        cols_of(items),
                        match columns {
                            Option::Some(q) => q as int,
                            Option::None => 1,
                        },
                    ),
                    span,
                    items.len() as int,
                ) {
                    Result::Ok(rs) => r matches Ok(pd) && pd@ == PdModel::Stream(rs),
                    Result::Err(e) => r matches Err(re) && re@ == e,
                }),
                _ => true,
            }),
    {
        let columns_to_drop = match columns {
            Option::Some(quantity) => quantity,
            Option::None => 1,
        };
        dropcol(input, span, columns_to_drop, ctrlc)
    }
}

/// Once the requested count reaches the remaining column count, the
/// projection empties every row's schema, and applying the drop again
/// (with any count) is a no-op: the rows come back exactly as they
/// went in, each a record with no columns.
pub proof fn lemma_dropcol_idempotent(
    items: Seq<ValModel>,
    n: int,
    n2: int,
    span: Span,
    out: Seq<ValModel>,
)
    requires
        n >= cols_of(items).len(),
        n2 >= 0,
        project_rows(items, keep_of(cols_of(items), n), span, items.len() as int)
            == Result::Ok::<Seq<ValModel>, ErrModel>(out),
    ensures
        project_rows(out, keep_of(cols_of(out), n2), span, out.len() as int) == Result::Ok::<
            Seq<ValModel>,
            ErrModel,
        >(out),
{
    let names = keep_of(cols_of(items), n);
    assert(names =~= Seq::<Seq<char>>::empty());
    lemma_project_rows_empty_schema(items, span, items.len() as int);
    lemma_empty_records(items.len() as int, span);
    assert(out =~= empty_records(items.len() as int, span));
    if out.len() == 0 {
        assert(keep_of(cols_of(out), n2).len() >= 0);
        assert(project_rows(out, keep_of(cols_of(out), n2), span, 0) == Result::Ok::<
            Seq<ValModel>,
            ErrModel,
        >(Seq::empty()));
        assert(Seq::<ValModel>::empty() =~= out);
    } else {
        assert(out[0] == (ValModel::Record {
            cols: Seq::<Seq<char>>::empty(),
            vals: Seq::<ValModel>::empty(),
            span,
        }));
        assert(cols_of(out) =~= Seq::<Seq<char>>::empty());
        assert(keep_of(cols_of(out), n2) =~= Seq::<Seq<char>>::empty());
        lemma_project_rows_empty_schema(out, span, out.len() as int);
        assert(project_rows(out, keep_of(cols_of(out), n2), span, out.len() as int)
            == Result::Ok::<Seq<ValModel>, ErrModel>(empty_records(out.len() as int, span)));
        assert(empty_records(out.len() as int, span) =~= out) by {
            assert forall|k: int| 0 <= k < out.len() implies out[k] == empty_records(
                out.len() as int,
                span,
            )[k] by {
                lemma_empty_records(items.len() as int, span);
                lemma_empty_records(out.len() as int, span);
            }
            lemma_empty_records(items.len() as int, span);
            lemma_empty_records(out.len() as int, span);
        }
    }
}

/// `i` empty-schema records.
pub open spec fn empty_records(i: int, span: Span) -> Seq<ValModel>
    decreases i,
{
    if i <= 0 {
        Seq::empty()
    } else {
        empty_records(i - 1, span).push(
            ValModel::Record { cols: Seq::empty(), vals: Seq::empty(), span },
        )
    }
}

proof fn lemma_empty_records(i: int, span: Span)
    requires
        i >= 0,
    ensures
        empty_records(i, span).len() == i,
        forall|k: int|
            0 <= k < i ==> empty_records(i, span)[k] == (ValModel::Record {
                cols: Seq::<Seq<char>>::empty(),
                vals: Seq::<ValModel>::empty(),
                span,
            }),
    decreases i,
{
    if i > 0 {
        lemma_empty_records(i - 1, span);
    }
}

/// Projecting onto the empty schema turns every row into the empty
/// record.
proof fn lemma_project_rows_empty_schema(items: Seq<ValModel>, span: Span, i: int)
    requires
        0 <= i <= items.len(),
    ensures
        project_rows(items, Seq::empty(), span, i) == Result::Ok::<Seq<ValModel>, ErrModel>(
            empty_records(i, span),
        ),
    decreases i,
{
    if i > 0 {
        lemma_project_rows_empty_schema(items, span, i - 1);
    }
}

} // verus!
