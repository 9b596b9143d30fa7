//! The command that lists the options available for building
//! keybindings: the line editor's modifier and key-code tables, each
//! line as a record of its kind and name.

use vstd::prelude::*;

use crate::error::ShellError;
use crate::pipeline::PipelineData;
use crate::span::Span;
use crate::text::split_char;
use crate::value::{vmodels, lemma_vmodels, ValModel, Value};

verus! {

broadcast use vstd::std_specs::vec::group_vec_axioms;

/// Relies on reedline's `get_reedline_keybinding_modifiers`: the names
/// come from the line editor's own tables, so nothing is promised of
/// them.
#[verifier::external_body]
fn reedline_modifiers() -> Vec<String> {
    reedline::get_reedline_keybinding_modifiers()
}

/// Relies on reedline's `get_reedline_keycodes`; as above, nothing is
/// promised of the names.
#[verifier::external_body]
fn reedline_keycodes() -> Vec<String> {
    reedline::get_reedline_keycodes()
}

/// One listing row: the entry's kind and its name.
pub open spec fn keybinding_record_model(
    entry_type: Seq<char>,
    name: Seq<char>,
    span: Span,
) -> ValModel {
    ValModel::Record {
        cols: seq!["type"@, "name"@],
        vals: seq![
            ValModel::String { val: entry_type, span },
            ValModel::String { val: name, span },
        ],
        span,
    }
}

/// Builds one listing row.
pub fn convert_to_record(edit: &String, entry_type: &String, span: &Span) -> (r: Value)
    ensures
        crate::value::vmodel(r) == keybinding_record_model(entry_type@, edit@, *span),
{
    let mut cols: Vec<String> = Vec::new();
    cols.push(String::from_str("type"));
    cols.push(String::from_str("name"));
    let mut vals: Vec<Value> = Vec::new();
    vals.push(Value::String { val: entry_type.clone(), span: *span });
    vals.push(Value::String { val: edit.clone(), span: *span });
    let rec = Value::Record { cols, vals, span: *span };
    proof {
        lemma_vmodels(rec->Record_vals@);
        assert(crate::value::strs_view(rec->Record_cols@) =~= seq!["type"@, "name"@]);
        assert(vmodels(rec->Record_vals@) =~= seq![
            ValModel::String { val: entry_type@, span: *span },
            ValModel::String { val: edit@, span: *span },
        ]) by {
            assert(vmodels(rec->Record_vals@)[0] == crate::value::vmodel(rec->Record_vals@[0]));
            assert(vmodels(rec->Record_vals@)[1] == crate::value::vmodel(rec->Record_vals@[1]));
        }
        assert(crate::value::vmodel(rec) =~= keybinding_record_model(entry_type@, edit@, *span));
    }
    rec
}

/// The rows one table of entries contributes: every line of every
/// entry, in order, as a kind/name record.
pub open spec fn records_of(
    entry_type: Seq<char>,
    values: Seq<Seq<char>>,
    i: int,
    span: Span,
) -> Seq<ValModel>
    decreases i,
{
    if i <= 0 || i > values.len() {
        Seq::empty()
    } else {
        records_of(entry_type, values, i - 1, span) + Seq::new(
            split_char(values[i - 1], '\n').len(),
            |t: int| keybinding_record_model(entry_type, split_char(values[i - 1], '\n')[t], span),
        )
    }
}

/// Splits every entry of one table into lines and builds the rows.
#[verifier::loop_isolation(false)]
pub fn get_records(entry_type: &String, values: &Vec<String>, span: &Span) -> (r: Vec<Value>)
    ensures
        vmodels(r@) == records_of(
            entry_type@,
            values.deep_view(),
            values@.len() as int,
            *span,
        ),
{
    let ghost vv = values.deep_view();
    let mut r: Vec<Value> = Vec::new();
    let mut i: usize = 0;
    proof {
        lemma_vmodels(r@);
    }
    while i < values.len()
        invariant
            vv == values.deep_view(),
            vv.len() == values@.len(),
            0 <= i <= values@.len(),
            vmodels(r@).len() == r@.len(),
            vmodels(r@) == records_of(entry_type@, vv, i as int, *span),
        decreases values@.len() - i,
    {
        let lines = crate::text::split_string(&values[i], '\n');
        let ghost lv = split_char(vv[i as int], '\n');
        proof {
            assert(vv[i as int] == values@[i as int]@);
            assert(lines.deep_view() == lv);
        }
        let mut t: usize = 0;
        while t < lines.len()
            invariant
                vv == values.deep_view(),
                vv.len() == values@.len(),
                0 <= i < values@.len(),
                lv == split_char(vv[i as int], '\n'),
                lines.deep_view() == lv,
                lv.len() == lines@.len(),
                0 <= t <= lines@.len(),
                vmodels(r@).len() == r@.len(),
                vmodels(r@) == records_of(entry_type@, vv, i as int, *span) + Seq::new(
                    t as nat,
                    |x: int| keybinding_record_model(entry_type@, lv[x], *span),
                ),
            decreases lines@.len() - t,
        {
            let ghost pre = r@;
            let rec = convert_to_record(&lines[t], entry_type, span);
            r.push(rec);
            proof {
                lemma_vmodels(r@);
                lemma_vmodels(pre);
                assert(lines.deep_view()[t as int] == lines@[t as int]@);
                assert(lines@[t as int]@ == lv[t as int]);
                assert(crate::value::vmodel(rec) == keybinding_record_model(
                    entry_type@,
                    lv[t as int],
                    *span,
                ));
                assert(vmodels(r@) =~= vmodels(pre).push(crate::value::vmodel(rec))) by {
                    assert forall|k: int| 0 <= k < pre.len() implies vmodels(r@)[k] == vmodels(
                        pre,
                    )[k] by {
                        assert(r@[k] == pre[k]);
                    }
                    assert(vmodels(r@)[pre.len() as int] == crate::value::vmodel(rec));
                }
                assert(records_of(entry_type@, vv, i as int, *span) + Seq::new(
                    (t + 1) as nat,
                    |x: int| keybinding_record_model(entry_type@, lv[x], *span),
                ) =~= (records_of(entry_type@, vv, i as int, *span) + Seq::new(
                    t as nat,
                    |x: int| keybinding_record_model(entry_type@, lv[x], *span),
                )).push(keybinding_record_model(entry_type@, lv[t as int], *span)));
                assert(vmodels(r@) =~= records_of(entry_type@, vv, i as int, *span) + Seq::new(
                    (t + 1) as nat,
                    |x: int| keybinding_record_model(entry_type@, lv[x], *span),
                ));
            }
            t = t + 1;
        }
        proof {
            assert(records_of(entry_type@, vv, i as int + 1, *span) =~= records_of(
                entry_type@,
                vv,
                i as int,
                *span,
            ) + Seq::new(lv.len(), |x: int| keybinding_record_model(entry_type@, lv[x], *span)));
            assert(vmodels(r@) =~= records_of(entry_type@, vv, i as int + 1, *span));
        }
        i = i + 1;
    }
    r
}

/// The keybinding-listing command.
pub struct ListKeybindings;

impl ListKeybindings {
    pub fn name(&self) -> (r: String)
        ensures
            r@ == "keybindings list"@,
    {
        String::from_str("keybindings list")
    }

    pub fn usage(&self) -> (r: String)
        ensures
            r@ == "List available options that can be used to create keybindings"@,
    {
        String::from_str("List available options that can be used to create keybindings")
    }

    /// Lists the requested tables, or every available one when nothing
    /// was requested: one kind/name record per line of each table. What
    /// the rows hold comes from the line editor's own tables; their
    /// shape is the library's.
    pub fn run(&self, which: &Vec<String>, head: Span) -> (r: Result<PipelineData, ShellError>)
        ensures
            r matches Ok(pd) && pd@ is Value && pd@->Value_0 is List,
    {
        let mut records: Vec<Value> = Vec::new();
        if which.len() == 0 {
            let modifiers = String::from_str("modifiers");
            let keycodes = String::from_str("keycodes");
            let mut a = get_records(&modifiers, &reedline_modifiers(), &head);
            let mut b = get_records(&keycodes, &reedline_keycodes(), &head);
            records.append(&mut a);
            records.append(&mut b);
        } else {
            let modifiers = String::from_str("modifiers");
            let keycodes = String::from_str("keycodes");
            proof {
                reveal_strlit("modifiers");
                reveal_strlit("keycodes");
            }
            let mut i: usize = 0;
            while i < which.len()
                invariant
                    0 <= i <= which@.len(),
                    modifiers@ == "modifiers"@,
                    keycodes@ == "keycodes"@,
                decreases which@.len() - i,
            {
                let w: &String = &which[i];
                if *w == modifiers {
                    let mut a = get_records(&modifiers, &reedline_modifiers(), &head);
                    records.append(&mut a);
                } else if *w == keycodes {
                    let mut b = get_records(&keycodes, &reedline_keycodes(), &head);
                    records.append(&mut b);
                }
                i = i + 1;
            }
        }
        Result::Ok(PipelineData::Value(Value::List { vals: records, span: head }))
    }
}

} // verus!
