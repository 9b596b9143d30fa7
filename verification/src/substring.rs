//! The substring command: takes the characters between two indexes of
//! each string, with negative indexes counted back from the end.

use vstd::prelude::*;

use crate::cell_path::CellPath;
use crate::error::{type_text, ShellError};
use crate::operate::{operate, operate_model, paths_view};
use crate::pipeline::{pd_items, Interrupt, PipelineData};
use crate::span::Span;
use crate::text::{int_of_text, int_text, trimmed, split_char, trim_blanks, parse_i64,
    split_string};
use crate::value::{model_type, vmodels, lemma_vmodels, wf_model, ValModel, Value};

verus! {

broadcast use vstd::std_specs::vec::group_vec_axioms;

/// The resolved index pair of one invocation.
#[derive(Clone, Copy, Debug, PartialEq, Eq, Structural)]
pub struct Substring(pub i64, pub i64);

impl From<(i64, i64)> for Substring {
    fn from(input: (i64, i64)) -> (r: Substring) {
        Substring(input.0, input.1)
    }
}

impl vstd::std_specs::convert::FromSpecImpl<(i64, i64)> for Substring {
    open spec fn obeys_from_spec() -> bool {
        true
    }

    open spec fn from_spec(input: (i64, i64)) -> Substring {
        Substring(input.0, input.1)
    }
}

/// The image of one element under the substring: for a string, the
/// characters from the resolved start up to the resolved end, both
/// counted from the end when negative; a start at or past the length,
/// or an end resolving below zero, yields the empty string; a start
/// strictly after the end is an error value; anything but a string is
/// an error value naming the offending type. An open end (the largest
/// representable index) takes everything after the start.
pub open spec fn substring_action_model(m: ValModel, opt0: int, opt1: int, head: Span) -> ValModel {
    match m {
        ValModel::String { val: s, .. } => {
            let len = s.len() as int;
            let start = if opt0 < 0 {
                opt0 + len
            } else {
                opt0
            };
            let end = if opt1 < 0 {
                if len + opt1 > 0 {
                    len + opt1
                } else {
                    0
                }
            } else {
                opt1
            };
            if start < len && end >= 0 {
                if start == end {
                    ValModel::String { val: Seq::empty(), span: head }
                } else if start > end {
                    ValModel::Error {
                        error: crate::error::ErrModel::UnsupportedInput(
                            "End must be greater than or equal to Start"@,
                            head,
                        ),
                    }
                } else if start < 0 {
                    ValModel::String { val: Seq::empty(), span: head }
                } else if opt1 == i64::MAX {
                    ValModel::String { val: s.skip(start), span: head }
                } else {
                    ValModel::String {
                        val: s.subrange(start, if end > len {
                            len
                        } else {
                            end
                        }),
                        span: head,
                    }
                }
            } else {
                ValModel::String { val: Seq::empty(), span: head }
            }
        },
        _ => ValModel::Error {
            error: crate::error::ErrModel::UnsupportedInput(
                "Input's type is "@ + type_text(model_type(m))
                    + ". This command only works with strings."@,
                head,
            ),
        },
    }
}

/// Takes the substring of one value.
#[verifier::loop_isolation(false)]
pub fn action(input: &Value, options: &Substring, head: Span) -> (r: Value)
    ensures
        r@ == substring_action_model(input@, options.0 as int, options.1 as int, head),
        wf_model(r@),
{
    match input {
        Value::String { val: s, .. } => {
            let strd = s.as_str();
            let len: usize = strd.unicode_len();
            let start: i128 = if options.0 < 0 {
                options.0 as i128 + len as i128
            } else {
                options.0 as i128
            };
            let end: i128 = if options.1 < 0 {
                if len as i128 + options.1 as i128 > 0 {
                    len as i128 + options.1 as i128
                } else {
                    0
                }
            } else {
                options.1 as i128
            };
            if start < len as i128 && end >= 0 {
                if start == end {
                    Value::String { val: String::new(), span: head }
                } else if start > end {
                    let msg = String::from_str("End must be greater than or equal to Start");
                    proof {
                        reveal_strlit("End must be greater than or equal to Start");
                        assert(msg@ =~= "End must be greater than or equal to Start"@);
                    }
                    Value::Error { error: ShellError::UnsupportedInput(msg, head) }
                } else if start < 0 {
                    Value::String { val: String::new(), span: head }
                } else if options.1 == i64::MAX {
                    let piece = strd.substring_char(start as usize, len);
                    proof {
                        assert(s@.subrange(start as int, len as int) =~= s@.skip(start as int));
                    }
                    Value::String { val: String::from_str(piece), span: head }
                } else {
                    let hi: usize = if end > len as i128 {
                        len
                    } else {
                        end as usize
                    };
                    let piece = strd.substring_char(start as usize, hi);
                    Value::String { val: String::from_str(piece), span: head }
                }
            } else {
                Value::String { val: String::new(), span: head }
            }
        },
        other => {
            let ty = other.get_type();
            let msg = String::from_str("Input's type is ").concat(ty.label().as_str()).concat(
                ". This command only works with strings.",
            );
            proof {
                reveal_strlit("Input's type is ");
                reveal_strlit(". This command only works with strings.");
                assert(msg@ =~= "Input's type is "@ + type_text(model_type(input@))
                    + ". This command only works with strings."@);
            }
            Value::Error { error: ShellError::UnsupportedInput(msg, head) }
        },
    }
}

/// The text an index argument contributes: an integer renders in
/// decimal, a string stands as it is, anything else contributes the
/// empty text.
pub open spec fn index_text(m: ValModel) -> Seq<char> {
    match m {
        ValModel::Int { val, .. } => int_text(val as int),
        ValModel::String { val, .. } => val,
        _ => Seq::empty(),
    }
}

/// What one bound's text resolves to: the empty text and the
/// underscore mean the default, anything else must parse as an integer
/// after trimming.
pub open spec fn bound_of_text(s: Seq<char>, dflt: int) -> Option<int> {
    if s.len() == 0 || s == "_"@ {
        Option::Some(dflt)
    } else {
        int_of_text(trimmed(s))
    }
}

/// The two bound texts of the range argument: the first two rendered
/// list items, or the pieces around the first comma of a string; a
/// list of more than two items, a list of fewer than two, a string
/// without a comma, and any other kind of value are the failures.
pub open spec fn range_texts(m: ValModel) -> Result<(Seq<char>, Seq<char>), Seq<char>> {
    match m {
        ValModel::List { vals, .. } => if vals.len() > 2 {
            Result::Err("More than two indices given"@)
        } else if vals.len() < 2 {
            Result::Err("could not perform substring"@)
        } else {
            Result::Ok((index_text(vals[0]), index_text(vals[1])))
        },
        ValModel::String { val, .. } => {
            let parts = split_char(val, ',');
            if parts.len() < 2 {
                Result::Err("could not perform substring"@)
            } else {
                Result::Ok((parts[0], parts[1]))
            }
        },
        _ => Result::Err("could not perform substring"@),
    }
}

/// The resolved index pair of the range argument: its two bound texts,
/// the first defaulting to zero and the second to the open end, each
/// otherwise parsed as a machine integer.
pub open spec fn arguments_model(m: ValModel) -> Result<(int, int), Seq<char>> {
    match range_texts(m) {
        Result::Ok((st, et)) => match bound_of_text(st, 0) {
            Option::Some(sv) => match bound_of_text(et, i64::MAX as int) {
                Option::Some(ev) => if i64::MIN <= sv <= i64::MAX && i64::MIN <= ev <= i64::MAX {
                    Result::Ok((sv, ev))
                } else {
                    Result::Err("could not perform substring"@)
                },
                Option::None => Result::Err("could not perform substring"@),
            },
            Option::None => Result::Err("could not perform substring"@),
        },
        Result::Err(e) => Result::Err(e),
    }
}

/// Renders one index argument to text.
fn index_string(v: &Value) -> (r: String)
    ensures
        r@ == index_text(v@),
{
    match v {
        Value::Int { val, .. } => crate::text::i64_to_string(*val),
        Value::String { val, .. } => val.clone(),
        _ => String::new(),
    }
}

/// Resolves one bound text.
fn parse_bound(s: &String, dflt: i64) -> (r: Option<i64>)
    ensures
        (match r {
            Option::Some(v) => bound_of_text(s@, dflt as int) == Option::Some(v as int),
            Option::None => (match bound_of_text(s@, dflt as int) {
                Option::Some(w) => w < i64::MIN || w > i64::MAX,
                Option::None => true,
            }),
        }),
{
    let underscore = String::from_str("_");
    proof {
        reveal_strlit("_");
    }
    if s.as_str().unicode_len() == 0 || *s == underscore {
        proof {
            if s@ != "_"@ {
                assert(s@.len() == 0);
            }
        }
        return Option::Some(dflt);
    }
    let t = trim_blanks(s);
    parse_i64(&t)
}

/// Resolves the range argument of one invocation into its index pair.
pub fn process_arguments(range: &Value, head: Span) -> (r: Result<(i64, i64), ShellError>)
    ensures
        (match arguments_model(range@) {
            Result::Ok((sv, ev)) => r matches Ok(p) && p.0 as int == sv && p.1 as int == ev,
            Result::Err(msg) => r matches Err(e) && e@ == crate::error::ErrModel::UnsupportedInput(
                msg,
                head,
            ),
        }),
{
    let texts: (String, String) = match range {
        Value::List { vals, .. } => {
            proof {
                lemma_vmodels(vals@);
            }
            if vals.len() > 2 {
                let msg = String::from_str("More than two indices given");
                proof {
                    reveal_strlit("More than two indices given");
                    assert(msg@ =~= "More than two indices given"@);
                }
                return Result::Err(ShellError::UnsupportedInput(msg, head));
            }
            if vals.len() < 2 {
                return Result::Err(ShellError::UnsupportedInput(substring_err(), head));
            }
            (index_string(&vals[0]), index_string(&vals[1]))
        },
        Value::String { val, .. } => {
            let parts = split_string(val, ',');
            proof {
                assert(parts.deep_view().len() == parts@.len());
            }
            if parts.len() < 2 {
                return Result::Err(ShellError::UnsupportedInput(substring_err(), head));
            }
            proof {
                assert(parts@[0]@ == parts.deep_view()[0]);
                assert(parts@[1]@ == parts.deep_view()[1]);
            }
            (parts[0].clone(), parts[1].clone())
        },
        _ => {
            return Result::Err(ShellError::UnsupportedInput(substring_err(), head));
        },
    };
    let start = match parse_bound(&texts.0, 0) {
        Option::Some(v) => v,
        Option::None => {
            return Result::Err(ShellError::UnsupportedInput(substring_err(), head));
        },
    };
    let end = match parse_bound(&texts.1, i64::MAX) {
        Option::Some(v) => v,
        Option::None => {
            return Result::Err(ShellError::UnsupportedInput(substring_err(), head));
        },
    };
    Result::Ok((start, end))
}

/// The generic failure text of the argument parser.
fn substring_err() -> (r: String)
    ensures
        r@ == "could not perform substring"@,
{
    let msg = String::from_str("could not perform substring");
    proof {
        reveal_strlit("could not perform substring");
        assert(msg@ =~= "could not perform substring"@);
    }
    msg
}

/// The substring command.
pub struct SubCommand;

impl SubCommand {
    pub fn name(&self) -> (r: String)
        ensures
            r@ == "str substring"@,
    {
        String::from_str("str substring")
    }

    pub fn usage(&self) -> (r: String)
        ensures
            r@ == "substrings text"@,
    {
        String::from_str("substrings text")
    }

    /// Resolves the range argument once, then takes the substring of
    /// every element, or of the addressed cells of each row only.
    pub fn run(
        &self,
        input: PipelineData,
        range: &Value,
        column_paths: &Vec<CellPath>,
        head: Span,
        ctrlc: Option<Interrupt>,
    ) -> (r: Result<PipelineData, ShellError>)
        requires
            forall|k: int|
                0 <= k < pd_items(input@).len() ==> wf_model(#[trigger] pd_items(input@)[k]),
        ensures
            (match arguments_model(range@) {
                Result::Err(msg) => r matches Err(e) && e@
                    == crate::error::ErrModel::UnsupportedInput(msg, head),
                Result::Ok((sv, ev)) => r matches Ok(pd) && pd@ is Stream && (forall|k: int|
                    0 <= k < pd@->Stream_0.len() ==> #[trigger] pd@->Stream_0[k] == operate_model(
                        pd_items(input@)[k],
                        paths_view(column_paths@),
                        |m: ValModel| substring_action_model(m, sv, ev, head),
                    )) && (ctrlc is None ==> pd@->Stream_0.len() == pd_items(input@).len()),
            }),
    {
        let indexes = match process_arguments(range, head) {
            Result::Ok(p) => Substring(p.0, p.1),
            Result::Err(e) => {
                return Result::Err(e);
            },
        };
        let ghost sv = indexes.0 as int;
        let ghost ev = indexes.1 as int;
        let f = |v: &Value| -> (nv: Value)
            ensures
                nv@ == substring_action_model(v@, sv, ev, head) && wf_model(nv@),
            { action(v, &indexes, head) };
        let rp = operate(
            input,
            column_paths,
            f,
            ctrlc,
            Ghost(|m: ValModel| substring_action_model(m, sv, ev, head)),
        );
        Result::Ok(rp)
    }
}

} // verus!
