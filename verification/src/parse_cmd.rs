//! The parse command: reads columns out of string data with a simple
//! `{column}` pattern, or a full regular expression.

use vstd::prelude::*;

use crate::error::{ErrModel, ShellError};
use crate::pipeline::{pd_items, Interrupt, PdModel, PipelineData, ValueStream};
use crate::span::Span;
use crate::text::{int_text, push_char};
use crate::value::{model_span, vmodel, vmodels, lemma_vmodels, ValModel, Value};

verus! {

broadcast use vstd::std_specs::vec::group_vec_axioms;

pub uninterp spec fn escaped_of(s: Seq<char>) -> Seq<char>;

/// Relies on regex's `escape`: the escaped text depends on the input
/// characters alone.
#[verifier::external_body]
fn regex_escape(s: &String) -> (r: String)
    ensures
        r@ == escaped_of(s@),
{
    regex::escape(s.as_str())
}

pub uninterp spec fn regex_ok(p: Seq<char>) -> bool;

pub uninterp spec fn regex_syntax_msg(p: Seq<char>) -> Option<Seq<char>>;

/// Relies on regex's `Regex::new`: whether a pattern compiles, and the
/// syntax message it is refused with, depend on the pattern alone. A
/// refusal that is not a syntax failure answers no message.
#[verifier::external_body]
fn regex_build(p: &String) -> (r: Result<(), Option<String>>)
    ensures
        (r is Ok) == regex_ok(p@),
        r matches Result::Err(m) ==> (match m {
            Option::Some(t) => Option::Some(t@),
            Option::None => Option::None,
        }) == regex_syntax_msg(p@),
{
    match regex::Regex::new(p.as_str()) {
        Ok(_) => Ok(()),
        Err(regex::Error::Syntax(msg)) => Err(Some(msg)),
        Err(_) => Err(None),
    }
}

pub uninterp spec fn regex_caps(p: Seq<char>, text: Seq<char>) -> Seq<Seq<Option<Seq<char>>>>;

/// Relies on regex's `Regex::new` and `captures_iter`: every
/// non-overlapping match of the pattern over the text, each as its
/// capture-group list (the whole match first), depends on pattern and
/// text alone.
#[verifier::external_body]
fn regex_captures_all(p: &String, text: &String) -> (r: Vec<Vec<Option<String>>>)
    requires
        regex_ok(p@),
    ensures
        r.deep_view() == regex_caps(p@, text@),
{
    match regex::Regex::new(p.as_str()) {
        Ok(re) => re.captures_iter(text.as_str()).map(
            |c| c.iter().map(|m| m.map(|mm| mm.as_str().to_string())).collect(),
        ).collect(),
        Err(_) => Vec::new(),
    }
}

pub uninterp spec fn regex_group_names(p: Seq<char>) -> Seq<Option<Seq<char>>>;

/// Relies on regex's `Regex::new` and `capture_names`: the group-name
/// list of a pattern (the unnamed whole match first) depends on the
/// pattern alone.
#[verifier::external_body]
fn regex_capture_names(p: &String) -> (r: Vec<Option<String>>)
    requires
        regex_ok(p@),
    ensures
        r.deep_view() == regex_group_names(p@),
{
    match regex::Regex::new(p.as_str()) {
        Ok(re) => re.capture_names().map(|n| n.map(|s| s.to_string())).collect(),
        Err(_) => Vec::new(),
    }
}

/// One scan of literal text: everything up to the next single opening
/// brace, a doubled brace contributing one literal brace. The result is
/// the position after the scan, the collected text, and whether a
/// single opening brace was found (as opposed to the input ending).
pub open spec fn scan_before(s: Seq<char>, i: int) -> (int, Seq<char>, bool)
    decreases s.len() - i,
{
    if i < 0 || i >= s.len() {
        (if i < 0 {
            0
        } else {
            i
        }, Seq::empty(), false)
    } else if s[i] == '{' {
        if i + 1 < s.len() && s[i + 1] == '{' {
            let (p, t, f) = scan_before(s, i + 2);
            (p, seq!['{'].add(t), f)
        } else {
            (i + 1, Seq::empty(), true)
        }
    } else {
        let (p, t, f) = scan_before(s, i + 1);
        (p, seq![s[i]].add(t), f)
    }
}

/// One scan of a column name: everything up to the closing brace. A
/// name cut off by the end of the input is the failure; an input that
/// ends exactly at the opening brace yields the empty name.
pub open spec fn scan_col(s: Seq<char>, i: int) -> Result<(int, Seq<char>), ()>
    decreases s.len() - i,
{
    if i < 0 || i >= s.len() {
        Result::Ok((if i < 0 {
            0
        } else {
            i
        }, Seq::empty()))
    } else if s[i] == '}' {
        Result::Ok((i + 1, Seq::empty()))
    } else if i + 1 >= s.len() {
        Result::Err(())
    } else {
        match scan_col(s, i + 1) {
            Result::Ok((p, t)) => Result::Ok((p, seq![s[i]].add(t))),
            Result::Err(e) => Result::Err(e),
        }
    }
}

/// The body the simple pattern builds from position `i` on: escaped
/// literal text alternating with named lazy capture groups, stopping
/// at an empty round.
pub open spec fn build_body(s: Seq<char>, i: int) -> Result<Seq<char>, ()>
    decreases s.len() - i,
{
    let (p1, before, found) = scan_before(s, i);
    let out_before = if before.len() > 0 {
        escaped_of(before)
    } else {
        Seq::<char>::empty()
    };
    if !found {
        Result::Ok(out_before)
    } else {
        match scan_col(s, p1) {
            Result::Err(_) => Result::Err(()),
            Result::Ok((p2, col)) => {
                let out_col = if col.len() > 0 {
                    "(?P<"@ + col + ">.*?)"@
                } else {
                    Seq::<char>::empty()
                };
                if before.len() == 0 && col.len() == 0 {
                    Result::Ok(Seq::empty())
                } else if 0 <= i < p2 <= s.len() {
                    match build_body(s, p2) {
                        Result::Ok(rest) => Result::Ok(out_before + out_col + rest),
                        Result::Err(e) => Result::Err(e),
                    }
                } else {
                    Result::Err(())
                }
            },
        }
    }
}

/// The whole built pattern: anchored at both ends, matching across
/// lines.
pub open spec fn built_regex(s: Seq<char>) -> Result<Seq<char>, ()> {
    match build_body(s, 0) {
        Result::Ok(body) => Result::Ok("(?s)\\A"@ + body + "\\z"@),
        Result::Err(e) => Result::Err(e),
    }
}

/// The exec twin of `scan_before`.
fn scan_before_at(s: &str, i: usize) -> (r: (usize, String, bool))
    requires
        i <= s@.len(),
    ensures
        (r.0 as int, r.1@, r.2) == scan_before(s@, i as int),
        i <= r.0 <= s@.len(),
    decreases s@.len() - i,
{
    if i >= s.unicode_len() {
        return (i, String::new(), false);
    }
    let c = s.get_char(i);
    if c == '{' {
        if i + 1 < s.unicode_len() && s.get_char(i + 1) == '{' {
            let (p, t, f) = scan_before_at(s, i + 2);
            let mut one = String::new();
            push_char(&mut one, '{');
            one.append(t.as_str());
            proof {
                assert(one@ =~= seq!['{'].add(scan_before(s@, i as int + 2).1));
            }
            (p, one, f)
        } else {
            (i + 1, String::new(), true)
        }
    } else {
        let (p, t, f) = scan_before_at(s, i + 1);
        let mut one = String::new();
        push_char(&mut one, c);
        one.append(t.as_str());
        proof {
            assert(one@ =~= seq![s@[i as int]].add(scan_before(s@, i as int + 1).1));
        }
        (p, one, f)
    }
}

/// The exec twin of `scan_col`.
fn scan_col_at(s: &str, i: usize) -> (r: Result<(usize, String), ()>)
    requires
        i <= s@.len(),
    ensures
        (match r {
            Result::Ok((p, t)) => scan_col(s@, i as int) == Result::Ok::<(int, Seq<char>), ()>(
                (p as int, t@),
            ) && i <= p <= s@.len(),
            Result::Err(()) => scan_col(s@, i as int) is Err,
        }),
    decreases s@.len() - i,
{
    if i >= s.unicode_len() {
        return Result::Ok((i, String::new()));
    }
    let c = s.get_char(i);
    if c == '}' {
        return Result::Ok((i + 1, String::new()));
    }
    if i + 1 >= s.unicode_len() {
        return Result::Err(());
    }
    match scan_col_at(s, i + 1) {
        Result::Ok((p, t)) => {
            let mut one = String::new();
            push_char(&mut one, c);
            one.append(t.as_str());
            proof {
                assert(one@ =~= seq![s@[i as int]].add(t@));
            }
            Result::Ok((p, one))
        },
        Result::Err(()) => Result::Err(()),
    }
}

/// Builds the anchored regular expression a simple `{column}` pattern
/// stands for: literal stretches are escaped, each braced name becomes
/// a named lazy capture group, and a doubled brace stands for a literal
/// one. An opening brace whose name is cut off by the end of the input
/// is a delimiter failure.
pub fn build_regex(input: &str, span: Span) -> (r: Result<String, ShellError>)
    ensures
        (match built_regex(input@) {
            Result::Ok(t) => r matches Ok(o) && o@ == t,
            Result::Err(_) => r matches Err(e) && e@ == ErrModel::DelimiterError(
                "Found opening `{` without an associated closing `}`"@,
                span,
            ),
        }),
{
    let mut output = String::from_str("(?s)\\A");
    proof {
        reveal_strlit("(?s)\\A");
    }
    match build_body_at(input, 0) {
        Result::Ok(body) => {
            output.append(body.as_str());
            output.append("\\z");
            proof {
                reveal_strlit("\\z");
                assert(output@ =~= "(?s)\\A"@ + body@ + "\\z"@);
            }
            Result::Ok(output)
        },
        Result::Err(()) => {
            let msg = String::from_str("Found opening `{` without an associated closing `}`");
            proof {
                reveal_strlit("Found opening `{` without an associated closing `}`");
                assert(msg@ =~= "Found opening `{` without an associated closing `}`"@);
            }
            Result::Err(ShellError::DelimiterError(msg, span))
        },
    }
}

/// The exec twin of `build_body`.
fn build_body_at(s: &str, i: usize) -> (r: Result<String, ()>)
    requires
        i <= s@.len(),
    ensures
        (match r {
            Result::Ok(t) => build_body(s@, i as int) == Result::Ok::<Seq<char>, ()>(t@),
            Result::Err(()) => build_body(s@, i as int) is Err,
        }),
    decreases s@.len() - i,
{
    let (p1, before, found) = scan_before_at(s, i);
    let out_before = if before.as_str().unicode_len() > 0 {
        regex_escape(&before)
    } else {
        String::new()
    };
    if !found {
        return Result::Ok(out_before);
    }
    match scan_col_at(s, p1) {
        Result::Err(()) => Result::Err(()),
        Result::Ok((p2, col)) => {
            let col_empty = col.as_str().unicode_len() == 0;
            let before_empty = before.as_str().unicode_len() == 0;
            if before_empty && col_empty {
                return Result::Ok(String::new());
            }
            if !(i < p2 && p2 <= s.unicode_len()) {
                return Result::Err(());
            }
            let mut out_col = String::new();
            if !col_empty {
                out_col.append("(?P<");
                out_col.append(col.as_str());
                out_col.append(">.*?)");
                proof {
                    reveal_strlit("(?P<");
                    reveal_strlit(">.*?)");
                    assert(out_col@ =~= "(?P<"@ + col@ + ">.*?)"@);
                }
            }
            match build_body_at(s, p2) {
                Result::Ok(rest) => {
                    let mut whole = out_before;
                    whole.append(out_col.as_str());
                    whole.append(rest.as_str());
                    proof {
                        assert(whole@ =~= (if before@.len() > 0 {
                            escaped_of(before@)
                        } else {
                            Seq::<char>::empty()
                        }) + (if col@.len() > 0 {
                            "(?P<"@ + col@ + ">.*?)"@
                        } else {
                            Seq::<char>::empty()
                        }) + rest@);
                    }
                    Result::Ok(whole)
                },
                Result::Err(()) => Result::Err(()),
            }
        },
    }
}

/// The column names of a compiled pattern: each named group keeps its
/// name, each unnamed one is numbered as a capture, and the whole-match
/// pseudo-group is skipped.
pub open spec fn column_names_model(names: Seq<Option<Seq<char>>>) -> Seq<Seq<char>> {
    Seq::new(
        if names.len() >= 1 {
            (names.len() - 1) as nat
        } else {
            0
        },
        |i: int| match names[i + 1] {
            Option::Some(n) => n,
            Option::None => "Capture"@ + int_text(i + 1),
        },
    )
}

/// Reads the column names out of a compiled pattern's group names.
#[verifier::loop_isolation(false)]
pub fn column_names(names: &Vec<Option<String>>) -> (r: Vec<String>)
    ensures
        crate::value::strs_view(r@) == column_names_model(names.deep_view()),
{
    let ghost nv = names.deep_view();
    let mut r: Vec<String> = Vec::new();
    let mut i: usize = 1;
    proof {
        assert(nv.len() == names@.len());
    }
    if names.len() == 0 {
        proof {
            assert(crate::value::strs_view(r@) =~= column_names_model(nv));
        }
        return r;
    }
    while i < names.len()
        invariant
            1 <= i <= names@.len(),
            nv == names.deep_view(),
            nv.len() == names@.len(),
            r@.len() == i - 1,
            forall|k: int|
                0 <= k < i - 1 ==> r@[k]@ == column_names_model(nv)[k],
        decreases names@.len() - i,
    {
        let nm = match &names[i] {
            Option::Some(n) => n.clone(),
            Option::None => {
                let mut cap = String::from_str("Capture");
                let num = crate::text::u64_to_string(i as u64);
                cap.append(num.as_str());
                proof {
                    reveal_strlit("Capture");
                    assert(cap@ =~= "Capture"@ + int_text(i as int));
                }
                cap
            },
        };
        proof {
            assert(nv[i as int] == names@[i as int].deep_view());
            assert(column_names_model(nv)[i - 1] == (match nv[i as int] {
                Option::Some(n) => n,
                Option::None => "Capture"@ + int_text(i as int),
            }));
        }
        r.push(nm);
        i = i + 1;
    }
    proof {
        assert(crate::value::strs_view(r@) =~= column_names_model(nv));
    }
    r
}

/// The diagnostic a refused pattern produces: the syntax rendering when
/// the refusal carried one, else a plain invalid-regex failure at the
/// pattern's span.
pub open spec fn regex_error_model(msg: Option<Seq<char>>, base_span: Span) -> ErrModel {
    match msg {
        Option::Some(m) => ErrModel::DelimiterError("Invalid regex: "@ + m, base_span),
        Option::None => ErrModel::DelimiterError("Invalid regex"@, base_span),
    }
}

/// Turns a refused pattern's message into the command's diagnostic.
pub fn parse_regex_error(msg: Option<String>, base_span: Span) -> (r: ShellError)
    ensures
        r@ == regex_error_model(
            match msg {
                Option::Some(m) => Option::Some(m@),
                Option::None => Option::None,
            },
            base_span,
        ),
{
    match msg {
        Option::Some(m) => {
            let text = String::from_str("Invalid regex: ").concat(m.as_str());
            proof {
                reveal_strlit("Invalid regex: ");
                assert(text@ =~= "Invalid regex: "@ + m@);
            }
            ShellError::DelimiterError(text, base_span)
        },
        Option::None => {
            let text = String::from_str("Invalid regex");
            proof {
                reveal_strlit("Invalid regex");
                assert(text@ =~= "Invalid regex"@);
            }
            ShellError::DelimiterError(text, base_span)
        },
    }
}

/// One matched row: the column names paired with the capture texts
/// (an unmatched group contributing the empty text), at the command's
/// span.
pub open spec fn match_row_model(
    cols: Seq<Seq<char>>,
    caps: Seq<Option<Seq<char>>>,
    head: Span,
) -> ValModel {
    let w = if cols.len() <= caps.len() - 1 {
        cols.len() as int
    } else {
        if caps.len() >= 1 {
            (caps.len() - 1) as int
        } else {
            0
        }
    };
    ValModel::Record {
        cols: cols.take(w),
        vals: Seq::new(
            w as nat,
            |t: int| ValModel::String {
                val: match caps[t + 1] {
                    Option::Some(c) => c,
                    Option::None => Seq::empty(),
                },
                span: head,
            },
        ),
        span: head,
    }
}

/// The text one capture contributes: its match, or nothing for a group
/// that did not participate.
pub open spec fn cap_text(c: Option<Seq<char>>) -> Seq<char> {
    match c {
        Option::Some(t) => t,
        Option::None => Seq::empty(),
    }
}

/// The rows the first `i` input elements contribute: for each string,
/// one row per match of the pattern over it; a non-string element is
/// the failure, with its own span.
pub open spec fn parse_rows_model(
    items: Seq<ValModel>,
    p: Seq<char>,
    head: Span,
    i: int,
) -> Result<Seq<ValModel>, ErrModel>
    decreases i,
{
    if i <= 0 || i > items.len() {
        Result::Ok(Seq::empty())
    } else {
        match parse_rows_model(items, p, head, i - 1) {
            Result::Ok(rs) => match items[i - 1] {
                ValModel::String { val, .. } => {
                    let caps = regex_caps(p, val);
                    Result::Ok(
                        rs + Seq::new(
                            caps.len(),
                            |c: int| match_row_model(
                                column_names_model(regex_group_names(p)),
                                caps[c],
                                head,
                            ),
                        ),
                    )
                },
                other => Result::Err(
                    ErrModel::PipelineMismatch("string"@, head, crate::value::model_span(other)),
                ),
            },
            Result::Err(e) => Result::Err(e),
        }
    }
}

/// A failing row fails every longer prefix the same way.
proof fn lemma_parse_rows_err(items: Seq<ValModel>, p: Seq<char>, head: Span, i: int, n: int)
    requires
        0 < i <= n <= items.len(),
        parse_rows_model(items, p, head, i) is Err,
    ensures
        parse_rows_model(items, p, head, n) == parse_rows_model(items, p, head, i),
    decreases n - i,
{
    if i < n {
        lemma_parse_rows_err(items, p, head, i + 1, n);
    }
}

/// The parse command.
pub struct Parse;

impl Parse {
    pub fn name(&self) -> (r: String)
        ensures
            r@ == "parse"@,
    {
        String::from_str("parse")
    }

    pub fn usage(&self) -> (r: String)
        ensures
            r@ == "Parse columns from string data using a simple pattern."@,
    {
        String::from_str("Parse columns from string data using a simple pattern.")
    }

    /// Matches the pattern (a simple `{column}` pattern, or a full
    /// regular expression with the flag set) against every input
    /// string, one output row per match, each row pairing the capture
    /// names with that match's capture texts. A non-string input
    /// element fails the whole command with a pipeline mismatch; an
    /// invalid pattern fails with the regex diagnostic.
    #[verifier::loop_isolation(false)]
    pub fn run(
        &self,
        input: PipelineData,
        pattern: &String,
        pattern_span: Span,
        regex_flag: bool,
        head: Span,
        ctrlc: Option<Interrupt>,
    ) -> (r: Result<PipelineData, ShellError>)
        ensures
            ({
                let built = if regex_flag {
                    Result::Ok(pattern@)
                } else {
                    built_regex(pattern@)
                };
                match built {
                    Result::Err(_) => r matches Err(e) && e@ == ErrModel::DelimiterError(
                        "Found opening `{` without an associated closing `}`"@,
                        pattern_span,
                    ),
                    Result::Ok(p) => if !regex_ok(p) {
                        r matches Err(e) && e@ == regex_error_model(
                            regex_syntax_msg(p),
                            pattern_span,
                        )
                    } else {
                        match parse_rows_model(
                            pd_items(input@),
                            p,
                            head,
                            pd_items(input@).len() as int,
                        ) {
                            Result::Ok(rows) => r matches Ok(pd) && pd@ == PdModel::Stream(rows),
                            Result::Err(e) => r matches Err(re) && re@ == e,
                        }
                    },
                }
            }),
    {
        let item_to_parse: String = if regex_flag {
            pattern.clone()
        } else {
            match build_regex(pattern.as_str(), pattern_span) {
                Result::Ok(p) => p,
                Result::Err(e) => {
                    return Result::Err(e);
                },
            }
        };
        let ghost p = item_to_parse@;
        match regex_build(&item_to_parse) {
            Result::Ok(_) => {},
            Result::Err(msg) => {
                return Result::Err(parse_regex_error(msg, pattern_span));
            },
        }
        let names = regex_capture_names(&item_to_parse);
        let columns = column_names(&names);
        let ghost colsm = column_names_model(regex_group_names(p));
        proof {
            assert(crate::value::strs_view(columns@) == colsm);
        }
        let ghost items = pd_items(input@);
        let stream = input.into_value_stream(Option::None);
        let invals = stream.vals;
        proof {
            lemma_vmodels(invals@);
        }
        let mut parsed: Vec<Value> = Vec::new();
        let mut i: usize = 0;
        while i < invals.len()
            invariant
                0 <= i <= invals@.len(),
                vmodels(parsed@).len() == parsed@.len(),
                parse_rows_model(items, p, head, i as int) == Result::Ok::<Seq<ValModel>, ErrModel>(
                    vmodels(parsed@),
                ),
            decreases invals@.len() - i,
        {
            let ghost preparsed = parsed@;
            match &invals[i] {
                Value::String { val, .. } => {
                    let ghost capsm = regex_caps(p, val@);
                    let caps = regex_captures_all(&item_to_parse, val);
                    proof {
                        assert(caps.deep_view() == capsm);
                        assert(items[i as int] == vmodel(invals@[i as int]));
                    }
                    let mut c: usize = 0;
                    while c < caps.len()
                        invariant
                            0 <= c <= caps@.len(),
                            capsm.len() == caps@.len(),
                            vmodels(parsed@).len() == parsed@.len(),
                            vmodels(parsed@) == vmodels(preparsed) + Seq::new(
                                c as nat,
                                |x: int| match_row_model(colsm, capsm[x], head),
                            ),
                        decreases caps@.len() - c,
                    {
                        let ghost prerow = parsed@;
                        let row: &Vec<Option<String>> = &caps[c];
                        let ghost rowm = capsm[c as int];
                        proof {
                            assert(rowm == caps@[c as int].deep_view());
                            assert(rowm.len() == row@.len());
                        }
                        let mut cols: Vec<String> = Vec::new();
                        let mut vals: Vec<Value> = Vec::new();
                        let mut t: usize = 0;
                        let ghost w = if colsm.len() <= rowm.len() - 1 {
                            colsm.len() as int
                        } else {
                            if rowm.len() >= 1 {
                                (rowm.len() - 1) as int
                            } else {
                                0
                            }
                        };
                        while t < columns.len() && t + 1 < row.len()
                            invariant
                                0 <= t,
                                t <= columns@.len(),
                                t as int <= w,
                                w <= columns@.len(),
                                w <= rowm.len() - 1 || w == 0,
                                cols@.len() == t as int,
                                vals@.len() == t as int,
                                vmodels(vals@).len() == t as int,
                                forall|k: int| 0 <= k < t ==> cols@[k]@ == colsm[k],
                                forall|k: int|
                                    0 <= k < t ==> #[trigger] vmodels(vals@)[k]
                                        == (ValModel::String {
                                        val: cap_text(rowm[k + 1]),
                                        span: head,
                                    }),
                            decreases columns@.len() - t,
                        {
                            let ghost prevals = vals@;
                            cols.push(columns[t].clone());
                            let cap_string = match &row[t + 1] {
                                Option::Some(cs) => cs.clone(),
                                Option::None => String::new(),
                            };
                            vals.push(Value::String { val: cap_string, span: head });
                            proof {
                                lemma_vmodels(vals@);
                                lemma_vmodels(prevals);
                                assert(rowm[t as int + 1] == row@[t as int + 1].deep_view());
                                assert forall|k: int|
                                    0 <= k < t + 1 implies #[trigger] vmodels(vals@)[k]
                                    == (ValModel::String {
                                    val: cap_text(rowm[k + 1]),
                                    span: head,
                                }) by {
                                    if k < t {
                                        assert(vmodels(vals@)[k] == vmodels(prevals)[k]) by {
                                            assert(vals@[k] == prevals[k]);
                                        }
                                    } else {
                                        assert(vmodels(vals@)[k] == vmodel(vals@[k]));
                                    }
                                }
                            }
                            t = t + 1;
                        }
                        let rec = Value::Record { cols, vals, span: head };
                        parsed.push(rec);
                        proof {
                            lemma_vmodels(parsed@);
                            lemma_vmodels(prerow);
                            assert(rowm.len() == row@.len());
                            assert(colsm.len() == columns@.len());
                            assert(t as int >= w) by {
                                if t as int == columns@.len() as int {
                                } else {
                                    assert(t + 1 >= row@.len());
                                }
                            }
                            assert(t as int == w);
                            assert(w == (if colsm.len() <= rowm.len() - 1 {
                                colsm.len() as int
                            } else {
                                if rowm.len() >= 1 {
                                    (rowm.len() - 1) as int
                                } else {
                                    0
                                }
                            }));
                            assert(crate::value::strs_view(rec->Record_cols@) =~= colsm.take(w));
                            assert(vmodels(rec->Record_vals@) =~= Seq::new(
                                w as nat,
                                |x: int| ValModel::String { val: cap_text(rowm[x + 1]), span: head },
                            ));
                            assert(Seq::new(
                                w as nat,
                                |x: int| ValModel::String { val: cap_text(rowm[x + 1]), span: head },
                            ) =~~= Seq::new(
                                w as nat,
                                |t2: int| ValModel::String {
                                    val: match rowm[t2 + 1] {
                                        Option::Some(c2) => c2,
                                        Option::None => Seq::empty(),
                                    },
                                    span: head,
                                },
                            ));
                            assert(vmodel(rec) =~~= match_row_model(colsm, rowm, head));
                            assert(vmodels(parsed@) =~= vmodels(prerow).push(vmodel(rec))) by {
                                assert forall|k: int|
                                    0 <= k < prerow.len() implies vmodels(parsed@)[k] == vmodels(
                                    prerow,
                                )[k] by {
                                    assert(parsed@[k] == prerow[k]);
                                }
                                assert(vmodels(parsed@)[prerow.len() as int] == vmodel(rec));
                            }
                            assert(vmodels(preparsed) + Seq::new(
                                (c + 1) as nat,
                                |x: int| match_row_model(colsm, capsm[x], head),
                            ) =~= (vmodels(preparsed) + Seq::new(
                                c as nat,
                                |x: int| match_row_model(colsm, capsm[x], head),
                            )).push(match_row_model(colsm, capsm[c as int], head)));
                        }
                        c = c + 1;
                    }
                    proof {
                        assert(parse_rows_model(items, p, head, i as int + 1) == Result::Ok::<
                            Seq<ValModel>,
                            ErrModel,
                        >(vmodels(parsed@))) by {
                            assert(vmodels(parsed@) =~= vmodels(preparsed) + Seq::new(
                                capsm.len(),
                                |x: int| match_row_model(colsm, capsm[x], head),
                            ));
                        }
                    }
                },
                other => {
                    let what = String::from_str("string");
                    proof {
                        reveal_strlit("string");
                        assert(what@ =~= "string"@);
                        assert(items[i as int] == vmodel(invals@[i as int]));
                        assert(parse_rows_model(items, p, head, i as int + 1) is Err);
                        lemma_parse_rows_err(items, p, head, i as int + 1, items.len() as int);
                    }
                    return Result::Err(
                        ShellError::PipelineMismatch(what, head, other.span()),
                    );
                },
            }
            i = i + 1;
        }
        proof {
            lemma_vmodels(parsed@);
        }
        Result::Ok(PipelineData::Stream(ValueStream { vals: parsed, ctrlc }))
    }
}

} // verus!
