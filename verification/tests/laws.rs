// Concrete scenarios for the library's stated properties, and checks
// that each trusted wrapper really transforms its input.

use engine_q::cell_path::PathMember;
use engine_q::drop_column::dropcol;
use engine_q::error::{did_you_mean, levenshtein_distance, ShellError};
use engine_q::import_pattern::{ImportPattern, ImportPatternHead, ImportPatternMember};
use engine_q::ansi_strip;
use engine_q::from_ini::from_ini_string_to_value;
use engine_q::from_toml::convert_string_to_value;
use engine_q::keep_until::KeepUntil;
use engine_q::parse_cmd::{build_regex, Parse};
use engine_q::pipeline::{partition_by_index, reassemble, Interrupt, PipelineData, ValueStream};
use engine_q::scope::EngineState;
use engine_q::span::{span, Span};
use engine_q::value::Value;
use engine_q::variance::compute_variance;

fn sp() -> Span {
    Span { start: 0, end: 0 }
}

fn s(text: &str) -> Value {
    Value::test_string(text)
}

fn i(val: i64) -> Value {
    Value::test_int(val)
}

fn list(vals: Vec<Value>) -> Value {
    Value::List { vals, span: sp() }
}

fn record(cols: Vec<&str>, vals: Vec<Value>) -> Value {
    Value::Record { cols: cols.into_iter().map(|c| c.to_string()).collect(), vals, span: sp() }
}

fn stream_vals(pd: PipelineData) -> Vec<Value> {
    match pd {
        PipelineData::Stream(st) => st.vals,
        PipelineData::Value(v) => vec![v],
        PipelineData::Empty => vec![],
    }
}

#[test]
fn follow_returns_the_column() {
    // an existing column answers exactly its value
    let rec = record(vec!["name", "size"], vec![s("tj"), i(100)]);
    let members = vec![PathMember::String { val: "size".to_string(), span: sp() }];
    assert_eq!(rec.follow_cell_path(&members).unwrap(), i(100));
}

#[test]
fn follow_missing_column_suggests_nearest() {
    // record columns ["name"], attempted "nam" -> suggestion "name"
    let rec = record(vec!["name"], vec![s("tj")]);
    let members = vec![PathMember::String { val: "nam".to_string(), span: sp() }];
    match rec.follow_cell_path(&members) {
        Err(ShellError::CantFindColumn { col_name, suggestion, .. }) => {
            assert_eq!(col_name, "nam".to_string());
            assert_eq!(suggestion, Some("name".to_string()));
        }
        other => panic!("expected a missing-column failure, got {:?}", other),
    }
}

#[test]
fn follow_beyond_end_names_the_length() {
    let l = list(vec![i(1), i(2)]);
    let members = vec![PathMember::Int { val: 5, span: sp() }];
    assert!(matches!(l.follow_cell_path(&members), Err(ShellError::AccessBeyondEnd(2, _))));
}

#[test]
fn follow_int_against_record_is_not_a_list() {
    let rec = record(vec!["a"], vec![i(1)]);
    let members = vec![PathMember::Int { val: 0, span: sp() }];
    assert!(matches!(rec.follow_cell_path(&members), Err(ShellError::NotAList(_, _))));
}

#[test]
fn follow_string_against_int_is_incompatible() {
    let v = i(3);
    let members = vec![PathMember::String { val: "a".to_string(), span: sp() }];
    assert!(matches!(
        v.follow_cell_path(&members),
        Err(ShellError::IncompatiblePathAccess(_, _))
    ));
}

#[test]
fn redeclare_after_hide_resolves_to_the_new_declaration() {
    // hiding a command then re-declaring the name makes it resolvable
    // again, to the new declaration only
    let mut st = EngineState::new();
    let first = st.add_decl(b"foo".to_vec(), sp()).unwrap();
    st.hide_pattern(&ImportPattern {
        head: ImportPatternHead { name: b"foo".to_vec(), span: sp() },
        members: vec![],
        hidden: vec![],
    })
    .unwrap();
    let second = st.add_decl(b"foo".to_vec(), sp()).unwrap();
    assert_ne!(first, second);
    assert_eq!(st.resolve_command(&b"foo".to_vec()), Some(second));
}

#[test]
fn hiding_an_unbound_name_fails() {
    let mut st = EngineState::new();
    let r = st.hide_pattern(&ImportPattern {
        head: ImportPatternHead { name: b"nowhere".to_vec(), span: sp() },
        members: vec![],
        hidden: vec![],
    });
    assert!(matches!(r, Err(ShellError::NotFound(_))));
}

#[test]
fn explicit_list_import_brings_exactly_the_named_symbols() {
    let mut st = EngineState::new();
    st.enter_scope();
    let a = st.add_decl(b"a".to_vec(), sp()).unwrap();
    let b = st.add_decl(b"b".to_vec(), sp()).unwrap();
    let c = st.add_decl(b"c".to_vec(), sp()).unwrap();
    st.exit_scope();
    st.register_module(engine_q::scope::Module {
        name: b"m".to_vec(),
        decl_exports: vec![(b"a".to_vec(), a), (b"b".to_vec(), b), (b"c".to_vec(), c)],
        env_exports: vec![],
    });
    st.use_pattern(&ImportPattern {
        head: ImportPatternHead { name: b"m".to_vec(), span: sp() },
        members: vec![ImportPatternMember::List {
            names: vec![(b"a".to_vec(), sp()), (b"c".to_vec(), sp())],
        }],
        hidden: vec![],
    })
    .unwrap();
    assert_eq!(st.resolve_command(&b"a".to_vec()), Some(a));
    assert_eq!(st.resolve_command(&b"c".to_vec()), Some(c));
    // b was not named, so it was not imported
    assert_eq!(st.resolve_command(&b"b".to_vec()), None);
}

#[test]
fn glob_import_leaves_unexported_names_unreachable() {
    let mut st = EngineState::new();
    st.enter_scope();
    let a = st.add_decl(b"a".to_vec(), sp()).unwrap();
    let _b = st.add_decl(b"b".to_vec(), sp()).unwrap();
    st.exit_scope();
    st.register_module(engine_q::scope::Module {
        name: b"m".to_vec(),
        decl_exports: vec![(b"a".to_vec(), a)],
        env_exports: vec![],
    });
    st.use_pattern(&ImportPattern {
        head: ImportPatternHead { name: b"m".to_vec(), span: sp() },
        members: vec![ImportPatternMember::Glob { span: sp() }],
        hidden: vec![],
    })
    .unwrap();
    assert!(st.resolve_command(&b"a".to_vec()).is_some());
    assert_eq!(st.resolve_command(&b"b".to_vec()), None);
}

#[test]
fn column_drop_is_idempotent_once_everything_is_dropped() {
    let row = || record(vec!["a", "b"], vec![i(1), i(2)]);
    let first = dropcol(PipelineData::Value(list(vec![row(), row()])), sp(), 5, None).unwrap();
    let rows1 = stream_vals(first);
    let second =
        dropcol(PipelineData::Value(list(rows1.clone())), sp(), 5, None).unwrap();
    let rows2 = stream_vals(second);
    assert_eq!(rows1, rows2);
    assert_eq!(rows1, vec![record(vec![], vec![]), record(vec![], vec![])]);
}

#[test]
fn map_under_cancellation_returns_a_prefix() {
    let double = |v: &Value| match v {
        Value::Int { val, span } => Value::Int { val: val * 2, span: *span },
        other => other.clone(),
    };
    // a raised flag stops consumption before the first element
    let intr = Interrupt::new();
    intr.trigger();
    let input = PipelineData::Value(list(vec![i(1), i(2), i(3)]));
    let out = stream_vals(input.map(double, Some(intr)));
    assert!(out.len() <= 3);
    for (k, v) in out.iter().enumerate() {
        assert_eq!(*v, i((k as i64 + 1) * 2));
    }
    // without a flag the output is complete
    let input = PipelineData::Value(list(vec![i(1), i(2), i(3)]));
    let out = stream_vals(input.map(double, None));
    assert_eq!(out, vec![i(2), i(4), i(6)]);
    // an unraised flag leaves the output complete as well
    let input = PipelineData::Value(list(vec![i(1), i(2), i(3)]));
    let out = stream_vals(input.map(double, Some(Interrupt::new())));
    assert_eq!(out, vec![i(2), i(4), i(6)]);
}

#[test]
fn parallel_split_preserves_output_order() {
    let vals: Vec<Value> = (1..10).map(i).collect();
    let sequential: Vec<Value> = vals
        .iter()
        .map(|v| match v {
            Value::Int { val, span } => Value::Int { val: val * 7, span: *span },
            other => other.clone(),
        })
        .collect();
    for workers in 1..5 {
        let parts = partition_by_index(vals.clone(), workers);
        // each worker maps its own bucket independently
        let mapped: Vec<Vec<(usize, Value)>> = parts
            .into_iter()
            .map(|bucket| {
                bucket
                    .into_iter()
                    .map(|(idx, v)| match v {
                        Value::Int { val, span } => (idx, Value::Int { val: val * 7, span }),
                        other => (idx, other),
                    })
                    .collect()
            })
            .collect();
        let out = reassemble(vals.len(), mapped).unwrap();
        assert_eq!(out, sequential);
    }
}

#[test]
fn did_you_mean_picks_the_nearest() {
    assert_eq!(
        did_you_mean(&vec!["name".to_string()], "nam"),
        Some("name".to_string())
    );
    assert_eq!(
        did_you_mean(&vec!["size".to_string(), "name".to_string()], "nam"),
        Some("name".to_string())
    );
    assert_eq!(did_you_mean(&vec![], "nam"), None);
}

#[test]
fn levenshtein_distance_examples() {
    assert_eq!(levenshtein_distance("kitten", "sitting"), 3);
    assert_eq!(levenshtein_distance("", "abc"), 3);
    assert_eq!(levenshtein_distance("abc", ""), 3);
    assert_eq!(levenshtein_distance("same", "same"), 0);
}

#[test]
fn variance_rejects_non_numbers() {
    let vals = vec![i(1), s("bob")];
    assert!(matches!(
        compute_variance(&vals, false, &sp()),
        Err(ShellError::UnsupportedInput(_, _))
    ));
    // an empty population has no variance
    assert!(matches!(
        compute_variance(&vec![], false, &sp()),
        Err(ShellError::DivisionByZero(_))
    ));
}

#[test]
fn build_regex_reports_unclosed_braces() {
    assert!(matches!(
        build_regex("{foo", sp()),
        Err(ShellError::DelimiterError(_, _))
    ));
    // escaping really happens: a dot in the pattern is literal
    let built = build_regex("a.b{x}", sp()).unwrap();
    assert!(built.contains("a\\.b"));
}

#[test]
fn span_union_covers_all() {
    let spans = vec![Span { start: 5, end: 7 }, Span { start: 2, end: 3 }, Span {
        start: 6,
        end: 10,
    }];
    assert_eq!(span(&spans), Span { start: 2, end: 10 });
    assert_eq!(span(&vec![]), Span { start: 0, end: 0 });
}

#[test]
fn import_pattern_span_covers_members() {
    let p = ImportPattern {
        head: ImportPatternHead { name: b"m".to_vec(), span: Span { start: 4, end: 6 } },
        members: vec![ImportPatternMember::Name {
            name: b"a".to_vec(),
            span: Span { start: 7, end: 9 },
        }],
        hidden: vec![],
    };
    assert_eq!(p.span(), Span { start: 4, end: 9 });
    let q = ImportPattern::new();
    assert_eq!(q.span(), Span { start: 0, end: 0 });
}

#[test]
fn update_cell_path_rewrites_the_leaf() {
    let mut rec = record(vec!["name", "size"], vec![s("a"), i(1)]);
    let members = vec![PathMember::String { val: "size".to_string(), span: sp() }];
    rec.update_cell_path(&members, |old: &Value| match old {
        Value::Int { val, span } => Value::Int { val: val + 10, span: *span },
        other => other.clone(),
    })
    .unwrap();
    assert_eq!(rec, record(vec!["name", "size"], vec![s("a"), i(11)]));
}

#[test]
fn stream_next_is_single_pass() {
    let mut st = ValueStream::from_vec(vec![i(1), i(2)], None);
    assert_eq!(st.next(), Some(i(1)));
    assert_eq!(st.next(), Some(i(2)));
    assert_eq!(st.next(), None);
}

#[test]
fn into_string_renders_structures() {
    assert_eq!(list(vec![i(1), i(2)]).into_string(), "[1, 2]".to_string());
    assert_eq!(
        record(vec!["a"], vec![s("x")]).into_string(),
        "{a: x}".to_string()
    );
    assert_eq!(i(-42).into_string(), "-42".to_string());
    assert_eq!(
        Value::Binary { val: vec![0xC0, 0x01], span: sp() }.into_string(),
        "c001".to_string()
    );
}

#[test]
fn parse_rejects_non_string_input() {
    let input = PipelineData::Value(list(vec![i(3)]));
    let r = Parse.run(input, &"{x}".to_string(), sp(), false, sp(), None);
    assert!(matches!(r, Err(ShellError::PipelineMismatch(_, _, _))));
}

#[test]
fn toml_rejects_bad_text() {
    let r = convert_string_to_value("= bad =".to_string(), sp());
    assert!(matches!(r, Err(ShellError::CantConvert(_, _, _))));
}

#[test]
fn ini_rejects_bad_text() {
    let r = from_ini_string_to_value("no section\u{1}==".to_string(), sp());
    assert!(matches!(r, Err(ShellError::UnsupportedInput(_, _))));
}

#[test]
fn strip_rejects_non_strings_in_place() {
    // a non-string element becomes an error value in its own slot
    let out = ansi_strip::action(&i(5), &sp());
    assert!(matches!(out, Value::Error { error: ShellError::TypeMismatch(_, _) }));
}

#[test]
fn update_path_failure_becomes_an_error_value() {
    // the row lacks the addressed column, so the row itself turns into
    // an error value while the pipeline goes on
    let row = record(vec!["a"], vec![s("x")]);
    let paths = vec![engine_q::cell_path::CellPath {
        members: vec![PathMember::String { val: "missing".to_string(), span: sp() }],
    }];
    let out = ansi_strip::SubCommand
        .run(PipelineData::Value(list(vec![row])), &paths, sp(), None)
        .unwrap();
    let rows = stream_vals(out);
    assert_eq!(rows.len(), 1);
    assert!(matches!(
        rows[0],
        Value::Error { error: ShellError::CantFindColumn { .. } }
    ));
}

#[test]
fn empty_stream_materializes_to_nothing() {
    let pd = PipelineData::Stream(ValueStream::from_vec(vec![], None));
    assert_eq!(pd.into_value(sp()), Value::Nothing { span: sp() });
}

#[test]
fn keep_until_stops_under_cancellation() {
    let intr = Interrupt::new();
    intr.trigger();
    let input = PipelineData::Value(list(vec![i(-1), i(-2), i(9)]));
    let out = KeepUntil
        .run(input, |v: &Value| matches!(v, Value::Int { val, .. } if *val > 0), Some(intr))
        .unwrap();
    // a cancelled run still answers an ordered prefix
    let vals = stream_vals(out);
    assert!(vals.len() <= 2);
    for (k, v) in vals.iter().enumerate() {
        assert_eq!(*v, i(if k == 0 { -1 } else { -2 }));
    }
}
