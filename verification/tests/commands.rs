// The command behaviours, each exercised end to end with the real
// outside crates linked.

use engine_q::ansi_strip;
use engine_q::cell_path::{CellPath, PathMember};
use engine_q::drop_column::{dropcol, DropColumn};
use engine_q::from_ini::{from_ini_string_to_value, FromIni};
use engine_q::from_toml::{convert_string_to_value, FromToml};
use engine_q::from_url::FromUrl;
use engine_q::hash_md5;
use engine_q::keep_until::KeepUntil;
use engine_q::keybindings::ListKeybindings;
use engine_q::parse_cmd::Parse;
use engine_q::pipeline::PipelineData;
use engine_q::range_cmd::Range;
use engine_q::snake_case;
use engine_q::span::Span;
use engine_q::str_collect::StrCollect;
use engine_q::substring::{self, Substring};
use engine_q::url_host;
use engine_q::url_query;
use engine_q::value::Value;
use engine_q::variance::compute_variance;

fn sp() -> Span {
    Span { start: 0, end: 0 }
}

fn s(text: &str) -> Value {
    Value::test_string(text)
}

fn i(val: i64) -> Value {
    Value::test_int(val)
}

fn list(vals: Vec<Value>) -> Value {
    Value::List { vals, span: sp() }
}

fn record(cols: Vec<&str>, vals: Vec<Value>) -> Value {
    Value::Record { cols: cols.into_iter().map(|c| c.to_string()).collect(), vals, span: sp() }
}

fn stream_vals(pd: PipelineData) -> Vec<Value> {
    match pd {
        PipelineData::Stream(st) => st.vals,
        PipelineData::Value(v) => vec![v],
        PipelineData::Empty => vec![],
    }
}

fn col_path(name: &str) -> CellPath {
    CellPath { members: vec![PathMember::String { val: name.to_string(), span: sp() }] }
}

#[test]
fn until_test_examples() {
    // keep until the element is positive: [-1 -2 9 1] -> [-1 -2]
    let input = PipelineData::Value(list(vec![i(-1), i(-2), i(9), i(1)]));
    let cmd = KeepUntil;
    let out = cmd
        .run(input, |v: &Value| matches!(v, Value::Int { val, .. } if *val > 0), None)
        .unwrap();
    assert_eq!(stream_vals(out), vec![i(-1), i(-2)]);
}

#[test]
fn range_test_examples() {
    let nums = || list(vec![i(0), i(1), i(2), i(3), i(4), i(5)]);
    let cmd = Range;
    let out = cmd.run(PipelineData::Value(nums()), &i(4), &i(5), sp(), None).unwrap();
    assert_eq!(stream_vals(out), vec![i(4), i(5)]);
    // (-2).. : an open end parses as the largest integer
    let out = cmd.run(PipelineData::Value(nums()), &i(-2), &i(i64::MAX), sp(), None).unwrap();
    assert_eq!(stream_vals(out), vec![i(4), i(5)]);
    let out = cmd.run(PipelineData::Value(nums()), &i(-3), &i(-2), sp(), None).unwrap();
    assert_eq!(stream_vals(out), vec![i(3), i(4)]);
}

#[test]
fn ini_test_examples() {
    let text = "[foo]\na=1\nb=2".to_string();
    let v = from_ini_string_to_value(text, sp()).unwrap();
    let expected = record(
        vec!["foo"],
        vec![record(vec!["a", "b"], vec![s("1"), s("2")])],
    );
    assert_eq!(v, expected);
    let _ = FromIni.name();
}

#[test]
fn toml_test_examples() {
    let v = convert_string_to_value("a = 1\n".to_string(), sp()).unwrap();
    assert_eq!(v, record(vec!["a"], vec![i(1)]));
    let v = convert_string_to_value("a = 1\nb = [1, 2]\n".to_string(), sp()).unwrap();
    assert_eq!(v, record(vec!["a", "b"], vec![i(1), list(vec![i(1), i(2)])]));
    let _ = FromToml.name();
}

#[test]
fn url_test_examples() {
    let input = PipelineData::Value(s("bread=baguette&cheese=comt%C3%A9&meat=ham&fat=butter"));
    let out = FromUrl.run(input, sp()).unwrap();
    let expected = record(
        vec!["bread", "cheese", "meat", "fat"],
        vec![s("baguette"), s("comt\u{e9}"), s("ham"), s("butter")],
    );
    match out {
        PipelineData::Value(v) => assert_eq!(v, expected),
        _ => panic!("expected a single record"),
    }
}

#[test]
fn md5_test_examples() {
    let actual = hash_md5::action(&s("abcdefghijklmnopqrstuvwxyz"));
    assert_eq!(actual, s("c3fcd3d76192e4007dfb496cca67e13b"));
}

#[test]
fn hash_string() {
    let binary = Value::String { val: "abcdefghijklmnopqrstuvwxyz".to_owned(), span: sp() };
    let expected = Value::String { val: "c3fcd3d76192e4007dfb496cca67e13b".to_owned(), span: sp() };
    let actual = hash_md5::action(&binary);
    assert_eq!(actual, expected);
}

#[test]
fn hash_bytes() {
    let binary = Value::Binary { val: vec![0xC0, 0xFF, 0xEE], span: sp() };
    let expected = Value::String { val: "5f80e231382769b0102b1164cf722d83".to_owned(), span: sp() };
    let actual = hash_md5::action(&binary);
    assert_eq!(actual, expected);
}

#[test]
fn variance_test_examples() {
    let vals = vec![i(1), i(2), i(3), i(4), i(5)];
    let r = compute_variance(&vals, false, &sp()).unwrap();
    assert_eq!(r.num as f64 / r.den as f64, 2.0);
    let r = compute_variance(&vals, true, &sp()).unwrap();
    assert_eq!(r.num as f64 / r.den as f64, 2.5);
}

#[test]
fn host_test_examples() {
    let out = url_host::host(&s("http://www.example.com/foo/bar"), &sp());
    assert_eq!(out, Value::String { val: "www.example.com".to_string(), span: sp() });
}

#[test]
fn query_test_examples() {
    let out = url_query::query(&s("http://www.example.com/?foo=bar&baz=quux"), &sp());
    assert_eq!(out, Value::String { val: "foo=bar&baz=quux".to_string(), span: sp() });
    let out = url_query::query(&s("http://www.example.com/"), &sp());
    assert_eq!(out, Value::String { val: "".to_string(), span: sp() });
}

#[test]
fn examples_work_as_expected() {
    // stripping text without escapes leaves it unchanged
    let out = ansi_strip::action(&s("hello"), &sp());
    assert_eq!(out, s("hello"));
    let out = ansi_strip::action(&s("\u{1b}[32mhello\u{1b}[0m"), &sp());
    assert_eq!(out, s("hello"));
}

#[test]
fn test_stripping() {
    let input_string =
        Value::test_string("\u{1b}[3;93;41mHello\u{1b}[0m \u{1b}[1;32mNu \u{1b}[1;35mWorld");
    let expected = Value::test_string("Hello Nu World");
    let actual = ansi_strip::action(&input_string, &sp());
    assert_eq!(actual, expected);
}

#[test]
fn parse_test_examples() {
    let result_row = record(vec!["foo", "bar"], vec![s("hi"), s("there")]);
    let input = PipelineData::Value(list(vec![s("hi there")]));
    let out = Parse
        .run(input, &"{foo} {bar}".to_string(), sp(), false, sp(), None)
        .unwrap();
    assert_eq!(stream_vals(out), vec![result_row.clone()]);
    let input = PipelineData::Value(list(vec![s("hi there")]));
    let out = Parse
        .run(input, &"(?P<foo>\\w+) (?P<bar>\\w+)".to_string(), sp(), true, sp(), None)
        .unwrap();
    assert_eq!(stream_vals(out), vec![result_row]);
}

#[test]
fn screaming_snake_case_test_examples() {
    assert_eq!(snake_case::action(&s("NuShell"), sp()), s("NU_SHELL"));
    assert_eq!(
        snake_case::action(&s("this_is_the_second_case"), sp()),
        s("THIS_IS_THE_SECOND_CASE")
    );
    assert_eq!(
        snake_case::action(&s("this-is-the-first-case"), sp()),
        s("THIS_IS_THE_FIRST_CASE")
    );
    // a column of a table, through a column path
    let row = record(vec!["lang", "gems"], vec![s("nu_test"), i(100)]);
    let input = PipelineData::Value(list(vec![row]));
    let cmd = snake_case::SubCommand;
    let out = cmd.run(input, &vec![col_path("lang")], sp(), None).unwrap();
    let expected = record(vec!["lang", "gems"], vec![s("NU_TEST"), i(100)]);
    assert_eq!(stream_vals(out), vec![expected]);
}

#[test]
fn collect_test_examples() {
    let input = PipelineData::Value(list(vec![s("nu"), s("shell")]));
    let out = StrCollect.run(input, None, sp()).unwrap();
    match out {
        PipelineData::Value(v) => assert_eq!(v, s("nushell")),
        _ => panic!("expected a single string"),
    }
    let input = PipelineData::Value(list(vec![s("nu"), s("shell")]));
    let out = StrCollect.run(input, Some("-".to_string()), sp()).unwrap();
    match out {
        PipelineData::Value(v) => assert_eq!(v, s("nu-shell")),
        _ => panic!("expected a single string"),
    }
}

#[test]
fn substring_test_examples() {
    let text = || PipelineData::Value(list(vec![s("good nushell")]));
    let cmd = substring::SubCommand;
    let by_list = list(vec![i(5), i(12)]);
    let out = cmd.run(text(), &by_list, &vec![], sp(), None).unwrap();
    assert_eq!(stream_vals(out), vec![s("nushell")]);
    let out = cmd.run(text(), &s("5,12"), &vec![], sp(), None).unwrap();
    assert_eq!(stream_vals(out), vec![s("nushell")]);
    let out = cmd.run(text(), &s(",-5"), &vec![], sp(), None).unwrap();
    assert_eq!(stream_vals(out), vec![s("good nu")]);
    let out = cmd.run(text(), &s("5,"), &vec![], sp(), None).unwrap();
    assert_eq!(stream_vals(out), vec![s("nushell")]);
    let out = cmd.run(text(), &s(",7"), &vec![], sp(), None).unwrap();
    assert_eq!(stream_vals(out), vec![s("good nu")]);
}

#[test]
fn substrings_indexes() {
    let word = Value::String { val: "andres".to_string(), span: sp() };
    let cases: Vec<(&str, (i64, i64))> = vec![
        ("a", (0, 1)),
        ("an", (0, 2)),
        ("and", (0, 3)),
        ("andr", (0, 4)),
        ("andre", (0, 5)),
        ("andres", (0, 6)),
        ("", (0, -6)),
        ("a", (0, -5)),
        ("an", (0, -4)),
        ("and", (0, -3)),
        ("andr", (0, -2)),
        ("andre", (0, -1)),
        ("dres", (-4, i64::MAX)),
        ("", (0, -110)),
        ("", (6, 0)),
        ("", (6, -1)),
        ("", (6, -2)),
        ("", (6, -3)),
        ("", (6, -4)),
        ("", (6, -5)),
        ("", (6, -6)),
    ];
    for (expected, options) in &cases {
        let actual = substring::action(&word, &Substring(options.0, options.1), sp());
        assert_eq!(actual, Value::String { val: expected.to_string(), span: sp() });
    }
}

#[test]
fn command_drop_column_1() {
    // [[lang, gems, grade]; [nu, 100, a]] | drop column 2 -> [{lang: nu}]
    let row = record(vec!["lang", "gems", "grade"], vec![s("nu"), i(100), s("a")]);
    let input = PipelineData::Value(list(vec![row]));
    let out = dropcol(input, sp(), 2, None).unwrap();
    assert_eq!(stream_vals(out), vec![record(vec!["lang"], vec![s("nu")])]);
    let _ = DropColumn.name();
}

#[test]
fn keybindings_list_shape() {
    let out = ListKeybindings.run(&vec![], sp()).unwrap();
    match out {
        PipelineData::Value(Value::List { vals, .. }) => {
            assert!(!vals.is_empty());
            for v in vals {
                match v {
                    Value::Record { cols, .. } => {
                        assert_eq!(cols, vec!["type".to_string(), "name".to_string()]);
                    }
                    _ => panic!("expected records"),
                }
            }
        }
        _ => panic!("expected a list"),
    }
}
