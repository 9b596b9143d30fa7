// The scope and symbol-table behaviours: shadowing, hiding, module
// imports, and the discard of block-local bindings.

use engine_q::error::ShellError;
use engine_q::import_pattern::{ImportPattern, ImportPatternHead, ImportPatternMember};
use engine_q::scope::{EngineState, Module};
use engine_q::span::Span;
use engine_q::value::Value;

fn sp() -> Span {
    Span { start: 0, end: 0 }
}

fn sv(text: &str) -> Value {
    Value::test_string(text)
}

fn pat(head: &[u8]) -> ImportPattern {
    ImportPattern {
        head: ImportPatternHead { name: head.to_vec(), span: sp() },
        members: vec![],
        hidden: vec![],
    }
}

fn pat_name(head: &[u8], name: &[u8]) -> ImportPattern {
    ImportPattern {
        head: ImportPatternHead { name: head.to_vec(), span: sp() },
        members: vec![ImportPatternMember::Name { name: name.to_vec(), span: sp() }],
        hidden: vec![],
    }
}

fn pat_glob(head: &[u8]) -> ImportPattern {
    ImportPattern {
        head: ImportPatternHead { name: head.to_vec(), span: sp() },
        members: vec![ImportPatternMember::Glob { span: sp() }],
        hidden: vec![],
    }
}

fn pat_list(head: &[u8], names: &[&[u8]]) -> ImportPattern {
    ImportPattern {
        head: ImportPatternHead { name: head.to_vec(), span: sp() },
        members: vec![ImportPatternMember::List {
            names: names.iter().map(|n| (n.to_vec(), sp())).collect(),
        }],
        hidden: vec![],
    }
}

// Registers a module whose exports were declared in a throwaway scope,
// the way a parsed module block's names stay out of the surrounding
// scope.
fn setup_module(
    st: &mut EngineState,
    mname: &[u8],
    decls: &[&[u8]],
    envs: &[(&[u8], &str)],
) -> Vec<usize> {
    st.enter_scope();
    let mut ids = vec![];
    let mut dex = vec![];
    for d in decls {
        let id = st.add_decl(d.to_vec(), sp()).unwrap();
        ids.push(id);
        dex.push((d.to_vec(), id));
    }
    let mut eex = vec![];
    for (n, v) in envs {
        let id = st.add_env_var(n.to_vec(), sv(v));
        ids.push(id);
        eex.push((n.to_vec(), id));
    }
    st.exit_scope();
    st.register_module(Module { name: mname.to_vec(), decl_exports: dex, env_exports: eex });
    ids
}

#[test]
fn hides_def() {
    let mut st = EngineState::new();
    st.add_decl(b"foo".to_vec(), sp()).unwrap();
    st.hide_pattern(&pat(b"foo")).unwrap();
    assert_eq!(st.resolve_command(&b"foo".to_vec()), None);
}

#[test]
fn hides_env() {
    let mut st = EngineState::new();
    st.add_env_var(b"foo".to_vec(), sv("foo"));
    st.hide_pattern(&pat(b"foo")).unwrap();
    assert!(st.resolve_env(&b"foo".to_vec()).is_none());
}

#[test]
fn hides_env_then_redefines() {
    let mut st = EngineState::new();
    st.add_env_var(b"foo".to_vec(), sv("foo"));
    st.hide_pattern(&pat(b"foo")).unwrap();
    st.add_env_var(b"foo".to_vec(), sv("bar"));
    assert_eq!(st.resolve_env(&b"foo".to_vec()), Some(sv("bar")));
}

#[test]
fn hides_def_in_scope_1() {
    let mut st = EngineState::new();
    st.add_decl(b"foo".to_vec(), sp()).unwrap();
    st.enter_scope();
    st.hide_pattern(&pat(b"foo")).unwrap();
    assert_eq!(st.resolve_command(&b"foo".to_vec()), None);
    st.exit_scope();
    // the hide marker left with its frame
    assert!(st.resolve_command(&b"foo".to_vec()).is_some());
}

#[test]
fn hides_def_in_scope_2() {
    let mut st = EngineState::new();
    let outer = st.add_decl(b"foo".to_vec(), sp()).unwrap();
    st.enter_scope();
    st.add_decl(b"foo".to_vec(), sp()).unwrap();
    st.hide_pattern(&pat(b"foo")).unwrap();
    // hiding the inner definition uncovers the outer one
    assert_eq!(st.resolve_command(&b"foo".to_vec()), Some(outer));
}

#[test]
fn hides_def_in_scope_3() {
    let mut st = EngineState::new();
    st.add_decl(b"foo".to_vec(), sp()).unwrap();
    st.enter_scope();
    st.hide_pattern(&pat(b"foo")).unwrap();
    let inner = st.add_decl(b"foo".to_vec(), sp()).unwrap();
    assert_eq!(st.resolve_command(&b"foo".to_vec()), Some(inner));
    st.hide_pattern(&pat(b"foo")).unwrap();
    assert_eq!(st.resolve_command(&b"foo".to_vec()), None);
}

#[test]
fn hides_def_in_scope_4() {
    let mut st = EngineState::new();
    st.add_decl(b"foo".to_vec(), sp()).unwrap();
    st.enter_scope();
    st.add_decl(b"foo".to_vec(), sp()).unwrap();
    st.hide_pattern(&pat(b"foo")).unwrap();
    st.hide_pattern(&pat(b"foo")).unwrap();
    assert_eq!(st.resolve_command(&b"foo".to_vec()), None);
}

#[test]
fn hides_env_in_scope_1() {
    let mut st = EngineState::new();
    st.add_env_var(b"foo".to_vec(), sv("foo"));
    st.enter_scope();
    st.hide_pattern(&pat(b"foo")).unwrap();
    assert!(st.resolve_env(&b"foo".to_vec()).is_none());
    st.exit_scope();
    assert_eq!(st.resolve_env(&b"foo".to_vec()), Some(sv("foo")));
}

#[test]
fn hides_env_in_scope_2() {
    let mut st = EngineState::new();
    st.add_env_var(b"foo".to_vec(), sv("foo"));
    st.enter_scope();
    st.add_env_var(b"foo".to_vec(), sv("bar"));
    st.hide_pattern(&pat(b"foo")).unwrap();
    assert_eq!(st.resolve_env(&b"foo".to_vec()), Some(sv("foo")));
}

#[test]
fn hides_env_in_scope_3() {
    let mut st = EngineState::new();
    st.add_env_var(b"foo".to_vec(), sv("foo"));
    st.enter_scope();
    st.hide_pattern(&pat(b"foo")).unwrap();
    st.add_env_var(b"foo".to_vec(), sv("bar"));
    assert_eq!(st.resolve_env(&b"foo".to_vec()), Some(sv("bar")));
    st.hide_pattern(&pat(b"foo")).unwrap();
    assert!(st.resolve_env(&b"foo".to_vec()).is_none());
}

#[test]
fn hides_env_in_scope_4() {
    let mut st = EngineState::new();
    st.add_env_var(b"foo".to_vec(), sv("foo"));
    st.enter_scope();
    st.add_env_var(b"foo".to_vec(), sv("bar"));
    st.hide_pattern(&pat(b"foo")).unwrap();
    st.hide_pattern(&pat(b"foo")).unwrap();
    assert!(st.resolve_env(&b"foo".to_vec()).is_none());
}

#[test]
fn hide_def_twice_not_allowed() {
    let mut st = EngineState::new();
    st.add_decl(b"foo".to_vec(), sp()).unwrap();
    st.hide_pattern(&pat(b"foo")).unwrap();
    assert!(matches!(st.hide_pattern(&pat(b"foo")), Err(ShellError::NotFound(_))));
}

#[test]
fn hide_env_twice_not_allowed() {
    let mut st = EngineState::new();
    st.add_env_var(b"foo".to_vec(), sv("foo"));
    st.hide_pattern(&pat(b"foo")).unwrap();
    assert!(matches!(st.hide_pattern(&pat(b"foo")), Err(ShellError::NotFound(_))));
}

#[test]
fn hides_def_runs_env_1() {
    let mut st = EngineState::new();
    st.add_env_var(b"foo".to_vec(), sv("bar"));
    st.add_decl(b"foo".to_vec(), sp()).unwrap();
    st.hide_pattern(&pat(b"foo")).unwrap();
    assert_eq!(st.resolve_command(&b"foo".to_vec()), None);
    assert_eq!(st.resolve_env(&b"foo".to_vec()), Some(sv("bar")));
}

#[test]
fn hides_def_runs_env_2() {
    let mut st = EngineState::new();
    st.add_decl(b"foo".to_vec(), sp()).unwrap();
    st.add_env_var(b"foo".to_vec(), sv("bar"));
    st.hide_pattern(&pat(b"foo")).unwrap();
    assert_eq!(st.resolve_env(&b"foo".to_vec()), Some(sv("bar")));
}

#[test]
fn hides_def_and_env() {
    let mut st = EngineState::new();
    st.add_env_var(b"foo".to_vec(), sv("bar"));
    st.add_decl(b"foo".to_vec(), sp()).unwrap();
    st.hide_pattern(&pat(b"foo")).unwrap();
    st.hide_pattern(&pat(b"foo")).unwrap();
    assert_eq!(st.resolve_command(&b"foo".to_vec()), None);
    assert!(st.resolve_env(&b"foo".to_vec()).is_none());
}

#[test]
fn module_def_imports_1() {
    let mut st = EngineState::new();
    setup_module(&mut st, b"foo", &[b"a"], &[]);
    st.use_pattern(&pat(b"foo")).unwrap();
    assert!(st.resolve_command(&b"foo a".to_vec()).is_some());
    assert_eq!(st.resolve_command(&b"foo b".to_vec()), None);
}

#[test]
fn module_def_imports_2() {
    let mut st = EngineState::new();
    setup_module(&mut st, b"foo", &[b"a"], &[]);
    st.use_pattern(&pat_name(b"foo", b"a")).unwrap();
    assert!(st.resolve_command(&b"a".to_vec()).is_some());
}

#[test]
fn module_def_imports_3() {
    let mut st = EngineState::new();
    setup_module(&mut st, b"foo", &[b"a", b"b"], &[]);
    st.use_pattern(&pat_glob(b"foo")).unwrap();
    assert!(st.resolve_command(&b"b".to_vec()).is_some());
}

#[test]
fn module_def_imports_4() {
    let mut st = EngineState::new();
    setup_module(&mut st, b"foo", &[b"a", b"b"], &[]);
    let r = st.use_pattern(&pat_name(b"foo", b"c"));
    assert!(matches!(r, Err(ShellError::ImportSymbolMissing(_, _))));
    // nothing was imported
    assert_eq!(st.resolve_command(&b"c".to_vec()), None);
}

#[test]
fn module_env_imports_2() {
    let mut st = EngineState::new();
    setup_module(&mut st, b"foo", &[], &[(b"a", "1")]);
    st.use_pattern(&pat_name(b"foo", b"a")).unwrap();
    assert_eq!(st.resolve_env(&b"a".to_vec()), Some(sv("1")));
}

#[test]
fn module_env_imports_3() {
    let mut st = EngineState::new();
    setup_module(&mut st, b"foo", &[], &[(b"a", "1"), (b"b", "2")]);
    st.use_pattern(&pat_glob(b"foo")).unwrap();
    assert_eq!(st.resolve_env(&b"b".to_vec()), Some(sv("2")));
}

#[test]
fn module_env_imports_4() {
    let mut st = EngineState::new();
    setup_module(&mut st, b"foo", &[], &[(b"a", "1"), (b"b", "2")]);
    let r = st.use_pattern(&pat_name(b"foo", b"c"));
    assert!(matches!(r, Err(ShellError::ImportSymbolMissing(_, _))));
}

#[test]
fn hides_def_import_1() {
    let mut st = EngineState::new();
    setup_module(&mut st, b"spam", &[b"foo"], &[]);
    st.use_pattern(&pat(b"spam")).unwrap();
    st.hide_pattern(&pat_name(b"spam", b"foo")).unwrap();
    assert_eq!(st.resolve_command(&b"spam foo".to_vec()), None);
}

#[test]
fn hides_def_import_2() {
    let mut st = EngineState::new();
    setup_module(&mut st, b"spam", &[b"foo"], &[]);
    st.use_pattern(&pat(b"spam")).unwrap();
    st.hide_pattern(&pat(b"spam")).unwrap();
    assert_eq!(st.resolve_command(&b"spam foo".to_vec()), None);
}

#[test]
fn hides_def_import_3() {
    let mut st = EngineState::new();
    setup_module(&mut st, b"spam", &[b"foo"], &[]);
    st.use_pattern(&pat(b"spam")).unwrap();
    st.hide_pattern(&pat_list(b"spam", &[b"foo"])).unwrap();
    assert_eq!(st.resolve_command(&b"spam foo".to_vec()), None);
}

#[test]
fn hides_def_import_4() {
    let mut st = EngineState::new();
    setup_module(&mut st, b"spam", &[b"foo"], &[]);
    st.use_pattern(&pat_name(b"spam", b"foo")).unwrap();
    st.hide_pattern(&pat(b"foo")).unwrap();
    assert_eq!(st.resolve_command(&b"foo".to_vec()), None);
}

#[test]
fn hides_def_import_5() {
    let mut st = EngineState::new();
    setup_module(&mut st, b"spam", &[b"foo"], &[]);
    st.use_pattern(&pat_glob(b"spam")).unwrap();
    st.hide_pattern(&pat(b"foo")).unwrap();
    assert_eq!(st.resolve_command(&b"foo".to_vec()), None);
}

#[test]
fn hides_def_import_6() {
    let mut st = EngineState::new();
    setup_module(&mut st, b"spam", &[b"foo"], &[]);
    st.use_pattern(&pat_glob(b"spam")).unwrap();
    st.hide_pattern(&pat_glob(b"spam")).unwrap();
    assert_eq!(st.resolve_command(&b"foo".to_vec()), None);
}

#[test]
fn hides_env_import_4() {
    let mut st = EngineState::new();
    setup_module(&mut st, b"spam", &[], &[(b"foo", "foo")]);
    st.use_pattern(&pat_name(b"spam", b"foo")).unwrap();
    st.hide_pattern(&pat(b"foo")).unwrap();
    assert!(st.resolve_env(&b"foo".to_vec()).is_none());
}

#[test]
fn hides_env_import_5() {
    let mut st = EngineState::new();
    setup_module(&mut st, b"spam", &[], &[(b"foo", "foo")]);
    st.use_pattern(&pat_glob(b"spam")).unwrap();
    st.hide_pattern(&pat(b"foo")).unwrap();
    assert!(st.resolve_env(&b"foo".to_vec()).is_none());
}

#[test]
fn hides_env_import_6() {
    let mut st = EngineState::new();
    setup_module(&mut st, b"spam", &[], &[(b"foo", "foo")]);
    st.use_pattern(&pat_glob(b"spam")).unwrap();
    st.hide_pattern(&pat_glob(b"spam")).unwrap();
    assert!(st.resolve_env(&b"foo".to_vec()).is_none());
}

#[test]
fn use_def_import_after_hide() {
    let mut st = EngineState::new();
    setup_module(&mut st, b"spam", &[b"foo"], &[]);
    st.use_pattern(&pat_name(b"spam", b"foo")).unwrap();
    st.hide_pattern(&pat(b"foo")).unwrap();
    assert_eq!(st.resolve_command(&b"foo".to_vec()), None);
    // importing anew makes the same declaration reachable again
    st.use_pattern(&pat_name(b"spam", b"foo")).unwrap();
    assert!(st.resolve_command(&b"foo".to_vec()).is_some());
}

#[test]
fn use_env_import_after_hide() {
    let mut st = EngineState::new();
    setup_module(&mut st, b"spam", &[], &[(b"foo", "foo")]);
    st.use_pattern(&pat_name(b"spam", b"foo")).unwrap();
    st.hide_pattern(&pat(b"foo")).unwrap();
    assert!(st.resolve_env(&b"foo".to_vec()).is_none());
    st.use_pattern(&pat_name(b"spam", b"foo")).unwrap();
    assert_eq!(st.resolve_env(&b"foo".to_vec()), Some(sv("foo")));
}

#[test]
fn hide_shadowed_decl() {
    let mut st = EngineState::new();
    let outer = st.add_decl(b"foo".to_vec(), sp()).unwrap();
    st.enter_scope();
    st.add_decl(b"foo".to_vec(), sp()).unwrap();
    st.hide_pattern(&pat(b"foo")).unwrap();
    assert_eq!(st.resolve_command(&b"foo".to_vec()), Some(outer));
}

#[test]
fn hide_shadowed_env() {
    let mut st = EngineState::new();
    st.add_env_var(b"foo".to_vec(), sv("foo"));
    st.enter_scope();
    st.add_env_var(b"foo".to_vec(), sv("bar"));
    st.hide_pattern(&pat(b"foo")).unwrap();
    assert_eq!(st.resolve_env(&b"foo".to_vec()), Some(sv("foo")));
}

#[test]
fn def_twice_should_fail() {
    let mut st = EngineState::new();
    st.add_decl(b"foo".to_vec(), sp()).unwrap();
    let r = st.add_decl(b"foo".to_vec(), sp());
    assert!(matches!(r, Err(ShellError::DuplicateDeclaration(_, _))));
}

#[test]
fn no_scope_leak1() {
    // a variable bound inside a block never leaks outside it
    let mut st = EngineState::new();
    st.enter_scope();
    st.add_var(7, Value::test_int(20));
    assert_eq!(st.resolve_variable(7), Some(Value::test_int(20)));
    st.exit_scope();
    assert_eq!(st.resolve_variable(7), None);
}

#[test]
fn proper_shadow() {
    let mut st = EngineState::new();
    st.add_var(1, Value::test_int(10));
    st.add_var(1, Value::test_int(19));
    assert_eq!(st.resolve_variable(1), Some(Value::test_int(19)));
}

#[test]
fn simple_var_closing() {
    // a captured value is copied into the frame at block entry
    let mut st = EngineState::new();
    st.add_var(3, Value::test_int(10));
    st.enter_scope();
    st.add_var(3, Value::test_int(10));
    assert_eq!(st.resolve_variable(3), Some(Value::test_int(10)));
    st.exit_scope();
    assert_eq!(st.resolve_variable(3), Some(Value::test_int(10)));
}

#[test]
fn merge_delta_commits_whole_batch() {
    let mut st = EngineState::new();
    let before = st.decls.len();
    let delta = engine_q::scope::StateDelta {
        decls: vec![
            engine_q::scope::Decl { name: b"one".to_vec() },
            engine_q::scope::Decl { name: b"two".to_vec() },
        ],
        modules: vec![],
    };
    st.merge_delta(delta);
    assert_eq!(st.decls.len(), before + 2);
}
