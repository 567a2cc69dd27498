use verswitch::candidate::CommandVersion;
use verswitch::codec::{load_store, parse_store, render_store, StoreError};
use verswitch::dispatch::{confirm_target, label_less, resolve, DispatchError, DISPATCH_FAILED_EXIT};
use verswitch::session::{apply_selection, SessionError};
use verswitch::shim::{plan_shim, shell_quote, ShimError};
use verswitch::store::Definitions;

fn s(x: &str) -> String {
    x.to_string()
}

fn cv(command: &str, version: &str, path: &str) -> CommandVersion {
    CommandVersion::new(s(command), s(version), s(path))
}

#[test]
fn insert_then_lookup() {
    let mut d = Definitions::new();
    d.insert(&s("foo"), &s("1.2.0"), &s("/opt/foo-1.2.0"));
    assert_eq!(d.lookup(&s("foo"), &s("1.2.0")), Some(s("/opt/foo-1.2.0")));
    assert_eq!(d.lookup(&s("foo"), &s("1.3.0")), None);
    assert_eq!(d.lookup(&s("bar"), &s("1.2.0")), None);
}

#[test]
fn insert_overwrites_existing_version() {
    let mut d = Definitions::new();
    d.insert(&s("foo"), &s("1.2.0"), &s("/opt/old"));
    d.insert(&s("foo"), &s("1.2.0"), &s("/opt/new"));
    assert_eq!(d.lookup(&s("foo"), &s("1.2.0")), Some(s("/opt/new")));
    assert_eq!(d.commands.len(), 1);
    assert_eq!(d.commands[0].versions.len(), 1);
}

#[test]
fn selecting_one_candidate_records_it() {
    let mut d = Definitions::new();
    let candidates = vec![cv("foo", "1.2.0", "/opt/foo-1.2.0")];
    assert_eq!(apply_selection(&mut d, &s("foo"), &candidates, &vec![0]), Ok(()));
    assert_eq!(d.commands.len(), 1);
    assert_eq!(d.commands[0].command, "foo");
    assert_eq!(d.commands[0].versions.len(), 1);
    assert_eq!(d.lookup(&s("foo"), &s("1.2.0")), Some(s("/opt/foo-1.2.0")));
    let plan = plan_shim(&s("/home/u/.verswitch/shims"), &s("foo"), &s("/usr/local/bin/verswitch")).unwrap();
    assert_eq!(plan.path, "/home/u/.verswitch/shims/foo");
}

#[test]
fn selecting_nothing_changes_nothing() {
    let mut d = Definitions::new();
    d.insert(&s("baz"), &s("0.9"), &s("/usr/bin/baz-0.9"));
    let before = render_store(&d);
    let candidates = vec![cv("baz", "1.0", "/a/baz-1.0"), cv("baz", "1.1", "/a/baz-1.1"), cv("baz", "1.2", "/b/baz-1.2")];
    let r = apply_selection(&mut d, &s("baz"), &candidates, &vec![]);
    assert_eq!(r, Err(SessionError::SelectionEmpty));
    assert_eq!(render_store(&d), before);
    assert_eq!(SessionError::SelectionEmpty.exit_code(), 0);
    assert_ne!(SessionError::SelectionEmpty, SessionError::DiscoveryEmpty);
}

#[test]
fn selecting_several_records_each() {
    let mut d = Definitions::new();
    let candidates = vec![cv("baz", "1.0", "/a/baz-1.0"), cv("baz", "1.1", "/a/baz-1.1"), cv("baz", "1.0", "/b/baz-1.0")];
    assert_eq!(apply_selection(&mut d, &s("baz"), &candidates, &vec![0, 1, 2]), Ok(()));
    assert_eq!(d.lookup(&s("baz"), &s("1.0")), Some(s("/b/baz-1.0")));
    assert_eq!(d.lookup(&s("baz"), &s("1.1")), Some(s("/a/baz-1.1")));
}

#[test]
fn dispatch_runs_recorded_binary() {
    let mut d = Definitions::new();
    d.insert(&s("foo"), &s("1.2.0"), &s("/opt/foo-1.2.0"));
    let target = resolve(&d, &s("foo")).unwrap();
    assert_eq!(target, "/opt/foo-1.2.0");
    assert_eq!(confirm_target(target, true), Ok(s("/opt/foo-1.2.0")));
}

#[test]
fn dispatch_unknown_command_is_unresolved() {
    let d = Definitions::new();
    assert_eq!(resolve(&d, &s("foo")), Err(DispatchError::Unresolved));
    assert_eq!(DispatchError::Unresolved.exit_code(), DISPATCH_FAILED_EXIT);
    assert_ne!(DISPATCH_FAILED_EXIT, 0);
}

#[test]
fn dispatch_missing_target_fails() {
    assert_eq!(confirm_target(s("/opt/gone"), false), Err(DispatchError::TargetMissing));
    assert_eq!(DispatchError::TargetMissing.exit_code(), DISPATCH_FAILED_EXIT);
}

#[test]
fn dispatch_picks_greatest_label_every_time() {
    let mut a = Definitions::new();
    a.insert(&s("foo"), &s("1.2.0"), &s("/opt/foo-1.2.0"));
    a.insert(&s("foo"), &s("1.10.0"), &s("/opt/foo-1.10.0"));
    a.insert(&s("foo"), &s("1.3.0"), &s("/opt/foo-1.3.0"));
    let mut b = Definitions::new();
    b.insert(&s("foo"), &s("1.3.0"), &s("/opt/foo-1.3.0"));
    b.insert(&s("foo"), &s("1.2.0"), &s("/opt/foo-1.2.0"));
    b.insert(&s("foo"), &s("1.10.0"), &s("/opt/foo-1.10.0"));
    assert_eq!(resolve(&a, &s("foo")), Ok(s("/opt/foo-1.3.0")));
    assert_eq!(resolve(&a, &s("foo")), resolve(&a, &s("foo")));
    assert_eq!(resolve(&b, &s("foo")), Ok(s("/opt/foo-1.3.0")));
}

#[test]
fn label_order_by_characters() {
    assert!(label_less(&s("1.2"), &s("1.3")));
    assert!(label_less(&s("1.2"), &s("1.2.1")));
    assert!(!label_less(&s("1.3"), &s("1.2")));
    assert!(!label_less(&s("1.2"), &s("1.2")));
    assert!(label_less(&s(""), &s("a")));
}

#[test]
fn shim_script_runs_manager() {
    let plan = plan_shim(&s("/shims"), &s("foo"), &s("/usr/local/bin/verswitch")).unwrap();
    assert_eq!(plan.path, "/shims/foo");
    assert_eq!(plan.content, "#!/bin/sh\nexec '/usr/local/bin/verswitch' shim 'foo' \"$@\"\n");
}

#[test]
fn shim_plan_is_the_same_twice() {
    let a = plan_shim(&s("/shims"), &s("foo"), &s("/opt/my tools/verswitch")).unwrap();
    let b = plan_shim(&s("/shims"), &s("foo"), &s("/opt/my tools/verswitch")).unwrap();
    assert_eq!(a.path, b.path);
    assert_eq!(a.content, b.content);
}

#[test]
fn shim_quotes_awkward_paths() {
    assert_eq!(shell_quote("/opt/it's here"), "'/opt/it'\\''s here'");
    assert_eq!(shell_quote(""), "''");
}

#[test]
fn shim_needs_absolute_manager() {
    assert!(matches!(plan_shim(&s("/shims"), &s("foo"), &s("bin/verswitch")), Err(ShimError::ManagerPathNotAbsolute)));
    assert!(matches!(plan_shim(&s("/shims"), &s("foo"), &s("")), Err(ShimError::ManagerPathNotAbsolute)));
}

#[test]
fn shim_needs_plain_command_name() {
    assert!(matches!(plan_shim(&s("/shims"), &s(""), &s("/bin/verswitch")), Err(ShimError::InvalidCommand)));
    assert!(matches!(plan_shim(&s("/shims"), &s("a/b"), &s("/bin/verswitch")), Err(ShimError::InvalidCommand)));
}

#[test]
fn store_text_round_trips() {
    let mut d = Definitions::new();
    d.insert(&s("foo"), &s("1.2.0"), &s("/opt/my tools/foo-1.2.0"));
    d.insert(&s("foo"), &s("2.0"), &s("/opt/ünïcode/foo"));
    d.insert(&s("bar"), &s("0.1"), &s("/usr/bin/bar-0.1"));
    let text = render_store(&d);
    let back = parse_store(&text).unwrap();
    assert_eq!(back.lookup(&s("foo"), &s("1.2.0")), Some(s("/opt/my tools/foo-1.2.0")));
    assert_eq!(back.lookup(&s("foo"), &s("2.0")), Some(s("/opt/ünïcode/foo")));
    assert_eq!(back.lookup(&s("bar"), &s("0.1")), Some(s("/usr/bin/bar-0.1")));
    assert_eq!(render_store(&back), text);
}

#[test]
fn store_text_is_toml_tables() {
    let mut d = Definitions::new();
    d.insert(&s("foo"), &s("1.2.0"), &s("/opt/foo-1.2.0"));
    let text = render_store(&d);
    assert!(text.contains("[foo]"));
    assert!(text.contains("\"1.2.0\" = \"/opt/foo-1.2.0\""));
}

#[test]
fn corrupt_store_is_reported() {
    assert!(matches!(parse_store("[foo\n"), Err(StoreError::Corrupt)));
    assert!(matches!(parse_store("foo = 3\n"), Err(StoreError::Corrupt)));
    assert!(matches!(load_store(Some("not toml at all =")), Err(StoreError::Corrupt)));
}

#[test]
fn missing_store_loads_empty() {
    let d = load_store(None).unwrap();
    assert!(d.commands.is_empty());
    let e = load_store(Some("")).unwrap();
    assert!(e.commands.is_empty());
}

#[test]
fn stored_text_loads_back() {
    let d = load_store(Some("[foo]\n\"1.2.0\" = \"/opt/foo-1.2.0\"\n")).unwrap();
    assert_eq!(d.lookup(&s("foo"), &s("1.2.0")), Some(s("/opt/foo-1.2.0")));
    assert_eq!(resolve(&d, &s("foo")), Ok(s("/opt/foo-1.2.0")));
}

#[test]
fn chosen_command_can_be_dispatched() {
    let mut d = Definitions::new();
    let candidates = vec![cv("qux", "3.0", "/opt/qux-3.0"), cv("qux", "2.9", "/usr/bin/qux-2.9")];
    assert_eq!(apply_selection(&mut d, &s("qux"), &candidates, &vec![1]), Ok(()));
    assert_eq!(resolve(&d, &s("qux")), Ok(s("/usr/bin/qux-2.9")));
}

#[test]
fn same_contents_same_store_text() {
    let mut a = Definitions::new();
    a.insert(&s("foo"), &s("1"), &s("/x/foo-1"));
    a.insert(&s("bar"), &s("2"), &s("/x/bar-2"));
    let mut b = Definitions::new();
    b.insert(&s("bar"), &s("2"), &s("/x/bar-2"));
    b.insert(&s("foo"), &s("1"), &s("/x/foo-1"));
    assert_eq!(render_store(&a), render_store(&b));
}
