use verswitch::candidate::CommandVersion;
use verswitch::scan::{homebrew_scan, keg_binary_path, path_suffix_scan, version_suffix, DirEntry, KegEntry};
use verswitch::session::{aggregate, discover, SessionError, NOT_FOUND_EXIT};

fn entry(dir: &str, name: &str, executable: bool) -> DirEntry {
    DirEntry { dir: dir.to_string(), file_name: name.to_string(), executable }
}

fn cv(command: &str, version: &str, path: &str) -> CommandVersion {
    CommandVersion::new(command.to_string(), version.to_string(), path.to_string())
}

fn triples(v: &[CommandVersion]) -> Vec<(String, String, String)> {
    v.iter().map(|c| (c.command.clone(), c.version.clone(), c.path.clone())).collect()
}

#[test]
fn label_names_all_fields() {
    let c = cv("foo", "1.2.0", "/opt/foo-1.2.0");
    assert_eq!(c.label(), "foo 1.2.0 (/opt/foo-1.2.0)");
}

#[test]
fn suffix_after_dash_is_version() {
    assert_eq!(version_suffix("foo", "foo-1.2.0"), Some("1.2.0".to_string()));
    assert_eq!(version_suffix("foo", "foo-bar-2"), Some("bar-2".to_string()));
    assert_eq!(version_suffix("ruby", "ruby-2.7é"), Some("2.7é".to_string()));
}

#[test]
fn suffix_rejects_other_names() {
    assert_eq!(version_suffix("foo", "foo"), None);
    assert_eq!(version_suffix("foo", "foo-"), None);
    assert_eq!(version_suffix("foo", "foobar-1"), None);
    assert_eq!(version_suffix("foo", "bar-1.0"), None);
    assert_eq!(version_suffix("foo", "fo"), None);
}

#[test]
fn path_scan_keeps_only_executables_in_order() {
    let entries = vec![
        entry("/usr/bin", "foo-1.0", true),
        entry("/usr/bin", "foo-2.0", false),
        entry("/usr/bin", "bar-1.0", true),
        entry("/opt/bin", "foo-3.1", true),
        entry("/opt/bin", "foo", true),
    ];
    let found = path_suffix_scan(&"foo".to_string(), &entries);
    assert_eq!(
        triples(&found),
        vec![
            ("foo".to_string(), "1.0".to_string(), "/usr/bin/foo-1.0".to_string()),
            ("foo".to_string(), "3.1".to_string(), "/opt/bin/foo-3.1".to_string()),
        ]
    );
}

#[test]
fn path_scan_of_nothing_is_empty() {
    assert!(path_suffix_scan(&"foo".to_string(), &vec![]).is_empty());
}

#[test]
fn keg_path_layout() {
    let p = keg_binary_path(&"/usr/local/Cellar".to_string(), &"node".to_string(), &"18.1.0".to_string());
    assert_eq!(p, "/usr/local/Cellar/node/18.1.0/bin/node");
}

#[test]
fn homebrew_scan_skips_missing_binaries() {
    let kegs = vec![
        KegEntry { version: "18.1.0".to_string(), executable: true },
        KegEntry { version: "19.0.0".to_string(), executable: false },
        KegEntry { version: "20.2.0".to_string(), executable: true },
    ];
    let found = homebrew_scan(&"/usr/local/Cellar".to_string(), &"node".to_string(), &kegs);
    assert_eq!(
        triples(&found),
        vec![
            ("node".to_string(), "18.1.0".to_string(), "/usr/local/Cellar/node/18.1.0/bin/node".to_string()),
            ("node".to_string(), "20.2.0".to_string(), "/usr/local/Cellar/node/20.2.0/bin/node".to_string()),
        ]
    );
}

#[test]
fn aggregate_concatenates_in_scanner_order() {
    let scans = vec![
        vec![cv("foo", "1.0", "/a/foo-1.0"), cv("foo", "2.0", "/a/foo-2.0")],
        vec![],
        vec![cv("foo", "1.0", "/a/foo-1.0")],
    ];
    let all = aggregate(&scans);
    assert_eq!(
        triples(&all),
        vec![
            ("foo".to_string(), "1.0".to_string(), "/a/foo-1.0".to_string()),
            ("foo".to_string(), "2.0".to_string(), "/a/foo-2.0".to_string()),
            ("foo".to_string(), "1.0".to_string(), "/a/foo-1.0".to_string()),
        ]
    );
}

#[test]
fn discovery_empty_when_every_scanner_is_empty() {
    let scans: Vec<Vec<CommandVersion>> = vec![vec![], vec![]];
    let r = discover(&scans);
    assert!(matches!(r, Err(SessionError::DiscoveryEmpty)));
    assert_eq!(SessionError::DiscoveryEmpty.exit_code(), NOT_FOUND_EXIT);
    assert_ne!(NOT_FOUND_EXIT, 0);
}

#[test]
fn discovery_offers_what_was_found() {
    let scans = vec![vec![], vec![cv("foo", "1.2.0", "/opt/foo-1.2.0")]];
    let r = discover(&scans).unwrap();
    assert_eq!(triples(&r), vec![("foo".to_string(), "1.2.0".to_string(), "/opt/foo-1.2.0".to_string())]);
}

#[test]
fn path_scan_skips_relative_directories() {
    let entries = vec![entry("bin", "foo-1.0", true), entry("", "foo-1.1", true), entry("/bin", "foo-1.2", true)];
    let found = path_suffix_scan(&"foo".to_string(), &entries);
    assert_eq!(triples(&found), vec![("foo".to_string(), "1.2".to_string(), "/bin/foo-1.2".to_string())]);
}

#[test]
fn homebrew_scan_needs_absolute_cellar() {
    let kegs = vec![KegEntry { version: "1.0".to_string(), executable: true }];
    assert!(homebrew_scan(&"Cellar".to_string(), &"node".to_string(), &kegs).is_empty());
}
