use pitchfork::daemon_id::DaemonId;

fn fault(id: &str) -> String {
    DaemonId::parse(id).unwrap_err().message()
}

#[test]
fn qualified_ids_are_read_and_written() {
    let id = DaemonId::parse("frontend/api").unwrap();
    assert_eq!(id.namespace(), "frontend");
    assert_eq!(id.name(), "api");
    assert_eq!(id.qualified(), "frontend/api");
    assert_eq!(id.safe_path(), "frontend--api");
    assert!(DaemonId::from_safe_path(&id.safe_path()).unwrap().same(&id));
    assert!(id.duplicate().same(&id));
}

#[test]
fn names_with_dashes_are_told_apart() {
    let a = DaemonId::try_new("my-app", "web-1").unwrap();
    assert_eq!(a.safe_path(), "my-app--web-1");
    let b = DaemonId::from_safe_path("my-app--web-1").unwrap();
    assert!(a.same(&b));
    assert!(!a.same(&DaemonId::try_new("my-app", "web-2").unwrap()));
    assert!(!a.same(&DaemonId::try_new("my", "web-1").unwrap()));
}

#[test]
fn supervisor_has_an_id() {
    assert_eq!(DaemonId::pitchfork().qualified(), "global/pitchfork");
}

#[test]
fn broken_rules_are_named() {
    assert_eq!(fault(""), "daemon ID cannot be empty");
    assert!(fault("api").contains("missing namespace"));
    assert!(fault("/api").contains("namespace cannot be empty"));
    assert!(fault("a/").contains("name cannot be empty"));
    assert!(fault("a/b/c").contains("path separator '/'"));
    assert!(fault("a/b\\c").contains("path separator '\\'"));
    assert!(fault("a/..").contains("parent directory"));
    assert!(fault("a--b/c").contains("reserved sequence"));
    assert!(fault("-a/c").contains("starts or ends with a dash"));
    assert!(fault("a/c-").contains("starts or ends with a dash"));
    assert!(fault("a/b c").contains("contains spaces"));
    assert_eq!(fault("a/."), "daemon ID cannot be '.'");
    assert!(fault("a/\u{e9}").contains("non-ASCII"));
    assert!(DaemonId::from_safe_path("plain")
        .unwrap_err()
        .message()
        .contains("invalid safe path"));
}
