use pitchfork::error::{
    best_score, find_similar_daemon, ConfigParseError, DaemonError, DaemonIdError, DependencyError,
    Failure, FileError, IpcError, MultipleErrors, PortError, Span, TomlFailure,
};

fn s(text: &str) -> String {
    text.to_string()
}

#[test]
fn test_daemon_id_error_display() {
    let err = DaemonIdError::Empty;
    assert_eq!(err.message(), "daemon ID cannot be empty");

    let err = DaemonIdError::PathSeparator {
        id: "foo/bar".to_string(),
        sep: '/',
    };
    assert_eq!(
        err.message(),
        "daemon ID 'foo/bar' contains path separator '/'"
    );

    let err = DaemonIdError::ContainsSpace {
        id: "my app".to_string(),
    };
    assert_eq!(err.message(), "daemon ID 'my app' contains spaces");
}

#[test]
fn test_dependency_error_display() {
    let err = DependencyError::DaemonNotFound {
        name: "postgres".to_string(),
        suggestion: None,
    };
    assert_eq!(
        err.message(),
        "daemon 'postgres' not found in configuration"
    );

    let err = DependencyError::MissingDependency {
        daemon: "api".to_string(),
        dependency: "db".to_string(),
    };
    assert_eq!(
        err.message(),
        "daemon 'api' depends on 'db' which is not defined"
    );

    let err = DependencyError::CircularDependency {
        involved: vec!["a".to_string(), "b".to_string(), "c".to_string()],
    };
    assert!(err.message().contains("circular dependency"));
    assert!(err.message().contains("a, b, c"));
}

#[test]
fn test_find_similar_daemon() {
    let daemons = ["postgres", "redis", "api", "worker"];

    // Close match
    let suggestion = find_similar_daemon("postgre", &daemons);
    assert_eq!(suggestion, Some("did you mean 'postgres'?".to_string()));

    // No reasonable match
    let suggestion = find_similar_daemon("xyz123", &daemons);
    assert!(suggestion.is_none());
}

#[test]
fn one_matcher_scores_all_names() {
    let names = ["-aab", "aab", "aabx"];
    assert_eq!(find_similar_daemon("aab", &names), Some(s("did you mean 'aab'?")));
    assert_eq!(find_similar_daemon("aab", &names[2..]), Some(s("did you mean 'aabx'?")));
    assert_eq!(find_similar_daemon("", &names), None);
}

#[test]
fn test_file_error_display() {
    let err = FileError::ReadError {
        path: s("/path/to/config.toml"),
        source: std::io::Error::new(std::io::ErrorKind::NotFound, "file not found").to_string(),
    };
    assert!(err.message().contains("failed to read file"));
    assert!(err.message().contains("config.toml"));

    let err = FileError::NoPath;
    assert!(err.message().contains("no file path"));
}

#[test]
fn test_ipc_error_display() {
    let err = IpcError::ConnectionFailed {
        attempts: 5,
        source: None,
        help: "ensure the supervisor is running".to_string(),
    };
    assert!(err.message().contains("failed to connect"));
    assert!(err.message().contains("5 attempts"));

    let err = IpcError::Timeout { seconds: 30 };
    assert!(err.message().contains("timed out"));
    assert!(err.message().contains("30s"));

    let err = IpcError::UnexpectedResponse {
        expected: "Ok".to_string(),
        actual: "Error".to_string(),
    };
    assert!(err.message().contains("unexpected response"));
    assert!(err.message().contains("Ok"));
    assert!(err.message().contains("Error"));
}

#[test]
fn test_config_parse_error() {
    let contents = "[daemons.test]\nrun = ".to_string();
    let err = toml::from_str::<toml::Value>(&contents).unwrap_err();
    let parse_err = ConfigParseError::from_toml_error("test.toml", contents, err);

    assert!(parse_err.message().contains("failed to parse"));
}

#[test]
fn test_multiple_errors() {
    let errors = vec![
        Failure::DaemonId(DaemonIdError::Empty),
        Failure::DaemonId(DaemonIdError::CurrentDir),
    ];
    let multi = MultipleErrors::new(errors);

    assert_eq!(multi.len(), 2);
    assert!(!multi.is_empty());
    assert!(multi.message().contains("2 total"));
}

#[test]
fn toml_error_keeps_the_parser_report() {
    let contents = s("[daemons.test]\nrun = ");
    let err = toml::from_str::<toml::Value>(&contents).unwrap_err();
    let said = err.message().to_string();
    let range = err.span().unwrap();
    match ConfigParseError::from_toml_error("test.toml", contents.clone(), err) {
        ConfigParseError::TomlError {
            source_name,
            contents: kept,
            span,
            message,
            help,
        } => {
            assert_eq!(source_name, "test.toml");
            assert_eq!(kept, contents);
            assert_eq!(
                span,
                Span {
                    offset: range.start,
                    length: range.len()
                }
            );
            assert_eq!(message, said);
            assert!(!message.is_empty());
            assert_eq!(help.as_deref(), Some("check TOML syntax at https://toml.io"));
        }
        other => panic!("{other:?}"),
    }
}

#[test]
fn failure_without_a_range_points_at_the_start() {
    let failure = TomlFailure {
        message: s("no"),
        span: None,
    };
    match ConfigParseError::from_failure("a.toml", s("x"), failure) {
        ConfigParseError::TomlError { span, .. } => assert_eq!(
            span,
            Span {
                offset: 0,
                length: 0
            }
        ),
        other => panic!("{other:?}"),
    }
    let backwards = TomlFailure {
        message: s("no"),
        span: Some((4, 2)),
    };
    match ConfigParseError::from_failure("a.toml", s("x"), backwards) {
        ConfigParseError::TomlError { span, .. } => assert_eq!(
            span,
            Span {
                offset: 4,
                length: 0
            }
        ),
        other => panic!("{other:?}"),
    }
}

#[test]
fn every_daemon_id_error_is_described() {
    let id = || s("x");
    let cases = vec![
        (
            DaemonIdError::EmptyComponent {
                component: s("namespace"),
            },
            "daemon ID namespace cannot be empty",
        ),
        (
            DaemonIdError::ParentDirRef { id: id() },
            "daemon ID 'x' contains parent directory reference '..'",
        ),
        (
            DaemonIdError::ReservedSequence { id: id() },
            "daemon ID 'x' contains reserved sequence '--'",
        ),
        (
            DaemonIdError::LeadingTrailingDash { id: id() },
            "daemon ID component 'x' starts or ends with a dash '-'",
        ),
        (DaemonIdError::CurrentDir, "daemon ID cannot be '.'"),
        (
            DaemonIdError::InvalidChars { id: id() },
            "daemon ID 'x' contains non-printable or non-ASCII character",
        ),
        (
            DaemonIdError::MissingNamespace { id: id() },
            "daemon ID 'x' is missing namespace (expected format: namespace/name)",
        ),
        (
            DaemonIdError::InvalidSafePath { path: id() },
            "invalid safe path format 'x' (expected namespace--name)",
        ),
    ];
    for (err, text) in cases {
        assert_eq!(err.message(), text);
    }
}

#[test]
fn other_errors_are_described() {
    assert_eq!(
        DaemonError::StopFailed {
            id: s("a/b"),
            error: s("gone")
        }
        .message(),
        "failed to stop daemon 'a/b': gone"
    );
    assert_eq!(
        PortError::InUse {
            port: 80,
            process: s("nginx"),
            pid: 12
        }
        .message(),
        "port 80 is already in use by process 'nginx' (PID: 12)"
    );
    assert_eq!(
        PortError::NoAvailablePort {
            start_port: 3000,
            attempts: 10
        }
        .message(),
        "could not find an available port after 10 attempts starting from 3000"
    );
    assert_eq!(
        ConfigParseError::InvalidDaemonName {
            name: s("a b"),
            path: s("p"),
            reason: s("r")
        }
        .message(),
        "invalid daemon name 'a b' in p"
    );
    assert_eq!(
        ConfigParseError::InvalidDependency {
            daemon: s("d"),
            dependency: s("e"),
            path: s("p"),
            reason: s("r")
        }
        .message(),
        "invalid dependency 'e' in daemon 'd' (p): r"
    );
    assert_eq!(
        ConfigParseError::NamespaceCollision {
            path_a: s("a"),
            path_b: s("b"),
            ns: s("n")
        }
        .message(),
        "namespace collision: 'a' and 'b' both resolve to namespace 'n'"
    );
    assert_eq!(
        ConfigParseError::InvalidNamespace {
            path: s("p"),
            namespace: s("n"),
            reason: s("r")
        }
        .message(),
        "invalid namespace 'n' in p: r"
    );
    assert_eq!(
        ConfigParseError::InvalidNamespacePerWorktree {
            path: s("p"),
            reason: s("r")
        }
        .message(),
        "invalid namespace_per_worktree in p: r"
    );
    assert_eq!(
        FileError::WriteError {
            path: s("p"),
            details: None
        }
        .message(),
        "failed to write file: p"
    );
    assert_eq!(
        FileError::SerializeError {
            path: s("p"),
            source: s("x")
        }
        .message(),
        "failed to serialize data for file: p"
    );
}

#[test]
fn best_score_prefers_the_last_of_the_highest() {
    assert_eq!(best_score(&vec![]), None);
    assert_eq!(best_score(&vec![None, None]), None);
    assert_eq!(best_score(&vec![Some(0), None]), None);
    assert_eq!(best_score(&vec![Some(3), Some(7), None, Some(7), Some(2)]), Some(3));
}

#[test]
fn an_empty_collection_of_errors_is_empty() {
    let multi = MultipleErrors::new(vec![]);
    assert!(multi.is_empty());
    assert_eq!(multi.len(), 0);
    assert_eq!(multi.message(), "multiple errors occurred (0 total)");
}
