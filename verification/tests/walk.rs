use pathkeep::config::exclude::Reason;
use pathkeep::scan::walk::WalkEvent;

fn io(kind: std::io::ErrorKind, text: &str) -> ignore::Error {
    ignore::Error::Io(std::io::Error::new(kind, text.to_string()))
}

#[test]
fn denied_io_error_is_a_denial() {
    let err = io(std::io::ErrorKind::PermissionDenied, "no entry");
    match WalkEvent::from_walk_error(&err) {
        WalkEvent::Failure { at, permission_denied, message } => {
            assert_eq!(at, None);
            assert!(permission_denied);
            assert_eq!(message, err.to_string());
        },
        other => panic!("not a failure: {:?}", other),
    }
}

#[test]
fn denial_is_found_below_path_and_depth() {
    let err = ignore::Error::WithPath {
        path: std::path::PathBuf::from("/r/locked"),
        err: Box::new(ignore::Error::WithDepth {
            depth: 2,
            err: Box::new(io(std::io::ErrorKind::PermissionDenied, "locked")),
        }),
    };
    match WalkEvent::from_walk_error(&err) {
        WalkEvent::Failure { at, permission_denied, message } => {
            assert_eq!(at, Some("/r/locked".to_string()));
            assert!(permission_denied);
            assert_eq!(message, err.to_string());
            assert!(message.contains("/r/locked"));
        },
        other => panic!("not a failure: {:?}", other),
    }
}

#[test]
fn other_io_error_is_no_denial() {
    let err = io(std::io::ErrorKind::NotFound, "vanished");
    match WalkEvent::from_walk_error(&err) {
        WalkEvent::Failure { at, permission_denied, message } => {
            assert_eq!(at, None);
            assert!(!permission_denied);
            assert_eq!(message, "vanished".to_string());
        },
        other => panic!("not a failure: {:?}", other),
    }
}

#[test]
fn error_without_io_is_no_denial() {
    let err = ignore::Error::Loop {
        ancestor: std::path::PathBuf::from("/r"),
        child: std::path::PathBuf::from("/r/a/r"),
    };
    match WalkEvent::from_walk_error(&err) {
        WalkEvent::Failure { at, permission_denied, message } => {
            assert_eq!(at, None);
            assert!(!permission_denied);
            assert_eq!(message, err.to_string());
        },
        other => panic!("not a failure: {:?}", other),
    }
}

#[test]
fn path_is_read_from_below_a_depth() {
    let err = ignore::Error::WithDepth {
        depth: 1,
        err: Box::new(ignore::Error::WithPath {
            path: std::path::PathBuf::from("/r/odd"),
            err: Box::new(ignore::Error::WithDepth {
                depth: 1,
                err: Box::new(io(std::io::ErrorKind::NotFound, "vanished")),
            }),
        }),
    };
    match WalkEvent::from_walk_error(&err) {
        WalkEvent::Failure { at, permission_denied, message } => {
            assert_eq!(at, Some("/r/odd".to_string()));
            assert!(!permission_denied);
            assert_eq!(message, err.to_string());
        },
        other => panic!("not a failure: {:?}", other),
    }
}

#[test]
fn loop_names_no_path_of_its_own() {
    let err = ignore::Error::WithDepth {
        depth: 3,
        err: Box::new(ignore::Error::Loop {
            ancestor: std::path::PathBuf::from("/r"),
            child: std::path::PathBuf::from("/r/a/r"),
        }),
    };
    match WalkEvent::from_walk_error(&err) {
        WalkEvent::Failure { at, permission_denied, .. } => {
            assert_eq!(at, None);
            assert!(!permission_denied);
        },
        other => panic!("not a failure: {:?}", other),
    }
}

#[test]
fn reason_for_a_denial() {
    assert_eq!(WalkEvent::reason_for_failure(true, &"ignored".to_string()), Reason::PermissionDenied);
}

#[test]
fn reason_for_another_failure_keeps_the_message() {
    assert_eq!(
        WalkEvent::reason_for_failure(false, &"broken link".to_string()),
        Reason::Other("broken link".to_string())
    );
}
