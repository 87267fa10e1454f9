//! The wrapper's per-run pipeline, exercised at the library level:
//! fetch classification, payload materialization, and status relay.

use rbwchain::errors::{error_exit_code, WrapperError};
use rbwchain::fetch::{interpret_fetch_output, FetchOutcome};
use rbwchain::file_spec::split_file_spec;
use rbwchain::parse::parse_env_vars;
use rbwchain::status::{handle_exit_status, ChildStatus};
use rbwchain::wrapper_env::{build_file_env, build_final_env};

#[test]
fn scenario_parsed_mode_run() {
    // the credential command prints two pairs for identifier `db`
    let payload = interpret_fetch_output(FetchOutcome::Completed {
        code: Some(0),
        stdout_utf8: Some("DB_USER=alice\nDB_PASS=s3cret\n".to_string()),
        stderr: String::new(),
    })
    .unwrap();
    let parsed = parse_env_vars(&payload);
    let env = build_final_env("1.2.3", "db", false, &parsed);
    // the child observes DB_USER=alice
    assert_eq!(env.get(&"DB_USER".to_string()).map(|s| s.as_str()), Some("alice"));
    // the child exits normally; its code is relayed exactly
    assert_eq!(handle_exit_status(&ChildStatus::Exited(0)), 0);
}

#[test]
fn scenario_file_mode_run() {
    // the credential command prints text without any `=` for `tls`
    let payload = interpret_fetch_output(FetchOutcome::Completed {
        code: Some(0),
        stdout_utf8: Some("cert body text".to_string()),
        stderr: String::new(),
    })
    .unwrap();
    // such a payload parses to zero pairs
    assert!(parse_env_vars(&payload).entries().is_empty());
    // the file-mode specification names the variable and the suffix
    let f = split_file_spec("TLS_CERT.pem").unwrap();
    assert_eq!(f.name, "TLS_CERT");
    assert_eq!(f.suffix.as_deref(), Some(".pem"));
    // the staged file's path is what the variable points at
    let env = build_file_env("1.2.3", "tls", false, &f.name, "/tmp/staged.pem");
    assert_eq!(
        env.get(&"TLS_CERT".to_string()).map(|s| s.as_str()),
        Some("/tmp/staged.pem")
    );
}

#[test]
fn scenario_failed_fetch_run() {
    // the credential command exits 1 and prints `not found` for `missing`
    let r = interpret_fetch_output(FetchOutcome::Completed {
        code: Some(1),
        stdout_utf8: Some(String::new()),
        stderr: "not found\n".to_string(),
    });
    match r {
        Err(e) => {
            match &e {
                WrapperError::FetchError { code, stderr } => {
                    assert_eq!(*code, Some(1));
                    assert!(stderr.contains("not found"));
                },
                _ => panic!("expected a fetch error"),
            }
            // the wrapper exits 1; no child is started on this path
            assert_eq!(error_exit_code(&e), 1);
        },
        Ok(_) => panic!("expected an error"),
    }
}

#[test]
fn scenario_signal_killed_child_run() {
    // the child is killed by signal 9; the wrapper exits 137
    assert_eq!(handle_exit_status(&ChildStatus::Signaled(9)), 137);
}
