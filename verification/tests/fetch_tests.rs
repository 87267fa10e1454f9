use rbwchain::errors::WrapperError;
use rbwchain::fetch::{interpret_fetch_output, FetchOutcome};

#[test]
fn successful_fetch_returns_payload_verbatim() {
    let r = interpret_fetch_output(FetchOutcome::Completed {
        code: Some(0),
        stdout_utf8: Some("DB_USER=alice\nDB_PASS=s3cret\n".to_string()),
        stderr: String::new(),
    });
    assert_eq!(r.unwrap(), "DB_USER=alice\nDB_PASS=s3cret\n");
}

#[test]
fn nonzero_exit_reports_trimmed_stderr() {
    let r = interpret_fetch_output(FetchOutcome::Completed {
        code: Some(1),
        stdout_utf8: Some(String::new()),
        stderr: "  not found  \n".to_string(),
    });
    match r {
        Err(WrapperError::FetchError { code, stderr }) => {
            assert_eq!(code, Some(1));
            assert_eq!(stderr, "not found");
        },
        _ => panic!("expected a fetch error"),
    }
}

#[test]
fn signal_killed_fetch_is_a_fetch_error() {
    let r = interpret_fetch_output(FetchOutcome::Completed {
        code: None,
        stdout_utf8: Some(String::new()),
        stderr: "killed".to_string(),
    });
    match r {
        Err(WrapperError::FetchError { code, stderr }) => {
            assert_eq!(code, None);
            assert_eq!(stderr, "killed");
        },
        _ => panic!("expected a fetch error"),
    }
}

#[test]
fn undecodable_output_is_a_decode_error() {
    let r = interpret_fetch_output(FetchOutcome::Completed {
        code: Some(0),
        stdout_utf8: None,
        stderr: String::new(),
    });
    match r {
        Err(WrapperError::DecodeError) => {},
        _ => panic!("expected a decode error"),
    }
}

#[test]
fn unstarted_fetch_is_a_launch_error() {
    let r = interpret_fetch_output(FetchOutcome::NotStarted);
    match r {
        Err(WrapperError::LaunchError) => {},
        _ => panic!("expected a launch error"),
    }
}
