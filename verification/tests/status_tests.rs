use rbwchain::errors::{error_exit_code, WrapperError};
use rbwchain::status::{handle_exit_status, ChildStatus};

#[test]
fn normal_exit_code_is_relayed_exactly() {
    assert_eq!(handle_exit_status(&ChildStatus::Exited(0)), 0);
    assert_eq!(handle_exit_status(&ChildStatus::Exited(7)), 7);
    assert_eq!(handle_exit_status(&ChildStatus::Exited(255)), 255);
}

#[test]
fn signal_nine_maps_to_137() {
    assert_eq!(handle_exit_status(&ChildStatus::Signaled(9)), 137);
}

#[test]
fn signal_termination_uses_shell_convention() {
    assert_eq!(handle_exit_status(&ChildStatus::Signaled(15)), 143);
    assert_eq!(handle_exit_status(&ChildStatus::Signaled(2)), 130);
}

#[test]
fn indeterminate_termination_exits_one() {
    assert_eq!(handle_exit_status(&ChildStatus::Unknown), 1);
}

#[test]
fn every_wrapper_error_exits_one() {
    assert_eq!(error_exit_code(&WrapperError::PrerequisiteMissing), 1);
    assert_eq!(error_exit_code(&WrapperError::LaunchError), 1);
    assert_eq!(
        error_exit_code(&WrapperError::FetchError { code: Some(2), stderr: "boom".to_string() }),
        1
    );
    assert_eq!(error_exit_code(&WrapperError::DecodeError), 1);
    assert_eq!(error_exit_code(&WrapperError::ConfigError), 1);
    assert_eq!(error_exit_code(&WrapperError::IOError), 1);
    assert_eq!(error_exit_code(&WrapperError::AbnormalTermination), 1);
}
