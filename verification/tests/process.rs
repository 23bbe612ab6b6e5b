//! Subprocesses: quoting, exit codes and timeouts.

use cargo_mutants::process::{
    counts_as_terminated, quote_argv, result_message, wait_step, Exit, SignalResult, WaitStep,
};

fn quoted(argv: &[&str]) -> String {
    quote_argv(&argv.iter().map(|arg| (*arg).to_owned()).collect())
}

#[test]
fn shell_quoting() {
    assert_eq!(quoted(&["foo"]), "foo");
    assert_eq!(
        quoted(&["foo bar", r"\blah\x", r#""quoted""#]),
        r#"foo\ bar \\blah\\x \"quoted\""#
    );
    assert_eq!(quoted(&[""]), "");
    assert_eq!(
        quoted(&["with whitespace", "\r\n\t\t"]),
        r"with\ whitespace \r\n\t\t"
    );
}

#[test]
fn a_quoted_command_is_one_line() {
    let line = quoted(&["a\nb", "c\rd", "e"]);
    assert_eq!(line, r"a\nb c\rd e");
    assert!(!line.contains('\n') && !line.contains('\r') && !line.contains('\t'));
}

#[test]
fn exit_statuses() {
    assert_eq!(Exit::from_status(Some(0), None), Exit::Success);
    assert_eq!(Exit::from_status(Some(101), None), Exit::Failure(101));
    assert_eq!(Exit::from_status(None, Some(9)), Exit::Signalled(9));
    assert_eq!(Exit::from_status(None, None), Exit::Other);
    assert!(Exit::Success.is_success() && !Exit::Success.is_failure());
    assert!(Exit::Failure(1).is_failure() && !Exit::Failure(1).is_timeout());
    assert!(Exit::Timeout.is_timeout() && !Exit::Timeout.is_success());
}

#[test]
fn results_in_the_log() {
    assert_eq!(result_message(Exit::Success), "result: Success");
    assert_eq!(result_message(Exit::Failure(-1)), "result: Failure(-1)");
    assert_eq!(result_message(Exit::Failure(i32::MIN)), "result: Failure(-2147483648)");
    assert_eq!(result_message(Exit::Signalled(15)), "result: Signalled(15)");
    assert_eq!(result_message(Exit::Timeout), "result: Timeout");
    assert_eq!(result_message(Exit::Other), "result: Other");
}

#[test]
fn the_timeout_comes_before_the_interrupt() {
    assert_eq!(wait_step(11, Some(10), true), WaitStep::TerminateTimedOut);
    assert_eq!(wait_step(10, Some(10), true), WaitStep::TerminateInterrupted);
    assert_eq!(wait_step(10, Some(10), false), WaitStep::Wait);
    assert_eq!(wait_step(u128::MAX, None, false), WaitStep::Wait);
}

#[test]
fn a_process_that_is_gone_counts_as_terminated() {
    assert!(counts_as_terminated(SignalResult::Sent, false));
    assert!(counts_as_terminated(SignalResult::NoSuchProcess, false));
    assert!(counts_as_terminated(SignalResult::NotPermitted, true));
    assert!(!counts_as_terminated(SignalResult::NotPermitted, false));
    assert!(!counts_as_terminated(SignalResult::Failed, true));
}
