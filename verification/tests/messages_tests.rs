use scrcpy_gui::messages::{log_line, probe_error_message, ProcessFault};
use scrcpy_gui::session::StartError;

#[test]
fn start_errors_tell_the_caller() {
    assert_eq!(StartError::AlreadyRunning.message(""), "Scrcpy is already running for this device");
    assert_eq!(StartError::SpawnFailed.message("No such file"), "Failed to spawn scrcpy: No such file");
    assert_eq!(StartError::StdoutCapture.message("x"), "Failed to capture stdout");
    assert_eq!(StartError::StderrCapture.message("x"), "Failed to capture stderr");
    assert_eq!(StartError::Cancelled.message("x"), "Scrcpy start canceled");
    assert_eq!(StartError::LockFailed.message("x"), "Failed to start scrcpy due to lock error");
    assert_eq!(StartError::NotPending.message("x"), "Failed to start scrcpy: no start is pending");
}

#[test]
fn start_errors_tell_the_log() {
    assert_eq!(
        StartError::AlreadyRunning.diagnostic("dev", ""),
        "[Backend] Scrcpy already running for device: dev\n"
    );
    assert_eq!(
        StartError::SpawnFailed.diagnostic("dev", "denied"),
        "[Backend] Failed to spawn scrcpy: denied\n"
    );
    assert_eq!(StartError::StdoutCapture.diagnostic("dev", ""), "[Backend] Failed to capture stdout\n");
    assert_eq!(StartError::StderrCapture.diagnostic("dev", ""), "[Backend] Failed to capture stderr\n");
    assert_eq!(StartError::Cancelled.diagnostic("dev", ""), "[Backend] Scrcpy start canceled for dev\n");
    assert_eq!(StartError::LockFailed.diagnostic("dev", ""), "[Backend] Failed to lock scrcpy process\n");
    assert_eq!(StartError::NotPending.diagnostic("dev", ""), "[Backend] No start is pending for dev\n");
}

#[test]
fn process_faults_tell_the_log() {
    assert_eq!(ProcessFault::Poll.diagnostic("dev", "gone"), "[Backend] Failed to poll scrcpy for dev: gone\n");
    assert_eq!(ProcessFault::Stop.diagnostic("dev", "gone"), "[Backend] Failed to stop scrcpy for dev: gone\n");
    assert_eq!(ProcessFault::Kill.diagnostic("dev", "gone"), "[Backend] Failed to kill scrcpy for dev: gone\n");
}

#[test]
fn probe_errors_say_where_the_program_was_looked_for() {
    assert_eq!(probe_error_message("denied", false, Some("/bin"), Some("/x/adb")), "Failed to execute adb: denied");
    assert_eq!(
        probe_error_message("not found", true, Some("/bin:/usr/bin"), Some("/x/adb")),
        "Failed to execute adb: not found. App PATH: /bin:/usr/bin. Configured adb path: /x/adb"
    );
    assert_eq!(
        probe_error_message("not found", true, None, None),
        "Failed to execute adb: not found. App PATH: <unset>. Configured adb path: <unset>"
    );
}

#[test]
fn log_lines_have_a_heading_and_end_with_a_line_feed() {
    assert_eq!(log_line("Failed to lock scrcpy map", "poisoned"), "[Backend] Failed to lock scrcpy map: poisoned\n");
    assert_eq!(log_line("Failed to get connected devices", "x"), "[Backend] Failed to get connected devices: x\n");
}
