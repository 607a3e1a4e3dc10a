//! The wording of what the user and the diagnostic log are told.

use crate::session::StartError;
use vstd::prelude::*;
use vstd::string::StringExecFns;

verus! {

/// What the caller of a start is told when the start has failed. `detail`
/// is what the system said where the process could not be created.
pub open spec fn start_error_message(error: StartError, detail: Seq<char>) -> Seq<char> {
    match error {
        StartError::AlreadyRunning => "Scrcpy is already running for this device"@,
        StartError::SpawnFailed => "Failed to spawn scrcpy: "@ + detail,
        StartError::StdoutCapture => "Failed to capture stdout"@,
        StartError::StderrCapture => "Failed to capture stderr"@,
        StartError::Cancelled => "Scrcpy start canceled"@,
        StartError::LockFailed => "Failed to start scrcpy due to lock error"@,
        StartError::NotPending => "Failed to start scrcpy: no start is pending"@,
    }
}

/// What the diagnostic log is told when a start has failed.
pub open spec fn start_error_diagnostic(
    error: StartError,
    device_id: Seq<char>,
    detail: Seq<char>,
) -> Seq<char> {
    match error {
        StartError::AlreadyRunning => "[Backend] Scrcpy already running for device: "@ + device_id
            + "\n"@,
        StartError::SpawnFailed => "[Backend] Failed to spawn scrcpy: "@ + detail + "\n"@,
        StartError::StdoutCapture => "[Backend] Failed to capture stdout\n"@,
        StartError::StderrCapture => "[Backend] Failed to capture stderr\n"@,
        StartError::Cancelled => "[Backend] Scrcpy start canceled for "@ + device_id + "\n"@,
        StartError::LockFailed => "[Backend] Failed to lock scrcpy process\n"@,
        StartError::NotPending => "[Backend] No start is pending for "@ + device_id + "\n"@,
    }
}

impl StartError {
    /// What the caller of a start is told.
    pub fn message(self, detail: &str) -> (out: String)
        ensures
            out@ == start_error_message(self, detail@),
    {
        match self {
            StartError::AlreadyRunning => String::from_str(
                "Scrcpy is already running for this device",
            ),
            StartError::SpawnFailed => String::from_str("Failed to spawn scrcpy: ").concat(detail),
            StartError::StdoutCapture => String::from_str("Failed to capture stdout"),
            StartError::StderrCapture => String::from_str("Failed to capture stderr"),
            StartError::Cancelled => String::from_str("Scrcpy start canceled"),
            StartError::LockFailed => String::from_str("Failed to start scrcpy due to lock error"),
            StartError::NotPending => String::from_str(
                "Failed to start scrcpy: no start is pending",
            ),
        }
    }

    /// What the diagnostic log is told.
    pub fn diagnostic(self, device_id: &str, detail: &str) -> (out: String)
        ensures
            out@ == start_error_diagnostic(self, device_id@, detail@),
    {
        match self {
            StartError::AlreadyRunning => String::from_str(
                "[Backend] Scrcpy already running for device: ",
            ).concat(device_id).concat("\n"),
            StartError::SpawnFailed => String::from_str("[Backend] Failed to spawn scrcpy: ").concat(
                detail,
            ).concat("\n"),
            StartError::StdoutCapture => String::from_str("[Backend] Failed to capture stdout\n"),
            StartError::StderrCapture => String::from_str("[Backend] Failed to capture stderr\n"),
            StartError::Cancelled => String::from_str(
                "[Backend] Scrcpy start canceled for ",
            ).concat(device_id).concat("\n"),
            StartError::LockFailed => String::from_str("[Backend] Failed to lock scrcpy process\n"),
            StartError::NotPending => String::from_str("[Backend] No start is pending for ").concat(
                device_id,
            ).concat("\n"),
        }
    }
}

/// What went wrong with the process of a session after its start.
#[derive(Clone, Copy, Debug, PartialEq, Eq, Structural)]
pub enum ProcessFault {
    /// The process could not be polled.
    Poll,
    /// The process could not be terminated on a stop.
    Stop,
    /// The process could not be terminated on shutdown.
    Kill,
}

/// What the diagnostic log is told about a fault of a process.
pub open spec fn process_fault_diagnostic(
    fault: ProcessFault,
    device_id: Seq<char>,
    detail: Seq<char>,
) -> Seq<char> {
    (match fault {
        ProcessFault::Poll => "[Backend] Failed to poll scrcpy for "@,
        ProcessFault::Stop => "[Backend] Failed to stop scrcpy for "@,
        ProcessFault::Kill => "[Backend] Failed to kill scrcpy for "@,
    }) + device_id + ": "@ + detail + "\n"@
}

impl ProcessFault {
    /// What the diagnostic log is told.
    pub fn diagnostic(self, device_id: &str, detail: &str) -> (out: String)
        ensures
            out@ == process_fault_diagnostic(self, device_id@, detail@),
    {
        let head = match self {
            ProcessFault::Poll => "[Backend] Failed to poll scrcpy for ",
            ProcessFault::Stop => "[Backend] Failed to stop scrcpy for ",
            ProcessFault::Kill => "[Backend] Failed to kill scrcpy for ",
        };
        String::from_str(head).concat(device_id).concat(": ").concat(detail).concat("\n")
    }
}

/// The text of an optional setting, or `<unset>`.
pub open spec fn or_unset(value: Option<Seq<char>>) -> Seq<char> {
    match value {
        Some(v) => v,
        None => "<unset>"@,
    }
}

/// What is reported when the debug bridge could not be run. Where the
/// program was not found, the report adds where it was looked for.
pub open spec fn probe_error_spec(
    error: Seq<char>,
    not_found: bool,
    search_path: Option<Seq<char>>,
    configured: Option<Seq<char>>,
) -> Seq<char> {
    if not_found {
        "Failed to execute adb: "@ + error + ". App PATH: "@ + or_unset(search_path)
            + ". Configured adb path: "@ + or_unset(configured)
    } else {
        "Failed to execute adb: "@ + error
    }
}

/// What is reported when the debug bridge could not be run.
pub fn probe_error_message(
    error: &str,
    not_found: bool,
    search_path: Option<&str>,
    configured: Option<&str>,
) -> (out: String)
    ensures
        out@ == probe_error_spec(
            error@,
            not_found,
            crate::tool_paths::opt_str_view(search_path),
            crate::tool_paths::opt_str_view(configured),
        ),
{
    let head = String::from_str("Failed to execute adb: ").concat(error);
    if not_found {
        let path = match search_path {
            Some(p) => p,
            None => "<unset>",
        };
        let set = match configured {
            Some(c) => c,
            None => "<unset>",
        };
        head.concat(". App PATH: ").concat(path).concat(". Configured adb path: ").concat(set)
    } else {
        head
    }
}

/// A line for the diagnostic log: a heading, what went wrong, and a line
/// feed.
pub open spec fn log_line_spec(heading: Seq<char>, detail: Seq<char>) -> Seq<char> {
    "[Backend] "@ + heading + ": "@ + detail + "\n"@
}

/// A line for the diagnostic log.
pub fn log_line(heading: &str, detail: &str) -> (out: String)
    ensures
        out@ == log_line_spec(heading@, detail@),
{
    String::from_str("[Backend] ").concat(heading).concat(": ").concat(detail).concat("\n")
}

} // verus!
