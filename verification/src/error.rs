//! Error taxonomy of the library and the exit codes the tool maps it to.

use vstd::prelude::*;
use vstd::string::*;

use crate::text::dec_digits;

verus! {

/// Everything that can go wrong while resolving targets or operating on
/// processes.  Payloads carry the offending input or a human-readable reason.
#[derive(Debug, Clone)]
pub enum ProcError {
    /// No process found matching the given target.
    ProcessNotFound(String),
    /// No process is listening on the specified port.
    PortNotFound(u16),
    /// Insufficient permissions to operate on the process.
    PermissionDenied(u32),
    /// The caller provided invalid input or arguments.
    InvalidInput(String),
    /// An underlying system call failed.
    SystemError(String),
    /// The operation exceeded the allowed time limit.
    Timeout(String),
    /// Failed to parse input or system output.
    ParseError(String),
    /// The feature is not available on the current platform.
    NotSupported(String),
    /// The target process terminated during the operation.
    ProcessGone(u32),
    /// Failed to send a signal to the process.
    SignalError(String),
}

/// The message `ProcError::message` renders for `e`.
pub open spec fn message_spec(e: ProcError) -> Seq<char> {
    match e {
        ProcError::ProcessNotFound(s) => "No process found matching '"@ + s@
            + "'\n  Try: proc list to list all processes"@,
        ProcError::PortNotFound(port) => "No process listening on port "@ + dec_digits(
            port as nat,
        ) + "\n  Try: proc ports"@,
        ProcError::PermissionDenied(pid) => "Permission denied for PID "@ + dec_digits(pid as nat)
            + "\n  Try: sudo proc <command>"@,
        ProcError::InvalidInput(s) => "Invalid input: "@ + s@,
        ProcError::SystemError(s) => "System error: "@ + s@,
        ProcError::Timeout(s) => "Operation timed out: "@ + s@,
        ProcError::ParseError(s) => "Failed to parse: "@ + s@,
        ProcError::NotSupported(s) => "Not supported on this platform: "@ + s@,
        ProcError::ProcessGone(pid) => "Process "@ + dec_digits(pid as nat)
            + " is no longer running"@,
        ProcError::SignalError(s) => "Signal failed: "@ + s@,
    }
}

impl ProcError {
    /// Human-readable description of the error, with a usage hint where one
    /// helps.
    pub fn message(&self) -> (m: String)
        ensures
            m@ == message_spec(*self),
    {
        match self {
            ProcError::ProcessNotFound(s) => String::from_str("No process found matching '")
                .concat(s.as_str())
                .concat("'\n  Try: proc list to list all processes"),
            ProcError::PortNotFound(port) => String::from_str("No process listening on port ")
                .concat(crate::text::u64_to_string(*port as u64).as_str())
                .concat("\n  Try: proc ports"),
            ProcError::PermissionDenied(pid) => String::from_str("Permission denied for PID ")
                .concat(crate::text::u64_to_string(*pid as u64).as_str())
                .concat("\n  Try: sudo proc <command>"),
            ProcError::InvalidInput(s) => String::from_str("Invalid input: ").concat(s.as_str()),
            ProcError::SystemError(s) => String::from_str("System error: ").concat(s.as_str()),
            ProcError::Timeout(s) => String::from_str("Operation timed out: ").concat(s.as_str()),
            ProcError::ParseError(s) => String::from_str("Failed to parse: ").concat(s.as_str()),
            ProcError::NotSupported(s) => String::from_str("Not supported on this platform: ")
                .concat(s.as_str()),
            ProcError::ProcessGone(pid) => String::from_str("Process ")
                .concat(crate::text::u64_to_string(*pid as u64).as_str())
                .concat(" is no longer running"),
            ProcError::SignalError(s) => String::from_str("Signal failed: ").concat(s.as_str()),
        }
    }
}

/// Exit codes of the command-line tool.
#[derive(Debug, Clone, Copy, PartialEq, Eq, Structural)]
pub enum ExitCode {
    /// The operation completed successfully.
    Success,
    /// A general error occurred.
    GeneralError,
    /// The requested process or port was not found.
    NotFound,
    /// The operation requires elevated privileges.
    PermissionDenied,
    /// Invalid arguments or input were provided.
    InvalidInput,
}

/// The exit code owed for each error kind.
pub open spec fn exit_code_spec(e: ProcError) -> ExitCode {
    match e {
        ProcError::ProcessNotFound(_) => ExitCode::NotFound,
        ProcError::PortNotFound(_) => ExitCode::NotFound,
        ProcError::PermissionDenied(_) => ExitCode::PermissionDenied,
        ProcError::InvalidInput(_) => ExitCode::InvalidInput,
        _ => ExitCode::GeneralError,
    }
}

impl ExitCode {
    /// The numeric value handed to the operating system.
    pub fn code(self) -> (c: i32)
        ensures
            self is Success ==> c == 0,
            self is GeneralError ==> c == 1,
            self is NotFound ==> c == 2,
            self is PermissionDenied ==> c == 3,
            self is InvalidInput ==> c == 4,
    {
        match self {
            ExitCode::Success => 0,
            ExitCode::GeneralError => 1,
            ExitCode::NotFound => 2,
            ExitCode::PermissionDenied => 3,
            ExitCode::InvalidInput => 4,
        }
    }

    /// Classify an error into the exit code the tool reports for it.
    pub fn from_error(e: &ProcError) -> (c: ExitCode)
        ensures
            c == exit_code_spec(*e),
    {
        match e {
            ProcError::ProcessNotFound(_) => ExitCode::NotFound,
            ProcError::PortNotFound(_) => ExitCode::NotFound,
            ProcError::PermissionDenied(_) => ExitCode::PermissionDenied,
            ProcError::InvalidInput(_) => ExitCode::InvalidInput,
            _ => ExitCode::GeneralError,
        }
    }
}

} // verus!
