//! Error types and exit codes shared by every command.

use vstd::prelude::*;
use vstd::string::*;

verus! {

/// Process exit codes of the tool.
#[derive(Debug, Clone, Copy, PartialEq, Eq, Structural)]
pub enum ExitCodes {
    /// Operation completed successfully
    Success,
    /// General error
    GeneralError,
    /// Invalid arguments provided
    InvalidArguments,
    /// Operation requires administrator privileges
    PermissionDenied,
    /// Specified network interface not found
    InterfaceNotFound,
    /// Operation timed out
    Timeout,
    /// Feature not available on this platform
    NotAvailable,
    /// Location services denied (kept for compatibility with other platforms)
    LocationDenied,
}

/// The numeric value that each exit code carries out of the process.
pub open spec fn exit_code_value(code: ExitCodes) -> u8 {
    match code {
        ExitCodes::Success => 0,
        ExitCodes::GeneralError => 1,
        ExitCodes::InvalidArguments => 2,
        ExitCodes::PermissionDenied => 3,
        ExitCodes::InterfaceNotFound => 4,
        ExitCodes::Timeout => 5,
        ExitCodes::NotAvailable => 6,
        ExitCodes::LocationDenied => 7,
    }
}

impl From<ExitCodes> for u8 {
    fn from(code: ExitCodes) -> (r: u8) {
        match code {
            ExitCodes::Success => 0,
            ExitCodes::GeneralError => 1,
            ExitCodes::InvalidArguments => 2,
            ExitCodes::PermissionDenied => 3,
            ExitCodes::InterfaceNotFound => 4,
            ExitCodes::Timeout => 5,
            ExitCodes::NotAvailable => 6,
            ExitCodes::LocationDenied => 7,
        }
    }
}

impl vstd::std_specs::convert::FromSpecImpl<ExitCodes> for u8 {
    open spec fn obeys_from_spec() -> bool {
        true
    }

    open spec fn from_spec(code: ExitCodes) -> u8 {
        exit_code_value(code)
    }
}

/// Error codes for structured output.
#[derive(Debug, Clone, Copy, PartialEq, Eq, Structural)]
pub enum ErrorCode {
    GeneralError,
    InvalidArguments,
    PermissionDenied,
    InterfaceNotFound,
    Timeout,
    NotAvailable,
    CommandFailed,
    ParseError,
    NetworkError,
    InvalidInput,
}

/// Structured error payload: a code, a message, and an optional suggestion.
#[derive(Debug, Clone)]
pub struct ErrorResponse {
    pub code: ErrorCode,
    pub message: String,
    pub suggestion: Option<String>,
}

impl ErrorResponse {
    pub fn new(code: ErrorCode, message: &str) -> (r: ErrorResponse)
        ensures
            r.code == code,
            r.message@ == message@,
            r.suggestion is None,
    {
        ErrorResponse { code, message: String::from_str(message), suggestion: None }
    }

    pub fn with_suggestion(self, suggestion: &str) -> (r: ErrorResponse)
        ensures
            r.code == self.code,
            r.message == self.message,
            r.suggestion matches Some(s) && s@ == suggestion@,
    {
        ErrorResponse {
            code: self.code,
            message: self.message,
            suggestion: Some(String::from_str(suggestion)),
        }
    }
}

/// Main error type: an exit code together with the structured payload.
#[derive(Debug, Clone)]
pub struct NactlError {
    pub exit_code: ExitCodes,
    pub response: ErrorResponse,
}

impl NactlError {
    pub fn new(exit_code: ExitCodes, code: ErrorCode, message: &str) -> (r: NactlError)
        ensures
            r.exit_code == exit_code,
            r.response.code == code,
            r.response.message@ == message@,
            r.response.suggestion is None,
    {
        NactlError { exit_code, response: ErrorResponse::new(code, message) }
    }

    pub fn with_suggestion(self, suggestion: &str) -> (r: NactlError)
        ensures
            r.exit_code == self.exit_code,
            r.response.code == self.response.code,
            r.response.message == self.response.message,
            r.response.suggestion matches Some(s) && s@ == suggestion@,
    {
        NactlError { exit_code: self.exit_code, response: self.response.with_suggestion(suggestion) }
    }

    pub fn general_error(message: &str) -> (r: NactlError)
        ensures
            r.exit_code == ExitCodes::GeneralError,
            r.response.code == ErrorCode::GeneralError,
            r.response.message@ == message@,
            r.response.suggestion is None,
    {
        Self::new(ExitCodes::GeneralError, ErrorCode::GeneralError, message)
    }

    pub fn invalid_arguments(message: &str) -> (r: NactlError)
        ensures
            r.exit_code == ExitCodes::InvalidArguments,
            r.response.code == ErrorCode::InvalidArguments,
            r.response.message@ == message@,
            r.response.suggestion is None,
    {
        Self::new(ExitCodes::InvalidArguments, ErrorCode::InvalidArguments, message)
    }

    pub fn permission_denied(message: &str) -> (r: NactlError)
        ensures
            r.exit_code == ExitCodes::PermissionDenied,
            r.response.code == ErrorCode::PermissionDenied,
            r.response.message@ == message@,
            r.response.suggestion matches Some(s) && s@ == "Run with elevated permissions (Administrator)"@,
    {
        Self::new(ExitCodes::PermissionDenied, ErrorCode::PermissionDenied, message)
            .with_suggestion("Run with elevated permissions (Administrator)")
    }

    pub fn interface_not_found(interface: &str) -> (r: NactlError)
        ensures
            r.exit_code == ExitCodes::InterfaceNotFound,
            r.response.code == ErrorCode::InterfaceNotFound,
            r.response.message@ == "Network interface '"@ + interface@ + "' not found"@,
            r.response.suggestion is None,
    {
        let message = String::from_str("Network interface '").concat(interface).concat(
            "' not found",
        );
        NactlError {
            exit_code: ExitCodes::InterfaceNotFound,
            response: ErrorResponse {
                code: ErrorCode::InterfaceNotFound,
                message,
                suggestion: None,
            },
        }
    }

    pub fn timeout(message: &str) -> (r: NactlError)
        ensures
            r.exit_code == ExitCodes::Timeout,
            r.response.code == ErrorCode::Timeout,
            r.response.message@ == message@,
            r.response.suggestion is None,
    {
        Self::new(ExitCodes::Timeout, ErrorCode::Timeout, message)
    }

    pub fn not_available(message: &str) -> (r: NactlError)
        ensures
            r.exit_code == ExitCodes::NotAvailable,
            r.response.code == ErrorCode::NotAvailable,
            r.response.message@ == message@,
            r.response.suggestion is None,
    {
        Self::new(ExitCodes::NotAvailable, ErrorCode::NotAvailable, message)
    }

    pub fn command_failed(message: &str) -> (r: NactlError)
        ensures
            r.exit_code == ExitCodes::GeneralError,
            r.response.code == ErrorCode::CommandFailed,
            r.response.message@ == message@,
            r.response.suggestion is None,
    {
        Self::new(ExitCodes::GeneralError, ErrorCode::CommandFailed, message)
    }

    pub fn parse_error(message: &str) -> (r: NactlError)
        ensures
            r.exit_code == ExitCodes::GeneralError,
            r.response.code == ErrorCode::ParseError,
            r.response.message@ == message@,
            r.response.suggestion is None,
    {
        Self::new(ExitCodes::GeneralError, ErrorCode::ParseError, message)
    }

    pub fn invalid_input(message: &str) -> (r: NactlError)
        ensures
            r.exit_code == ExitCodes::InvalidArguments,
            r.response.code == ErrorCode::InvalidInput,
            r.response.message@ == message@,
            r.response.suggestion is None,
    {
        Self::new(ExitCodes::InvalidArguments, ErrorCode::InvalidInput, message)
    }
}

} // verus!
