use nactl::admin::elevation_suggestion;
use nactl::dns;
use nactl::errors::ErrorCode;
use nactl::errors::ErrorResponse;
use nactl::errors::ExitCodes;
use nactl::errors::NactlError;
use nactl::netsh::classify_netsh_failure;
use nactl::output::OutputFormat;
use nactl::powershell::classify_powershell_failure;
use nactl::stack;

#[test]
fn test_exit_code_values() {
    assert_eq!(u8::from(ExitCodes::Success), 0);
    assert_eq!(u8::from(ExitCodes::GeneralError), 1);
    assert_eq!(u8::from(ExitCodes::InvalidArguments), 2);
    assert_eq!(u8::from(ExitCodes::PermissionDenied), 3);
    assert_eq!(u8::from(ExitCodes::InterfaceNotFound), 4);
    assert_eq!(u8::from(ExitCodes::Timeout), 5);
    assert_eq!(u8::from(ExitCodes::NotAvailable), 6);
    assert_eq!(u8::from(ExitCodes::LocationDenied), 7);
}

#[test]
fn test_error_constructors() {
    let e = NactlError::new(ExitCodes::Timeout, ErrorCode::Timeout, "took too long");
    assert_eq!(e.exit_code, ExitCodes::Timeout);
    assert_eq!(e.response.code, ErrorCode::Timeout);
    assert_eq!(e.response.message, "took too long");
    assert_eq!(e.response.suggestion, None);

    let e = e.with_suggestion("try again later");
    assert_eq!(e.response.suggestion.as_deref(), Some("try again later"));

    let p = NactlError::permission_denied("no rights");
    assert_eq!(p.exit_code, ExitCodes::PermissionDenied);
    assert_eq!(
        p.response.suggestion.as_deref(),
        Some("Run with elevated permissions (Administrator)")
    );

    let i = NactlError::interface_not_found("Ethernet 2");
    assert_eq!(i.response.message, "Network interface 'Ethernet 2' not found");
    assert_eq!(i.exit_code, ExitCodes::InterfaceNotFound);

    assert_eq!(NactlError::general_error("x").response.code, ErrorCode::GeneralError);
    assert_eq!(NactlError::invalid_arguments("x").response.code, ErrorCode::InvalidArguments);
    assert_eq!(NactlError::timeout("x").response.code, ErrorCode::Timeout);
    assert_eq!(NactlError::not_available("x").response.code, ErrorCode::NotAvailable);
    assert_eq!(NactlError::command_failed("x").response.code, ErrorCode::CommandFailed);
    assert_eq!(NactlError::parse_error("x").response.code, ErrorCode::ParseError);
    assert_eq!(NactlError::invalid_input("x").response.code, ErrorCode::InvalidInput);

    let r = ErrorResponse::new(ErrorCode::NetworkError, "link down").with_suggestion("replug");
    assert_eq!(r.suggestion.as_deref(), Some("replug"));
}

#[test]
fn test_netsh_failure_classification() {
    let e = classify_netsh_failure("Access is denied.");
    assert_eq!(e.exit_code, ExitCodes::PermissionDenied);

    let e = classify_netsh_failure("The network connection profile is not found.");
    assert_eq!(e.response.code, ErrorCode::GeneralError);
    assert_eq!(e.response.message, "The network connection profile is not found.");

    let e = classify_netsh_failure("The Wireless AutoConfig Service (wlansvc) is not running.");
    assert_eq!(e.exit_code, ExitCodes::NotAvailable);

    let e = classify_netsh_failure("There is no wireless interface on the system.");
    assert_eq!(e.exit_code, ExitCodes::InterfaceNotFound);
    assert_eq!(e.response.message, "Network interface 'Wi-Fi' not found");

    let e = classify_netsh_failure("  something strange  ");
    assert_eq!(e.response.code, ErrorCode::CommandFailed);
    assert_eq!(e.response.message, "netsh command failed: something strange");
}

#[test]
fn test_powershell_failure_classification() {
    let e = classify_powershell_failure("Access is denied.");
    assert_eq!(e.exit_code, ExitCodes::PermissionDenied);

    let e = classify_powershell_failure("Restart-NetAdapter : No adapter found\n");
    assert_eq!(e.response.code, ErrorCode::CommandFailed);
    assert_eq!(e.response.message, "PowerShell command failed: Restart-NetAdapter : No adapter found");
}

#[test]
fn test_dns_set_plan() {
    let plan = dns::set("1.1.1.1", Some("1.0.0.1"), None, true).unwrap();
    assert_eq!(plan.interface, "Wi-Fi");
    assert_eq!(plan.primary, "1.1.1.1");
    assert_eq!(plan.secondary.as_deref(), Some("1.0.0.1"));

    let named = dns::set("9.9.9.9", None, Some("Ethernet"), true).unwrap();
    assert_eq!(named.interface, "Ethernet");
    assert_eq!(named.secondary, None);

    let bad = dns::set("999.1.1.1", None, None, true).unwrap_err();
    assert_eq!(bad.response.code, ErrorCode::InvalidInput);

    let bad2 = dns::set("1.1.1.1", Some("nope"), None, true).unwrap_err();
    assert_eq!(bad2.response.code, ErrorCode::InvalidInput);

    let denied = dns::set("1.1.1.1", None, None, false).unwrap_err();
    assert_eq!(denied.exit_code, ExitCodes::PermissionDenied);
}

#[test]
fn test_dns_set_failure_mapping() {
    let e = dns::set_failure("Wi-Fi", NactlError::general_error("The interface is not found."));
    assert_eq!(e.exit_code, ExitCodes::InterfaceNotFound);
    assert_eq!(e.response.message, "Network interface 'Wi-Fi' not found");

    let kept = dns::set_failure("Wi-Fi", NactlError::command_failed("boom"));
    assert_eq!(kept.response.message, "boom");
}

#[test]
fn test_dns_reset_and_flush() {
    assert_eq!(dns::reset(None, true).unwrap(), "Wi-Fi");
    assert_eq!(dns::reset(Some("Ethernet"), true).unwrap(), "Ethernet");
    let denied = dns::reset(None, false).unwrap_err();
    assert_eq!(denied.exit_code, ExitCodes::PermissionDenied);

    let ok = dns::flush_outcome(true, "Successfully flushed the DNS Resolver Cache.");
    assert!(ok.success);
    assert_eq!(ok.message, "DNS cache flushed successfully");
    assert_eq!(dns::flush_exit_code(ok.success), ExitCodes::Success);

    let bad = dns::flush_outcome(false, " some failure ");
    assert!(!bad.success);
    assert_eq!(bad.message, "Failed to flush DNS cache: some failure");
    assert_eq!(dns::flush_exit_code(bad.success), ExitCodes::GeneralError);

    let wrong_text = dns::flush_outcome(true, "nothing happened");
    assert!(!wrong_text.success);
}

#[test]
fn test_stack_reset_plan() {
    let soft = stack::reset("SOFT", true).unwrap();
    assert_eq!(soft.level, "soft");
    assert!(!soft.hard);
    assert!(!soft.reboot_required);

    let hard = stack::reset("hard", true).unwrap();
    assert_eq!(hard.level, "hard");
    assert!(hard.reboot_required);

    let bad = stack::reset("medium", true).unwrap_err();
    assert_eq!(bad.exit_code, ExitCodes::InvalidArguments);
    assert_eq!(bad.response.message, "Level must be 'soft' or 'hard'");

    let denied = stack::reset("soft", false).unwrap_err();
    assert_eq!(denied.exit_code, ExitCodes::PermissionDenied);

    assert_eq!(stack::reset_message(true), "Network stack reset complete");
    assert_eq!(
        stack::reset_message(false),
        "Network stack reset completed with some errors"
    );
}

#[test]
fn test_output_format_and_suggestion() {
    assert_eq!(OutputFormat::Json, OutputFormat::Json);
    assert_ne!(OutputFormat::Json, OutputFormat::PrettyJson);
    assert!(elevation_suggestion().contains("Administrator"));
}
