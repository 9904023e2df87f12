use nactl::validation::sanitize_for_command;
use nactl::validation::validate_hostname;
use nactl::validation::validate_ip_address;
use nactl::validation::validate_ssid;

#[test]
fn test_validate_ssid_valid() {
    assert!(validate_ssid("MyNetwork").is_ok());
    assert!(validate_ssid("Network-5G").is_ok());
    assert!(validate_ssid("Guest WiFi").is_ok());
}

#[test]
fn test_validate_ssid_invalid() {
    assert!(validate_ssid("").is_err());
    assert!(validate_ssid("Net\"work").is_err());
    assert!(validate_ssid("Net;work").is_err());
    assert!(validate_ssid("a".repeat(33).as_str()).is_err());
}

#[test]
fn test_validate_hostname_valid() {
    assert!(validate_hostname("google.com").is_ok());
    assert!(validate_hostname("192.168.1.1").is_ok());
    assert!(validate_hostname("sub.domain.example.com").is_ok());
}

#[test]
fn test_validate_hostname_invalid() {
    assert!(validate_hostname("").is_err());
    assert!(validate_hostname("host;rm -rf").is_err());
    assert!(validate_hostname("host|cat /etc/passwd").is_err());
}

#[test]
fn test_validate_ip_valid() {
    assert!(validate_ip_address("192.168.1.1").is_ok());
    assert!(validate_ip_address("8.8.8.8").is_ok());
    assert!(validate_ip_address("255.255.255.255").is_ok());
}

#[test]
fn test_validate_ip_invalid() {
    assert!(validate_ip_address("").is_err());
    assert!(validate_ip_address("256.1.1.1").is_err());
    assert!(validate_ip_address("not.an.ip").is_err());
}

#[test]
fn test_validate_ipv6() {
    assert!(validate_ip_address("2001:db8::1").is_ok());
    assert!(validate_ip_address("fe80:0:0:0:abcd:0:0:1").is_ok());
    assert!(validate_ip_address("2001:db8::12345").is_err());
}

#[test]
fn test_hostname_label_rules() {
    assert!(validate_hostname("a-b.example").is_ok());
    assert!(validate_hostname("-leading.example").is_err());
    assert!(validate_hostname("trailing-.example").is_err());
    assert!(validate_hostname("double..dot").is_err());
    assert!(validate_hostname(&"a".repeat(254)).is_err());
}

#[test]
fn test_sanitize_for_command() {
    assert_eq!(sanitize_for_command("plain"), "plain");
    assert_eq!(sanitize_for_command("say \"hi\""), "say \"\"hi\"\"");
    assert_eq!(sanitize_for_command("\""), "\"\"");
    assert_eq!(sanitize_for_command(""), "");
}
