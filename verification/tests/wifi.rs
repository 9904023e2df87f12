use nactl::wifi::forget;
use nactl::wifi::forget_failure;
use nactl::wifi::forget_outcome;
use nactl::wifi::get_known_networks;
use nactl::wifi::is_connected_to;
use nactl::wifi::parse_wifi_networks;
use nactl::wifi::scan;
use nactl::errors::ErrorCode;
use nactl::errors::ExitCodes;
use nactl::errors::NactlError;

const SCAN_OUTPUT: &str = "Interface name : Wi-Fi
There are 2 networks currently visible.

SSID 1 : HomeNet
    Network type            : Infrastructure
    Authentication          : WPA2-Personal
    Encryption              : CCMP
    BSSID 1                 : aa:bb:cc:dd:ee:01
         Signal             : 80%
         Channel            : 6
    BSSID 2                 : aa:bb:cc:dd:ee:02
         Signal             : 60%
         Channel            : 149
SSID 2 : CafeWifi
    Authentication          : Open
    BSSID 1                 : ff:ee:dd:cc:bb:01
         Signal             : 95%
         Channel            : 11\n";

#[test]
fn test_two_bssids_share_ssid_and_security() {
    let known = vec!["HomeNet".to_string()];
    let nets = parse_wifi_networks(SCAN_OUTPUT, &known);
    assert_eq!(nets.len(), 3);

    // sorted by descending signal strength
    assert_eq!(nets[0].signal_strength, 95);
    assert_eq!(nets[1].signal_strength, 80);
    assert_eq!(nets[2].signal_strength, 60);

    // the two HomeNet records share SSID and security, not BSSID or channel
    assert_eq!(nets[1].ssid, "HomeNet");
    assert_eq!(nets[2].ssid, "HomeNet");
    assert_eq!(nets[1].security, "WPA2-Personal");
    assert_eq!(nets[2].security, "WPA2-Personal");
    assert_eq!(nets[1].bssid, "AA:BB:CC:DD:EE:01");
    assert_eq!(nets[2].bssid, "AA:BB:CC:DD:EE:02");
    assert_eq!(nets[1].channel, 6);
    assert_eq!(nets[2].channel, 149);
    assert_eq!(nets[1].frequency, "2.4GHz");
    assert_eq!(nets[2].frequency, "5GHz");
    assert_eq!(nets[1].signal_rssi, -44);
    assert_eq!(nets[2].signal_rssi, -58);

    // known is a case-sensitive exact match against the profile list
    assert!(nets[1].known);
    assert!(nets[2].known);
    assert!(!nets[0].known);
    assert_eq!(nets[0].ssid, "CafeWifi");
    assert_eq!(nets[0].security, "Open");
}

#[test]
fn test_security_resets_per_ssid_block() {
    let out = "SSID 1 : First
    Authentication          : WPA2-Personal
    BSSID 1                 : 00:00:00:00:00:01
         Signal             : 10%
SSID 2 : Second
    BSSID 1                 : 00:00:00:00:00:02
         Signal             : 20%\n";
    let nets = parse_wifi_networks(out, &Vec::new());
    assert_eq!(nets.len(), 2);
    assert_eq!(nets[0].ssid, "Second");
    assert_eq!(nets[0].security, "Unknown");
    assert_eq!(nets[1].security, "WPA2-Personal");
}

#[test]
fn test_missing_signal_and_channel_degrade_to_zero() {
    let out = "SSID 1 : Bare
    BSSID 1                 : 00:11:22:33:44:55\n";
    let nets = parse_wifi_networks(out, &Vec::new());
    assert_eq!(nets.len(), 1);
    assert_eq!(nets[0].signal_strength, 0);
    assert_eq!(nets[0].signal_rssi, -100);
    assert_eq!(nets[0].channel, 0);
    assert_eq!(nets[0].frequency, "Unknown");
}

#[test]
fn test_empty_scan_yields_no_networks() {
    let nets = parse_wifi_networks("There are 0 networks currently visible.\n", &Vec::new());
    assert!(nets.is_empty());
}

#[test]
fn test_scan_composes_profiles_and_listing() {
    let profiles = "User profiles
-------------
    All User Profile     : HomeNet
    All User Profile     : OldPlace\n";
    let nets = scan(SCAN_OUTPUT, profiles);
    assert_eq!(nets.len(), 3);
    assert!(nets[1].known);
    assert!(!nets[0].known);
}

#[test]
fn test_get_known_networks() {
    let profiles = "Profiles on interface Wi-Fi:

Group policy profiles (read only)
---------------------------------
    <None>

User profiles
-------------
    All User Profile     : HomeNet
    All User Profile     : Cafe Wifi\n";
    let known = get_known_networks(profiles);
    assert_eq!(known, vec!["HomeNet".to_string(), "Cafe Wifi".to_string()]);
}

#[test]
fn test_is_connected_to() {
    let out = "There is 1 interface on the system:

    Name                   : Wi-Fi
    State                  : connected
    SSID                   : HomeNet\n";
    assert!(is_connected_to(out, "HomeNet"));
    assert!(!is_connected_to(out, "OtherNet"));

    let disconnected = "    Name                   : Wi-Fi
    State                  : disconnected
    SSID                   : HomeNet\n";
    assert!(!is_connected_to(disconnected, "HomeNet"));
}

#[test]
fn test_forget_checks_ssid_and_elevation() {
    assert!(forget("HomeNet", true).is_ok());
    let denied = forget("HomeNet", false).unwrap_err();
    assert_eq!(denied.exit_code, ExitCodes::PermissionDenied);
    let invalid = forget("bad;ssid", true).unwrap_err();
    assert_eq!(invalid.response.code, ErrorCode::InvalidInput);
}

#[test]
fn test_forget_outcome() {
    let ok = forget_outcome("HomeNet", "Profile \"HomeNet\" is deleted from interface \"Wi-Fi\".", true)
        .unwrap();
    assert!(ok.success);
    assert_eq!(ok.message, "Network 'HomeNet' forgotten");
    assert_eq!(ok.data.ssid, "HomeNet");
    assert!(ok.data.was_connected);
    assert!(ok.data.keychain_cleared);

    let missing = forget_outcome("Nope", "The profile \"Nope\" is not found on the system.", false)
        .unwrap_err();
    assert_eq!(missing.exit_code, ExitCodes::GeneralError);
    assert_eq!(missing.response.message, "Network 'Nope' not found in saved profiles");

    let odd = forget_outcome("X", "something else entirely", false).unwrap();
    assert!(!odd.success);
}

#[test]
fn test_forget_failure_maps_not_found() {
    let underlying = NactlError::general_error("The profile is not found on the system.");
    let mapped = forget_failure("Nope", underlying);
    assert_eq!(mapped.response.message, "Network 'Nope' not found in saved profiles");

    let other = NactlError::command_failed("netsh exploded");
    let kept = forget_failure("Nope", other);
    assert_eq!(kept.response.message, "netsh exploded");
    assert_eq!(kept.response.code, ErrorCode::CommandFailed);
}
