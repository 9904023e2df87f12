use nactl::status::execute;
use nactl::status::extract_value;
use nactl::status::get_ip_config;
use nactl::status::get_wifi_status;
use nactl::status::merge_status;
use nactl::status::NetworkStatus;

const WLAN_CONNECTED: &str = "There is 1 interface on the system:

    Name                   : Wi-Fi
    Description            : Intel(R) Wireless Adapter
    State                  : connected
    SSID                   : HomeNet
    BSSID                  : aa:bb:cc:dd:ee:01
    Signal                 : 87%
    Channel                : 44
    Receive rate (Mbps)    : 433.3
    Transmit rate (Mbps)   : 433.3\n";

const IPCONFIG: &str = "Windows IP Configuration

Wireless LAN adapter Wi-Fi:

   Physical Address. . . . . . . . . : 00-1A-2B-3C-4D-5E
   IPv4 Address. . . . . . . . . . . : 192.168.1.50
   Subnet Mask . . . . . . . . . . . : 255.255.255.0
   Default Gateway . . . . . . . . . : 192.168.1.1
   DNS Servers . . . . . . . . . . . : 8.8.8.8
                                       1.1.1.1
   NetBIOS over Tcpip. . . . . . . . : Enabled\n";

#[test]
fn test_extract_value() {
    assert_eq!(extract_value("    Name   : Wi-Fi"), Some("Wi-Fi"));
    assert_eq!(extract_value("State : connected "), Some("connected"));
    assert_eq!(extract_value("no colon here"), None);
    assert_eq!(extract_value("x:"), Some(""));
}

#[test]
fn test_wifi_pass_reads_the_connected_interface() {
    let st = get_wifi_status(WLAN_CONNECTED, None);
    assert!(st.connected);
    assert_eq!(st.interface.as_deref(), Some("Wi-Fi"));
    assert_eq!(st.connection_type.as_deref(), Some("wifi"));
    assert_eq!(st.ssid.as_deref(), Some("HomeNet"));
    assert_eq!(st.bssid.as_deref(), Some("aa:bb:cc:dd:ee:01"));
    assert_eq!(st.signal_strength, Some(87));
    assert_eq!(st.signal_rssi, Some(-40));
    assert_eq!(st.channel, Some(44));
    assert_eq!(st.frequency.as_deref(), Some("5GHz"));
    assert_eq!(st.link_speed.as_deref(), Some("433.3"));
    assert_eq!(st.ip_address, None);
}

#[test]
fn test_wifi_pass_honors_the_interface_filter() {
    let st = get_wifi_status(WLAN_CONNECTED, Some("Other"));
    assert_eq!(st.interface, None);
    assert!(!st.connected);
}

#[test]
fn test_wifi_pass_stops_at_the_next_interface_section() {
    let two = "    Name                   : Wi-Fi
    State                  : connected
    Name                   : Wi-Fi 2
    SSID                   : OtherNet\n";
    let st = get_wifi_status(two, None);
    assert_eq!(st.interface.as_deref(), Some("Wi-Fi"));
    assert!(st.connected);
    assert_eq!(st.ssid, None);
}

#[test]
fn test_ip_pass_reads_addresses_and_mac() {
    let st = get_ip_config(IPCONFIG, Some("Wi-Fi"));
    assert_eq!(st.ip_address.as_deref(), Some("192.168.1.50"));
    assert_eq!(st.subnet_mask.as_deref(), Some("255.255.255.0"));
    assert_eq!(st.gateway.as_deref(), Some("192.168.1.1"));
    assert_eq!(
        st.dns_servers,
        Some(vec!["8.8.8.8".to_string(), "1.1.1.1".to_string()])
    );
    assert_eq!(st.mac_address.as_deref(), Some("00:1A:2B:3C:4D:5E"));
}

#[test]
fn test_ip_pass_dns_list_ends_at_unindented_line() {
    let out = "Wireless LAN adapter Wi-Fi:
   DNS Servers . . . . . . . . . . . : 8.8.8.8
                                       9.9.9.9
Ethernet adapter Ethernet:
   IPv4 Address. . . . . . . . . . . : 10.0.0.2\n";
    let st = get_ip_config(out, None);
    assert_eq!(
        st.dns_servers,
        Some(vec!["8.8.8.8".to_string(), "9.9.9.9".to_string()])
    );
    // the Ethernet section is outside the wireless heuristic
    assert_eq!(st.ip_address, None);
}

#[test]
fn test_merge_keeps_wifi_fields_and_fills_missing() {
    let mut wifi = NetworkStatus::default();
    wifi.connected = true;
    wifi.gateway = Some("10.0.0.1".to_string());
    let mut ip = NetworkStatus::default();
    ip.gateway = Some("192.168.1.1".to_string());
    ip.subnet_mask = Some("255.255.255.0".to_string());
    let merged = merge_status(wifi, ip);
    assert_eq!(merged.gateway.as_deref(), Some("10.0.0.1"));
    assert_eq!(merged.subnet_mask.as_deref(), Some("255.255.255.0"));
    assert!(merged.connected);
}

#[test]
fn test_ip_address_forces_connected() {
    let disconnected_wlan = "    Name                   : Wi-Fi
    State                  : disconnected\n";
    let status = execute(Some(disconnected_wlan), Some(IPCONFIG), None);
    assert_eq!(status.ssid, None);
    assert_eq!(status.ip_address.as_deref(), Some("192.168.1.50"));
    assert!(status.connected);
}

#[test]
fn test_execute_without_captures_is_empty() {
    let status = execute(None, None, None);
    assert!(!status.connected);
    assert_eq!(status.interface, None);
    assert_eq!(status.ip_address, None);
}
