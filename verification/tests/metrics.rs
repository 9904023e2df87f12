use nactl::metrics::channel_to_frequency;
use nactl::metrics::normalize_security;
use nactl::metrics::signal_to_rssi;

#[test]
fn test_frequency_bands() {
    assert_eq!(channel_to_frequency(0), "Unknown");
    assert_eq!(channel_to_frequency(6), "2.4GHz");
    assert_eq!(channel_to_frequency(149), "5GHz");
    assert_eq!(channel_to_frequency(1), "2.4GHz");
    assert_eq!(channel_to_frequency(14), "2.4GHz");
    assert_eq!(channel_to_frequency(15), "5GHz");
}

#[test]
fn test_rssi_estimate() {
    assert_eq!(signal_to_rssi(0), -100);
    assert_eq!(signal_to_rssi(100), -30);
    assert_eq!(signal_to_rssi(50), -65);
    assert_eq!(signal_to_rssi(80), -44);
    assert_eq!(signal_to_rssi(1), -100);
}

#[test]
fn test_security_normalization() {
    assert_eq!(normalize_security("WPA2-Personal"), "WPA2-Personal");
    assert_eq!(normalize_security("wpa2"), "WPA2-Personal");
    assert_eq!(normalize_security("WPA2-Enterprise 802.1X"), "WPA2-Enterprise");
    assert_eq!(normalize_security("wpa3 enterprise"), "WPA3-Enterprise");
    assert_eq!(normalize_security("WPA3-SAE"), "WPA3-SAE");
    assert_eq!(normalize_security("WPA-PSK"), "WPA-Personal");
    assert_eq!(normalize_security("wep 40-bit"), "WEP");
    assert_eq!(normalize_security("Open"), "Open");
    assert_eq!(normalize_security("Shared Key"), "Shared Key");
}
