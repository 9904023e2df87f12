//! Derived-metric calculators: signal-percent to RSSI estimate,
//! channel to frequency band, and security-label normalization.

use vstd::prelude::*;
use vstd::string::*;

use crate::text::contains_ci;
use crate::text::contains_sub_ci;

verus! {

/// The RSSI estimate derived from a signal percentage: a linear
/// approximation with 0% at -100 dBm and 100% at -30 dBm.
pub open spec fn spec_rssi(signal_percent: int) -> int {
    -100 + (signal_percent * 70) / 100
}

/// Derives the approximate RSSI (dBm) from a signal-strength percentage.
///
/// The mapping is a presentation convention, not a radio measurement.
pub fn signal_to_rssi(signal_percent: i32) -> (rssi: i32)
    requires
        0 <= signal_percent <= 100,
    ensures
        rssi == spec_rssi(signal_percent as int),
        -100 <= rssi <= -30,
{
    -100 + (signal_percent * 70) / 100
}

/// The frequency-band label of a wireless channel: unknown for channel 0,
/// the 2.4GHz band through channel 14, the 5GHz band above.
pub open spec fn spec_frequency(channel: u32) -> Seq<char> {
    if channel == 0 {
        "Unknown"@
    } else if channel <= 14 {
        "2.4GHz"@
    } else {
        "5GHz"@
    }
}

/// Names the frequency band that a channel number belongs to.
pub fn channel_to_frequency(channel: u32) -> (r: String)
    ensures
        r@ == spec_frequency(channel),
{
    if channel == 0 {
        String::from_str("Unknown")
    } else if channel <= 14 {
        String::from_str("2.4GHz")
    } else {
        String::from_str("5GHz")
    }
}

/// The normalized security label of a raw authentication string: the
/// strongest recognized family (WPA3 over WPA2 over WPA over WEP over
/// Open) with an Enterprise qualifier where one is mentioned; a string
/// naming none of them passes through verbatim.
pub open spec fn spec_normalize_security(auth: Seq<char>) -> Seq<char> {
    if contains_ci(auth, "wpa3"@) {
        if contains_ci(auth, "enterprise"@) {
            "WPA3-Enterprise"@
        } else {
            "WPA3-SAE"@
        }
    } else if contains_ci(auth, "wpa2"@) {
        if contains_ci(auth, "enterprise"@) {
            "WPA2-Enterprise"@
        } else {
            "WPA2-Personal"@
        }
    } else if contains_ci(auth, "wpa"@) {
        if contains_ci(auth, "enterprise"@) {
            "WPA-Enterprise"@
        } else {
            "WPA-Personal"@
        }
    } else if contains_ci(auth, "wep"@) {
        "WEP"@
    } else if contains_ci(auth, "open"@) {
        "Open"@
    } else {
        auth
    }
}

/// Normalizes a raw authentication string to a security label.
pub fn normalize_security(auth: &str) -> (r: String)
    ensures
        r@ == spec_normalize_security(auth@),
{
    if contains_sub_ci(auth, "wpa3") {
        if contains_sub_ci(auth, "enterprise") {
            String::from_str("WPA3-Enterprise")
        } else {
            String::from_str("WPA3-SAE")
        }
    } else if contains_sub_ci(auth, "wpa2") {
        if contains_sub_ci(auth, "enterprise") {
            String::from_str("WPA2-Enterprise")
        } else {
            String::from_str("WPA2-Personal")
        }
    } else if contains_sub_ci(auth, "wpa") {
        if contains_sub_ci(auth, "enterprise") {
            String::from_str("WPA-Enterprise")
        } else {
            String::from_str("WPA-Personal")
        }
    } else if contains_sub_ci(auth, "wep") {
        String::from_str("WEP")
    } else if contains_sub_ci(auth, "open") {
        String::from_str("Open")
    } else {
        String::from_str(auth)
    }
}

} // verus!
