//! Parsing and normalization for the console output of common networking
//! utilities: ping, traceroute, wireless interface listings, wireless
//! network scans and IP configuration dumps.  Raw captured text goes in,
//! structured records come out; running the utilities, rendering output
//! and every other side effect stay with the caller.

pub mod admin;
pub mod dns;
pub mod errors;
pub mod metrics;
pub mod netsh;
pub mod output;
pub mod ping;
pub mod powershell;
pub mod proxy;
pub mod stack;
pub mod status;
pub mod text;
pub mod trace;
pub mod validation;
pub mod wifi;


