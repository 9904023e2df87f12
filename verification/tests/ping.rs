use nactl::ping::parse_ping_output;
use nactl::ping::ping_exit_code;
use nactl::ping::ping_success;
use nactl::errors::ExitCodes;

#[test]
fn test_reply_and_timeout_lines_counted_in_order() {
    let out = "Pinging google.com [142.250.80.46] with 32 bytes of data:
Reply from 142.250.80.46: bytes=32 time=12ms TTL=117
Reply from 142.250.80.46: bytes=32 time=18ms TTL=117
Reply from 142.250.80.46: bytes=32 time<1ms TTL=117
Request timed out.\n";
    let data = parse_ping_output(out, "google.com", 4);
    assert_eq!(data.host, "google.com");
    assert_eq!(data.resolved_ip.as_deref(), Some("142.250.80.46"));
    assert_eq!(data.packets_sent, 4);
    assert_eq!(data.packets_received, 3);
    assert_eq!(data.packet_loss_percent, 25);
    assert_eq!(data.results.len(), 4);
    for (i, sample) in data.results.iter().enumerate() {
        assert_eq!(sample.seq as usize, i + 1);
    }
    assert_eq!(data.results[0].time_ms, Some(12));
    assert_eq!(data.results[0].ttl, Some(117));
    assert_eq!(data.results[2].time_ms, Some(1));
    assert_eq!(data.results[3].time_ms, None);
    assert_eq!(data.results[3].ttl, None);
    assert_eq!(data.min_ms, Some(1));
    assert_eq!(data.max_ms, Some(18));
    assert_eq!(data.avg_ms, Some(10));
}

#[test]
fn test_summary_line_overrides_counts() {
    let out = "Reply from 10.0.0.1: bytes=32 time=5ms TTL=64
Reply from 10.0.0.1: bytes=32 time=6ms TTL=64
    Packets: Sent = 4, Received = 4, Lost = 0 (0% loss),\n";
    let data = parse_ping_output(out, "10.0.0.1", 2);
    assert_eq!(data.packets_sent, 4);
    assert_eq!(data.packets_received, 4);
    assert_eq!(data.packet_loss_percent, 0);
}

#[test]
fn test_timing_summary_fills_missing_statistics() {
    let out = "Reply from 10.0.0.1: bytes=32 TTL=64
Approximate round trip times in milli-seconds:
    Minimum = 12ms, Maximum = 18ms, Average = 15ms\n";
    let data = parse_ping_output(out, "10.0.0.1", 1);
    assert_eq!(data.packets_received, 1);
    assert_eq!(data.results[0].time_ms, None);
    assert_eq!(data.min_ms, Some(12));
    assert_eq!(data.max_ms, Some(18));
    assert_eq!(data.avg_ms, Some(15));
}

#[test]
fn test_per_line_times_beat_timing_summary() {
    let out = "Reply from 10.0.0.1: bytes=32 time=7ms TTL=64
    Minimum = 12ms, Maximum = 18ms, Average = 15ms\n";
    let data = parse_ping_output(out, "10.0.0.1", 1);
    assert_eq!(data.min_ms, Some(7));
    assert_eq!(data.max_ms, Some(7));
    assert_eq!(data.avg_ms, Some(7));
}

#[test]
fn test_zero_replies_is_total_loss() {
    let out = "Pinging 10.0.0.9 with 32 bytes of data:
Request timed out.
Request timed out.\n";
    let data = parse_ping_output(out, "10.0.0.9", 2);
    assert_eq!(data.packets_received, 0);
    assert_eq!(data.packet_loss_percent, 100);
    assert_eq!(data.min_ms, None);
    assert_eq!(data.avg_ms, None);
    assert_eq!(data.max_ms, None);
    assert_eq!(data.results.len(), 2);
    assert!(!ping_success(&data));
    assert_eq!(ping_exit_code(&data), ExitCodes::Timeout);
}

#[test]
fn test_bare_address_header_has_no_bracketed_ip() {
    let out = "Pinging 8.8.8.8 with 32 bytes of data:
Reply from 8.8.8.8: bytes=32 time=9ms TTL=115\n";
    let data = parse_ping_output(out, "8.8.8.8", 1);
    assert_eq!(data.resolved_ip.as_deref(), Some("8.8.8.8"));
    assert!(ping_success(&data));
    assert_eq!(ping_exit_code(&data), ExitCodes::Success);
}

#[test]
fn test_unmatched_lines_are_skipped() {
    let out = "some banner\n\nUnreadable noise 12%\n";
    let data = parse_ping_output(out, "example.net", 4);
    assert_eq!(data.results.len(), 0);
    assert_eq!(data.packets_received, 0);
    assert_eq!(data.packets_sent, 4);
    assert_eq!(data.resolved_ip, None);
}

#[test]
fn test_unreachable_counts_as_timeout_sample() {
    let out = "Reply from 192.168.1.1: Destination host unreachable.\n";
    let data = parse_ping_output(out, "10.1.2.3", 1);
    // the line carries no TTL field, so it is not a reply; the marker makes
    // it a timeout-class sample
    assert_eq!(data.results.len(), 1);
    assert_eq!(data.packets_received, 0);
    assert_eq!(data.results[0].time_ms, None);
}
