use nactl::trace::parse_tracert_output;

const FULL_TRACE: &str = "Tracing route to example.com [93.184.216.34]
over a maximum of 30 hops:

  1    <1 ms    <1 ms    <1 ms  192.168.1.1
  2     *        *        *     Request timed out.
  3    12 ms    11 ms    12 ms  host.example.net [93.184.216.34]

Trace complete.\n";

#[test]
fn test_full_trace_parses_hops_in_order() {
    let data = parse_tracert_output(FULL_TRACE, "example.com");
    assert_eq!(data.host, "example.com");
    assert_eq!(data.hops.len(), 3);
    assert_eq!(data.total_hops, 3);
    assert!(data.destination_reached);

    assert_eq!(data.hops[0].hop, 1);
    assert_eq!(data.hops[0].ip, "192.168.1.1");
    assert_eq!(data.hops[0].hostname, None);
    assert_eq!(data.hops[0].time_ms.as_deref(), Some(&[1, 1, 1][..]));

    assert_eq!(data.hops[2].hop, 3);
    assert_eq!(data.hops[2].ip, "93.184.216.34");
    assert_eq!(data.hops[2].hostname.as_deref(), Some("host.example.net"));
    assert_eq!(data.hops[2].time_ms.as_deref(), Some(&[12, 11, 12][..]));
}

#[test]
fn test_timed_out_hop_has_no_address_and_no_times() {
    let out = "Tracing route to example.com [93.184.216.34]
  2     *        *        *     Request timed out.\n";
    let data = parse_tracert_output(out, "example.com");
    assert_eq!(data.hops.len(), 1);
    assert_eq!(data.hops[0].hop, 2);
    assert_eq!(data.hops[0].ip, "*");
    assert_eq!(data.hops[0].hostname, None);
    assert_eq!(data.hops[0].time_ms, None);
    assert!(!data.destination_reached);
    assert_eq!(data.total_hops, 2);
}

#[test]
fn test_reached_only_when_a_hop_matches_the_destination() {
    let not_there = "Tracing route to example.com [93.184.216.34]
  1     1 ms     1 ms     1 ms  192.168.1.1
  2     *        *        *     Request timed out.\n";
    let data = parse_tracert_output(not_there, "example.com");
    assert!(!data.destination_reached);

    let there = "Tracing route to example.com [93.184.216.34]
  1     1 ms     1 ms     1 ms  192.168.1.1
  2     9 ms     9 ms     9 ms  93.184.216.34\n";
    let data = parse_tracert_output(there, "example.com");
    assert!(data.destination_reached);
}

#[test]
fn test_completion_marker_forces_reached() {
    let out = "  1     1 ms     1 ms     1 ms  192.168.1.1
Trace complete.\n";
    let data = parse_tracert_output(out, "somewhere.net");
    assert!(data.destination_reached);
}

#[test]
fn test_partial_probe_timeouts_keep_only_numeric_times() {
    let out = "Tracing route to example.com [93.184.216.34]
  4     7 ms     *        9 ms  10.0.0.7\n";
    let data = parse_tracert_output(out, "example.com");
    assert_eq!(data.hops[0].time_ms.as_deref(), Some(&[7, 9][..]));
}

#[test]
fn test_total_hops_is_the_highest_index_seen() {
    let out = "Tracing route to example.com [93.184.216.34]
  9     1 ms     1 ms     1 ms  10.0.0.1
  2     1 ms     1 ms     1 ms  10.0.0.2\n";
    let data = parse_tracert_output(out, "example.com");
    assert_eq!(data.total_hops, 9);
}
