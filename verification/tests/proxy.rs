use nactl::proxy::parse_proxy_server;
use nactl::proxy::parse_server_port;
use nactl::proxy::read_proxy_config;

#[test]
fn test_parse_server_port() {
    assert_eq!(parse_server_port("proxy.local:8080"), (Some("proxy.local".to_string()), Some(8080)));
    assert_eq!(parse_server_port("proxy.local"), (Some("proxy.local".to_string()), None));
    assert_eq!(parse_server_port("  spaced:3128  "), (Some("spaced".to_string()), Some(3128)));
    assert_eq!(parse_server_port("bad:port"), (Some("bad".to_string()), None));
    assert_eq!(parse_server_port(""), (None, None));
    assert_eq!(parse_server_port("   "), (None, None));
}

#[test]
fn test_simple_server_applies_to_http_and_https() {
    let (http, https, socks) = parse_proxy_server(&Some("proxy:8080".to_string()), true);
    assert!(http.enabled);
    assert_eq!(http.server.as_deref(), Some("proxy"));
    assert_eq!(http.port, Some(8080));
    assert!(https.enabled);
    assert_eq!(https.server.as_deref(), Some("proxy"));
    assert_eq!(https.port, Some(8080));
    assert!(!socks.enabled);
    assert_eq!(socks.server, None);
}

#[test]
fn test_per_protocol_server_string() {
    let s = "http=proxy:8080;https=secure:8443;socks=sock:1080".to_string();
    let (http, https, socks) = parse_proxy_server(&Some(s), true);
    assert_eq!(http.server.as_deref(), Some("proxy"));
    assert_eq!(http.port, Some(8080));
    assert_eq!(https.server.as_deref(), Some("secure"));
    assert_eq!(https.port, Some(8443));
    assert_eq!(socks.server.as_deref(), Some("sock"));
    assert_eq!(socks.port, Some(1080));
}

#[test]
fn test_unknown_protocols_and_disabled_flag() {
    let (http, _https, socks) = parse_proxy_server(&Some("ftp=x:21;SOCKS5=s:1080".to_string()), false);
    assert_eq!(http.server, None);
    assert_eq!(socks.server.as_deref(), Some("s"));
    assert!(!socks.enabled);

    let (http, https, socks) = parse_proxy_server(&None, true);
    assert!(!http.enabled && !https.enabled && !socks.enabled);
}

#[test]
fn test_read_proxy_config_bypass_list() {
    let config = read_proxy_config(
        true,
        Some("proxy:8080".to_string()),
        Some("localhost; 127.0.0.1 ;;*.local".to_string()),
        Some("http://pac.local/proxy.pac".to_string()),
    );
    assert!(config.http_proxy.enabled);
    assert_eq!(config.http_proxy.port, Some(8080));
    assert_eq!(
        config.bypass_list,
        Some(vec!["localhost".to_string(), "127.0.0.1".to_string(), "*.local".to_string()])
    );
    assert_eq!(config.auto_config_url.as_deref(), Some("http://pac.local/proxy.pac"));

    let empty = read_proxy_config(false, None, None, None);
    assert!(!empty.http_proxy.enabled);
    assert_eq!(empty.bypass_list, None);
    assert_eq!(empty.auto_config_url, None);
}
