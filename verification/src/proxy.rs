//! Proxy configuration parsing: the registry's proxy-server string in
//! its simple `server:port` and per-protocol `http=...;https=...` forms,
//! and the semicolon-separated bypass list.

use vstd::prelude::*;
use vstd::string::*;

use crate::text::contains_seq;
use crate::text::contains_sub;
use crate::text::eq_str_ci;
use crate::text::seq_eq_ci;
use crate::text::sep_break;
use crate::text::spec_parse_u32;
use crate::text::spec_split;
use crate::text::spec_trim;
use crate::text::split_str;
use crate::text::parse_u32_str;
use crate::text::substr_string;
use crate::text::trim_str;

verus! {

/// One proxy endpoint: whether it is on, and its server and port.
#[derive(Debug)]
pub struct ProxyEndpoint {
    pub enabled: bool,
    pub server: Option<String>,
    pub port: Option<u16>,
}

/// The mathematical shadow of a `ProxyEndpoint`.
pub ghost struct ProxyEndpointView {
    pub enabled: bool,
    pub server: Option<Seq<char>>,
    pub port: Option<u16>,
}

impl View for ProxyEndpoint {
    type V = ProxyEndpointView;

    open spec fn view(&self) -> ProxyEndpointView {
        ProxyEndpointView {
            enabled: self.enabled,
            server: crate::text::opt_str_view(self.server),
            port: self.port,
        }
    }
}

/// The whole proxy configuration: one endpoint per protocol, the
/// auto-configuration URL and the bypass list.
#[derive(Debug)]
pub struct ProxyConfig {
    pub http_proxy: ProxyEndpoint,
    pub https_proxy: ProxyEndpoint,
    pub socks_proxy: ProxyEndpoint,
    pub auto_config_url: Option<String>,
    pub bypass_list: Option<Vec<String>>,
}

/// An endpoint that is off and empty.
pub open spec fn off_endpoint() -> ProxyEndpointView {
    ProxyEndpointView { enabled: false, server: None, port: None }
}

/// Index of the last occurrence of `sep`, if any.
pub open spec fn last_sep(s: Seq<char>, sep: char) -> Option<int>
    decreases s.len(),
{
    if s.len() == 0 {
        None
    } else if s.last() == sep {
        Some(s.len() - 1)
    } else {
        last_sep(s.drop_last(), sep)
    }
}

/// A whole string parsed as a port number.
pub open spec fn spec_parse_u16(s: Seq<char>) -> Option<u16> {
    match spec_parse_u32(s) {
        Some(v) => if v <= 65535 {
            Some(v as u16)
        } else {
            None
        },
        None => None,
    }
}

/// An address split at its last colon into a server and a port: no
/// colon leaves the whole trimmed address as the server, an unparseable
/// port is dropped, and a blank address yields nothing.
pub open spec fn spec_server_port(addr: Seq<char>) -> (Option<Seq<char>>, Option<u16>) {
    let a = spec_trim(addr);
    if a.len() == 0 {
        (None, None)
    } else {
        match last_sep(a, ':') {
            Some(i) => (Some(a.subrange(0, i)), spec_parse_u16(a.subrange(i + 1, a.len() as int))),
            None => (Some(a), None),
        }
    }
}

/// Splits a `server:port` address.
pub fn parse_server_port(addr: &str) -> (r: (Option<String>, Option<u16>))
    ensures
        ({
            let s = spec_server_port(addr@);
            (match r.0 {
                Some(v) => s.0 == Some(v@),
                None => s.0 is None,
            }) && r.1 == s.1
        }),
{
    let a = trim_str(addr);
    let n = a.unicode_len();
    if n == 0 {
        return (None, None);
    }
    let mut last: Option<usize> = None;
    let mut i: usize = 0;
    while i < n
        invariant
            0 <= i <= n,
            n == a@.len(),
            last matches Some(k) ==> k < i,
            (match last {
                Some(k) => last_sep(a@.subrange(0, i as int), ':') == Some(k as int),
                None => last_sep(a@.subrange(0, i as int), ':') is None,
            }),
        decreases n - i,
    {
        proof {
            assert(a@.subrange(0, i + 1).drop_last() =~= a@.subrange(0, i as int));
        }
        if a.get_char(i) == ':' {
            last = Some(i);
        }
        i += 1;
    }
    proof {
        assert(a@.subrange(0, n as int) =~= a@);
    }
    match last {
        Some(k) => {
            let server = substr_string(a, 0, k);
            let port: Option<u16> = match parse_u32_str(a.substring_char(k + 1, n)) {
                Some(v) => if v <= 65535 {
                    Some(v as u16)
                } else {
                    None
                },
                None => None,
            };
            (Some(server), port)
        },
        None => (Some(String::from_str(a)), None),
    }
}

/// State while walking the per-protocol parts: the three endpoints.
pub ghost struct ProxyTriple {
    pub http: ProxyEndpointView,
    pub https: ProxyEndpointView,
    pub socks: ProxyEndpointView,
}

pub open spec fn off_triple() -> ProxyTriple {
    ProxyTriple { http: off_endpoint(), https: off_endpoint(), socks: off_endpoint() }
}

/// One `protocol=address` part applied to the three endpoints: a
/// recognized protocol name (compared without case) takes the address's
/// server and port; anything else changes nothing.
pub open spec fn proxy_part_step(st: ProxyTriple, part: Seq<char>, enabled: bool) -> ProxyTriple {
    let t = spec_trim(part);
    let k = sep_break(t, '=', 0);
    if k >= t.len() {
        st
    } else {
        let protocol = t.subrange(0, k);
        let addr = t.subrange(k + 1, t.len() as int);
        let sp = spec_server_port(addr);
        let ep = ProxyEndpointView { enabled, server: sp.0, port: sp.1 };
        if seq_eq_ci(protocol, "http"@) {
            ProxyTriple { http: ep, ..st }
        } else if seq_eq_ci(protocol, "https"@) {
            ProxyTriple { https: ep, ..st }
        } else if seq_eq_ci(protocol, "socks"@) || seq_eq_ci(protocol, "socks5"@) || seq_eq_ci(
            protocol,
            "socks4"@,
        ) {
            ProxyTriple { socks: ep, ..st }
        } else {
            st
        }
    }
}

pub open spec fn proxy_parts_fold(parts: Seq<Seq<char>>, enabled: bool) -> ProxyTriple
    decreases parts.len(),
{
    if parts.len() == 0 {
        off_triple()
    } else {
        proxy_part_step(proxy_parts_fold(parts.drop_last(), enabled), parts.last(), enabled)
    }
}

/// The three endpoints a proxy-server string describes: the
/// per-protocol form fills each named endpoint, the simple form fills
/// HTTP and HTTPS alike, an absent or empty string leaves all off.
pub open spec fn spec_parse_proxy_server(server: Option<Seq<char>>, enabled: bool) -> ProxyTriple {
    match server {
        None => off_triple(),
        Some(s) => if s.len() == 0 {
            off_triple()
        } else if contains_seq(s, "="@) {
            proxy_parts_fold(spec_split(s, ';'), enabled)
        } else {
            let sp = spec_server_port(s);
            let ep = ProxyEndpointView { enabled, server: sp.0, port: sp.1 };
            ProxyTriple { http: ep, https: ProxyEndpointView { enabled, server: sp.0, port: sp.1 }, socks: off_endpoint() }
        },
    }
}

fn eq_sign_pos(s: &str) -> (r: usize)
    ensures
        r == sep_break(s@, '=', 0),
        r <= s@.len(),
{
    let n = s.unicode_len();
    let mut k: usize = 0;
    while k < n && s.get_char(k) != '='
        invariant
            0 <= k <= n,
            n == s@.len(),
            sep_break(s@, '=', 0) == sep_break(s@, '=', k as int),
        decreases n - k,
    {
        k += 1;
    }
    k
}

fn off_endpoint_exec() -> (r: ProxyEndpoint)
    ensures
        r@ == off_endpoint(),
{
    ProxyEndpoint { enabled: false, server: None, port: None }
}

/// Parses the proxy-server string into the HTTP, HTTPS and SOCKS
/// endpoints.
pub fn parse_proxy_server(proxy_server: &Option<String>, enabled: bool) -> (r: (
    ProxyEndpoint,
    ProxyEndpoint,
    ProxyEndpoint,
))
    ensures
        ({
            let t = spec_parse_proxy_server(crate::text::opt_str_view(*proxy_server), enabled);
            r.0@ == t.http && r.1@ == t.https && r.2@ == t.socks
        }),
{
    let s = match proxy_server {
        Some(s) => s.as_str(),
        None => {
            return (off_endpoint_exec(), off_endpoint_exec(), off_endpoint_exec());
        },
    };
    if s.unicode_len() == 0 {
        return (off_endpoint_exec(), off_endpoint_exec(), off_endpoint_exec());
    }
    if contains_sub(s, "=") {
        let parts = split_str(s, ';');
        let ghost pseq = spec_split(s@, ';');
        let mut http = off_endpoint_exec();
        let mut https = off_endpoint_exec();
        let mut socks = off_endpoint_exec();
        let mut i: usize = 0;
        while i < parts.len()
            invariant
                0 <= i <= parts@.len(),
                parts@.len() == pseq.len(),
                forall|k: int| 0 <= k < pseq.len() ==> parts@[k]@ == pseq[k],
                ({
                    let st = proxy_parts_fold(pseq.subrange(0, i as int), enabled);
                    &&& http@ == st.http
                    &&& https@ == st.https
                    &&& socks@ == st.socks
                }),
            decreases parts@.len() - i,
        {
            let ghost st0 = proxy_parts_fold(pseq.subrange(0, i as int), enabled);
            let part = trim_str(parts[i]);
            proof {
                assert(part@ == spec_trim(pseq[i as int]));
            }
            let n = part.unicode_len();
            let k = eq_sign_pos(part);
            if k < n {
                let protocol = part.substring_char(0, k);
                let addr = part.substring_char(k + 1, n);
                let (server, port) = parse_server_port(addr);
                let ep = ProxyEndpoint { enabled, server, port };
                if eq_str_ci(protocol, "http") {
                    http = ep;
                } else if eq_str_ci(protocol, "https") {
                    https = ep;
                } else if eq_str_ci(protocol, "socks") || eq_str_ci(protocol, "socks5")
                    || eq_str_ci(protocol, "socks4") {
                    socks = ep;
                }
            }
            proof {
                let pre = pseq.subrange(0, i as int);
                let post = pseq.subrange(0, i + 1);
                assert(post.drop_last() =~= pre);
                assert(post.last() == pseq[i as int]);
                assert(proxy_parts_fold(post, enabled) == proxy_part_step(
                    st0,
                    pseq[i as int],
                    enabled,
                ));
            }
            i += 1;
        }
        proof {
            assert(pseq.subrange(0, pseq.len() as int) =~= pseq);
        }
        (http, https, socks)
    } else {
        let (server, port) = parse_server_port(s);
        let http = ProxyEndpoint {
            enabled,
            server: match &server {
                Some(v) => Some(v.clone()),
                None => None,
            },
            port,
        };
        let https = ProxyEndpoint { enabled, server, port };
        (http, https, off_endpoint_exec())
    }
}

/// The bypass entries of an override string: each semicolon-separated
/// part trimmed, blanks dropped, order kept.
pub open spec fn spec_bypass(parts: Seq<Seq<char>>) -> Seq<Seq<char>>
    decreases parts.len(),
{
    if parts.len() == 0 {
        Seq::empty()
    } else {
        let rest = spec_bypass(parts.drop_last());
        let t = spec_trim(parts.last());
        if t.len() > 0 {
            rest.push(t)
        } else {
            rest
        }
    }
}

/// Assembles the proxy configuration from the four raw registry values:
/// the server string parsed into endpoints, the override string into
/// the bypass list, the URL passed through.
pub fn read_proxy_config(
    proxy_enabled: bool,
    proxy_server: Option<String>,
    proxy_override: Option<String>,
    auto_config_url: Option<String>,
) -> (r: ProxyConfig)
    ensures
        ({
            let t = spec_parse_proxy_server(crate::text::opt_str_view(proxy_server), proxy_enabled);
            &&& r.http_proxy@ == t.http
            &&& r.https_proxy@ == t.https
            &&& r.socks_proxy@ == t.socks
        }),
        crate::text::opt_str_view(r.auto_config_url) == crate::text::opt_str_view(auto_config_url),
        (match (r.bypass_list, proxy_override) {
            (Some(ref l), Some(ref o)) => l@.map_values(|s: String| s@) == spec_bypass(
                spec_split(o@, ';'),
            ),
            (None, None) => true,
            _ => false,
        }),
{
    let (http_proxy, https_proxy, socks_proxy) = parse_proxy_server(&proxy_server, proxy_enabled);
    let bypass_list: Option<Vec<String>> = match &proxy_override {
        Some(o) => {
            let s = o.as_str();
            let parts = split_str(s, ';');
            let ghost pseq = spec_split(s@, ';');
            let mut list: Vec<String> = Vec::new();
            let mut i: usize = 0;
            while i < parts.len()
                invariant
                    0 <= i <= parts@.len(),
                    parts@.len() == pseq.len(),
                    forall|k: int| 0 <= k < pseq.len() ==> parts@[k]@ == pseq[k],
                    list@.map_values(|s: String| s@) == spec_bypass(pseq.subrange(0, i as int)),
                decreases parts@.len() - i,
            {
                let t = trim_str(parts[i]);
                proof {
                    assert(t@ == spec_trim(pseq[i as int]));
                }
                if t.unicode_len() > 0 {
                    list.push(String::from_str(t));
                }
                proof {
                    let pre = pseq.subrange(0, i as int);
                    let post = pseq.subrange(0, i + 1);
                    assert(post.drop_last() =~= pre);
                    assert(post.last() == pseq[i as int]);
                    assert(list@.map_values(|s: String| s@) =~= spec_bypass(post));
                }
                i += 1;
            }
            proof {
                assert(pseq.subrange(0, pseq.len() as int) =~= pseq);
            }
            Some(list)
        },
        None => None,
    };
    ProxyConfig { http_proxy, https_proxy, socks_proxy, auto_config_url, bypass_list }
}

} // verus!
