//! Network status aggregation: a pass over the wireless-interface
//! listing, an independent pass over the IP-configuration dump, and a
//! merge in which fields the first pass filled are kept and an address
//! found by the second pass forces the connected flag.

use vstd::prelude::*;
use vstd::string::*;

use crate::metrics::spec_frequency;
use crate::metrics::spec_rssi;
use crate::metrics::channel_to_frequency;
use crate::metrics::signal_to_rssi;
use crate::ping::ipv4_end;
use crate::ping::ipv4_end_exec_pub;
use crate::text::contains_ci;
use crate::text::contains_sub_ci;
use crate::text::eq_str_ci;
use crate::text::find_from_ci;
use crate::text::is_hex_digit;
use crate::text::is_hex_char;
use crate::text::is_space;
use crate::text::match_at;
use crate::text::matches_at;
use crate::text::opt_str_view;
use crate::text::push_char;
use crate::text::sep_break;
use crate::text::seq_eq_ci;
use crate::text::skip_ws;
use crate::text::skip_ws_exec;
use crate::text::spec_find_ci;
use crate::text::spec_lines;
use crate::text::spec_parse_u32;
use crate::text::spec_trim;
use crate::text::parse_u32_str;
use crate::text::split_lines;
use crate::text::substr_string;
use crate::text::trim_str;

verus! {

/// The unified status record: the wireless fields of the interface
/// pass and the addressing fields of the IP-configuration pass.
#[derive(Debug)]
pub struct NetworkStatus {
    pub connected: bool,
    pub connection_type: Option<String>,
    pub interface: Option<String>,
    pub ssid: Option<String>,
    pub bssid: Option<String>,
    pub signal_strength: Option<i32>,
    pub signal_rssi: Option<i32>,
    pub channel: Option<u32>,
    pub frequency: Option<String>,
    pub link_speed: Option<String>,
    pub ip_address: Option<String>,
    pub subnet_mask: Option<String>,
    pub gateway: Option<String>,
    pub dns_servers: Option<Vec<String>>,
    pub mac_address: Option<String>,
}

/// The mathematical shadow of a `NetworkStatus`.
pub ghost struct NetworkStatusView {
    pub connected: bool,
    pub connection_type: Option<Seq<char>>,
    pub interface: Option<Seq<char>>,
    pub ssid: Option<Seq<char>>,
    pub bssid: Option<Seq<char>>,
    pub signal_strength: Option<i32>,
    pub signal_rssi: Option<i32>,
    pub channel: Option<u32>,
    pub frequency: Option<Seq<char>>,
    pub link_speed: Option<Seq<char>>,
    pub ip_address: Option<Seq<char>>,
    pub subnet_mask: Option<Seq<char>>,
    pub gateway: Option<Seq<char>>,
    pub dns_servers: Option<Seq<Seq<char>>>,
    pub mac_address: Option<Seq<char>>,
}

impl View for NetworkStatus {
    type V = NetworkStatusView;

    open spec fn view(&self) -> NetworkStatusView {
        NetworkStatusView {
            connected: self.connected,
            connection_type: opt_str_view(self.connection_type),
            interface: opt_str_view(self.interface),
            ssid: opt_str_view(self.ssid),
            bssid: opt_str_view(self.bssid),
            signal_strength: self.signal_strength,
            signal_rssi: self.signal_rssi,
            channel: self.channel,
            frequency: opt_str_view(self.frequency),
            link_speed: opt_str_view(self.link_speed),
            ip_address: opt_str_view(self.ip_address),
            subnet_mask: opt_str_view(self.subnet_mask),
            gateway: opt_str_view(self.gateway),
            dns_servers: match self.dns_servers {
                Some(ref v) => Some(v@.map_values(|s: String| s@)),
                None => None,
            },
            mac_address: opt_str_view(self.mac_address),
        }
    }
}

/// The empty status: disconnected, every field absent.
pub open spec fn spec_default_status() -> NetworkStatusView {
    NetworkStatusView {
        connected: false,
        connection_type: None,
        interface: None,
        ssid: None,
        bssid: None,
        signal_strength: None,
        signal_rssi: None,
        channel: None,
        frequency: None,
        link_speed: None,
        ip_address: None,
        subnet_mask: None,
        gateway: None,
        dns_servers: None,
        mac_address: None,
    }
}

impl Default for NetworkStatus {
    fn default() -> (r: Self)
        ensures
            r@ == spec_default_status(),
    {
        NetworkStatus {
            connected: false,
            connection_type: None,
            interface: None,
            ssid: None,
            bssid: None,
            signal_strength: None,
            signal_rssi: None,
            channel: None,
            frequency: None,
            link_speed: None,
            ip_address: None,
            subnet_mask: None,
            gateway: None,
            dns_servers: None,
            mac_address: None,
        }
    }
}

/// What follows the first colon of a line, trimmed; nothing when the
/// line has no colon.
pub open spec fn spec_extract_value(l: Seq<char>) -> Option<Seq<char>> {
    let k = sep_break(l, ':', 0);
    if k >= l.len() {
        None
    } else {
        Some(spec_trim(l.subrange(k + 1, l.len() as int)))
    }
}

/// Splits a `key : value` line at its first colon and trims the value.
pub fn extract_value<'a>(line: &'a str) -> (r: Option<&'a str>)
    ensures
        match r {
            Some(v) => spec_extract_value(line@) == Some(v@),
            None => spec_extract_value(line@) is None,
        },
{
    let n = line.unicode_len();
    let mut k: usize = 0;
    while k < n && line.get_char(k) != ':'
        invariant
            0 <= k <= n,
            n == line@.len(),
            sep_break(line@, ':', 0) == sep_break(line@, ':', k as int),
        decreases n - k,
    {
        k += 1;
    }
    proof {
        assert(sep_break(line@, ':', 0) == k);
    }
    if k >= n {
        None
    } else {
        Some(trim_str(line.substring_char(k + 1, n)))
    }
}

/// The percentage of a trimmed `nn%` value, accepted only in the 0-100
/// range the signal model covers.
pub open spec fn spec_pct_value(v: Seq<char>) -> Option<i32> {
    if v.len() > 0 && v.last() == '%' {
        match spec_parse_u32(spec_trim(v.drop_last())) {
            Some(x) => if x <= 100 {
                Some(x as i32)
            } else {
                None
            },
            None => None,
        }
    } else {
        None
    }
}

fn pct_value(v: &str) -> (r: Option<i32>)
    ensures
        r == spec_pct_value(v@),
{
    let n = v.unicode_len();
    if n > 0 && v.get_char(n - 1) == '%' {
        proof {
            assert(v@.subrange(0, n - 1) =~= v@.drop_last());
        }
        match parse_u32_str(trim_str(v.substring_char(0, n - 1))) {
            Some(x) => if x <= 100 {
                Some(x as i32)
            } else {
                None
            },
            None => None,
        }
    } else {
        None
    }
}

/// State of the interface pass: the record under construction, whether
/// an interface section was selected, and whether it has ended.
pub ghost struct WifiPassState {
    pub st: NetworkStatusView,
    pub found: bool,
    pub done: bool,
}

/// The interface name announced by a `Name : value` heading line.
pub open spec fn spec_name_line(t: Seq<char>) -> Option<Seq<char>> {
    if matches_at(t, 0, "Name"@) {
        spec_extract_value(t)
    } else {
        None
    }
}

/// One trimmed line of the interface listing applied to the pass state.
/// A heading line selects the first interface that the filter accepts
/// and ends the section at the next differing heading; value lines fill
/// the record while the section is open.
pub open spec fn spec_wifi_step(
    s: WifiPassState,
    t: Seq<char>,
    filter: Option<Seq<char>>,
) -> WifiPassState {
    if s.done {
        s
    } else {
        match spec_name_line(t) {
            Some(v) => {
                if !s.found {
                    if filter is None || filter == Some(v) {
                        WifiPassState {
                            st: NetworkStatusView {
                                interface: Some(v),
                                connection_type: Some("wifi"@),
                                ..s.st
                            },
                            found: true,
                            done: false,
                        }
                    } else {
                        s
                    }
                } else {
                    if s.st.interface == Some(v) {
                        s
                    } else {
                        WifiPassState { done: true, ..s }
                    }
                }
            },
            None => if !s.found {
                s
            } else {
                match spec_extract_value(t) {
                    Some(v) => {
                        if matches_at(t, 0, "State"@) {
                            WifiPassState {
                                st: NetworkStatusView {
                                    connected: seq_eq_ci(v, "connected"@),
                                    ..s.st
                                },
                                ..s
                            }
                        } else if matches_at(t, 0, "BSSID"@) {
                            WifiPassState {
                                st: NetworkStatusView { bssid: Some(v), ..s.st },
                                ..s
                            }
                        } else if matches_at(t, 0, "SSID"@) {
                            WifiPassState { st: NetworkStatusView { ssid: Some(v), ..s.st }, ..s }
                        } else if matches_at(t, 0, "Signal"@) {
                            match spec_pct_value(v) {
                                Some(x) => WifiPassState {
                                    st: NetworkStatusView {
                                        signal_strength: Some(x),
                                        signal_rssi: Some(spec_rssi(x as int) as i32),
                                        ..s.st
                                    },
                                    ..s
                                },
                                None => s,
                            }
                        } else if matches_at(t, 0, "Channel"@) {
                            match spec_parse_u32(v) {
                                Some(ch) => WifiPassState {
                                    st: NetworkStatusView {
                                        channel: Some(ch),
                                        frequency: Some(spec_frequency(ch)),
                                        ..s.st
                                    },
                                    ..s
                                },
                                None => s,
                            }
                        } else if matches_at(t, 0, "Receive rate"@) || matches_at(
                            t,
                            0,
                            "Transmit rate"@,
                        ) {
                            if s.st.link_speed is None {
                                WifiPassState {
                                    st: NetworkStatusView { link_speed: Some(v), ..s.st },
                                    ..s
                                }
                            } else {
                                s
                            }
                        } else {
                            s
                        }
                    },
                    None => s,
                }
            },
        }
    }
}

/// The interface pass over a sequence of raw lines (each is trimmed
/// before classification).
pub open spec fn spec_wifi_fold(
    lines: Seq<Seq<char>>,
    filter: Option<Seq<char>>,
) -> WifiPassState
    decreases lines.len(),
{
    if lines.len() == 0 {
        WifiPassState { st: spec_default_status(), found: false, done: false }
    } else {
        spec_wifi_step(spec_wifi_fold(lines.drop_last(), filter), spec_trim(lines.last()), filter)
    }
}

/// The status record of a whole interface listing.
pub open spec fn spec_wifi_status(text: Seq<char>, filter: Option<Seq<char>>) -> NetworkStatusView {
    spec_wifi_fold(spec_lines(text), filter).st
}

/// Reads the wireless fields out of the interface listing: the first
/// section the filter accepts, up to the next differing heading.
pub fn get_wifi_status(output: &str, interface: Option<&str>) -> (r: NetworkStatus)
    ensures
        r@ == spec_wifi_status(output@, match interface {
            Some(f) => Some(f@),
            None => None,
        }),
{
    let ghost lseq = spec_lines(output@);
    let ghost fview: Option<Seq<char>> = match interface {
        Some(f) => Some(f@),
        None => None,
    };
    let lines = split_lines(output);
    let mut status = NetworkStatus::default();
    let mut found = false;
    let mut done = false;
    let mut idx: usize = 0;
    while idx < lines.len()
        invariant
            0 <= idx <= lines@.len(),
            lines@.len() == lseq.len(),
            forall|i: int| 0 <= i < lseq.len() ==> lines@[i]@ == lseq[i],
            fview == (match interface {
                Some(f) => Some(f@),
                None => None,
            }),
            ({
                let acc = spec_wifi_fold(lseq.subrange(0, idx as int), fview);
                &&& status@ == acc.st
                &&& found == acc.found
                &&& done == acc.done
            }),
        decreases lines@.len() - idx,
    {
        let ghost acc0 = spec_wifi_fold(lseq.subrange(0, idx as int), fview);
        let line = trim_str(lines[idx]);
        proof {
            assert(line@ == spec_trim(lseq[idx as int]));
            reveal_strlit("Name");
            reveal_strlit("State");
            reveal_strlit("BSSID");
            reveal_strlit("SSID");
            reveal_strlit("Signal");
            reveal_strlit("Channel");
            reveal_strlit("Receive rate");
            reveal_strlit("Transmit rate");
        }
        if !done {
            let is_name = match_at(line, 0, "Name");
            if is_name {
                if let Some(v) = extract_value(line) {
                    if !found {
                        let accept = match interface {
                            Some(f) => crate::text::eq_str(v, f),
                            None => true,
                        };
                        if accept {
                            status.interface = Some(String::from_str(v));
                            status.connection_type = Some(String::from_str("wifi"));
                            found = true;
                        }
                    } else {
                        let same = match &status.interface {
                            Some(cur) => crate::text::eq_str(cur.as_str(), v),
                            None => false,
                        };
                        if !same {
                            done = true;
                        }
                    }
                }
            } else if found {
                if let Some(v) = extract_value(line) {
                    if match_at(line, 0, "State") {
                        status.connected = eq_str_ci(v, "connected");
                    } else if match_at(line, 0, "BSSID") {
                        status.bssid = Some(String::from_str(v));
                    } else if match_at(line, 0, "SSID") {
                        status.ssid = Some(String::from_str(v));
                    } else if match_at(line, 0, "Signal") {
                        if let Some(x) = pct_value(v) {
                            status.signal_strength = Some(x);
                            status.signal_rssi = Some(signal_to_rssi(x));
                        }
                    } else if match_at(line, 0, "Channel") {
                        if let Some(ch) = parse_u32_str(v) {
                            status.channel = Some(ch);
                            status.frequency = Some(channel_to_frequency(ch));
                        }
                    } else if match_at(line, 0, "Receive rate") || match_at(
                        line,
                        0,
                        "Transmit rate",
                    ) {
                        if status.link_speed.is_none() {
                            status.link_speed = Some(String::from_str(v));
                        }
                    }
                }
            }
        }
        proof {
            let pre = lseq.subrange(0, idx as int);
            let post = lseq.subrange(0, idx + 1);
            assert(post.drop_last() =~= pre);
            assert(post.last() == lseq[idx as int]);
            assert(spec_wifi_fold(post, fview) == spec_wifi_step(acc0, line@, fview));
        }
        idx += 1;
    }
    proof {
        assert(lseq.subrange(0, lseq.len() as int) =~= lseq);
    }
    status
}

/// The word occurs (case-insensitively) and is followed, later in the
/// line, by `adapter` and then a colon.
pub open spec fn word_adapter(l: Seq<char>, w: Seq<char>, wlen: int) -> bool {
    match spec_find_ci(l, w, 0) {
        Some(i) => match spec_find_ci(l, "adapter"@, i + wlen) {
            Some(j) => sep_break(l, ':', j + 7) < l.len(),
            None => false,
        },
        None => false,
    }
}

/// An adapter-section heading of the configuration dump.
pub open spec fn spec_adapter_header(l: Seq<char>) -> bool {
    word_adapter(l, "wireless"@, 8) || word_adapter(l, "wi-fi"@, 5) || word_adapter(
        l,
        "ethernet"@,
        8,
    )
}

fn colon_exists_from(l: &str, pos: usize) -> (r: bool)
    requires
        pos <= l@.len(),
    ensures
        r == (sep_break(l@, ':', pos as int) < l@.len()),
{
    let n = l.unicode_len();
    let mut k: usize = pos;
    while k < n && l.get_char(k) != ':'
        invariant
            pos <= k <= n,
            n == l@.len(),
            sep_break(l@, ':', pos as int) == sep_break(l@, ':', k as int),
        decreases n - k,
    {
        k += 1;
    }
    k < n
}

fn word_adapter_exec(l: &str, w: &str, wlen: usize) -> (r: bool)
    requires
        w@.len() == wlen,
    ensures
        r == word_adapter(l@, w@, wlen as int),
{
    proof {
        reveal_strlit("adapter");
    }
    let n = l.unicode_len();
    match find_from_ci(l, w, 0) {
        Some(i) => match find_from_ci(l, "adapter", i + wlen) {
            Some(j) => {
                proof {
                    assert("adapter"@.len() == 7);
                }
                colon_exists_from(l, j + 7)
            },
            None => false,
        },
        None => false,
    }
}

fn adapter_header(l: &str) -> (r: bool)
    ensures
        r == spec_adapter_header(l@),
{
    proof {
        reveal_strlit("wireless");
        reveal_strlit("wi-fi");
        reveal_strlit("ethernet");
    }
    word_adapter_exec(l, "wireless", 8) || word_adapter_exec(l, "wi-fi", 5) || word_adapter_exec(
        l,
        "ethernet",
        8,
    )
}

/// The first colon at or after `from` that is followed (after optional
/// whitespace) by an IPv4 address, and that address.
pub open spec fn colon_ip_after(l: Seq<char>, from: int) -> Option<Seq<char>>
    decreases l.len() - from when 0 <= from
{
    if from >= l.len() {
        None
    } else if l[from] == ':' {
        let p = skip_ws(l, from + 1);
        match ipv4_end(l, p) {
            Some(e) => Some(l.subrange(p, e)),
            None => colon_ip_after(l, from + 1),
        }
    } else {
        colon_ip_after(l, from + 1)
    }
}

fn colon_ip_after_exec(l: &str, from: usize) -> (r: Option<String>)
    requires
        from <= l@.len(),
    ensures
        match r {
            Some(v) => colon_ip_after(l@, from as int) == Some(v@),
            None => colon_ip_after(l@, from as int) is None,
        },
{
    let n = l.unicode_len();
    let mut k: usize = from;
    while k < n
        invariant
            from <= k <= n,
            n == l@.len(),
            colon_ip_after(l@, from as int) == colon_ip_after(l@, k as int),
        decreases n - k,
    {
        if l.get_char(k) == ':' {
            let p = skip_ws_exec(l, k + 1);
            if let Some(e) = ipv4_end_exec_pub(l, p) {
                return Some(substr_string(l, p, e));
            }
        }
        k += 1;
    }
    None
}

/// The address value of a line holding `marker` and then a colon and an
/// IPv4 address.
pub open spec fn spec_marked_ip(l: Seq<char>, marker: Seq<char>, mlen: int) -> Option<Seq<char>> {
    match crate::text::spec_find(l, marker, 0) {
        Some(i) => colon_ip_after(l, i + mlen),
        None => None,
    }
}

fn marked_ip(l: &str, marker: &str, mlen: usize) -> (r: Option<String>)
    requires
        marker@.len() == mlen,
    ensures
        match r {
            Some(v) => spec_marked_ip(l@, marker@, mlen as int) == Some(v@),
            None => spec_marked_ip(l@, marker@, mlen as int) is None,
        },
{
    let n = l.unicode_len();
    match crate::text::find_from(l, marker, 0) {
        Some(i) => colon_ip_after_exec(l, i + mlen),
        None => None,
    }
}

/// Index of the first character at or after `pos` that is neither a
/// hexadecimal digit nor a hyphen.
pub open spec fn hexdash_end(l: Seq<char>, pos: int) -> int
    decreases l.len() - pos when 0 <= pos
{
    if pos >= l.len() {
        pos
    } else if is_hex_digit(l[pos]) || l[pos] == '-' {
        hexdash_end(l, pos + 1)
    } else {
        pos
    }
}

fn hexdash_end_exec(l: &str, pos: usize) -> (r: usize)
    requires
        pos <= l@.len(),
    ensures
        r == hexdash_end(l@, pos as int),
        pos <= r <= l@.len(),
{
    let n = l.unicode_len();
    let mut i: usize = pos;
    while i < n && (is_hex_char(l.get_char(i)) || l.get_char(i) == '-')
        invariant
            pos <= i <= n,
            n == l@.len(),
            hexdash_end(l@, pos as int) == hexdash_end(l@, i as int),
        decreases n - i,
    {
        i += 1;
    }
    i
}

/// A physical address with its hyphens replaced by colons.
pub open spec fn dashes_to_colons(s: Seq<char>) -> Seq<char> {
    s.map_values(|c: char| if c == '-' { ':' } else { c })
}

fn dashes_to_colons_exec(s: &str) -> (r: String)
    ensures
        r@ == dashes_to_colons(s@),
{
    let n = s.unicode_len();
    let mut r = String::new();
    let mut i: usize = 0;
    while i < n
        invariant
            0 <= i <= n,
            n == s@.len(),
            r@ == dashes_to_colons(s@.subrange(0, i as int)),
        decreases n - i,
    {
        let c = s.get_char(i);
        if c == '-' {
            push_char(&mut r, ':');
        } else {
            push_char(&mut r, c);
        }
        proof {
            assert(r@ =~= dashes_to_colons(s@.subrange(0, i + 1)));
        }
        i += 1;
    }
    proof {
        assert(s@.subrange(0, n as int) =~= s@);
    }
    r
}

/// The first colon at or after `from` that is followed (after optional
/// whitespace) by a run of hexadecimal digits and hyphens, and that run.
pub open spec fn colon_hexdash_after(l: Seq<char>, from: int) -> Option<Seq<char>>
    decreases l.len() - from when 0 <= from
{
    if from >= l.len() {
        None
    } else if l[from] == ':' {
        let p = skip_ws(l, from + 1);
        let e = hexdash_end(l, p);
        if e > p {
            Some(l.subrange(p, e))
        } else {
            colon_hexdash_after(l, from + 1)
        }
    } else {
        colon_hexdash_after(l, from + 1)
    }
}

fn colon_hexdash_after_exec(l: &str, from: usize) -> (r: Option<String>)
    requires
        from <= l@.len(),
    ensures
        match r {
            Some(v) => colon_hexdash_after(l@, from as int) == Some(v@),
            None => colon_hexdash_after(l@, from as int) is None,
        },
{
    let n = l.unicode_len();
    let mut k: usize = from;
    while k < n
        invariant
            from <= k <= n,
            n == l@.len(),
            colon_hexdash_after(l@, from as int) == colon_hexdash_after(l@, k as int),
        decreases n - k,
    {
        if l.get_char(k) == ':' {
            let p = skip_ws_exec(l, k + 1);
            let e = hexdash_end_exec(l, p);
            if e > p {
                return Some(substr_string(l, p, e));
            }
        }
        k += 1;
    }
    None
}

/// The colon-separated physical address of a `Physical Address` line.
pub open spec fn spec_mac_line(l: Seq<char>) -> Option<Seq<char>> {
    match crate::text::spec_find(l, "Physical Address"@, 0) {
        Some(i) => match colon_hexdash_after(l, i + 16) {
            Some(raw) => Some(dashes_to_colons(raw)),
            None => None,
        },
        None => None,
    }
}

fn mac_line(l: &str) -> (r: Option<String>)
    ensures
        match r {
            Some(v) => spec_mac_line(l@) == Some(v@),
            None => spec_mac_line(l@) is None,
        },
{
    proof {
        reveal_strlit("Physical Address");
    }
    let n = l.unicode_len();
    match crate::text::find_from(l, "Physical Address", 0) {
        Some(i) => {
            proof {
                assert("Physical Address"@.len() == 16);
            }
            match colon_hexdash_after_exec(l, i + 16) {
                Some(raw) => Some(dashes_to_colons_exec(raw.as_str())),
                None => None,
            }
        },
        None => None,
    }
}

/// An indented continuation line carrying a bare IPv4 address.
pub open spec fn spec_ip_cont(l: Seq<char>) -> Option<Seq<char>> {
    if l.len() > 0 && is_space(l[0]) {
        let p = skip_ws(l, 0);
        match ipv4_end(l, p) {
            Some(e) => Some(l.subrange(p, e)),
            None => None,
        }
    } else {
        None
    }
}

fn ip_cont(l: &str) -> (r: Option<String>)
    ensures
        match r {
            Some(v) => spec_ip_cont(l@) == Some(v@),
            None => spec_ip_cont(l@) is None,
        },
{
    let n = l.unicode_len();
    if n > 0 && crate::text::is_space_char(l.get_char(0)) {
        let p = skip_ws_exec(l, 0);
        match ipv4_end_exec_pub(l, p) {
            Some(e) => Some(substr_string(l, p, e)),
            None => None,
        }
    } else {
        None
    }
}

/// State of the configuration pass: the record under construction, the
/// address list being collected, and the section flags.
pub ghost struct IpPassState {
    pub st: NetworkStatusView,
    pub dns: Seq<Seq<char>>,
    pub in_target: bool,
    pub collecting: bool,
    pub done: bool,
}

/// One raw line of the configuration dump applied to the pass state.
/// Headings open or close the matched section; inside it, address
/// lines fill the record, a name-server line starts the address list,
/// and indented continuation lines extend it.
pub open spec fn spec_ip_step(
    s: IpPassState,
    l: Seq<char>,
    filter: Option<Seq<char>>,
) -> IpPassState {
    if s.done {
        s
    } else if spec_adapter_header(l) {
        if s.in_target && s.st.ip_address is Some {
            IpPassState { done: true, ..s }
        } else {
            IpPassState {
                in_target: match filter {
                    Some(f) => contains_ci(l, f),
                    None => contains_ci(l, "wi-fi"@) || contains_ci(l, "wireless"@),
                },
                collecting: false,
                ..s
            }
        }
    } else if !s.in_target {
        s
    } else {
        let s1 = if spec_marked_ip(l, "IPv4 Address"@, 12) is Some {
            IpPassState {
                st: NetworkStatusView {
                    ip_address: spec_marked_ip(l, "IPv4 Address"@, 12),
                    ..s.st
                },
                collecting: false,
                ..s
            }
        } else if spec_marked_ip(l, "Subnet Mask"@, 11) is Some {
            IpPassState {
                st: NetworkStatusView {
                    subnet_mask: spec_marked_ip(l, "Subnet Mask"@, 11),
                    ..s.st
                },
                collecting: false,
                ..s
            }
        } else if spec_marked_ip(l, "Default Gateway"@, 15) is Some {
            IpPassState {
                st: NetworkStatusView {
                    gateway: spec_marked_ip(l, "Default Gateway"@, 15),
                    ..s.st
                },
                collecting: false,
                ..s
            }
        } else if spec_marked_ip(l, "DNS Servers"@, 11) is Some {
            IpPassState {
                dns: s.dns.push(spec_marked_ip(l, "DNS Servers"@, 11)->Some_0),
                collecting: true,
                ..s
            }
        } else if s.collecting {
            match spec_ip_cont(l) {
                Some(v) => IpPassState { dns: s.dns.push(v), ..s },
                None => if l.len() > 0 && l[0] != ' ' && spec_trim(l).len() > 0 {
                    IpPassState { collecting: false, ..s }
                } else {
                    s
                },
            }
        } else {
            s
        };
        match spec_mac_line(l) {
            Some(m) => IpPassState {
                st: NetworkStatusView { mac_address: Some(m), ..s1.st },
                ..s1
            },
            None => s1,
        }
    }
}

pub open spec fn spec_ip_fold(lines: Seq<Seq<char>>, filter: Option<Seq<char>>) -> IpPassState
    decreases lines.len(),
{
    if lines.len() == 0 {
        IpPassState {
            st: spec_default_status(),
            dns: Seq::empty(),
            in_target: false,
            collecting: false,
            done: false,
        }
    } else {
        spec_ip_step(spec_ip_fold(lines.drop_last(), filter), lines.last(), filter)
    }
}

/// The status record of a whole configuration dump: the pass state with
/// the collected name servers attached when any were found.
pub open spec fn spec_ip_config(text: Seq<char>, filter: Option<Seq<char>>) -> NetworkStatusView {
    let acc = spec_ip_fold(spec_lines(text), filter);
    NetworkStatusView {
        dns_servers: if acc.dns.len() > 0 {
            Some(acc.dns)
        } else {
            None
        },
        ..acc.st
    }
}

/// Reads the addressing fields out of the configuration dump: the first
/// adapter section that the filter (or the wireless heuristic) accepts.
pub fn get_ip_config(output: &str, interface: Option<&str>) -> (r: NetworkStatus)
    ensures
        r@ == spec_ip_config(output@, match interface {
            Some(f) => Some(f@),
            None => None,
        }),
{
    let ghost lseq = spec_lines(output@);
    let ghost fview: Option<Seq<char>> = match interface {
        Some(f) => Some(f@),
        None => None,
    };
    let lines = split_lines(output);
    let mut status = NetworkStatus::default();
    let mut dns: Vec<String> = Vec::new();
    let mut in_target = false;
    let mut collecting = false;
    let mut done = false;
    let mut idx: usize = 0;
    while idx < lines.len()
        invariant
            0 <= idx <= lines@.len(),
            lines@.len() == lseq.len(),
            forall|i: int| 0 <= i < lseq.len() ==> lines@[i]@ == lseq[i],
            fview == (match interface {
                Some(f) => Some(f@),
                None => None,
            }),
            ({
                let acc = spec_ip_fold(lseq.subrange(0, idx as int), fview);
                &&& status@ == acc.st
                &&& dns@.map_values(|s: String| s@) == acc.dns
                &&& in_target == acc.in_target
                &&& collecting == acc.collecting
                &&& done == acc.done
                &&& acc.st.dns_servers is None
            }),
        decreases lines@.len() - idx,
    {
        let ghost acc0 = spec_ip_fold(lseq.subrange(0, idx as int), fview);
        let line = lines[idx];
        proof {
            assert(line@ == lseq[idx as int]);
            reveal_strlit("IPv4 Address");
            reveal_strlit("Subnet Mask");
            reveal_strlit("Default Gateway");
            reveal_strlit("DNS Servers");
            reveal_strlit("wi-fi");
            reveal_strlit("wireless");
        }
        if !done {
            if adapter_header(line) {
                if in_target && status.ip_address.is_some() {
                    done = true;
                } else {
                    in_target = match interface {
                        Some(f) => contains_sub_ci(line, f),
                        None => contains_sub_ci(line, "wi-fi") || contains_sub_ci(
                            line,
                            "wireless",
                        ),
                    };
                    collecting = false;
                }
            } else if in_target {
                if let Some(v) = marked_ip(line, "IPv4 Address", 12) {
                    status.ip_address = Some(v);
                    collecting = false;
                } else if let Some(v) = marked_ip(line, "Subnet Mask", 11) {
                    status.subnet_mask = Some(v);
                    collecting = false;
                } else if let Some(v) = marked_ip(line, "Default Gateway", 15) {
                    status.gateway = Some(v);
                    collecting = false;
                } else if let Some(v) = marked_ip(line, "DNS Servers", 11) {
                    dns.push(v);
                    collecting = true;
                } else if collecting {
                    if let Some(v) = ip_cont(line) {
                        dns.push(v);
                    } else {
                        let n = line.unicode_len();
                        if n > 0 && line.get_char(0) != ' ' && trim_str(line).unicode_len() > 0 {
                            collecting = false;
                        }
                    }
                }
                if let Some(m) = mac_line(line) {
                    status.mac_address = Some(m);
                }
            }
        }
        proof {
            let pre = lseq.subrange(0, idx as int);
            let post = lseq.subrange(0, idx + 1);
            assert(post.drop_last() =~= pre);
            assert(post.last() == lseq[idx as int]);
            assert(spec_ip_fold(post, fview) == spec_ip_step(acc0, lseq[idx as int], fview));
            assert(dns@.map_values(|s: String| s@) =~= spec_ip_fold(post, fview).dns);
        }
        idx += 1;
    }
    proof {
        assert(lseq.subrange(0, lseq.len() as int) =~= lseq);
    }
    if dns.len() > 0 {
        status.dns_servers = Some(dns);
    }
    status
}

/// The merge of the two passes: wireless fields are kept as the first
/// pass left them, addressing fields fill only where still empty, and
/// an address found by the second pass forces the connected flag.
pub open spec fn spec_merge(wifi: NetworkStatusView, ip: NetworkStatusView) -> NetworkStatusView {
    let ip_address = if wifi.ip_address is None {
        ip.ip_address
    } else {
        wifi.ip_address
    };
    NetworkStatusView {
        ip_address,
        subnet_mask: if wifi.subnet_mask is None {
            ip.subnet_mask
        } else {
            wifi.subnet_mask
        },
        gateway: if wifi.gateway is None {
            ip.gateway
        } else {
            wifi.gateway
        },
        dns_servers: if wifi.dns_servers is None {
            ip.dns_servers
        } else {
            wifi.dns_servers
        },
        mac_address: if wifi.mac_address is None {
            ip.mac_address
        } else {
            wifi.mac_address
        },
        connected: wifi.connected || ip_address is Some,
        ..wifi
    }
}

/// Merges the records of the two passes.
pub fn merge_status(wifi: NetworkStatus, ip: NetworkStatus) -> (r: NetworkStatus)
    ensures
        r@ == spec_merge(wifi@, ip@),
{
    let mut merged = wifi;
    if merged.ip_address.is_none() {
        merged.ip_address = ip.ip_address;
    }
    if merged.subnet_mask.is_none() {
        merged.subnet_mask = ip.subnet_mask;
    }
    if merged.gateway.is_none() {
        merged.gateway = ip.gateway;
    }
    if merged.dns_servers.is_none() {
        merged.dns_servers = ip.dns_servers;
    }
    if merged.mac_address.is_none() {
        merged.mac_address = ip.mac_address;
    }
    if merged.ip_address.is_some() {
        merged.connected = true;
    }
    merged
}

/// An address found by the IP pass forces the merged record to count as
/// connected, whatever the interface pass reported.
pub proof fn lemma_ip_address_forces_connected(wifi: NetworkStatusView, ip: NetworkStatusView)
    ensures
        ip.ip_address is Some ==> spec_merge(wifi, ip).connected,
{
}

/// The whole aggregation, over whichever of the two captured texts are
/// available: the interface pass first, then the configuration pass
/// keyed by the interface that pass selected, then the merge.
pub open spec fn spec_status(
    wifi_text: Option<Seq<char>>,
    ip_text: Option<Seq<char>>,
    filter: Option<Seq<char>>,
) -> NetworkStatusView {
    let w = match wifi_text {
        Some(t) => spec_wifi_status(t, filter),
        None => spec_default_status(),
    };
    match ip_text {
        Some(t) => spec_merge(w, spec_ip_config(t, w.interface)),
        None => w,
    }
}

/// Aggregates the two captured texts into one status record.
pub fn execute(
    wifi_output: Option<&str>,
    ip_output: Option<&str>,
    interface: Option<&str>,
) -> (r: NetworkStatus)
    ensures
        r@ == spec_status(
            match wifi_output {
                Some(t) => Some(t@),
                None => None,
            },
            match ip_output {
                Some(t) => Some(t@),
                None => None,
            },
            match interface {
                Some(f) => Some(f@),
                None => None,
            },
        ),
{
    let wifi = match wifi_output {
        Some(t) => get_wifi_status(t, interface),
        None => NetworkStatus::default(),
    };
    match ip_output {
        Some(t) => {
            let iface2: Option<&str> = match &wifi.interface {
                Some(s) => Some(s.as_str()),
                None => None,
            };
            let ip = get_ip_config(t, iface2);
            merge_status(wifi, ip)
        },
        None => wifi,
    }
}

} // verus!
