//! Wireless network scan parsing: turns the BSSID-mode network listing
//! text and a saved-profile list into sorted `WifiNetwork` records, and
//! carries the decision logic of the scan and forget commands.

use vstd::prelude::*;
use vstd::string::*;

use crate::errors::ErrorCode;
use crate::errors::ExitCodes;
use crate::errors::NactlError;
use crate::metrics::spec_frequency;
use crate::metrics::spec_normalize_security;
use crate::metrics::spec_rssi;
use crate::metrics::channel_to_frequency;
use crate::metrics::normalize_security;
use crate::metrics::signal_to_rssi;
use crate::text::contains_seq;
use crate::text::contains_sub;
use crate::text::digits_end;
use crate::text::eq_str;
use crate::text::find_from;
use crate::text::opt_str_view;
use crate::text::spec_find;
use crate::text::spec_lines;
use crate::text::split_lines;
use crate::text::digits_end_exec;
use crate::text::is_hex_digit;
use crate::text::is_hex_char;
use crate::text::match_at;
use crate::text::matches_at;
use crate::text::push_char;
use crate::text::skip_ws;
use crate::text::skip_ws_exec;
use crate::text::spec_parse_u32;
use crate::text::spec_trim;
use crate::text::parse_u32_str;
use crate::text::trim_str;
use crate::validation::valid_ssid;
use crate::validation::validate_ssid;

verus! {

/// One observed access point: the network name, the radio address, and
/// the derived signal, band and security fields.
#[derive(Debug)]
pub struct WifiNetwork {
    pub ssid: String,
    pub bssid: String,
    pub signal_strength: i32,
    pub signal_rssi: i32,
    pub channel: u32,
    pub frequency: String,
    pub security: String,
    pub known: bool,
}

/// The mathematical shadow of a `WifiNetwork`.
pub ghost struct WifiNetworkView {
    pub ssid: Seq<char>,
    pub bssid: Seq<char>,
    pub signal_strength: int,
    pub signal_rssi: int,
    pub channel: u32,
    pub frequency: Seq<char>,
    pub security: Seq<char>,
    pub known: bool,
}

impl View for WifiNetwork {
    type V = WifiNetworkView;

    open spec fn view(&self) -> WifiNetworkView {
        WifiNetworkView {
            ssid: self.ssid@,
            bssid: self.bssid@,
            signal_strength: self.signal_strength as int,
            signal_rssi: self.signal_rssi as int,
            channel: self.channel,
            frequency: self.frequency@,
            security: self.security@,
            known: self.known,
        }
    }
}

/// Index of the first character at or after `pos` that is neither a
/// hexadecimal digit nor a colon.
pub open spec fn hexcolon_end(l: Seq<char>, pos: int) -> int
    decreases l.len() - pos when 0 <= pos
{
    if pos >= l.len() {
        pos
    } else if is_hex_digit(l[pos]) || l[pos] == ':' {
        hexcolon_end(l, pos + 1)
    } else {
        pos
    }
}


fn hexcolon_end_exec(s: &str, pos: usize) -> (r: usize)
    requires
        pos <= s@.len(),
    ensures
        r == hexcolon_end(s@, pos as int),
        pos <= r <= s@.len(),
{
    let n = s.unicode_len();
    let mut i: usize = pos;
    while i < n && (is_hex_char(s.get_char(i)) || s.get_char(i) == ':')
        invariant
            pos <= i <= n,
            n == s@.len(),
            hexcolon_end(s@, pos as int) == hexcolon_end(s@, i as int),
        decreases n - i,
    {
        i += 1;
    }
    i
}

/// An access-point address with its hexadecimal digits in upper case.
pub open spec fn upper_hex_char(c: char) -> char {
    if c == 'a' {
        'A'
    } else if c == 'b' {
        'B'
    } else if c == 'c' {
        'C'
    } else if c == 'd' {
        'D'
    } else if c == 'e' {
        'E'
    } else if c == 'f' {
        'F'
    } else {
        c
    }
}

pub open spec fn upper_hex(s: Seq<char>) -> Seq<char> {
    s.map_values(|c: char| upper_hex_char(c))
}

fn upper_hex_str(s: &str) -> (r: String)
    ensures
        r@ == upper_hex(s@),
{
    let n = s.unicode_len();
    let mut r = String::new();
    let mut i: usize = 0;
    while i < n
        invariant
            0 <= i <= n,
            n == s@.len(),
            r@ == upper_hex(s@.subrange(0, i as int)),
        decreases n - i,
    {
        let c = s.get_char(i);
        let u = match c {
            'a' => 'A',
            'b' => 'B',
            'c' => 'C',
            'd' => 'D',
            'e' => 'E',
            'f' => 'F',
            _ => c,
        };
        push_char(&mut r, u);
        proof {
            assert(r@ =~= upper_hex(s@.subrange(0, i + 1)));
        }
        i += 1;
    }
    proof {
        assert(s@.subrange(0, n as int) =~= s@);
    }
    r
}

/// The network name announced by an `SSID n : name` heading line, if the
/// line is one.
pub open spec fn spec_ssid_line(l: Seq<char>) -> Option<Seq<char>> {
    if !matches_at(l, 0, "SSID"@) {
        None
    } else {
        let w = skip_ws(l, 4);
        if w == 4 {
            None
        } else {
            let d = digits_end(l, w);
            if d == w {
                None
            } else {
                let b = skip_ws(l, d);
                if b < l.len() && l[b] == ':' {
                    Some(spec_trim(l.subrange(b + 1, l.len() as int)))
                } else {
                    None
                }
            }
        }
    }
}

/// The raw authentication value of an `Authentication : value` line, if
/// the line is one with a non-blank value.
pub open spec fn spec_security_line(l: Seq<char>) -> Option<Seq<char>> {
    let a = skip_ws(l, 0);
    if !matches_at(l, a, "Authentication"@) {
        None
    } else {
        let b = skip_ws(l, a + 14);
        if b < l.len() && l[b] == ':' {
            let v = spec_trim(l.subrange(b + 1, l.len() as int));
            if v.len() > 0 {
                Some(v)
            } else {
                None
            }
        } else {
            None
        }
    }
}

/// The upper-cased radio address of a `BSSID n : aa:bb:...` line, if the
/// line is one.
pub open spec fn spec_bssid_line(l: Seq<char>) -> Option<Seq<char>> {
    let a = skip_ws(l, 0);
    if !matches_at(l, a, "BSSID"@) {
        None
    } else {
        let w = skip_ws(l, a + 5);
        if w == a + 5 {
            None
        } else {
            let d = digits_end(l, w);
            if d == w {
                None
            } else {
                let b = skip_ws(l, d);
                if b < l.len() && l[b] == ':' {
                    let c = skip_ws(l, b + 1);
                    let e = hexcolon_end(l, c);
                    if e > c {
                        Some(upper_hex(l.subrange(c, e)))
                    } else {
                        None
                    }
                } else {
                    None
                }
            }
        }
    }
}

/// The percentage of a `Signal : nn%` line: present only when the line is
/// one and the number is a percentage (at most 100), the only values the
/// signal model covers.
pub open spec fn spec_signal_line(l: Seq<char>) -> Option<i32> {
    let a = skip_ws(l, 0);
    if !matches_at(l, a, "Signal"@) {
        None
    } else {
        let b = skip_ws(l, a + 6);
        if b < l.len() && l[b] == ':' {
            let c = skip_ws(l, b + 1);
            let d = digits_end(l, c);
            if d > c && d < l.len() && l[d] == '%' {
                match spec_parse_u32(l.subrange(c, d)) {
                    Some(v) => if v <= 100 {
                        Some(v as i32)
                    } else {
                        None
                    },
                    None => None,
                }
            } else {
                None
            }
        } else {
            None
        }
    }
}

/// The channel number of a `Channel : nn` line, if the line is one and
/// the number fits.
pub open spec fn spec_channel_line(l: Seq<char>) -> Option<u32> {
    let a = skip_ws(l, 0);
    if !matches_at(l, a, "Channel"@) {
        None
    } else {
        let b = skip_ws(l, a + 7);
        if b < l.len() && l[b] == ':' {
            let c = skip_ws(l, b + 1);
            let d = digits_end(l, c);
            if d > c {
                spec_parse_u32(l.subrange(c, d))
            } else {
                None
            }
        } else {
            None
        }
    }
}

fn ssid_line(l: &str) -> (r: Option<String>)
    ensures
        match r {
            Some(v) => spec_ssid_line(l@) == Some(v@),
            None => spec_ssid_line(l@) is None,
        },
{
    proof {
        reveal_strlit("SSID");
    }
    let n = l.unicode_len();
    if !match_at(l, 0, "SSID") {
        return None;
    }
    let w = skip_ws_exec(l, 4);
    if w == 4 {
        return None;
    }
    let d = digits_end_exec(l, w);
    if d == w {
        return None;
    }
    let b = skip_ws_exec(l, d);
    if b < n && l.get_char(b) == ':' {
        let rest = l.substring_char(b + 1, n);
        Some(String::from_str(trim_str(rest)))
    } else {
        None
    }
}

fn security_line(l: &str) -> (r: Option<String>)
    ensures
        match r {
            Some(v) => spec_security_line(l@) == Some(v@),
            None => spec_security_line(l@) is None,
        },
{
    proof {
        reveal_strlit("Authentication");
    }
    let n = l.unicode_len();
    let a = skip_ws_exec(l, 0);
    if !match_at(l, a, "Authentication") {
        return None;
    }
    proof {
        assert("Authentication"@.len() == 14);
        assert(a + 14 <= l@.len());
    }
    let b = skip_ws_exec(l, a + 14);
    if b < n && l.get_char(b) == ':' {
        let rest = l.substring_char(b + 1, n);
        let v = trim_str(rest);
        if v.unicode_len() > 0 {
            Some(String::from_str(v))
        } else {
            None
        }
    } else {
        None
    }
}

fn bssid_line(l: &str) -> (r: Option<String>)
    ensures
        match r {
            Some(v) => spec_bssid_line(l@) == Some(v@),
            None => spec_bssid_line(l@) is None,
        },
{
    proof {
        reveal_strlit("BSSID");
    }
    let n = l.unicode_len();
    let a = skip_ws_exec(l, 0);
    if !match_at(l, a, "BSSID") {
        return None;
    }
    proof {
        assert("BSSID"@.len() == 5);
        assert(a + 5 <= l@.len());
    }
    let w = skip_ws_exec(l, a + 5);
    if w == a + 5 {
        return None;
    }
    let d = digits_end_exec(l, w);
    if d == w {
        return None;
    }
    let b = skip_ws_exec(l, d);
    if b < n && l.get_char(b) == ':' {
        let c = skip_ws_exec(l, b + 1);
        let e = hexcolon_end_exec(l, c);
        if e > c {
            Some(upper_hex_str(l.substring_char(c, e)))
        } else {
            None
        }
    } else {
        None
    }
}

fn signal_line(l: &str) -> (r: Option<i32>)
    ensures
        r == spec_signal_line(l@),
{
    proof {
        reveal_strlit("Signal");
    }
    let n = l.unicode_len();
    let a = skip_ws_exec(l, 0);
    if !match_at(l, a, "Signal") {
        return None;
    }
    proof {
        assert("Signal"@.len() == 6);
        assert(a + 6 <= l@.len());
    }
    let b = skip_ws_exec(l, a + 6);
    if b < n && l.get_char(b) == ':' {
        let c = skip_ws_exec(l, b + 1);
        let d = digits_end_exec(l, c);
        if d > c && d < n && l.get_char(d) == '%' {
            match parse_u32_str(l.substring_char(c, d)) {
                Some(v) => if v <= 100 {
                    Some(v as i32)
                } else {
                    None
                },
                None => None,
            }
        } else {
            None
        }
    } else {
        None
    }
}

fn channel_line(l: &str) -> (r: Option<u32>)
    ensures
        r == spec_channel_line(l@),
{
    proof {
        reveal_strlit("Channel");
    }
    let n = l.unicode_len();
    let a = skip_ws_exec(l, 0);
    if !match_at(l, a, "Channel") {
        return None;
    }
    proof {
        assert("Channel"@.len() == 7);
        assert(a + 7 <= l@.len());
    }
    let b = skip_ws_exec(l, a + 7);
    if b < n && l.get_char(b) == ':' {
        let c = skip_ws_exec(l, b + 1);
        let d = digits_end_exec(l, c);
        if d > c {
            parse_u32_str(l.substring_char(c, d))
        } else {
            None
        }
    } else {
        None
    }
}

/// Parser state while walking the scan listing: the open SSID block and
/// the pending BSSID sub-record.
pub ghost struct ScanState {
    pub cur_ssid: Option<Seq<char>>,
    pub cur_security: Option<Seq<char>>,
    pub cur_bssid: Option<Seq<char>>,
    pub cur_signal: Option<i32>,
    pub cur_channel: Option<u32>,
    pub out: Seq<WifiNetworkView>,
}

pub open spec fn init_scan_state() -> ScanState {
    ScanState {
        cur_ssid: None,
        cur_security: None,
        cur_bssid: None,
        cur_signal: None,
        cur_channel: None,
        out: Seq::empty(),
    }
}

/// The saved-profile list holds exactly this name (case-sensitive).
pub open spec fn in_profiles(ps: Seq<Seq<char>>, s: Seq<char>) -> bool {
    exists|i: int| 0 <= i < ps.len() && ps[i] == s
}

/// The views of a list of owned profile names.
pub open spec fn profile_views(ps: Seq<String>) -> Seq<Seq<char>> {
    ps.map_values(|p: String| p@)
}

/// The record that a finished BSSID sub-record emits: missing signal and
/// channel degrade to zero, a missing security label to `Unknown`.
pub open spec fn pending_record(
    st: ScanState,
    ssid: Seq<char>,
    bssid: Seq<char>,
    known: Seq<Seq<char>>,
) -> WifiNetworkView {
    let signal = match st.cur_signal {
        Some(v) => v as int,
        None => 0,
    };
    let channel = match st.cur_channel {
        Some(v) => v,
        None => 0u32,
    };
    WifiNetworkView {
        ssid,
        bssid,
        signal_strength: signal,
        signal_rssi: spec_rssi(signal),
        channel,
        frequency: spec_frequency(channel),
        security: match st.cur_security {
            Some(s) => s,
            None => "Unknown"@,
        },
        known: in_profiles(known, ssid),
    }
}

/// Emits the pending record when both SSID and BSSID are set.
pub open spec fn flush_pending(st: ScanState, known: Seq<Seq<char>>) -> Seq<WifiNetworkView> {
    match (st.cur_ssid, st.cur_bssid) {
        (Some(ssid), Some(bssid)) => st.out.push(pending_record(st, ssid, bssid, known)),
        _ => st.out,
    }
}

/// One line of the scan listing applied to the parser state: an SSID
/// heading or a BSSID line first emits the pending record; value lines
/// update the open sub-record; anything else is skipped.
pub open spec fn scan_step(st: ScanState, l: Seq<char>, known: Seq<Seq<char>>) -> ScanState {
    match spec_ssid_line(l) {
        Some(name) => ScanState {
            cur_ssid: Some(name),
            cur_security: None,
            cur_bssid: None,
            cur_signal: None,
            cur_channel: None,
            out: flush_pending(st, known),
        },
        None => match spec_security_line(l) {
            Some(sec) => ScanState { cur_security: Some(spec_normalize_security(sec)), ..st },
            None => match spec_bssid_line(l) {
                Some(b) => ScanState {
                    cur_bssid: Some(b),
                    cur_signal: None,
                    cur_channel: None,
                    out: flush_pending(st, known),
                    ..st
                },
                None => match spec_signal_line(l) {
                    Some(v) => ScanState { cur_signal: Some(v), ..st },
                    None => match spec_channel_line(l) {
                        Some(v) => ScanState { cur_channel: Some(v), ..st },
                        None => st,
                    },
                },
            },
        },
    }
}

/// The parser state after a sequence of lines.
pub open spec fn spec_scan_lines(lines: Seq<Seq<char>>, known: Seq<Seq<char>>) -> ScanState
    decreases lines.len(),
{
    if lines.len() == 0 {
        init_scan_state()
    } else {
        scan_step(spec_scan_lines(lines.drop_last(), known), lines.last(), known)
    }
}

/// The records of a whole scan listing, in encounter order.
pub open spec fn spec_scan_records(text: Seq<char>, known: Seq<Seq<char>>) -> Seq<WifiNetworkView> {
    flush_pending(spec_scan_lines(spec_lines(text), known), known)
}

/// Inserts a record into a descending-sorted sequence after every record
/// with at least its signal strength, so ties keep encounter order.
pub open spec fn insert_desc(s: Seq<WifiNetworkView>, x: WifiNetworkView) -> Seq<WifiNetworkView>
    decreases s.len(),
{
    if s.len() > 0 && s[0].signal_strength >= x.signal_strength {
        seq![s[0]] + insert_desc(s.drop_first(), x)
    } else {
        seq![x] + s
    }
}

/// Stable sort by descending signal strength.
pub open spec fn sort_desc(s: Seq<WifiNetworkView>) -> Seq<WifiNetworkView>
    decreases s.len(),
{
    if s.len() == 0 {
        Seq::empty()
    } else {
        insert_desc(sort_desc(s.drop_last()), s.last())
    }
}

/// Non-increasing signal strength along the sequence.
pub open spec fn sorted_desc(s: Seq<WifiNetworkView>) -> bool {
    forall|i: int, j: int|
        0 <= i <= j < s.len() ==> s[i].signal_strength >= s[j].signal_strength
}

proof fn lemma_insert_desc_props(s: Seq<WifiNetworkView>, x: WifiNetworkView)
    ensures
        insert_desc(s, x).len() == s.len() + 1,
        forall|k: int|
            0 <= k < insert_desc(s, x).len() ==> (#[trigger] insert_desc(s, x)[k] == x
                || s.contains(insert_desc(s, x)[k])),
        sorted_desc(s) ==> sorted_desc(insert_desc(s, x)),
    decreases s.len(),
{
    if s.len() > 0 && s[0].signal_strength >= x.signal_strength {
        let s1 = s.drop_first();
        lemma_insert_desc_props(s1, x);
        let r1 = insert_desc(s1, x);
        let r = insert_desc(s, x);
        assert(r == seq![s[0]] + r1);
        assert forall|k: int| 0 <= k < r.len() implies (#[trigger] r[k] == x || s.contains(
            r[k],
        )) by {
            if k == 0 {
                assert(r[0] == s[0]);
                assert(s.contains(s[0]));
            } else {
                assert(r[k] == r1[k - 1]);
                if r1[k - 1] == x {
                } else {
                    let m = choose|m: int| 0 <= m < s1.len() && s1[m] == r1[k - 1];
                    assert(s[m + 1] == r1[k - 1]);
                    assert(s.contains(r[k]));
                }
            }
        }
        if sorted_desc(s) {
            assert(sorted_desc(s1)) by {
                assert forall|i: int, j: int| 0 <= i <= j < s1.len() implies s1[i].signal_strength
                    >= s1[j].signal_strength by {
                    assert(s1[i] == s[i + 1]);
                    assert(s1[j] == s[j + 1]);
                }
            }
            assert forall|i: int, j: int| 0 <= i <= j < r.len() implies r[i].signal_strength
                >= r[j].signal_strength by {
                if i == 0 && j > 0 {
                    assert(r[j] == r1[j - 1]);
                    if r1[j - 1] == x {
                    } else {
                        let m = choose|m: int| 0 <= m < s1.len() && s1[m] == r1[j - 1];
                        assert(s[0].signal_strength >= s[m + 1].signal_strength);
                        assert(s1[m] == s[m + 1]);
                    }
                } else if i > 0 {
                    assert(r[i] == r1[i - 1]);
                    assert(r[j] == r1[j - 1]);
                }
            }
        }
    } else {
        let r = insert_desc(s, x);
        assert(r == seq![x] + s);
        assert forall|k: int| 0 <= k < r.len() implies (#[trigger] r[k] == x || s.contains(
            r[k],
        )) by {
            if k > 0 {
                assert(r[k] == s[k - 1]);
                assert(s.contains(s[k - 1]));
            }
        }
    }
}

proof fn lemma_sort_desc_membership(s: Seq<WifiNetworkView>)
    ensures
        forall|k: int|
            0 <= k < sort_desc(s).len() ==> s.contains(#[trigger] sort_desc(s)[k]),
    decreases s.len(),
{
    if s.len() > 0 {
        let s1 = s.drop_last();
        lemma_sort_desc_membership(s1);
        lemma_insert_desc_props(sort_desc(s1), s.last());
        let r = insert_desc(sort_desc(s1), s.last());
        assert forall|k: int| 0 <= k < r.len() implies s.contains(#[trigger] r[k]) by {
            if r[k] == s.last() {
                assert(s[s.len() - 1] == s.last());
            } else {
                assert(sort_desc(s1).contains(r[k]));
                let m = choose|m: int| 0 <= m < sort_desc(s1).len() && sort_desc(s1)[m] == r[k];
                assert(s1.contains(r[k]));
                let j = choose|j: int| 0 <= j < s1.len() && s1[j] == r[k];
                assert(s[j] == r[k]);
            }
        }
    }
}

/// A record whose derived fields follow the data model: the RSSI
/// estimate and the frequency band are functions of its signal and
/// channel, and the signal is a percentage.
pub open spec fn wf_record(w: WifiNetworkView) -> bool {
    &&& 0 <= w.signal_strength <= 100
    &&& w.signal_rssi == spec_rssi(w.signal_strength)
    &&& w.frequency == spec_frequency(w.channel)
}

proof fn lemma_scan_fold_wf(lines: Seq<Seq<char>>, known: Seq<Seq<char>>)
    ensures
        ({
            let st = spec_scan_lines(lines, known);
            &&& (st.cur_signal matches Some(v) ==> 0 <= v <= 100)
            &&& forall|i: int| 0 <= i < st.out.len() ==> wf_record(#[trigger] st.out[i])
            &&& forall|i: int|
                0 <= i < flush_pending(st, known).len() ==> wf_record(
                    #[trigger] flush_pending(st, known)[i],
                )
        }),
    decreases lines.len(),
{
    if lines.len() > 0 {
        lemma_scan_fold_wf(lines.drop_last(), known);
    }
}

/// Every record of a parsed scan obeys the derived-field rules: its
/// RSSI estimate and frequency band follow from its signal percentage
/// and channel.
pub proof fn lemma_scan_records_wf(text: Seq<char>, known: Seq<Seq<char>>)
    ensures
        forall|i: int|
            0 <= i < sort_desc(spec_scan_records(text, known)).len() ==> wf_record(
                #[trigger] sort_desc(spec_scan_records(text, known))[i],
            ),
{
    let records = spec_scan_records(text, known);
    lemma_scan_fold_wf(spec_lines(text), known);
    lemma_sort_desc_membership(records);
    assert forall|i: int| 0 <= i < sort_desc(records).len() implies wf_record(
        #[trigger] sort_desc(records)[i],
    ) by {
        assert(records.contains(sort_desc(records)[i]));
        let j = choose|j: int| 0 <= j < records.len() && records[j] == sort_desc(records)[i];
        assert(wf_record(records[j]));
    }
}

/// The stable sort really sorts: its result is ordered by non-increasing
/// signal strength and is exactly as long as its input.
pub proof fn lemma_sort_desc_sorted(s: Seq<WifiNetworkView>)
    ensures
        sort_desc(s).len() == s.len(),
        sorted_desc(sort_desc(s)),
    decreases s.len(),
{
    if s.len() > 0 {
        lemma_sort_desc_sorted(s.drop_last());
        lemma_insert_desc_props(sort_desc(s.drop_last()), s.last());
    }
}

proof fn lemma_insert_desc_at(s: Seq<WifiNetworkView>, x: WifiNetworkView, p: int)
    requires
        0 <= p <= s.len(),
        forall|j: int| 0 <= j < p ==> s[j].signal_strength >= x.signal_strength,
        p < s.len() ==> s[p].signal_strength < x.signal_strength,
    ensures
        insert_desc(s, x) =~= s.subrange(0, p) + seq![x] + s.subrange(p, s.len() as int),
    decreases p,
{
    if p == 0 {
        assert(insert_desc(s, x) == seq![x] + s);
        assert(s.subrange(0, s.len() as int) =~= s);
    } else {
        let s1 = s.drop_first();
        assert forall|j: int| 0 <= j < p - 1 implies s1[j].signal_strength
            >= x.signal_strength by {
            assert(s1[j] == s[j + 1]);
        }
        assert(p - 1 < s1.len() ==> s1[p - 1].signal_strength < x.signal_strength);
        lemma_insert_desc_at(s1, x, p - 1);
        assert(s[0].signal_strength >= x.signal_strength);
        assert(insert_desc(s, x) == seq![s[0]] + insert_desc(s1, x));
    }
}

/// The views of a list of records.
pub open spec fn net_views(v: Seq<WifiNetwork>) -> Seq<WifiNetworkView> {
    v.map_values(|w: WifiNetwork| w@)
}

fn profiles_contain(profiles: &Vec<String>, s: &String) -> (r: bool)
    ensures
        r == in_profiles(profile_views(profiles@), s@),
{
    let mut i: usize = 0;
    while i < profiles.len()
        invariant
            0 <= i <= profiles@.len(),
            forall|j: int| 0 <= j < i ==> profiles@[j]@ != s@,
        decreases profiles@.len() - i,
    {
        if eq_str(profiles[i].as_str(), s.as_str()) {
            proof {
                assert(profile_views(profiles@)[i as int] == s@);
            }
            return true;
        }
        i += 1;
    }
    proof {
        assert forall|j: int| 0 <= j < profile_views(profiles@).len() implies profile_views(
            profiles@,
        )[j] != s@ by {
            assert(profile_views(profiles@)[j] == profiles@[j]@);
        }
    }
    false
}

fn flush_into(
    networks: &mut Vec<WifiNetwork>,
    cur_ssid: &Option<String>,
    cur_bssid: &Option<String>,
    cur_signal: &Option<i32>,
    cur_channel: &Option<u32>,
    cur_security: &Option<String>,
    profiles: &Vec<String>,
)
    requires
        *cur_signal matches Some(v) ==> 0 <= v <= 100,
    ensures
        net_views(final(networks)@) == flush_pending(
            ScanState {
                cur_ssid: opt_str_view(*cur_ssid),
                cur_security: opt_str_view(*cur_security),
                cur_bssid: opt_str_view(*cur_bssid),
                cur_signal: *cur_signal,
                cur_channel: *cur_channel,
                out: net_views(old(networks)@),
            },
            profile_views(profiles@),
        ),
{
    match (cur_ssid, cur_bssid) {
        (Some(ssid), Some(bssid)) => {
            let signal: i32 = match cur_signal {
                Some(v) => *v,
                None => 0,
            };
            let channel: u32 = match cur_channel {
                Some(v) => *v,
                None => 0,
            };
            let security: String = match cur_security {
                Some(s) => s.clone(),
                None => String::from_str("Unknown"),
            };
            let known = profiles_contain(profiles, ssid);
            let w = WifiNetwork {
                ssid: ssid.clone(),
                bssid: bssid.clone(),
                signal_strength: signal,
                signal_rssi: signal_to_rssi(signal),
                channel,
                frequency: channel_to_frequency(channel),
                security,
                known,
            };
            networks.push(w);
            proof {
                assert(net_views(networks@) =~= flush_pending(
                    ScanState {
                        cur_ssid: opt_str_view(*cur_ssid),
                        cur_security: opt_str_view(*cur_security),
                        cur_bssid: opt_str_view(*cur_bssid),
                        cur_signal: *cur_signal,
                        cur_channel: *cur_channel,
                        out: net_views(old(networks)@),
                    },
                    profile_views(profiles@),
                ));
            }
        },
        _ => {
            proof {
                assert(net_views(networks@) =~= net_views(old(networks)@));
            }
        },
    }
}


fn sort_networks(v: Vec<WifiNetwork>) -> (r: Vec<WifiNetwork>)
    ensures
        net_views(r@) == sort_desc(net_views(v@)),
{
    let ghost orig = net_views(v@);
    let mut v = v;
    let total = v.len();
    let mut out: Vec<WifiNetwork> = Vec::new();
    let mut k: usize = 0;
    while v.len() > 0
        invariant
            0 <= k,
            k + v@.len() == total,
            total == orig.len(),
            net_views(v@) =~= orig.subrange(k as int, orig.len() as int),
            net_views(out@) == sort_desc(orig.subrange(0, k as int)),
        decreases v@.len(),
    {
        let ghost vpre = v@;
        let x = v.remove(0);
        proof {
            assert(net_views(vpre)[0] == vpre[0]@);
            assert(x@ == orig[k as int]);
            assert(net_views(v@) =~= orig.subrange(k + 1, orig.len() as int)) by {
                assert forall|j: int| 0 <= j < v@.len() implies net_views(v@)[j] == orig.subrange(
                    k + 1,
                    orig.len() as int,
                )[j] by {
                    assert(v@[j] == vpre[j + 1]);
                    assert(net_views(vpre)[j + 1] == vpre[j + 1]@);
                    assert(net_views(vpre)[j + 1] == orig.subrange(
                        k as int,
                        orig.len() as int,
                    )[j + 1]);
                }
            }
        }
        let mut p: usize = 0;
        while p < out.len() && out[p].signal_strength >= x.signal_strength
            invariant
                0 <= p <= out@.len(),
                forall|j: int|
                    0 <= j < p ==> net_views(out@)[j].signal_strength >= x@.signal_strength,
            decreases out@.len() - p,
        {
            proof {
                assert(net_views(out@)[p as int] == out@[p as int]@);
            }
            p += 1;
        }
        let ghost sorted_prefix = net_views(out@);
        proof {
            if p < out.len() {
                assert(net_views(out@)[p as int] == out@[p as int]@);
            }
            lemma_insert_desc_at(sorted_prefix, x@, p as int);
        }
        out.insert(p, x);
        proof {
            assert(net_views(out@) =~= sorted_prefix.subrange(0, p as int) + seq![x@]
                + sorted_prefix.subrange(p as int, sorted_prefix.len() as int));
            let pre = orig.subrange(0, k as int);
            let post = orig.subrange(0, k + 1);
            assert(post.drop_last() =~= pre);
            assert(post.last() == orig[k as int]);
        }
        k += 1;
    }
    proof {
        assert(orig.subrange(0, k as int) =~= orig);
    }
    out
}

/// Parses the BSSID-mode scan listing against a saved-profile list.
///
/// The result holds one record per finished BSSID sub-record, in the
/// listing's encounter order, then stably sorted by descending signal
/// strength.
pub fn parse_wifi_networks(output: &str, known_networks: &Vec<String>) -> (r: Vec<WifiNetwork>)
    ensures
        net_views(r@) == sort_desc(
            spec_scan_records(output@, profile_views(known_networks@)),
        ),
{
    let ghost lseq = spec_lines(output@);
    let ghost known = profile_views(known_networks@);
    let lines = split_lines(output);
    let mut networks: Vec<WifiNetwork> = Vec::new();
    let mut cur_ssid: Option<String> = None;
    let mut cur_security: Option<String> = None;
    let mut cur_bssid: Option<String> = None;
    let mut cur_signal: Option<i32> = None;
    let mut cur_channel: Option<u32> = None;
    let mut idx: usize = 0;
    while idx < lines.len()
        invariant
            0 <= idx <= lines@.len(),
            lines@.len() == lseq.len(),
            forall|i: int| 0 <= i < lseq.len() ==> lines@[i]@ == lseq[i],
            known == profile_views(known_networks@),
            cur_signal matches Some(v) ==> 0 <= v <= 100,
            ({
                let st = spec_scan_lines(lseq.subrange(0, idx as int), known);
                &&& opt_str_view(cur_ssid) == st.cur_ssid
                &&& opt_str_view(cur_security) == st.cur_security
                &&& opt_str_view(cur_bssid) == st.cur_bssid
                &&& cur_signal == st.cur_signal
                &&& cur_channel == st.cur_channel
                &&& net_views(networks@) == st.out
            }),
        decreases lines@.len() - idx,
    {
        let ghost st0 = spec_scan_lines(lseq.subrange(0, idx as int), known);
        let line = lines[idx];
        proof {
            assert(line@ == lseq[idx as int]);
        }
        if let Some(name) = ssid_line(line) {
            flush_into(
                &mut networks,
                &cur_ssid,
                &cur_bssid,
                &cur_signal,
                &cur_channel,
                &cur_security,
                known_networks,
            );
            cur_ssid = Some(name);
            cur_bssid = None;
            cur_signal = None;
            cur_channel = None;
            cur_security = None;
        } else if let Some(sec) = security_line(line) {
            cur_security = Some(normalize_security(sec.as_str()));
        } else if let Some(b) = bssid_line(line) {
            flush_into(
                &mut networks,
                &cur_ssid,
                &cur_bssid,
                &cur_signal,
                &cur_channel,
                &cur_security,
                known_networks,
            );
            cur_bssid = Some(b);
            cur_signal = None;
            cur_channel = None;
        } else if let Some(v) = signal_line(line) {
            cur_signal = Some(v);
        } else if let Some(v) = channel_line(line) {
            cur_channel = Some(v);
        }
        proof {
            let pre = lseq.subrange(0, idx as int);
            let post = lseq.subrange(0, idx + 1);
            assert(post.drop_last() =~= pre);
            assert(post.last() == lseq[idx as int]);
            assert(spec_scan_lines(post, known) == scan_step(st0, lseq[idx as int], known));
        }
        idx += 1;
    }
    proof {
        assert(lseq.subrange(0, lseq.len() as int) =~= lseq);
    }
    flush_into(
        &mut networks,
        &cur_ssid,
        &cur_bssid,
        &cur_signal,
        &cur_channel,
        &cur_security,
        known_networks,
    );
    sort_networks(networks)
}

/// The profile name of an `All User Profile : name` line, if the line is
/// one with a non-empty remainder.
pub open spec fn spec_profile_line(l: Seq<char>) -> Option<Seq<char>> {
    match spec_find(l, "All User Profile"@, 0) {
        Some(i) => {
            let b = skip_ws(l, i + 16);
            if b < l.len() && l[b] == ':' && b + 1 < l.len() {
                Some(spec_trim(l.subrange(b + 1, l.len() as int)))
            } else {
                None
            }
        },
        None => None,
    }
}

/// The saved-profile names of a whole profile listing, in listing order.
pub open spec fn spec_known_list(lines: Seq<Seq<char>>) -> Seq<Seq<char>>
    decreases lines.len(),
{
    if lines.len() == 0 {
        Seq::empty()
    } else {
        let rest = spec_known_list(lines.drop_last());
        match spec_profile_line(lines.last()) {
            Some(v) => rest.push(v),
            None => rest,
        }
    }
}

pub open spec fn spec_known_networks(text: Seq<char>) -> Seq<Seq<char>> {
    spec_known_list(spec_lines(text))
}

fn profile_line(l: &str) -> (r: Option<String>)
    ensures
        match r {
            Some(v) => spec_profile_line(l@) == Some(v@),
            None => spec_profile_line(l@) is None,
        },
{
    proof {
        reveal_strlit("All User Profile");
    }
    let n = l.unicode_len();
    match find_from(l, "All User Profile", 0) {
        Some(i) => {
            let b = skip_ws_exec(l, i + 16);
            if b < n && l.get_char(b) == ':' && b + 1 < n {
                Some(String::from_str(trim_str(l.substring_char(b + 1, n))))
            } else {
                None
            }
        },
        None => None,
    }
}

/// Reads the saved-profile names out of the profile listing text.
pub fn get_known_networks(output: &str) -> (r: Vec<String>)
    ensures
        profile_views(r@) == spec_known_networks(output@),
{
    let ghost lseq = spec_lines(output@);
    let lines = split_lines(output);
    let mut known: Vec<String> = Vec::new();
    let mut idx: usize = 0;
    while idx < lines.len()
        invariant
            0 <= idx <= lines@.len(),
            lines@.len() == lseq.len(),
            forall|i: int| 0 <= i < lseq.len() ==> lines@[i]@ == lseq[i],
            profile_views(known@) == spec_known_list(lseq.subrange(0, idx as int)),
        decreases lines@.len() - idx,
    {
        let line = lines[idx];
        proof {
            assert(line@ == lseq[idx as int]);
        }
        if let Some(v) = profile_line(line) {
            known.push(v);
        }
        proof {
            let pre = lseq.subrange(0, idx as int);
            let post = lseq.subrange(0, idx + 1);
            assert(post.drop_last() =~= pre);
            assert(post.last() == lseq[idx as int]);
            assert(profile_views(known@) =~= spec_known_list(post));
        }
        idx += 1;
    }
    proof {
        assert(lseq.subrange(0, lseq.len() as int) =~= lseq);
    }
    known
}

/// A `State : connected...` line of the interface listing.
pub open spec fn spec_state_connected_line(l: Seq<char>) -> bool {
    let a = skip_ws(l, 0);
    matches_at(l, a, "State"@) && {
        let b = skip_ws(l, a + 5);
        b < l.len() && l[b] == ':' && matches_at(l, skip_ws(l, b + 1), "connected"@)
    }
}

/// The value of an `SSID : name` line of the interface listing, if the
/// line is one with a non-empty remainder.
pub open spec fn spec_iface_ssid_line(l: Seq<char>) -> Option<Seq<char>> {
    let a = skip_ws(l, 0);
    if matches_at(l, a, "SSID"@) {
        let b = skip_ws(l, a + 4);
        if b < l.len() && l[b] == ':' && b + 1 < l.len() {
            Some(spec_trim(l.subrange(b + 1, l.len() as int)))
        } else {
            None
        }
    } else {
        None
    }
}

/// Walks the interface listing: once a connected state line has been
/// seen, the first SSID line decides whether its value is this SSID.
pub open spec fn spec_connected_to(lines: Seq<Seq<char>>, ssid: Seq<char>, found: bool) -> bool
    decreases lines.len(),
{
    if lines.len() == 0 {
        false
    } else {
        let l = lines[0];
        let found2 = found || spec_state_connected_line(l);
        if found2 && spec_iface_ssid_line(l) is Some {
            spec_iface_ssid_line(l) == Some(ssid)
        } else {
            spec_connected_to(lines.drop_first(), ssid, found2)
        }
    }
}

fn state_connected_line(l: &str) -> (r: bool)
    ensures
        r == spec_state_connected_line(l@),
{
    proof {
        reveal_strlit("State");
    }
    let n = l.unicode_len();
    let a = skip_ws_exec(l, 0);
    if !match_at(l, a, "State") {
        return false;
    }
    proof {
        assert("State"@.len() == 5);
    }
    let b = skip_ws_exec(l, a + 5);
    b < n && l.get_char(b) == ':' && match_at(l, skip_ws_exec(l, b + 1), "connected")
}

fn iface_ssid_line(l: &str) -> (r: Option<String>)
    ensures
        match r {
            Some(v) => spec_iface_ssid_line(l@) == Some(v@),
            None => spec_iface_ssid_line(l@) is None,
        },
{
    proof {
        reveal_strlit("SSID");
    }
    let n = l.unicode_len();
    let a = skip_ws_exec(l, 0);
    if !match_at(l, a, "SSID") {
        return None;
    }
    proof {
        assert("SSID"@.len() == 4);
    }
    let b = skip_ws_exec(l, a + 4);
    if b < n && l.get_char(b) == ':' && b + 1 < n {
        Some(String::from_str(trim_str(l.substring_char(b + 1, n))))
    } else {
        None
    }
}

/// Decides from the interface listing whether the machine is currently
/// connected to the given SSID.
pub fn is_connected_to(output: &str, ssid: &str) -> (r: bool)
    ensures
        r == spec_connected_to(spec_lines(output@), ssid@, false),
{
    let ghost lseq = spec_lines(output@);
    let lines = split_lines(output);
    proof {
        assert(lseq.subrange(0, lseq.len() as int) =~= lseq);
    }
    let mut found = false;
    let mut idx: usize = 0;
    while idx < lines.len()
        invariant
            0 <= idx <= lines@.len(),
            lines@.len() == lseq.len(),
            forall|i: int| 0 <= i < lseq.len() ==> lines@[i]@ == lseq[i],
            lseq == spec_lines(output@),
            spec_connected_to(lseq, ssid@, false) == spec_connected_to(
                lseq.subrange(idx as int, lseq.len() as int),
                ssid@,
                found,
            ),
        decreases lines@.len() - idx,
    {
        let line = lines[idx];
        let ghost found0 = found;
        let ghost cur = lseq.subrange(idx as int, lseq.len() as int);
        proof {
            assert(line@ == lseq[idx as int]);
            assert(cur[0] == lseq[idx as int]);
        }
        if state_connected_line(line) {
            found = true;
        }
        if found {
            if let Some(v) = iface_ssid_line(line) {
                proof {
                    assert(spec_connected_to(cur, ssid@, found0) == (spec_iface_ssid_line(line@)
                        == Some(ssid@)));
                }
                return eq_str(v.as_str(), ssid);
            }
        }
        proof {
            assert(cur.drop_first() =~= lseq.subrange(idx + 1, lseq.len() as int));
            assert(spec_connected_to(cur, ssid@, found0) == spec_connected_to(
                lseq.subrange(idx + 1, lseq.len() as int),
                ssid@,
                found,
            ));
        }
        idx += 1;
    }
    proof {
        assert(lseq.subrange(lseq.len() as int, lseq.len() as int).len() == 0);
    }
    false
}

/// Scans: parses the saved-profile listing, then the network listing.
pub fn scan(output: &str, profiles_output: &str) -> (r: Vec<WifiNetwork>)
    ensures
        net_views(r@) == sort_desc(
            spec_scan_records(output@, spec_known_networks(profiles_output@)),
        ),
{
    let known = get_known_networks(profiles_output);
    parse_wifi_networks(output, &known)
}

/// What the forget command reports back.
#[derive(Debug)]
pub struct ForgetData {
    pub ssid: String,
    pub was_connected: bool,
    pub keychain_cleared: bool,
}

#[derive(Debug)]
pub struct ForgetResponse {
    pub success: bool,
    pub message: String,
    pub data: ForgetData,
}

/// The checks that precede a profile deletion: the SSID must be safe for
/// a command line, and the caller must hold administrator rights.
pub fn forget(ssid: &str, elevated: bool) -> (r: Result<(), NactlError>)
    ensures
        r is Ok <==> (valid_ssid(ssid) && elevated),
        r matches Err(e) ==> (if !valid_ssid(ssid) {
            e.exit_code == ExitCodes::InvalidArguments && e.response.code
                == ErrorCode::InvalidInput
        } else {
            e.exit_code == ExitCodes::PermissionDenied && e.response.code
                == ErrorCode::PermissionDenied && e.response.message@
                == "Forgetting Wi-Fi networks requires administrator privileges"@
        }),
{
    match validate_ssid(ssid) {
        Err(e) => return Err(e),
        Ok(()) => {},
    }
    if !elevated {
        return Err(
            NactlError::permission_denied(
                "Forgetting Wi-Fi networks requires administrator privileges",
            ),
        );
    }
    Ok(())
}

/// Classifies the deletion command's output: deletion wording means
/// success; a profile-not-found wording without it is the error; any
/// other output is reported as an unsuccessful response.
pub fn forget_outcome(ssid: &str, output: &str, was_connected: bool) -> (r: Result<
    ForgetResponse,
    NactlError,
>)
    ensures
        ({
            let success = contains_seq(output@, "deleted"@) || contains_seq(
                output@,
                "successfully"@,
            );
            &&& (r is Err <==> (!success && contains_seq(output@, "is not found"@)))
            &&& (r matches Ok(resp) ==> {
                &&& resp.success == success
                &&& resp.message@ == "Network '"@ + ssid@ + "' forgotten"@
                &&& resp.data.ssid@ == ssid@
                &&& resp.data.was_connected == was_connected
                &&& resp.data.keychain_cleared
            })
            &&& (r matches Err(e) ==> {
                &&& e.exit_code == ExitCodes::GeneralError
                &&& e.response.code == ErrorCode::GeneralError
                &&& e.response.message@ == "Network '"@ + ssid@
                    + "' not found in saved profiles"@
            })
        }),
{
    let success = contains_sub(output, "deleted") || contains_sub(output, "successfully");
    if !success && contains_sub(output, "is not found") {
        let msg = String::from_str("Network '").concat(ssid).concat(
            "' not found in saved profiles",
        );
        return Err(NactlError::general_error(msg.as_str()));
    }
    let msg = String::from_str("Network '").concat(ssid).concat("' forgotten");
    Ok(
        ForgetResponse {
            success,
            message: msg,
            data: ForgetData {
                ssid: String::from_str(ssid),
                was_connected,
                keychain_cleared: true,
            },
        },
    )
}

/// Maps a failed deletion command onto the reported error: not-found
/// wording in the underlying message becomes the profile-not-found
/// error, anything else passes through.
pub fn forget_failure(ssid: &str, error: NactlError) -> (r: NactlError)
    ensures
        ({
            if contains_seq(error.response.message@, "is not found"@) || contains_seq(
                error.response.message@,
                "not found"@,
            ) {
                &&& r.exit_code == ExitCodes::GeneralError
                &&& r.response.code == ErrorCode::GeneralError
                &&& r.response.message@ == "Network '"@ + ssid@
                    + "' not found in saved profiles"@
            } else {
                r == error
            }
        }),
{
    if contains_sub(error.response.message.as_str(), "is not found") || contains_sub(
        error.response.message.as_str(),
        "not found",
    ) {
        let msg = String::from_str("Network '").concat(ssid).concat(
            "' not found in saved profiles",
        );
        NactlError::general_error(msg.as_str())
    } else {
        error
    }
}

} // verus!
