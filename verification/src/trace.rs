//! Traceroute output parsing: matches the fixed three-probe hop lines,
//! keeps only numeric probe times, resolves the per-hop address or
//! hostname, and decides whether the destination was reached.

use vstd::prelude::*;
use vstd::string::*;

use crate::ping::ipv4_end;
use crate::ping::nonspace_end;
use crate::text::contains_seq;
use crate::text::contains_sub;
use crate::text::digits_end;
use crate::text::digits_end_exec;
use crate::text::eq_str;
use crate::text::find_from;
use crate::text::match_at;
use crate::text::matches_at;
use crate::text::skip_ws;
use crate::text::skip_ws_exec;
use crate::text::spec_find;
use crate::text::spec_lines;
use crate::text::spec_parse_u32;
use crate::text::spec_trim;
use crate::text::parse_u32_str;
use crate::text::split_lines;
use crate::text::substr_string;
use crate::text::trim_str;

verus! {

/// One hop: the index as printed, the resolved address (`*` for a
/// timed-out hop), an optional hostname, and the numeric probe times
/// that the line carried, in order.
#[derive(Debug)]
pub struct HopResult {
    pub hop: u32,
    pub ip: String,
    pub hostname: Option<String>,
    pub time_ms: Option<Vec<u32>>,
}

/// The mathematical shadow of a `HopResult`.
pub ghost struct HopView {
    pub hop: u32,
    pub ip: Seq<char>,
    pub hostname: Option<Seq<char>>,
    pub times: Option<Seq<u32>>,
}

impl View for HopResult {
    type V = HopView;

    open spec fn view(&self) -> HopView {
        HopView {
            hop: self.hop,
            ip: self.ip@,
            hostname: match self.hostname {
                Some(ref h) => Some(h@),
                None => None,
            },
            times: match self.time_ms {
                Some(ref t) => Some(t@),
                None => None,
            },
        }
    }
}

/// The parsed trace: ordered hops, whether the destination was reached,
/// and the highest hop index seen.
#[derive(Debug)]
pub struct TraceData {
    pub host: String,
    pub hops: Vec<HopResult>,
    pub destination_reached: bool,
    pub total_hops: u32,
}

/// The mathematical shadow of a `TraceData`.
pub ghost struct TraceDataView {
    pub host: Seq<char>,
    pub hops: Seq<HopView>,
    pub destination_reached: bool,
    pub total_hops: u32,
}

impl View for TraceData {
    type V = TraceDataView;

    open spec fn view(&self) -> TraceDataView {
        TraceDataView {
            host: self.host@,
            hops: self.hops@.map_values(|h: HopResult| h@),
            destination_reached: self.destination_reached,
            total_hops: self.total_hops,
        }
    }
}

/// One probe field after a mandatory whitespace gap: a `*`, or digits
/// (optionally prefixed `<`) followed by `ms`.  Yields the numeric value
/// when it fits and the position after the field.
pub open spec fn probe_at(l: Seq<char>, pos: int) -> Option<(Option<u32>, int)>
    recommends
        0 <= pos <= l.len(),
{
    let w = skip_ws(l, pos);
    if w == pos || w >= l.len() {
        None
    } else if l[w] == '*' {
        Some((None, w + 1))
    } else {
        let q = if l[w] == '<' {
            w + 1
        } else {
            w
        };
        let d = digits_end(l, q);
        if d == q {
            None
        } else {
            let e = skip_ws(l, d);
            if matches_at(l, e, "ms"@) {
                Some((spec_parse_u32(l.subrange(q, d)), e + 2))
            } else {
                None
            }
        }
    }
}

fn probe_at_exec(l: &str, pos: usize) -> (r: Option<(Option<u32>, usize)>)
    requires
        pos <= l@.len(),
    ensures
        match r {
            Some(v) => probe_at(l@, pos as int) == Some((v.0, v.1 as int)) && v.1 <= l@.len(),
            None => probe_at(l@, pos as int) is None,
        },
{
    proof {
        reveal_strlit("ms");
    }
    let n = l.unicode_len();
    let w = skip_ws_exec(l, pos);
    if w == pos || w >= n {
        return None;
    }
    if l.get_char(w) == '*' {
        return Some((None, w + 1));
    }
    let q = if l.get_char(w) == '<' {
        w + 1
    } else {
        w
    };
    let d = digits_end_exec(l, q);
    if d == q {
        return None;
    }
    let e = skip_ws_exec(l, d);
    if match_at(l, e, "ms") {
        proof {
            assert("ms"@.len() == 2);
        }
        Some((parse_u32_str(l.substring_char(q, d)), e + 2))
    } else {
        None
    }
}

/// A hostname-and-address pair `token [a.b.c.d]` at position `i` of the
/// trimmed remainder.
pub open spec fn host_ip_at(r: Seq<char>, i: int) -> Option<(Seq<char>, Seq<char>)>
    recommends
        0 <= i,
{
    let t = nonspace_end(r, i);
    if t == i {
        None
    } else {
        let w = skip_ws(r, t);
        if w == t || w >= r.len() || r[w] != '[' {
            None
        } else {
            match ipv4_end(r, w + 1) {
                Some(e) => {
                    if e < r.len() && r[e] == ']' {
                        Some((r.subrange(i, t), r.subrange(w + 1, e)))
                    } else {
                        None
                    }
                },
                None => None,
            }
        }
    }
}

/// The first hostname-and-address pair in `r`, scanning left to right.
pub open spec fn find_host_ip(r: Seq<char>, i: int) -> Option<(Seq<char>, Seq<char>)>
    decreases r.len() - i when 0 <= i
{
    if i >= r.len() {
        None
    } else {
        match host_ip_at(r, i) {
            Some(v) => Some(v),
            None => find_host_ip(r, i + 1),
        }
    }
}

/// The first IPv4 address in `r`, scanning left to right.
pub open spec fn find_ipv4(r: Seq<char>, i: int) -> Option<Seq<char>>
    decreases r.len() - i when 0 <= i
{
    if i >= r.len() {
        None
    } else {
        match ipv4_end(r, i) {
            Some(e) => Some(r.subrange(i, e)),
            None => find_ipv4(r, i + 1),
        }
    }
}

/// The address of a hop's trailing field (already trimmed): a timeout
/// marker maps to `*`; a `host [addr]` pair to both parts; a bare
/// address to itself; anything else passes through verbatim.
pub open spec fn spec_hop_addr(r: Seq<char>) -> (Seq<char>, Option<Seq<char>>) {
    if contains_seq(r, "Request timed out"@) || r == "*"@ {
        ("*"@, None)
    } else {
        match find_host_ip(r, 0) {
            Some((h, ip)) => (ip, Some(h)),
            None => match find_ipv4(r, 0) {
                Some(ip) => (ip, None),
                None => (r, None),
            },
        }
    }
}

/// A hop line: an index, three probe fields, and a trailing address
/// field, each separated by whitespace.  Yields the index (zero when it
/// does not fit), the numeric probe times in order, and the trimmed
/// trailing field.
pub open spec fn spec_hop_line(l: Seq<char>) -> Option<(u32, Seq<u32>, Seq<char>)> {
    let a = skip_ws(l, 0);
    let d = digits_end(l, a);
    if d == a {
        None
    } else {
        let hop: u32 = match spec_parse_u32(l.subrange(a, d)) {
            Some(v) => v,
            None => 0,
        };
        match probe_at(l, d) {
            Some((t1, e1)) => match probe_at(l, e1) {
                Some((t2, e2)) => match probe_at(l, e2) {
                    Some((t3, e3)) => {
                        let w = skip_ws(l, e3);
                        if w == e3 || w >= l.len() {
                            None
                        } else {
                            Some((hop, probe_times(t1, t2, t3), spec_trim(l.subrange(w, l.len() as int))))
                        }
                    },
                    None => None,
                },
                None => None,
            },
            None => None,
        }
    }
}

/// The numeric probe times that were present, in probe order.
pub open spec fn probe_times(t1: Option<u32>, t2: Option<u32>, t3: Option<u32>) -> Seq<u32> {
    opt_time(t1) + opt_time(t2) + opt_time(t3)
}

pub open spec fn opt_time(t: Option<u32>) -> Seq<u32> {
    match t {
        Some(v) => seq![v],
        None => Seq::empty(),
    }
}

/// The destination address of a `Tracing route to ...` header line: the
/// first IPv4 address after the marker.
pub open spec fn spec_dest_line(l: Seq<char>) -> Option<Seq<char>> {
    match spec_find(l, "Tracing route to"@, 0) {
        Some(i) => find_ipv4(l, i + 16),
        None => None,
    }
}

/// The destination address, from the first header line that carries one.
pub open spec fn first_dest(lines: Seq<Seq<char>>) -> Option<Seq<char>>
    decreases lines.len(),
{
    if lines.len() == 0 {
        None
    } else {
        match spec_dest_line(lines[0]) {
            Some(v) => Some(v),
            None => first_dest(lines.drop_first()),
        }
    }
}

fn host_ip_at_exec(r: &str, i: usize) -> (res: Option<(String, String)>)
    requires
        i <= r@.len(),
    ensures
        match res {
            Some(v) => host_ip_at(r@, i as int) == Some((v.0@, v.1@)),
            None => host_ip_at(r@, i as int) is None,
        },
{
    let n = r.unicode_len();
    let t = crate::ping::nonspace_end_exec_pub(r, i);
    if t == i {
        return None;
    }
    let w = skip_ws_exec(r, t);
    if w == t || w >= n || r.get_char(w) != '[' {
        return None;
    }
    match crate::ping::ipv4_end_exec_pub(r, w + 1) {
        Some(e) => {
            if e < n && r.get_char(e) == ']' {
                Some((substr_string(r, i, t), substr_string(r, w + 1, e)))
            } else {
                None
            }
        },
        None => None,
    }
}

fn find_host_ip_exec(r: &str) -> (res: Option<(String, String)>)
    ensures
        match res {
            Some(v) => find_host_ip(r@, 0) == Some((v.0@, v.1@)),
            None => find_host_ip(r@, 0) is None,
        },
{
    let n = r.unicode_len();
    let mut i: usize = 0;
    while i < n
        invariant
            0 <= i <= n,
            n == r@.len(),
            find_host_ip(r@, 0) == find_host_ip(r@, i as int),
        decreases n - i,
    {
        if let Some(v) = host_ip_at_exec(r, i) {
            return Some(v);
        }
        i += 1;
    }
    None
}

fn find_ipv4_exec(r: &str, from: usize) -> (res: Option<String>)
    requires
        from <= r@.len(),
    ensures
        match res {
            Some(v) => find_ipv4(r@, from as int) == Some(v@),
            None => find_ipv4(r@, from as int) is None,
        },
{
    let n = r.unicode_len();
    let mut i: usize = from;
    while i < n
        invariant
            from <= i <= n,
            n == r@.len(),
            find_ipv4(r@, from as int) == find_ipv4(r@, i as int),
        decreases n - i,
    {
        if let Some(e) = crate::ping::ipv4_end_exec_pub(r, i) {
            return Some(substr_string(r, i, e));
        }
        i += 1;
    }
    None
}

fn hop_addr_exec(r: &str) -> (res: (String, Option<String>))
    ensures
        ({
            let s = spec_hop_addr(r@);
            res.0@ == s.0 && (match res.1 {
                Some(h) => s.1 == Some(h@),
                None => s.1 is None,
            })
        }),
{
    if contains_sub(r, "Request timed out") || eq_str(r, "*") {
        return (String::from_str("*"), None);
    }
    match find_host_ip_exec(r) {
        Some((h, ip)) => (ip, Some(h)),
        None => match find_ipv4_exec(r, 0) {
            Some(ip) => (ip, None),
            None => (String::from_str(r), None),
        },
    }
}

fn hop_line(l: &str) -> (res: Option<(u32, Vec<u32>, String)>)
    ensures
        match res {
            Some(v) => spec_hop_line(l@) == Some((v.0, v.1@, v.2@)),
            None => spec_hop_line(l@) is None,
        },
{
    let n = l.unicode_len();
    let a = skip_ws_exec(l, 0);
    let d = digits_end_exec(l, a);
    if d == a {
        return None;
    }
    let hop: u32 = match parse_u32_str(l.substring_char(a, d)) {
        Some(v) => v,
        None => 0,
    };
    match probe_at_exec(l, d) {
        Some((t1, e1)) => match probe_at_exec(l, e1) {
            Some((t2, e2)) => match probe_at_exec(l, e2) {
                Some((t3, e3)) => {
                    let w = skip_ws_exec(l, e3);
                    if w == e3 || w >= n {
                        None
                    } else {
                        let mut times: Vec<u32> = Vec::new();
                        if let Some(t) = t1 {
                            times.push(t);
                        }
                        if let Some(t) = t2 {
                            times.push(t);
                        }
                        if let Some(t) = t3 {
                            times.push(t);
                        }
                        proof {
                            assert(times@ =~= probe_times(t1, t2, t3));
                        }
                        Some((hop, times, String::from_str(trim_str(l.substring_char(w, n)))))
                    }
                },
                None => None,
            },
            None => None,
        },
        None => None,
    }
}

fn dest_line(l: &str) -> (res: Option<String>)
    ensures
        match res {
            Some(v) => spec_dest_line(l@) == Some(v@),
            None => spec_dest_line(l@) is None,
        },
{
    proof {
        reveal_strlit("Tracing route to");
    }
    let n = l.unicode_len();
    match find_from(l, "Tracing route to", 0) {
        Some(i) => {
            proof {
                assert("Tracing route to"@.len() == 16);
            }
            find_ipv4_exec(l, i + 16)
        },
        None => None,
    }
}

fn find_dest(lines: &Vec<&str>, Ghost(lseq): Ghost<Seq<Seq<char>>>) -> (res: Option<String>)
    requires
        lines@.len() == lseq.len(),
        forall|i: int| 0 <= i < lseq.len() ==> lines@[i]@ == lseq[i],
    ensures
        match res {
            Some(v) => first_dest(lseq) == Some(v@),
            None => first_dest(lseq) is None,
        },
{
    let mut idx: usize = 0;
    proof {
        assert(lseq.subrange(0, lseq.len() as int) =~= lseq);
    }
    while idx < lines.len()
        invariant
            0 <= idx <= lines@.len(),
            lines@.len() == lseq.len(),
            forall|i: int| 0 <= i < lseq.len() ==> lines@[i]@ == lseq[i],
            first_dest(lseq) == first_dest(lseq.subrange(idx as int, lseq.len() as int)),
        decreases lines@.len() - idx,
    {
        let ghost cur = lseq.subrange(idx as int, lseq.len() as int);
        proof {
            assert(cur[0] == lseq[idx as int]);
        }
        if let Some(v) = dest_line(lines[idx]) {
            return Some(v);
        }
        proof {
            assert(cur.drop_first() =~= lseq.subrange(idx + 1, lseq.len() as int));
        }
        idx += 1;
    }
    None
}

/// Accumulator of the per-line pass: hops in order, the reached flag,
/// and the highest hop index seen.
pub ghost struct TraceAcc {
    pub hops: Seq<HopView>,
    pub reached: bool,
    pub total: u32,
}

pub open spec fn trace_init() -> TraceAcc {
    TraceAcc { hops: Seq::empty(), reached: false, total: 0 }
}

/// One line applied to the accumulator: a hop line appends its record,
/// raises the total to its index, and marks the destination reached
/// when its address equals the parsed destination.
pub open spec fn trace_step(st: TraceAcc, l: Seq<char>, dest: Option<Seq<char>>) -> TraceAcc {
    match spec_hop_line(l) {
        Some((hop, times, rest)) => {
            let ar = spec_hop_addr(rest);
            TraceAcc {
                hops: st.hops.push(
                    HopView {
                        hop,
                        ip: ar.0,
                        hostname: ar.1,
                        times: if times.len() == 0 {
                            None
                        } else {
                            Some(times)
                        },
                    },
                ),
                reached: st.reached || dest == Some(ar.0),
                total: if hop > st.total {
                    hop
                } else {
                    st.total
                },
            }
        },
        None => st,
    }
}

pub open spec fn trace_fold(lines: Seq<Seq<char>>, dest: Option<Seq<char>>) -> TraceAcc
    decreases lines.len(),
{
    if lines.len() == 0 {
        trace_init()
    } else {
        trace_step(trace_fold(lines.drop_last(), dest), lines.last(), dest)
    }
}

/// The whole parse: hop lines in order, the destination from the header
/// line, and the reached flag forced by a completion marker anywhere in
/// the output.
pub open spec fn spec_parse_trace(text: Seq<char>, host: Seq<char>) -> TraceDataView {
    let lines = spec_lines(text);
    let dest = first_dest(lines);
    let acc = trace_fold(lines, dest);
    TraceDataView {
        host,
        hops: acc.hops,
        destination_reached: acc.reached || contains_seq(text, "Trace complete"@),
        total_hops: acc.total,
    }
}

/// Parses a whole captured traceroute output for `host`.
pub fn parse_tracert_output(output: &str, host: &str) -> (r: TraceData)
    ensures
        r@ == spec_parse_trace(output@, host@),
{
    let ghost lseq = spec_lines(output@);
    let lines = split_lines(output);
    let dest = find_dest(&lines, Ghost(lseq));
    let ghost dview = crate::text::opt_str_view(dest);
    let mut hops: Vec<HopResult> = Vec::new();
    let mut reached = false;
    let mut total: u32 = 0;
    let mut idx: usize = 0;
    while idx < lines.len()
        invariant
            0 <= idx <= lines@.len(),
            lines@.len() == lseq.len(),
            forall|i: int| 0 <= i < lseq.len() ==> lines@[i]@ == lseq[i],
            dview == crate::text::opt_str_view(dest),
            ({
                let acc = trace_fold(lseq.subrange(0, idx as int), dview);
                &&& hops@.map_values(|h: HopResult| h@) == acc.hops
                &&& reached == acc.reached
                &&& total == acc.total
            }),
        decreases lines@.len() - idx,
    {
        let ghost acc0 = trace_fold(lseq.subrange(0, idx as int), dview);
        let line = lines[idx];
        proof {
            assert(line@ == lseq[idx as int]);
        }
        if let Some((hop, times, rest)) = hop_line(line) {
            let (ip, hostname) = hop_addr_exec(rest.as_str());
            if let Some(ref d) = dest {
                if eq_str(ip.as_str(), d.as_str()) {
                    reached = true;
                }
            }
            let time_ms: Option<Vec<u32>> = if times.len() == 0 {
                None
            } else {
                Some(times)
            };
            hops.push(HopResult { hop, ip, hostname, time_ms });
            if hop > total {
                total = hop;
            }
            proof {
                assert(hops@.map_values(|h: HopResult| h@) =~= acc0.hops.push(
                    hops@[hops@.len() - 1]@,
                ));
            }
        }
        proof {
            let pre = lseq.subrange(0, idx as int);
            let post = lseq.subrange(0, idx + 1);
            assert(post.drop_last() =~= pre);
            assert(post.last() == lseq[idx as int]);
            assert(trace_fold(post, dview) == trace_step(acc0, lseq[idx as int], dview));
        }
        idx += 1;
    }
    proof {
        assert(lseq.subrange(0, lseq.len() as int) =~= lseq);
    }
    let destination_reached = reached || contains_sub(output, "Trace complete");
    TraceData { host: String::from_str(host), hops, destination_reached, total_hops: total }
}

proof fn lemma_trace_fold_reached(lines: Seq<Seq<char>>, dest: Option<Seq<char>>)
    ensures
        trace_fold(lines, dest).reached <==> exists|i: int|
            0 <= i < trace_fold(lines, dest).hops.len() && dest == Some(
                (#[trigger] trace_fold(lines, dest).hops[i]).ip,
            ),
    decreases lines.len(),
{
    if lines.len() > 0 {
        let pre = trace_fold(lines.drop_last(), dest);
        lemma_trace_fold_reached(lines.drop_last(), dest);
        let post = trace_fold(lines, dest);
        match spec_hop_line(lines.last()) {
            Some((hop, times, rest)) => {
                let ar = spec_hop_addr(rest);
                assert(post.hops == pre.hops.push(
                    HopView {
                        hop,
                        ip: ar.0,
                        hostname: ar.1,
                        times: if times.len() == 0 {
                            None
                        } else {
                            Some(times)
                        },
                    },
                ));
                if pre.reached {
                    let i = choose|i: int|
                        0 <= i < pre.hops.len() && dest == Some((#[trigger] pre.hops[i]).ip);
                    assert(post.hops[i] == pre.hops[i]);
                } else if dest == Some(ar.0) {
                    assert(post.hops[post.hops.len() - 1].ip == ar.0);
                } else {
                    if post.reached {
                    } else {
                        assert forall|i: int|
                            0 <= i < post.hops.len() implies !(dest == Some(
                            (#[trigger] post.hops[i]).ip,
                        )) by {
                            if i < pre.hops.len() {
                                assert(post.hops[i] == pre.hops[i]);
                            }
                        }
                    }
                }
            },
            None => {},
        }
    }
}

/// The destination counts as reached exactly when a completion marker
/// appears in the output or some hop's address equals the destination
/// address parsed from the header.
pub proof fn lemma_reached_iff(text: Seq<char>, host: Seq<char>)
    ensures
        spec_parse_trace(text, host).destination_reached <==> (contains_seq(
            text,
            "Trace complete"@,
        ) || exists|i: int|
            0 <= i < spec_parse_trace(text, host).hops.len() && first_dest(spec_lines(text))
                == Some((#[trigger] spec_parse_trace(text, host).hops[i]).ip)),
{
    lemma_trace_fold_reached(spec_lines(text), first_dest(spec_lines(text)));
}

} // verus!
