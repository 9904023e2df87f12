//! Ping output parsing: classifies reply and timeout lines into ordered
//! samples, derives timing statistics, and lets a trailing summary line
//! override the per-line totals.

use vstd::prelude::*;
use vstd::string::*;

use crate::text::contains_seq;
use crate::text::contains_sub;
use crate::text::digits_end;
use crate::text::digits_end_exec;
use crate::text::is_space;
use crate::text::match_at;
use crate::text::opt_str_view;
use crate::text::matches_at;
use crate::text::find_from;
use crate::text::skip_ws;
use crate::text::skip_ws_exec;
use crate::text::spec_find;
use crate::text::spec_lines;
use crate::text::spec_parse_u32;
use crate::text::parse_u32_str;
use crate::text::split_lines;
use crate::text::substr_string;

verus! {

/// One probe: its 1-based sequence number and, for replies, the
/// time-to-live and round-trip time that the line carried.  Times are
/// whole milliseconds, as the tool prints them.
#[derive(Clone, Copy, Debug, PartialEq, Eq)]
pub struct PingResult {
    pub seq: u32,
    pub ttl: Option<u32>,
    pub time_ms: Option<u32>,
}

/// The parsed ping run: totals, loss percentage, timing statistics and
/// the ordered samples.
#[derive(Debug)]
pub struct PingData {
    pub host: String,
    pub resolved_ip: Option<String>,
    pub packets_sent: u32,
    pub packets_received: u32,
    pub packet_loss_percent: u32,
    pub min_ms: Option<u32>,
    pub avg_ms: Option<u32>,
    pub max_ms: Option<u32>,
    pub results: Vec<PingResult>,
}

/// The mathematical shadow of a `PingData`.
pub ghost struct PingDataView {
    pub host: Seq<char>,
    pub resolved_ip: Option<Seq<char>>,
    pub packets_sent: u32,
    pub packets_received: u32,
    pub packet_loss_percent: u32,
    pub min_ms: Option<u32>,
    pub avg_ms: Option<u32>,
    pub max_ms: Option<u32>,
    pub results: Seq<PingResult>,
}

impl View for PingData {
    type V = PingDataView;

    open spec fn view(&self) -> PingDataView {
        PingDataView {
            host: self.host@,
            resolved_ip: match self.resolved_ip {
                Some(ref s) => Some(s@),
                None => None,
            },
            packets_sent: self.packets_sent,
            packets_received: self.packets_received,
            packet_loss_percent: self.packet_loss_percent,
            min_ms: self.min_ms,
            avg_ms: self.avg_ms,
            max_ms: self.max_ms,
            results: self.results@,
        }
    }
}

/// Index of the first whitespace character at or after `pos`, or the
/// length of `l`.
pub open spec fn nonspace_end(l: Seq<char>, pos: int) -> int
    decreases l.len() - pos when 0 <= pos
{
    if pos >= l.len() {
        pos
    } else if !is_space(l[pos]) {
        nonspace_end(l, pos + 1)
    } else {
        pos
    }
}


pub(crate) fn nonspace_end_exec_pub(s: &str, pos: usize) -> (r: usize)
    requires
        pos <= s@.len(),
    ensures
        r == nonspace_end(s@, pos as int),
        pos <= r <= s@.len(),
{
    let n = s.unicode_len();
    let mut i: usize = pos;
    while i < n && !crate::text::is_space_char(s.get_char(i))
        invariant
            pos <= i <= n,
            n == s@.len(),
            nonspace_end(s@, pos as int) == nonspace_end(s@, i as int),
        decreases n - i,
    {
        i += 1;
    }
    i
}

/// End of a dotted-quad IPv4 address starting at `pos`: four digit runs
/// separated by dots.
pub open spec fn ipv4_end(l: Seq<char>, pos: int) -> Option<int> {
    let d1 = digits_end(l, pos);
    if d1 == pos || !(d1 < l.len() && l[d1] == '.') {
        None
    } else {
        let d2 = digits_end(l, d1 + 1);
        if d2 == d1 + 1 || !(d2 < l.len() && l[d2] == '.') {
            None
        } else {
            let d3 = digits_end(l, d2 + 1);
            if d3 == d2 + 1 || !(d3 < l.len() && l[d3] == '.') {
                None
            } else {
                let d4 = digits_end(l, d3 + 1);
                if d4 == d3 + 1 {
                    None
                } else {
                    Some(d4)
                }
            }
        }
    }
}

pub(crate) fn ipv4_end_exec_pub(l: &str, pos: usize) -> (r: Option<usize>)
    requires
        pos <= l@.len(),
    ensures
        match r {
            Some(e) => ipv4_end(l@, pos as int) == Some(e as int) && pos <= e <= l@.len(),
            None => ipv4_end(l@, pos as int) is None,
        },
{
    let n = l.unicode_len();
    let d1 = digits_end_exec(l, pos);
    if d1 == pos || !(d1 < n && l.get_char(d1) == '.') {
        return None;
    }
    let d2 = digits_end_exec(l, d1 + 1);
    if d2 == d1 + 1 || !(d2 < n && l.get_char(d2) == '.') {
        return None;
    }
    let d3 = digits_end_exec(l, d2 + 1);
    if d3 == d2 + 1 || !(d3 < n && l.get_char(d3) == '.') {
        return None;
    }
    let d4 = digits_end_exec(l, d3 + 1);
    if d4 == d3 + 1 {
        return None;
    }
    Some(d4)
}

/// The resolved address of a `Pinging host [addr]` header line: the
/// first IPv4 address after the second whitespace gap, an optional
/// opening bracket allowed before it.
pub open spec fn spec_header_ip_line(l: Seq<char>) -> Option<Seq<char>> {
    match spec_find(l, "Pinging"@, 0) {
        Some(i) => {
            let w = skip_ws(l, i + 7);
            if w == i + 7 {
                None
            } else {
                let v = nonspace_end(l, w);
                if v == w {
                    None
                } else {
                    let u = skip_ws(l, v);
                    if u == v {
                        None
                    } else {
                        let p = if u < l.len() && l[u] == '[' {
                            u + 1
                        } else {
                            u
                        };
                        match ipv4_end(l, p) {
                            Some(e) => Some(l.subrange(p, e)),
                            None => None,
                        }
                    }
                }
            }
        },
        None => None,
    }
}

/// What a reply line carries: the replying address, an optional
/// millisecond time (`time=12ms` or `time<1ms`), and the time-to-live.
/// A line is a reply only when `Reply from` is followed by an address,
/// a colon, and a `TTL=` field.
pub open spec fn spec_reply_line(l: Seq<char>) -> Option<(Seq<char>, Option<u32>, Option<u32>)> {
    match spec_find(l, "Reply from "@, 0) {
        Some(i) => {
            let p = i + 11;
            match ipv4_end(l, p) {
                Some(e) => {
                    if e < l.len() && l[e] == ':' {
                        match spec_find(l, "TTL="@, e) {
                            Some(t) => {
                                let td = digits_end(l, t + 4);
                                if td == t + 4 {
                                    None
                                } else {
                                    let ttl = spec_parse_u32(l.subrange(t + 4, td));
                                    Some((l.subrange(p, e), spec_time_field(l, e, t), ttl))
                                }
                            },
                            None => None,
                        }
                    } else {
                        None
                    }
                },
                None => None,
            }
        },
        None => None,
    }
}

/// The optional `time=NNms` / `time<NNms` field between the colon and
/// the `TTL=` field of a reply line.
pub open spec fn spec_time_field(l: Seq<char>, from: int, before: int) -> Option<u32> {
    match spec_time_at(l, spec_find(l, "time="@, from), before) {
        Some(v) => Some(v),
        None => spec_time_at(l, spec_find(l, "time<"@, from), before),
    }
}

/// The value of a time field found at `pos`, when it sits before
/// `before` and its digits are followed by `ms`.
pub open spec fn spec_time_at(l: Seq<char>, pos: Option<int>, before: int) -> Option<u32> {
    match pos {
        Some(i) => {
            if i < before {
                let d = digits_end(l, i + 5);
                if d > i + 5 && matches_at(l, d, "ms"@) {
                    spec_parse_u32(l.subrange(i + 5, d))
                } else {
                    None
                }
            } else {
                None
            }
        },
        None => None,
    }
}

/// A probe that went unanswered or unreachable.
pub open spec fn spec_timeout_line(l: Seq<char>) -> bool {
    contains_seq(l, "Request timed out"@) || contains_seq(l, "Destination host unreachable"@)
}

/// The `Sent = a, Received = b, Lost = c (d% ...` statistics line; each
/// captured number is present when it fits a `u32`.
pub open spec fn spec_stats_line(l: Seq<char>) -> Option<(Option<u32>, Option<u32>, Option<u32>)> {
    match spec_find(l, "Sent"@, 0) {
        Some(i) => {
            let a = skip_ws(l, i + 4);
            if a < l.len() && l[a] == '=' {
                let b = skip_ws(l, a + 1);
                let d1 = digits_end(l, b);
                if d1 > b && d1 < l.len() && l[d1] == ',' {
                    let c = skip_ws(l, d1 + 1);
                    if matches_at(l, c, "Received"@) {
                        let e = skip_ws(l, c + 8);
                        if e < l.len() && l[e] == '=' {
                            let f = skip_ws(l, e + 1);
                            let d2 = digits_end(l, f);
                            if d2 > f && d2 < l.len() && l[d2] == ',' {
                                let g = skip_ws(l, d2 + 1);
                                if matches_at(l, g, "Lost"@) {
                                    let h = skip_ws(l, g + 4);
                                    if h < l.len() && l[h] == '=' {
                                        let k = skip_ws(l, h + 1);
                                        let d3 = digits_end(l, k);
                                        if d3 > k {
                                            let m = skip_ws(l, d3);
                                            if m < l.len() && l[m] == '(' {
                                                let d4 = digits_end(l, m + 1);
                                                if d4 > m + 1 && d4 < l.len() && l[d4] == '%' {
                                                    Some(
                                                        (
                                                            spec_parse_u32(l.subrange(b, d1)),
                                                            spec_parse_u32(l.subrange(f, d2)),
                                                            spec_parse_u32(l.subrange(m + 1, d4)),
                                                        ),
                                                    )
                                                } else {
                                                    None
                                                }
                                            } else {
                                                None
                                            }
                                        } else {
                                            None
                                        }
                                    } else {
                                        None
                                    }
                                } else {
                                    None
                                }
                            } else {
                                None
                            }
                        } else {
                            None
                        }
                    } else {
                        None
                    }
                } else {
                    None
                }
            } else {
                None
            }
        },
        None => None,
    }
}

/// The `Minimum = Xms, Maximum = Yms, Average = Zms` timing line.
pub open spec fn spec_timing_line(l: Seq<char>) -> Option<(Option<u32>, Option<u32>, Option<u32>)> {
    match spec_timing_field(l, "Minimum"@, 7, 0) {
        Some((mn, p1)) => match spec_timing_field(l, "Maximum"@, 7, p1) {
            Some((mx, p2)) => match spec_timing_field(l, "Average"@, 7, p2) {
                Some((av, _)) => Some((mn, mx, av)),
                None => None,
            },
            None => None,
        },
        None => None,
    }
}

/// One `Name = NNms` field at or after `from`: the parsed value and the
/// position after its digits.
pub open spec fn spec_timing_field(l: Seq<char>, name: Seq<char>, namelen: int, from: int) -> Option<
    (Option<u32>, int),
> {
    if from < 0 {
        None
    } else {
        match spec_find(l, name, from) {
            Some(i) => {
                let a = skip_ws(l, i + namelen);
                if a < l.len() && l[a] == '=' {
                    let b = skip_ws(l, a + 1);
                    let d = digits_end(l, b);
                    if d > b && matches_at(l, d, "ms"@) {
                        Some((spec_parse_u32(l.subrange(b, d)), d))
                    } else {
                        None
                    }
                } else {
                    None
                }
            },
            None => None,
        }
    }
}

fn header_ip_line(l: &str) -> (r: Option<String>)
    ensures
        match r {
            Some(v) => spec_header_ip_line(l@) == Some(v@),
            None => spec_header_ip_line(l@) is None,
        },
{
    proof {
        reveal_strlit("Pinging");
    }
    let n = l.unicode_len();
    match find_from(l, "Pinging", 0) {
        Some(i) => {
            let w = skip_ws_exec(l, i + 7);
            if w == i + 7 {
                return None;
            }
            let v = nonspace_end_exec_pub(l, w);
            if v == w {
                return None;
            }
            let u = skip_ws_exec(l, v);
            if u == v {
                return None;
            }
            let p = if u < n && l.get_char(u) == '[' {
                u + 1
            } else {
                u
            };
            match ipv4_end_exec_pub(l, p) {
                Some(e) => Some(substr_string(l, p, e)),
                None => None,
            }
        },
        None => None,
    }
}

fn time_field(l: &str, from: usize, before: usize) -> (r: Option<u32>)
    requires
        from <= l@.len(),
    ensures
        r == spec_time_field(l@, from as int, before as int),
{
    proof {
        reveal_strlit("time=");
        reveal_strlit("time<");
        reveal_strlit("ms");
        assert("time="@.len() == 5);
        assert("time<"@.len() == 5);
    }
    let n = l.unicode_len();
    let r1: Option<u32> = match find_from(l, "time=", from) {
        Some(i) => {
            if i < before {
                let d = digits_end_exec(l, i + 5);
                if d > i + 5 && match_at(l, d, "ms") {
                    parse_u32_str(l.substring_char(i + 5, d))
                } else {
                    None
                }
            } else {
                None
            }
        },
        None => None,
    };
    proof {
        assert(r1 == spec_time_at(l@, spec_find(l@, "time="@, from as int), before as int));
    }
    match r1 {
        Some(v) => Some(v),
        None => {
            let r2: Option<u32> = match find_from(l, "time<", from) {
                Some(i) => {
                    if i < before {
                        let d = digits_end_exec(l, i + 5);
                        if d > i + 5 && match_at(l, d, "ms") {
                            parse_u32_str(l.substring_char(i + 5, d))
                        } else {
                            None
                        }
                    } else {
                        None
                    }
                },
                None => None,
            };
            proof {
                assert(r2 == spec_time_at(
                    l@,
                    spec_find(l@, "time<"@, from as int),
                    before as int,
                ));
            }
            r2
        },
    }
}

fn reply_line(l: &str) -> (r: Option<(String, Option<u32>, Option<u32>)>)
    ensures
        match r {
            Some(v) => spec_reply_line(l@) == Some((v.0@, v.1, v.2)),
            None => spec_reply_line(l@) is None,
        },
{
    proof {
        reveal_strlit("Reply from ");
        reveal_strlit("TTL=");
    }
    let n = l.unicode_len();
    match find_from(l, "Reply from ", 0) {
        Some(i) => {
            let p = i + 11;
            match ipv4_end_exec_pub(l, p) {
                Some(e) => {
                    if e < n && l.get_char(e) == ':' {
                        match find_from(l, "TTL=", e) {
                            Some(t) => {
                                let td = digits_end_exec(l, t + 4);
                                if td == t + 4 {
                                    None
                                } else {
                                    let ttl = parse_u32_str(l.substring_char(t + 4, td));
                                    let time = time_field(l, e, t);
                                    Some((substr_string(l, p, e), time, ttl))
                                }
                            },
                            None => None,
                        }
                    } else {
                        None
                    }
                },
                None => None,
            }
        },
        None => None,
    }
}

fn timeout_line(l: &str) -> (r: bool)
    ensures
        r == spec_timeout_line(l@),
{
    contains_sub(l, "Request timed out") || contains_sub(l, "Destination host unreachable")
}

fn stats_line(l: &str) -> (r: Option<(Option<u32>, Option<u32>, Option<u32>)>)
    ensures
        r == spec_stats_line(l@),
{
    proof {
        reveal_strlit("Sent");
        reveal_strlit("Received");
        reveal_strlit("Lost");
    }
    let n = l.unicode_len();
    match find_from(l, "Sent", 0) {
        Some(i) => {
            let a = skip_ws_exec(l, i + 4);
            if !(a < n && l.get_char(a) == '=') {
                return None;
            }
            let b = skip_ws_exec(l, a + 1);
            let d1 = digits_end_exec(l, b);
            if !(d1 > b && d1 < n && l.get_char(d1) == ',') {
                return None;
            }
            let c = skip_ws_exec(l, d1 + 1);
            if !match_at(l, c, "Received") {
                return None;
            }
            proof {
                assert("Received"@.len() == 8);
            }
            let e = skip_ws_exec(l, c + 8);
            if !(e < n && l.get_char(e) == '=') {
                return None;
            }
            let f = skip_ws_exec(l, e + 1);
            let d2 = digits_end_exec(l, f);
            if !(d2 > f && d2 < n && l.get_char(d2) == ',') {
                return None;
            }
            let g = skip_ws_exec(l, d2 + 1);
            if !match_at(l, g, "Lost") {
                return None;
            }
            proof {
                assert("Lost"@.len() == 4);
            }
            let h = skip_ws_exec(l, g + 4);
            if !(h < n && l.get_char(h) == '=') {
                return None;
            }
            let k = skip_ws_exec(l, h + 1);
            let d3 = digits_end_exec(l, k);
            if !(d3 > k) {
                return None;
            }
            let m = skip_ws_exec(l, d3);
            if !(m < n && l.get_char(m) == '(') {
                return None;
            }
            let d4 = digits_end_exec(l, m + 1);
            if !(d4 > m + 1 && d4 < n && l.get_char(d4) == '%') {
                return None;
            }
            Some(
                (
                    parse_u32_str(l.substring_char(b, d1)),
                    parse_u32_str(l.substring_char(f, d2)),
                    parse_u32_str(l.substring_char(m + 1, d4)),
                ),
            )
        },
        None => None,
    }
}

fn timing_field(l: &str, name: &str, from: usize) -> (r: Option<(Option<u32>, usize)>)
    requires
        from <= l@.len(),
        name@.len() == 7,
    ensures
        match r {
            Some(v) => spec_timing_field(l@, name@, 7, from as int) == Some((v.0, v.1 as int))
                && v.1 <= l@.len(),
            None => spec_timing_field(l@, name@, 7, from as int) is None,
        },
{
    proof {
        reveal_strlit("ms");
    }
    let n = l.unicode_len();
    match find_from(l, name, from) {
        Some(i) => {
            let a = skip_ws_exec(l, i + 7);
            if !(a < n && l.get_char(a) == '=') {
                return None;
            }
            let b = skip_ws_exec(l, a + 1);
            let d = digits_end_exec(l, b);
            if d > b && match_at(l, d, "ms") {
                Some((parse_u32_str(l.substring_char(b, d)), d))
            } else {
                None
            }
        },
        None => None,
    }
}

fn timing_line(l: &str) -> (r: Option<(Option<u32>, Option<u32>, Option<u32>)>)
    ensures
        r == spec_timing_line(l@),
{
    proof {
        reveal_strlit("Minimum");
        reveal_strlit("Maximum");
        reveal_strlit("Average");
    }
    match timing_field(l, "Minimum", 0) {
        Some((mn, p1)) => match timing_field(l, "Maximum", p1) {
            Some((mx, p2)) => match timing_field(l, "Average", p2) {
                Some((av, _)) => Some((mn, mx, av)),
                None => None,
            },
            None => None,
        },
        None => None,
    }
}

/// The resolved address the header announces, from the first line that
/// carries one.
pub open spec fn first_header_ip(lines: Seq<Seq<char>>) -> Option<Seq<char>>
    decreases lines.len(),
{
    if lines.len() == 0 {
        None
    } else {
        match spec_header_ip_line(lines[0]) {
            Some(v) => Some(v),
            None => first_header_ip(lines.drop_first()),
        }
    }
}

/// The first statistics summary line, if any.
pub open spec fn first_stats(lines: Seq<Seq<char>>) -> Option<
    (Option<u32>, Option<u32>, Option<u32>),
>
    decreases lines.len(),
{
    if lines.len() == 0 {
        None
    } else {
        match spec_stats_line(lines[0]) {
            Some(v) => Some(v),
            None => first_stats(lines.drop_first()),
        }
    }
}

/// The first timing summary line, if any.
pub open spec fn first_timing(lines: Seq<Seq<char>>) -> Option<
    (Option<u32>, Option<u32>, Option<u32>),
>
    decreases lines.len(),
{
    if lines.len() == 0 {
        None
    } else {
        match spec_timing_line(lines[0]) {
            Some(v) => Some(v),
            None => first_timing(lines.drop_first()),
        }
    }
}

fn find_header(lines: &Vec<&str>, Ghost(lseq): Ghost<Seq<Seq<char>>>) -> (r: Option<String>)
    requires
        lines@.len() == lseq.len(),
        forall|i: int| 0 <= i < lseq.len() ==> lines@[i]@ == lseq[i],
    ensures
        match r {
            Some(v) => first_header_ip(lseq) == Some(v@),
            None => first_header_ip(lseq) is None,
        },
{
    let mut idx: usize = 0;
    proof {
        assert(lseq.subrange(0, lseq.len() as int) =~= lseq);
    }
    while idx < lines.len()
        invariant
            0 <= idx <= lines@.len(),
            lines@.len() == lseq.len(),
            forall|i: int| 0 <= i < lseq.len() ==> lines@[i]@ == lseq[i],
            first_header_ip(lseq) == first_header_ip(
                lseq.subrange(idx as int, lseq.len() as int),
            ),
        decreases lines@.len() - idx,
    {
        let ghost cur = lseq.subrange(idx as int, lseq.len() as int);
        proof {
            assert(cur[0] == lseq[idx as int]);
        }
        if let Some(v) = header_ip_line(lines[idx]) {
            return Some(v);
        }
        proof {
            assert(cur.drop_first() =~= lseq.subrange(idx + 1, lseq.len() as int));
        }
        idx += 1;
    }
    None
}

fn find_stats(lines: &Vec<&str>, Ghost(lseq): Ghost<Seq<Seq<char>>>) -> (r: Option<
    (Option<u32>, Option<u32>, Option<u32>),
>)
    requires
        lines@.len() == lseq.len(),
        forall|i: int| 0 <= i < lseq.len() ==> lines@[i]@ == lseq[i],
    ensures
        r == first_stats(lseq),
{
    let mut idx: usize = 0;
    proof {
        assert(lseq.subrange(0, lseq.len() as int) =~= lseq);
    }
    while idx < lines.len()
        invariant
            0 <= idx <= lines@.len(),
            lines@.len() == lseq.len(),
            forall|i: int| 0 <= i < lseq.len() ==> lines@[i]@ == lseq[i],
            first_stats(lseq) == first_stats(lseq.subrange(idx as int, lseq.len() as int)),
        decreases lines@.len() - idx,
    {
        let ghost cur = lseq.subrange(idx as int, lseq.len() as int);
        proof {
            assert(cur[0] == lseq[idx as int]);
        }
        if let Some(v) = stats_line(lines[idx]) {
            return Some(v);
        }
        proof {
            assert(cur.drop_first() =~= lseq.subrange(idx + 1, lseq.len() as int));
        }
        idx += 1;
    }
    None
}

fn find_timing(lines: &Vec<&str>, Ghost(lseq): Ghost<Seq<Seq<char>>>) -> (r: Option<
    (Option<u32>, Option<u32>, Option<u32>),
>)
    requires
        lines@.len() == lseq.len(),
        forall|i: int| 0 <= i < lseq.len() ==> lines@[i]@ == lseq[i],
    ensures
        r == first_timing(lseq),
{
    let mut idx: usize = 0;
    proof {
        assert(lseq.subrange(0, lseq.len() as int) =~= lseq);
    }
    while idx < lines.len()
        invariant
            0 <= idx <= lines@.len(),
            lines@.len() == lseq.len(),
            forall|i: int| 0 <= i < lseq.len() ==> lines@[i]@ == lseq[i],
            first_timing(lseq) == first_timing(lseq.subrange(idx as int, lseq.len() as int)),
        decreases lines@.len() - idx,
    {
        let ghost cur = lseq.subrange(idx as int, lseq.len() as int);
        proof {
            assert(cur[0] == lseq[idx as int]);
        }
        if let Some(v) = timing_line(lines[idx]) {
            return Some(v);
        }
        proof {
            assert(cur.drop_first() =~= lseq.subrange(idx + 1, lseq.len() as int));
        }
        idx += 1;
    }
    None
}

/// Accumulator of the per-line pass: the resolved address, the samples
/// in encounter order, the reply count, and the numeric times seen.
pub ghost struct PingAcc {
    pub resolved: Option<Seq<char>>,
    pub results: Seq<PingResult>,
    pub received: nat,
    pub times: Seq<u32>,
}

pub open spec fn ping_init(header: Option<Seq<char>>) -> PingAcc {
    PingAcc { resolved: header, results: Seq::empty(), received: 0, times: Seq::empty() }
}

/// One line applied to the accumulator.  A reply line appends a sample
/// with the next sequence number and counts as received; a timeout line
/// appends an empty sample; other lines are skipped.  Once the sequence
/// counter is exhausted further probe lines are not recorded.
pub open spec fn ping_step(st: PingAcc, l: Seq<char>) -> PingAcc {
    if st.results.len() >= u32::MAX {
        st
    } else {
        match spec_reply_line(l) {
            Some(cap) => PingAcc {
                resolved: match st.resolved {
                    Some(v) => Some(v),
                    None => Some(cap.0),
                },
                results: st.results.push(
                    PingResult {
                        seq: (st.results.len() + 1) as u32,
                        ttl: cap.2,
                        time_ms: cap.1,
                    },
                ),
                received: st.received + 1,
                times: match cap.1 {
                    Some(t) => st.times.push(t),
                    None => st.times,
                },
            },
            None => if spec_timeout_line(l) {
                PingAcc {
                    results: st.results.push(
                        PingResult { seq: (st.results.len() + 1) as u32, ttl: None, time_ms: None },
                    ),
                    ..st
                }
            } else {
                st
            },
        }
    }
}

pub open spec fn ping_fold(lines: Seq<Seq<char>>, header: Option<Seq<char>>) -> PingAcc
    decreases lines.len(),
{
    if lines.len() == 0 {
        ping_init(header)
    } else {
        ping_step(ping_fold(lines.drop_last(), header), lines.last())
    }
}

/// Least element of a non-empty sequence of times.
pub open spec fn seq_min(s: Seq<u32>) -> u32
    recommends
        s.len() > 0,
    decreases s.len(),
{
    if s.len() <= 1 {
        s[0]
    } else {
        let m = seq_min(s.drop_last());
        if s[s.len() - 1] < m {
            s[s.len() - 1]
        } else {
            m
        }
    }
}

/// Greatest element of a non-empty sequence of times.
pub open spec fn seq_max(s: Seq<u32>) -> u32
    recommends
        s.len() > 0,
    decreases s.len(),
{
    if s.len() <= 1 {
        s[0]
    } else {
        let m = seq_max(s.drop_last());
        if s[s.len() - 1] > m {
            s[s.len() - 1]
        } else {
            m
        }
    }
}

/// Sum of a sequence of times.
pub open spec fn seq_sum(s: Seq<u32>) -> int
    decreases s.len(),
{
    if s.len() == 0 {
        0
    } else {
        seq_sum(s.drop_last()) + s[s.len() - 1]
    }
}

/// Mean of a non-empty sequence of times, in whole milliseconds.
pub open spec fn avg_of(s: Seq<u32>) -> u32
    recommends
        s.len() > 0,
{
    (seq_sum(s) / s.len() as int) as u32
}

proof fn lemma_seq_sum_bound(s: Seq<u32>)
    ensures
        0 <= seq_sum(s) <= s.len() * 0xffff_ffff,
    decreases s.len(),
{
    if s.len() > 0 {
        lemma_seq_sum_bound(s.drop_last());
    }
}

/// The whole parse: the per-line pass collects samples and times; the
/// requested count gives the provisional totals; a statistics summary
/// line overrides them; a timing summary fills only missing statistics;
/// and received is capped at sent.
pub open spec fn spec_parse_ping(text: Seq<char>, host: Seq<char>, count: u32) -> PingDataView {
    let lines = spec_lines(text);
    let acc = ping_fold(lines, first_header_ip(lines));
    let received0 = acc.received as u32;
    let rec_capped: u32 = if received0 <= count {
        received0
    } else {
        count
    };
    let loss0: u32 = if count > 0 {
        (((count - rec_capped) * 100) / count as int) as u32
    } else {
        100
    };
    let stats = first_stats(lines);
    let sent1: u32 = match stats {
        Some((Some(s), _, _)) => s,
        _ => count,
    };
    let recv1: u32 = match stats {
        Some((_, Some(r), _)) => r,
        _ => received0,
    };
    let loss1: u32 = match stats {
        Some((_, _, Some(p))) => p,
        _ => loss0,
    };
    let timing = first_timing(lines);
    let min1: Option<u32> = if acc.times.len() > 0 {
        Some(seq_min(acc.times))
    } else {
        match timing {
            Some((v, _, _)) => v,
            None => None,
        }
    };
    let max1: Option<u32> = if acc.times.len() > 0 {
        Some(seq_max(acc.times))
    } else {
        match timing {
            Some((_, v, _)) => v,
            None => None,
        }
    };
    let avg1: Option<u32> = if acc.times.len() > 0 {
        Some(avg_of(acc.times))
    } else {
        match timing {
            Some((_, _, v)) => v,
            None => None,
        }
    };
    let recv2: u32 = if recv1 <= sent1 {
        recv1
    } else {
        sent1
    };
    PingDataView {
        host,
        resolved_ip: acc.resolved,
        packets_sent: sent1,
        packets_received: recv2,
        packet_loss_percent: loss1,
        min_ms: min1,
        avg_ms: avg1,
        max_ms: max1,
        results: acc.results,
    }
}

/// Parses a whole captured ping output for `host` with the requested
/// packet count.
pub fn parse_ping_output(output: &str, host: &str, count: u32) -> (r: PingData)
    ensures
        r@ == spec_parse_ping(output@, host@, count),
{
    let ghost lseq = spec_lines(output@);
    let lines = split_lines(output);
    let header = find_header(&lines, Ghost(lseq));
    let ghost hview = opt_str_view(header);
    let mut resolved: Option<String> = header;
    let mut results: Vec<PingResult> = Vec::new();
    let mut received: u32 = 0;
    let mut tmin: Option<u32> = None;
    let mut tmax: Option<u32> = None;
    let mut tsum: u64 = 0;
    let mut tcnt: u32 = 0;
    let ghost mut times: Seq<u32> = Seq::empty();
    let mut idx: usize = 0;
    while idx < lines.len()
        invariant
            0 <= idx <= lines@.len(),
            lines@.len() == lseq.len(),
            forall|i: int| 0 <= i < lseq.len() ==> lines@[i]@ == lseq[i],
            ({
                let acc = ping_fold(lseq.subrange(0, idx as int), hview);
                &&& opt_str_view(resolved) == acc.resolved
                &&& results@ == acc.results
                &&& received == acc.received
                &&& times == acc.times
            }),
            received <= results@.len(),
            times.len() <= results@.len(),
            tcnt == times.len(),
            tsum == seq_sum(times),
            seq_sum(times) <= times.len() * 0xffff_ffff,
            tmin == (if times.len() > 0 {
                Some(seq_min(times))
            } else {
                Option::<u32>::None
            }),
            tmax == (if times.len() > 0 {
                Some(seq_max(times))
            } else {
                Option::<u32>::None
            }),
        decreases lines@.len() - idx,
    {
        let ghost acc0 = ping_fold(lseq.subrange(0, idx as int), hview);
        let line = lines[idx];
        proof {
            assert(line@ == lseq[idx as int]);
        }
        if results.len() < (u32::MAX as usize) {
            if let Some((ip, time, ttl)) = reply_line(line) {
                if resolved.is_none() {
                    resolved = Some(ip);
                }
                let s: u32 = (results.len() + 1) as u32;
                results.push(PingResult { seq: s, ttl, time_ms: time });
                received = received + 1;
                if let Some(t) = time {
                    proof {
                        lemma_seq_sum_bound(times);
                        let t2 = times.push(t);
                        assert(t2.drop_last() =~= times);
                        assert(t2[t2.len() - 1] == t);
                    }
                    tsum = tsum + (t as u64);
                    tcnt = tcnt + 1;
                    tmin = match tmin {
                        None => Some(t),
                        Some(m) => if t < m {
                            Some(t)
                        } else {
                            Some(m)
                        },
                    };
                    tmax = match tmax {
                        None => Some(t),
                        Some(m) => if t > m {
                            Some(t)
                        } else {
                            Some(m)
                        },
                    };
                    proof {
                        times = times.push(t);
                    }
                }
            } else if timeout_line(line) {
                let s: u32 = (results.len() + 1) as u32;
                results.push(PingResult { seq: s, ttl: None, time_ms: None });
            }
        }
        proof {
            let pre = lseq.subrange(0, idx as int);
            let post = lseq.subrange(0, idx + 1);
            assert(post.drop_last() =~= pre);
            assert(post.last() == lseq[idx as int]);
            assert(ping_fold(post, hview) == ping_step(acc0, lseq[idx as int]));
        }
        idx += 1;
    }
    proof {
        assert(lseq.subrange(0, lseq.len() as int) =~= lseq);
    }
    let ghost acc = ping_fold(lseq, hview);
    let rec_capped: u32 = if received <= count {
        received
    } else {
        count
    };
    let loss0: u32 = if count > 0 {
        (((count - rec_capped) as u64 * 100) / count as u64) as u32
    } else {
        100
    };
    let mut packets_sent: u32 = count;
    let mut packets_received: u32 = received;
    let mut loss: u32 = loss0;
    if let Some((so, ro, po)) = find_stats(&lines, Ghost(lseq)) {
        if let Some(s) = so {
            packets_sent = s;
        }
        if let Some(rr) = ro {
            packets_received = rr;
        }
        if let Some(p) = po {
            loss = p;
        }
    }
    let timing = find_timing(&lines, Ghost(lseq));
    let min_ms: Option<u32> = if tcnt > 0 {
        tmin
    } else {
        match timing {
            Some((v, _, _)) => v,
            None => None,
        }
    };
    let max_ms: Option<u32> = if tcnt > 0 {
        tmax
    } else {
        match timing {
            Some((_, v, _)) => v,
            None => None,
        }
    };
    let avg_ms: Option<u32> = if tcnt > 0 {
        proof {
            assert((tsum as int) / (tcnt as int) <= 0xffff_ffff) by (nonlinear_arith)
                requires
                    tsum as int <= (tcnt as int) * 0xffff_ffff,
                    tcnt > 0,
            ;
        }
        Some((tsum / (tcnt as u64)) as u32)
    } else {
        match timing {
            Some((_, _, v)) => v,
            None => None,
        }
    };
    let recv2: u32 = if packets_received <= packets_sent {
        packets_received
    } else {
        packets_sent
    };
    let data = PingData {
        host: String::from_str(host),
        resolved_ip: resolved,
        packets_sent,
        packets_received: recv2,
        packet_loss_percent: loss,
        min_ms,
        avg_ms,
        max_ms,
        results,
    };
    data
}

/// A ping run succeeded when at least one reply came back.
pub fn ping_success(data: &PingData) -> (r: bool)
    ensures
        r == (data.packets_received > 0),
{
    data.packets_received > 0
}

/// The exit code a ping run maps to: timeout without replies, success
/// otherwise.
pub fn ping_exit_code(data: &PingData) -> (r: crate::errors::ExitCodes)
    ensures
        r == (if data.packets_received == 0 {
            crate::errors::ExitCodes::Timeout
        } else {
            crate::errors::ExitCodes::Success
        }),
{
    if data.packets_received == 0 {
        crate::errors::ExitCodes::Timeout
    } else {
        crate::errors::ExitCodes::Success
    }
}

/// Number of reply lines in a sequence of lines.
pub open spec fn reply_count(lines: Seq<Seq<char>>) -> nat
    decreases lines.len(),
{
    if lines.len() == 0 {
        0
    } else {
        reply_count(lines.drop_last()) + (if spec_reply_line(lines.last()) is Some {
            1nat
        } else {
            0
        })
    }
}

/// Number of timeout lines (lines that are not replies but carry a
/// timeout or unreachable marker).
pub open spec fn timeout_count(lines: Seq<Seq<char>>) -> nat
    decreases lines.len(),
{
    if lines.len() == 0 {
        0
    } else {
        timeout_count(lines.drop_last()) + (if spec_reply_line(lines.last()) is None
            && spec_timeout_line(lines.last()) {
            1nat
        } else {
            0
        })
    }
}

proof fn lemma_ping_fold_counts(lines: Seq<Seq<char>>, header: Option<Seq<char>>)
    requires
        reply_count(lines) + timeout_count(lines) <= u32::MAX,
    ensures
        ping_fold(lines, header).results.len() == reply_count(lines) + timeout_count(lines),
        ping_fold(lines, header).received == reply_count(lines),
        forall|i: int|
            0 <= i < ping_fold(lines, header).results.len() ==> (#[trigger] ping_fold(
                lines,
                header,
            ).results[i]).seq == i + 1,
    decreases lines.len(),
{
    if lines.len() > 0 {
        lemma_ping_fold_counts(lines.drop_last(), header);
    }
}

/// With `k` reply lines, `count - k` timeout lines and no statistics
/// summary, the parse reports `k` received of `count` sent, and the
/// samples are numbered `1..count` in encounter order.
pub proof fn lemma_ping_line_accounting(text: Seq<char>, host: Seq<char>, count: u32, k: nat)
    requires
        reply_count(spec_lines(text)) == k,
        reply_count(spec_lines(text)) + timeout_count(spec_lines(text)) == count,
        first_stats(spec_lines(text)) is None,
    ensures
        spec_parse_ping(text, host, count).packets_received == k,
        spec_parse_ping(text, host, count).packets_sent == count,
        spec_parse_ping(text, host, count).results.len() == count,
        forall|i: int|
            0 <= i < count ==> (#[trigger] spec_parse_ping(text, host, count).results[i]).seq == i
                + 1,
{
    lemma_ping_fold_counts(spec_lines(text), first_header_ip(spec_lines(text)));
}

/// A parsed run never reports more packets received than sent.
pub proof fn lemma_received_at_most_sent(text: Seq<char>, host: Seq<char>, count: u32)
    ensures
        spec_parse_ping(text, host, count).packets_received <= spec_parse_ping(
            text,
            host,
            count,
        ).packets_sent,
{
}

/// When a statistics summary line is present, its totals are
/// authoritative: sent, received and loss come from the summary alone,
/// whatever the per-line pass counted (received stays capped at sent).
pub proof fn lemma_ping_summary_overrides(
    text: Seq<char>,
    host: Seq<char>,
    count: u32,
    a: u32,
    b: u32,
    p: u32,
)
    requires
        first_stats(spec_lines(text)) == Some((Some(a), Some(b), Some(p))),
        b <= a,
    ensures
        spec_parse_ping(text, host, count).packets_sent == a,
        spec_parse_ping(text, host, count).packets_received == b,
        spec_parse_ping(text, host, count).packet_loss_percent == p,
{
}

} // verus!
