//! Input validation, used before any value is handed to an external
//! command line: SSID and hostname shape checks, IP address checks, and
//! quoting for command arguments.

use vstd::prelude::*;
use vstd::string::*;

use crate::errors::ErrorCode;
use crate::errors::ExitCodes;
use crate::errors::NactlError;
use crate::text::all_digits;
use crate::text::dec_value;
use crate::text::is_alnum;
use crate::text::is_alnum_char;
use crate::text::is_ascii_digit;
use crate::text::is_digit_char;
use crate::text::is_hex_char;
use crate::text::is_hex_digit;
use crate::text::push_char;
use crate::text::spec_split;
use crate::text::split_str;

verus! {

broadcast use vstd::slice::axiom_spec_len;

/// Maximum SSID length in bytes, per the Wi-Fi specification.
pub const MAX_SSID_LENGTH: usize = 32;

/// Maximum hostname length in bytes, per the DNS specification.
pub const MAX_HOSTNAME_LENGTH: usize = 253;

/// A character that could break out of a quoted command argument.
pub open spec fn is_dangerous_char(c: char) -> bool {
    c == '"' || c == '\'' || c == '\\' || c == '\n' || c == '\r' || c == '\u{0}' || c == '`'
        || c == '$' || c == '|' || c == ';' || c == '&' || c == '<' || c == '>'
}

/// An SSID that is safe to hand to a command line: non-empty, at most 32
/// bytes, and free of quoting and shell metacharacters.
pub open spec fn valid_ssid(s: &str) -> bool {
    0 < s.spec_bytes().len() <= 32 && forall|i: int|
        0 <= i < s@.len() ==> !is_dangerous_char(s@[i])
}

fn is_dangerous(c: char) -> (r: bool)
    ensures
        r == is_dangerous_char(c),
{
    c == '"' || c == '\'' || c == '\\' || c == '\n' || c == '\r' || c == '\u{0}' || c == '`'
        || c == '$' || c == '|' || c == ';' || c == '&' || c == '<' || c == '>'
}

/// Checks that an SSID is safe to use in a command argument.  Rejects the
/// empty string, one longer than 32 bytes, and any quoting or shell
/// metacharacter.
pub fn validate_ssid(ssid: &str) -> (r: Result<(), NactlError>)
    ensures
        r is Ok <==> valid_ssid(ssid),
        r matches Err(e) ==> {
            &&& e.exit_code == ExitCodes::InvalidArguments
            &&& e.response.code == ErrorCode::InvalidInput
            &&& e.response.message@ == (if ssid.spec_bytes().len() == 0 {
                "SSID cannot be empty"@
            } else if ssid.spec_bytes().len() > 32 {
                "SSID too long (max 32 characters)"@
            } else {
                "SSID contains an invalid character"@
            })
        },
{
    let nbytes = ssid.as_bytes().len();
    if nbytes == 0 {
        return Err(NactlError::invalid_input("SSID cannot be empty"));
    }
    if nbytes > MAX_SSID_LENGTH {
        return Err(NactlError::invalid_input("SSID too long (max 32 characters)"));
    }
    let n = ssid.unicode_len();
    let mut i: usize = 0;
    while i < n
        invariant
            0 <= i <= n,
            n == ssid@.len(),
            0 < ssid.spec_bytes().len() <= 32,
            forall|j: int| 0 <= j < i ==> !is_dangerous_char(ssid@[j]),
        decreases n - i,
    {
        if is_dangerous(ssid.get_char(i)) {
            return Err(NactlError::invalid_input("SSID contains an invalid character"));
        }
        i += 1;
    }
    Ok(())
}

/// One DNS label: letters, digits and hyphens, with a letter or digit at
/// both ends.
pub open spec fn valid_label(l: Seq<char>) -> bool {
    l.len() > 0 && is_alnum(l[0]) && is_alnum(l[l.len() - 1]) && forall|i: int|
        0 <= i < l.len() ==> (is_alnum(l[i]) || l[i] == '-')
}

/// A dotted name of valid DNS labels.
pub open spec fn valid_hostname_shape(s: Seq<char>) -> bool {
    forall|i: int| 0 <= i < spec_split(s, '.').len() ==> valid_label(spec_split(s, '.')[i])
}

/// A run of one to three decimal digits.
pub open spec fn loose_octet(p: Seq<char>) -> bool {
    1 <= p.len() <= 3 && all_digits(p)
}

/// A run of one to three decimal digits whose value is at most 255.
pub open spec fn strict_octet(p: Seq<char>) -> bool {
    loose_octet(p) && dec_value(p) <= 255
}

/// A run of at most four hexadecimal digits.
pub open spec fn hex_run(p: Seq<char>) -> bool {
    p.len() <= 4 && forall|j: int| 0 <= j < p.len() ==> is_hex_digit(p[j])
}

/// Four dot-separated runs of one to three digits; values are not range
/// checked here, hostnames only need the digits-and-dots shape.
pub open spec fn loose_ipv4_shape(s: Seq<char>) -> bool {
    spec_split(s, '.').len() == 4 && forall|i: int|
        0 <= i < 4 ==> loose_octet(#[trigger] spec_split(s, '.')[i])
}

/// Two to seven colons separating runs of at most four hexadecimal digits.
pub open spec fn ipv6_shape(s: Seq<char>) -> bool {
    3 <= spec_split(s, ':').len() <= 8 && forall|i: int|
        0 <= i < spec_split(s, ':').len() ==> hex_run(#[trigger] spec_split(s, ':')[i])
}

/// Four dot-separated decimal octets, each between 0 and 255.
pub open spec fn strict_ipv4_shape(s: Seq<char>) -> bool {
    spec_split(s, '.').len() == 4 && forall|i: int|
        0 <= i < 4 ==> strict_octet(#[trigger] spec_split(s, '.')[i])
}

fn check_label(l: &str) -> (r: bool)
    ensures
        r == valid_label(l@),
{
    let n = l.unicode_len();
    if n == 0 {
        return false;
    }
    if !is_alnum_char(l.get_char(0)) || !is_alnum_char(l.get_char(n - 1)) {
        return false;
    }
    let mut i: usize = 0;
    while i < n
        invariant
            0 <= i <= n,
            n == l@.len(),
            forall|j: int| 0 <= j < i ==> (is_alnum(l@[j]) || l@[j] == '-'),
        decreases n - i,
    {
        let c = l.get_char(i);
        if !is_alnum_char(c) && c != '-' {
            return false;
        }
        i += 1;
    }
    true
}

fn check_hostname_shape(s: &str) -> (r: bool)
    ensures
        r == valid_hostname_shape(s@),
{
    let parts = split_str(s, '.');
    let mut i: usize = 0;
    while i < parts.len()
        invariant
            0 <= i <= parts@.len(),
            parts@.len() == spec_split(s@, '.').len(),
            forall|k: int| 0 <= k < parts@.len() ==> parts@[k]@ == spec_split(s@, '.')[k],
            forall|k: int| 0 <= k < i ==> valid_label(spec_split(s@, '.')[k]),
        decreases parts@.len() - i,
    {
        if !check_label(parts[i]) {
            assert(!valid_label(spec_split(s@, '.')[i as int]));
            return false;
        }
        i += 1;
    }
    true
}

fn check_octet(p: &str, loose: bool) -> (r: bool)
    ensures
        r == (1 <= p@.len() <= 3 && all_digits(p@) && (loose || dec_value(p@) <= 255)),
{
    let n = p.unicode_len();
    if n < 1 || n > 3 {
        return false;
    }
    let mut i: usize = 0;
    let mut value: u32 = 0;
    while i < n
        invariant
            0 <= i <= n,
            1 <= n == p@.len() <= 3,
            forall|j: int| 0 <= j < i ==> is_ascii_digit(p@[j]),
            value == dec_value(p@.subrange(0, i as int)),
            i == 0 ==> value == 0,
            i == 1 ==> value <= 9,
            i == 2 ==> value <= 99,
            i == 3 ==> value <= 999,
        decreases n - i,
    {
        let c = p.get_char(i);
        if !is_digit_char(c) {
            assert(!all_digits(p@)) by {
                assert(!is_ascii_digit(p@[i as int]));
            }
            return false;
        }
        proof {
            crate::text::lemma_dec_value_snoc(p@, i as int);
        }
        value = value * 10 + (c as u32 - 48);
        i += 1;
    }
    assert(p@.subrange(0, n as int) =~= p@);
    loose || value <= 255
}

fn check_ipv4(s: &str, loose: bool) -> (r: bool)
    ensures
        r == if loose {
            loose_ipv4_shape(s@)
        } else {
            strict_ipv4_shape(s@)
        },
{
    let parts = split_str(s, '.');
    if parts.len() != 4 {
        return false;
    }
    let mut i: usize = 0;
    while i < 4
        invariant
            0 <= i <= 4,
            parts@.len() == spec_split(s@, '.').len() == 4,
            forall|k: int| 0 <= k < 4 ==> parts@[k]@ == spec_split(s@, '.')[k],
            forall|k: int|
                0 <= k < i ==> (loose_octet(#[trigger] spec_split(s@, '.')[k]) && (loose
                    || dec_value(spec_split(s@, '.')[k]) <= 255)),
        decreases 4 - i,
    {
        if !check_octet(parts[i], loose) {
            assert(!(loose_octet(spec_split(s@, '.')[i as int]) && (loose || dec_value(
                spec_split(s@, '.')[i as int],
            ) <= 255)));
            return false;
        }
        i += 1;
    }
    true
}

fn check_ipv6(s: &str) -> (r: bool)
    ensures
        r == ipv6_shape(s@),
{
    let parts = split_str(s, ':');
    if parts.len() < 3 || parts.len() > 8 {
        return false;
    }
    let mut i: usize = 0;
    while i < parts.len()
        invariant
            0 <= i <= parts@.len(),
            3 <= parts@.len() == spec_split(s@, ':').len() <= 8,
            forall|k: int| 0 <= k < parts@.len() ==> parts@[k]@ == spec_split(s@, ':')[k],
            forall|k: int| 0 <= k < i ==> hex_run(#[trigger] spec_split(s@, ':')[k]),
        decreases parts@.len() - i,
    {
        let part = parts[i];
        let m = part.unicode_len();
        if m > 4 {
            assert(!hex_run(spec_split(s@, ':')[i as int]));
            return false;
        }
        let mut j: usize = 0;
        while j < m
            invariant
                0 <= j <= m,
                m == part@.len() <= 4,
                0 <= i < spec_split(s@, ':').len(),
                part@ == spec_split(s@, ':')[i as int],
                forall|k: int| 0 <= k < j ==> is_hex_digit(part@[k]),
            decreases m - j,
        {
            if !is_hex_char(part.get_char(j)) {
                assert(!hex_run(spec_split(s@, ':')[i as int])) by {
                    assert(!is_hex_digit(spec_split(s@, ':')[i as int][j as int]));
                }
                return false;
            }
            j += 1;
        }
        i += 1;
    }
    true
}

/// Checks that a hostname is safe to hand to a command line: non-empty,
/// at most 253 bytes, and shaped as a dotted name, an IPv4 address or an
/// IPv6 address.
pub fn validate_hostname(hostname: &str) -> (r: Result<(), NactlError>)
    ensures
        r is Ok <==> (0 < hostname.spec_bytes().len() <= 253 && (valid_hostname_shape(hostname@)
            || loose_ipv4_shape(hostname@) || ipv6_shape(hostname@))),
        r matches Err(e) ==> {
            &&& e.exit_code == ExitCodes::InvalidArguments
            &&& e.response.code == ErrorCode::InvalidInput
            &&& e.response.message@ == (if hostname.spec_bytes().len() == 0 {
                "Hostname cannot be empty"@
            } else if hostname.spec_bytes().len() > 253 {
                "Hostname too long (max 253 characters)"@
            } else {
                "Invalid hostname format"@
            })
        },
{
    let nbytes = hostname.as_bytes().len();
    if nbytes == 0 {
        return Err(NactlError::invalid_input("Hostname cannot be empty"));
    }
    if nbytes > MAX_HOSTNAME_LENGTH {
        return Err(NactlError::invalid_input("Hostname too long (max 253 characters)"));
    }
    if check_hostname_shape(hostname) || check_ipv4(hostname, true) || check_ipv6(hostname) {
        Ok(())
    } else {
        Err(NactlError::invalid_input("Invalid hostname format"))
    }
}

/// Checks that a string is a well-formed IPv4 address (each octet 0 to
/// 255) or a well-formed IPv6 address.
pub fn validate_ip_address(ip: &str) -> (r: Result<(), NactlError>)
    ensures
        r is Ok <==> (ip@.len() > 0 && (strict_ipv4_shape(ip@) || ipv6_shape(ip@))),
        r matches Err(e) ==> {
            &&& e.exit_code == ExitCodes::InvalidArguments
            &&& e.response.code == ErrorCode::InvalidInput
            &&& e.response.message@ == (if ip@.len() == 0 {
                "IP address cannot be empty"@
            } else {
                "Invalid IP address"@
            })
        },
{
    if ip.unicode_len() == 0 {
        return Err(NactlError::invalid_input("IP address cannot be empty"));
    }
    if check_ipv4(ip, false) || check_ipv6(ip) {
        Ok(())
    } else {
        Err(NactlError::invalid_input("Invalid IP address"))
    }
}

/// `s` with every double quote doubled, the quoting rule for command
/// arguments on the target platform.
pub open spec fn spec_sanitize(s: Seq<char>) -> Seq<char>
    decreases s.len(),
{
    if s.len() == 0 {
        Seq::empty()
    } else if s.last() == '"' {
        spec_sanitize(s.drop_last()) + seq!['"', '"']
    } else {
        spec_sanitize(s.drop_last()) + seq![s.last()]
    }
}

/// Escapes a string for use inside a quoted command argument by doubling
/// every double quote.
pub fn sanitize_for_command(input: &str) -> (r: String)
    ensures
        r@ == spec_sanitize(input@),
{
    let n = input.unicode_len();
    let mut r = String::new();
    let mut i: usize = 0;
    while i < n
        invariant
            0 <= i <= n,
            n == input@.len(),
            r@ == spec_sanitize(input@.subrange(0, i as int)),
        decreases n - i,
    {
        let c = input.get_char(i);
        push_char(&mut r, c);
        if c == '"' {
            push_char(&mut r, '"');
        }
        proof {
            let t = input@.subrange(0, i + 1);
            assert(t.drop_last() =~= input@.subrange(0, i as int));
            assert(r@ =~= spec_sanitize(t));
        }
        i += 1;
    }
    proof {
        assert(input@.subrange(0, n as int) =~= input@);
    }
    r
}

} // verus!
