//! IPv4 socket addresses as plain values, and the rule that decides whether a
//! newly reported address may replace a stored one.

use vstd::prelude::*;
use vstd::string::*;

verus! {

/// An IPv4 endpoint: the four octets of the address, most significant first,
/// and the port.
#[derive(Clone, Copy, Debug, PartialEq, Eq, Structural)]
pub struct PeerAddr {
    pub a: u8,
    pub b: u8,
    pub c: u8,
    pub d: u8,
    pub port: u16,
}

/// The sentinel endpoint `127.0.0.9:9` that clients send before they know
/// their own public address.
pub open spec fn is_placeholder_spec(addr: PeerAddr) -> bool {
    addr.a == 127 && addr.b == 0 && addr.c == 0 && addr.d == 9 && addr.port == 9
}

/// An incoming address may replace the stored one unless it is the sentinel
/// while the stored one is a real address.
pub open spec fn may_overwrite_spec(existing: PeerAddr, incoming: PeerAddr) -> bool {
    !(is_placeholder_spec(incoming) && !is_placeholder_spec(existing))
}

impl PeerAddr {
    pub fn new(a: u8, b: u8, c: u8, d: u8, port: u16) -> (r: PeerAddr)
        ensures
            r == (PeerAddr { a, b, c, d, port }),
    {
        PeerAddr { a, b, c, d, port }
    }

    /// Whether this is the sentinel endpoint `127.0.0.9:9`.
    pub fn is_placeholder(&self) -> (r: bool)
        ensures
            r == is_placeholder_spec(*self),
    {
        self.a == 127 && self.b == 0 && self.c == 0 && self.d == 9 && self.port == 9
    }
}

/// Decides whether `incoming` may replace the stored address `existing`.
pub fn may_overwrite(existing: &PeerAddr, incoming: &PeerAddr) -> (r: bool)
    ensures
        r == may_overwrite_spec(*existing, *incoming),
{
    !(incoming.is_placeholder() && !existing.is_placeholder())
}

/// An ASCII decimal digit.
pub open spec fn is_digit(c: u8) -> bool {
    48 <= c <= 57
}

/// The decimal value of a run of digits.
pub open spec fn dec_value(s: Seq<u8>) -> nat
    decreases s.len(),
{
    if s.len() == 0 {
        0
    } else {
        dec_value(s.drop_last()) * 10 + (s.last() - 48) as nat
    }
}

/// Where the run of digits of `s` that starts at `i` ends.
pub open spec fn digits_end(s: Seq<u8>, i: int) -> int
    decreases s.len() - i,
{
    if 0 <= i < s.len() && is_digit(s[i]) {
        digits_end(s, i + 1)
    } else {
        i
    }
}

/// The text of one octet: one to three digits, no leading zero, at most 255.
pub open spec fn is_octet_text(t: Seq<u8>) -> bool {
    1 <= t.len() <= 3 && (t.len() == 1 || t[0] != 48) && dec_value(t) <= 255
}

/// The text of a port: at least one digit, at most 65535.
pub open spec fn is_port_text(t: Seq<u8>) -> bool {
    1 <= t.len() && dec_value(t) <= 65535
}

/// The byte `.`.
pub const DOT: u8 = 46;

/// The byte `:`.
pub const COLON: u8 = 58;

/// The address that the UTF-8 text `s` writes as `a.b.c.d:port`, where each
/// field is the run of digits before the next separator; `None` where `s` is
/// not of that form.
pub open spec fn parse_spec(s: Seq<u8>) -> Option<PeerAddr> {
    let e0 = digits_end(s, 0);
    let e1 = digits_end(s, e0 + 1);
    let e2 = digits_end(s, e1 + 1);
    let e3 = digits_end(s, e2 + 1);
    let e4 = digits_end(s, e3 + 1);
    if e0 < s.len() && s[e0] == DOT && e1 < s.len() && s[e1] == DOT && e2 < s.len() && s[e2] == DOT
        && e3 < s.len() && s[e3] == COLON && e4 == s.len() && is_octet_text(s.subrange(0, e0))
        && is_octet_text(s.subrange(e0 + 1, e1)) && is_octet_text(s.subrange(e1 + 1, e2))
        && is_octet_text(s.subrange(e2 + 1, e3)) && is_port_text(s.subrange(e3 + 1, e4)) {
        Some(
            PeerAddr {
                a: dec_value(s.subrange(0, e0)) as u8,
                b: dec_value(s.subrange(e0 + 1, e1)) as u8,
                c: dec_value(s.subrange(e1 + 1, e2)) as u8,
                d: dec_value(s.subrange(e2 + 1, e3)) as u8,
                port: dec_value(s.subrange(e3 + 1, e4)) as u16,
            },
        )
    } else {
        None
    }
}

/// Values above this are all alike to the parser: too large for any field.
pub const VALUE_CAP: u32 = 65536;

/// The value of a run of digits, capped at `VALUE_CAP`.
pub open spec fn capped(t: Seq<u8>) -> nat {
    if dec_value(t) < VALUE_CAP {
        dec_value(t)
    } else {
        VALUE_CAP as nat
    }
}

/// Reads the run of digits of `s` that starts at `i`: returns where it ends
/// and its capped value.
fn scan_digits(s: &[u8], i: usize) -> (r: (usize, u32))
    requires
        i <= s@.len(),
    ensures
        r.0 == digits_end(s@, i as int),
        i <= r.0 <= s@.len(),
        r.1 == capped(s@.subrange(i as int, r.0 as int)),
{
    let mut j: usize = i;
    let mut val: u32 = 0;
    while j < s.len() && 48 <= s[j] && s[j] <= 57
        invariant
            i <= j <= s@.len(),
            digits_end(s@, j as int) == digits_end(s@, i as int),
            val == capped(s@.subrange(i as int, j as int)),
        decreases s@.len() - j,
    {
        let c = s[j];
        let ghost prev = s@.subrange(i as int, j as int);
        let ghost next = s@.subrange(i as int, j as int + 1);
        proof {
            assert(next.drop_last() =~= prev);
            assert(next.last() == c);
        }
        let d = (c - 48) as u32;
        if val < VALUE_CAP {
            let v = val * 10 + d;
            if v < VALUE_CAP {
                val = v;
            } else {
                val = VALUE_CAP;
            }
        }
        j = j + 1;
    }
    (j, val)
}

/// Whether the digits of `s` from `i` to `e`, of capped value `v`, are the text
/// of an octet.
fn is_octet_field(s: &[u8], i: usize, e: usize, v: u32) -> (r: bool)
    requires
        i <= e <= s@.len(),
        v == capped(s@.subrange(i as int, e as int)),
    ensures
        r == is_octet_text(s@.subrange(i as int, e as int)),
{
    let len = e - i;
    1 <= len && len <= 3 && (len == 1 || s[i] != 48) && v <= 255
}

/// Parses `a.b.c.d:port`: four decimal octets without leading zeros and a
/// decimal port.
pub fn parse_peer_addr(text: &str) -> (r: Option<PeerAddr>)
    ensures
        r == parse_spec(text.spec_bytes()),
{
    let s = text.as_bytes();
    let n = s.len();
    let (e0, a) = scan_digits(s, 0);
    if e0 >= n || s[e0] != DOT || !is_octet_field(s, 0, e0, a) {
        return None;
    }
    let (e1, b) = scan_digits(s, e0 + 1);
    if e1 >= n || s[e1] != DOT || !is_octet_field(s, e0 + 1, e1, b) {
        return None;
    }
    let (e2, c) = scan_digits(s, e1 + 1);
    if e2 >= n || s[e2] != DOT || !is_octet_field(s, e1 + 1, e2, c) {
        return None;
    }
    let (e3, d) = scan_digits(s, e2 + 1);
    if e3 >= n || s[e3] != COLON || !is_octet_field(s, e2 + 1, e3, d) {
        return None;
    }
    let (e4, port) = scan_digits(s, e3 + 1);
    if e4 != n || e4 == e3 + 1 || port > 65535 {
        return None;
    }
    Some(PeerAddr { a: a as u8, b: b as u8, c: c as u8, d: d as u8, port: port as u16 })
}

} // verus!
