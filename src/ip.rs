//! Dotted-quad IPv4 addresses and `address/prefix` CIDR text.

use vstd::prelude::*;
use crate::text::{
    split, all_digits, decimal_value, split_fields, small_decimal, lemma_split_nonempty,
    before_first, chars_of, string_of,
};

verus! {

/// One decimal byte of a dotted quad: one to three digits, no leading zero, at most 255.
pub open spec fn octet_ok(f: Seq<char>) -> bool {
    1 <= f.len() <= 3 && all_digits(f) && (f.len() > 1 ==> f[0] != '0') && decimal_value(f) <= 255
}

/// `s` is an IPv4 address written as four decimal bytes joined by dots.
pub open spec fn is_ipv4(s: Seq<char>) -> bool {
    let p = split(s, '.');
    p.len() == 4 && octet_ok(p[0]) && octet_ok(p[1]) && octet_ok(p[2]) && octet_ok(p[3])
}

/// The 32-bit value of a dotted quad, first byte highest.
pub open spec fn ipv4_value(s: Seq<char>) -> nat {
    let p = split(s, '.');
    ((decimal_value(p[0]) * 256 + decimal_value(p[1])) * 256 + decimal_value(p[2])) * 256
        + decimal_value(p[3])
}

/// A prefix length of an IPv4 network: one or two digits, at most 32.
pub open spec fn prefix_ok(f: Seq<char>) -> bool {
    1 <= f.len() <= 2 && all_digits(f) && decimal_value(f) <= 32
}

/// `s` is `address/prefix` with an IPv4 address and a prefix length.
pub open spec fn is_cidr(s: Seq<char>) -> bool {
    let p = split(s, '/');
    p.len() == 2 && is_ipv4(p[0]) && prefix_ok(p[1])
}

/// The address part of CIDR text: what stands before the first `/`.
pub open spec fn ip_part(s: Seq<char>) -> Seq<char> {
    before_first(s, '/')
}

/// An IPv4 network address with its prefix length.
#[derive(Clone, Copy, Debug, PartialEq, Eq, Structural)]
pub struct Cidr {
    pub ip: u32,
    pub prefix_len: u8,
}

/// The parsed form of CIDR text.
pub open spec fn cidr_of(s: Seq<char>) -> Cidr {
    Cidr { ip: ipv4_value(split(s, '/')[0]) as u32, prefix_len: decimal_value(split(s, '/')[1]) as u8 }
}

fn octet(f: &Vec<char>) -> (r: Option<u32>)
    ensures
        r is Some <==> octet_ok(f@),
        r is Some ==> r->0 as nat == decimal_value(f@),
{
    if f.len() > 3 {
        return None;
    }
    match small_decimal(f) {
        None => None,
        Some(v) => {
            if f.len() > 1 && f[0] == '0' {
                None
            } else if v > 255 {
                None
            } else {
                Some(v)
            }
        },
    }
}

fn ipv4_chars(s: &Vec<char>) -> (r: Option<u32>)
    ensures
        r is Some <==> is_ipv4(s@),
        r is Some ==> r->0 as nat == ipv4_value(s@),
{
    let p = split_fields(s, '.');
    if p.len() != 4 {
        return None;
    }
    let a = match octet(&p[0]) { Some(v) => v, None => return None };
    let b = match octet(&p[1]) { Some(v) => v, None => return None };
    let c = match octet(&p[2]) { Some(v) => v, None => return None };
    let d = match octet(&p[3]) { Some(v) => v, None => return None };
    assert(p[0]@ == split(s@, '.')[0]);
    assert(p[1]@ == split(s@, '.')[1]);
    assert(p[2]@ == split(s@, '.')[2]);
    assert(p[3]@ == split(s@, '.')[3]);
    Some(((a * 256 + b) * 256 + c) * 256 + d)
}

/// Parses a dotted-quad IPv4 address into its 32-bit value.
pub fn parse_ipv4(s: &str) -> (r: Option<u32>)
    ensures
        r is Some <==> is_ipv4(s@),
        r is Some ==> r->0 as nat == ipv4_value(s@),
{
    let v = chars_of(s);
    ipv4_chars(&v)
}

/// Parses `address/prefix` text; `None` where it is malformed.
pub fn parse_cidr(s: &str) -> (r: Option<Cidr>)
    ensures
        r is Some <==> is_cidr(s@),
        r is Some ==> r->0 == cidr_of(s@),
{
    let v = chars_of(s);
    let p = split_fields(&v, '/');
    if p.len() != 2 {
        return None;
    }
    assert(p[0]@ == split(s@, '/')[0]);
    assert(p[1]@ == split(s@, '/')[1]);
    let ip = match ipv4_chars(&p[0]) { Some(x) => x, None => return None };
    if p[1].len() > 2 {
        return None;
    }
    let len = match small_decimal(&p[1]) { Some(x) => x, None => return None };
    if len > 32 {
        return None;
    }
    Some(Cidr { ip, prefix_len: len as u8 })
}

/// The address part of CIDR text (all of it where there is no `/`).
pub fn ip_part_of(s: &str) -> (r: String)
    ensures
        r@ == ip_part(s@),
{
    let v = chars_of(s);
    let p = split_fields(&v, '/');
    proof {
        lemma_split_nonempty(s@, '/');
    }
    string_of(&p[0])
}

} // verus!
