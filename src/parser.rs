//! Small parsers for ports and hardware addresses.

use vstd::prelude::*;
use crate::text::{chars_of, parse_uint_text, push_char, uint_text_ok, decimal_value, u8_digits};

verus! {

#[derive(Debug, Clone, Copy, PartialEq, Eq, Structural)]
pub enum ParseError {
    InvalidPort,
}

/// Parses a port number as `str::parse::<u16>` does.
pub fn parse_port(port: &str) -> (r: Result<u16, ParseError>)
    ensures
        r is Ok <==> uint_text_ok(port@, 65535),
        r matches Ok(p) ==> p as nat == decimal_value(u8_digits(port@)),
        r is Err ==> r == Err::<u16, ParseError>(ParseError::InvalidPort),
{
    let chars = chars_of(port);
    match parse_uint_text(&chars, 65535) {
        Some(v) => Ok(v as u16),
        None => Err(ParseError::InvalidPort),
    }
}

/// `s` with a `:` before every character at an even position but the first.
pub open spec fn mac_with_colons(s: Seq<char>) -> Seq<char>
    decreases s.len(),
{
    if s.len() == 0 {
        Seq::empty()
    } else {
        let p = mac_with_colons(s.drop_last());
        let i = s.len() - 1;
        (if i > 0 && i % 2 == 0 {
            p.push(':')
        } else {
            p
        }).push(s.last())
    }
}

/// Writes a hardware address given without separators in the usual form,
/// a `:` between each two characters.
pub fn parse_mac(s: &str) -> (r: String)
    ensures
        r@ == mac_with_colons(s@),
{
    let chars = chars_of(s);
    let mut r = String::new();
    let mut i: usize = 0;
    while i < chars.len()
        invariant
            chars@ == s@,
            i <= chars.len(),
            r@ == mac_with_colons(s@.take(i as int)),
        decreases chars.len() - i,
    {
        assert(s@.take(i as int + 1).drop_last() =~= s@.take(i as int));
        if i > 0 && i % 2 == 0 {
            push_char(&mut r, ':');
        }
        push_char(&mut r, chars[i]);
        i = i + 1;
    }
    assert(s@.take(s@.len() as int) =~= s@);
    r
}

} // verus!
