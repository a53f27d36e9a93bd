//! IPv4 addresses as four octets.

use vstd::prelude::*;
use crate::text::{decimal, push_char, push_decimal};

verus! {

/// An IPv4 address `a.b.c.d`.
#[derive(Debug, Clone, Copy, PartialEq, Eq, Structural)]
pub struct Ipv4Addr(pub u8, pub u8, pub u8, pub u8);

/// Dotted-decimal text of an address.
pub open spec fn ipv4_text(ip: Ipv4Addr) -> Seq<char> {
    decimal(ip.0 as nat) + seq!['.'] + decimal(ip.1 as nat) + seq!['.'] + decimal(ip.2 as nat)
        + seq!['.'] + decimal(ip.3 as nat)
}

impl Ipv4Addr {
    pub fn new(a: u8, b: u8, c: u8, d: u8) -> (r: Self)
        ensures
            r == Ipv4Addr(a, b, c, d),
    {
        Ipv4Addr(a, b, c, d)
    }

    pub fn octets(&self) -> (r: [u8; 4])
        ensures
            r@ == seq![self.0, self.1, self.2, self.3],
    {
        let r = [self.0, self.1, self.2, self.3];
        proof { assert(r@ =~= seq![self.0, self.1, self.2, self.3]); }
        r
    }

    /// The address in dotted-decimal form, as `Display` writes it.
    pub fn dotted(&self) -> (r: String)
        ensures
            r@ == ipv4_text(*self),
    {
        let mut s = String::new();
        push_decimal(&mut s, self.0 as usize);
        push_char(&mut s, '.');
        push_decimal(&mut s, self.1 as usize);
        push_char(&mut s, '.');
        push_decimal(&mut s, self.2 as usize);
        push_char(&mut s, '.');
        push_decimal(&mut s, self.3 as usize);
        proof { assert(s@ =~= ipv4_text(*self)); }
        s
    }
}

} // verus!
