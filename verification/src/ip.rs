//! The address data model: a tagged union of the two families, carrying the
//! raw 32-bit or 128-bit value, and a network as an address plus prefix
//! length.

use vstd::prelude::*;

verus! {

/// An address of either family, as its raw unsigned value.
#[derive(Debug, PartialEq, Eq, Structural, Hash, PartialOrd, Ord, Clone, Copy)]
pub enum Addr {
    V6(u128),
    V4(u32),
}

/// A network: an address together with its prefix length.
#[derive(Debug, PartialEq, Eq, Structural, Hash, PartialOrd, Ord, Clone, Copy)]
pub struct Ip {
    pub address: Addr,
    pub cidr: u32,
}

/// Rendering mode selected by a `%` modifier in a format string.
pub enum FormatMode {
    Text,
    Binary,
    SplitBinary,
    Integer,
    SignedInteger,
    Hex,
    Backslash,
}

/// Escape state of the template interpreter.
pub enum FormatProcessor {
    Percent,
    Backslash,
    Inactive,
}

/// Which inputs undergo byte/nibble reversal when parsed.
pub enum Reverse {
    Neither,
    Input,
    Source,
    Both,
}

/// Bit width of the address family: 32 for V4, 128 for V6.
pub open spec fn addr_width(a: Addr) -> nat {
    match a {
        Addr::V4(_) => 32,
        Addr::V6(_) => 128,
    }
}

/// The raw value of an address as a mathematical integer.
pub open spec fn addr_val(a: Addr) -> nat {
    match a {
        Addr::V4(x) => x as nat,
        Addr::V6(x) => x as nat,
    }
}

/// Both addresses belong to the same family.
pub open spec fn same_family(a: Addr, b: Addr) -> bool {
    match (a, b) {
        (Addr::V4(_), Addr::V4(_)) => true,
        (Addr::V6(_), Addr::V6(_)) => true,
        _ => false,
    }
}

/// The prefix length does not exceed the family's bit width.
pub open spec fn valid_ip(ip: Ip) -> bool {
    ip.cidr <= addr_width(ip.address)
}

/// Number of host bits of a network.
pub open spec fn host_len(ip: Ip) -> nat {
    (addr_width(ip.address) - ip.cidr) as nat
}

impl Addr {
    /// True when `self` and `other` are of the same family.
    pub fn is_same_family(&self, other: &Addr) -> (r: bool)
        ensures
            r == same_family(*self, *other),
    {
        match (self, other) {
            (Addr::V4(_), Addr::V4(_)) => true,
            (Addr::V6(_), Addr::V6(_)) => true,
            _ => false,
        }
    }
}

impl Ip {
    /// True when the prefix length fits the family's bit width.
    pub fn is_valid(&self) -> (r: bool)
        ensures
            r == valid_ip(*self),
    {
        match self.address {
            Addr::V4(_) => self.cidr <= 32,
            Addr::V6(_) => self.cidr <= 128,
        }
    }
}

} // verus!
