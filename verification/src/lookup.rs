//! Longest-prefix lookup: the constant table of reserved ranges, and the
//! scan that finds the most specific table entry covering an address.

use vstd::prelude::*;
use vstd::string::StringExecFns;

use crate::cidr::{network, network_addr};
use crate::ip::{addr_width, valid_ip, Addr, Ip};

verus! {

/// The label of the first entry keyed exactly by `key`.
pub open spec fn table_at(t: Seq<(Ip, Seq<char>)>, key: Ip) -> Option<Seq<char>>
    decreases t.len(),
{
    if t.len() == 0 {
        None
    } else if t[0].0 == key {
        Some(t[0].1)
    } else {
        table_at(t.skip(1), key)
    }
}

/// The label of the most specific table entry covering `a`: prefixes are
/// tried from `p` down to zero, each as the key made of `a`'s network at
/// that prefix.
pub open spec fn lpm_label(t: Seq<(Ip, Seq<char>)>, a: Addr, p: int) -> Option<Seq<char>>
    decreases p + 1,
{
    if p < 0 {
        None
    } else {
        match table_at(t, Ip { address: network_addr(a, p as u32), cidr: p as u32 }) {
            Some(s) => Some(s),
            None => lpm_label(t, a, (p - 1) as int),
        }
    }
}

/// The views of a label table.
pub open spec fn table_views(t: Seq<(Ip, String)>) -> Seq<(Ip, Seq<char>)> {
    t.map_values(|e: (Ip, String)| (e.0, e.1@))
}

/// Scans the table for an exact key.
fn table_find(t: &Vec<(Ip, String)>, key: &Ip) -> (r: Option<usize>)
    ensures
        r matches Some(i) ==> i < t@.len() && table_at(table_views(t@), *key) == Some(
            t@[i as int].1@,
        ),
        r is None ==> table_at(table_views(t@), *key) is None,
{
    let ghost tv = table_views(t@);
    let mut i: usize = 0;
    proof {
        assert(tv.skip(0) =~= tv);
    }
    while i < t.len()
        invariant
            i <= t@.len(),
            tv == table_views(t@),
            table_at(tv, *key) == table_at(tv.skip(i as int), *key),
        decreases t@.len() - i,
    {
        proof {
            assert(tv.skip(i as int)[0] == tv[i as int]);
            assert(tv.skip(i as int).skip(1) =~= tv.skip(i + 1));
        }
        if t[i].0.address == key.address && t[i].0.cidr == key.cidr {
            return Some(i);
        }
        i += 1;
    }
    proof {
        assert(tv.skip(t@.len() as int) =~= Seq::<(Ip, Seq<char>)>::empty());
    }
    None
}

/// Copies a string.
fn copy_string(s: &String) -> (r: String)
    ensures
        r@ == s@,
{
    let mut out = String::new();
    out.append(s.as_str());
    out
}

/// Finds the most specific entry of `t` covering `ip`'s address, trying
/// every prefix from the family's width down to zero.
pub fn lpm_find(t: &Vec<(Ip, String)>, ip: &Ip) -> (r: Option<String>)
    ensures
        r matches Some(s) ==> lpm_label(table_views(t@), ip.address, addr_width(ip.address) as int)
            == Some(s@),
        r is None ==> lpm_label(table_views(t@), ip.address, addr_width(ip.address) as int)
            is None,
{
    let width: u32 = match ip.address {
        Addr::V4(_) => 32,
        Addr::V6(_) => 128,
    };
    let mut p: u32 = width;
    loop
        invariant
            p <= width,
            width == addr_width(ip.address),
            lpm_label(table_views(t@), ip.address, width as int) == lpm_label(
                table_views(t@),
                ip.address,
                p as int,
            ),
        decreases p,
    {
        let key = network(
            &Ip { address: ip.address, cidr: p },
        );
        match table_find(t, &key) {
            Some(i) => {
                return Some(copy_string(&t[i].1));
            },
            None => {},
        }
        if p == 0 {
            return None;
        }
        p = p - 1;
    }
}

/// The constant table of reserved ranges, as (network, label) pairs.
pub open spec fn reserved_table() -> Seq<(Ip, Seq<char>)> {
    seq![
        (Ip { address: Addr::V4(0x00000000), cidr: 8 }, "Current network"@),
        (
            Ip { address: Addr::V4(0x64400000), cidr: 10 },
            "Shared address space for communications between a service provider and its subscribers when using a carrier-grade NAT."@,
        ),
        (
            Ip { address: Addr::V4(0x7f000000), cidr: 8 },
            "Used for loopback addresses to the local host."@,
        ),
        (
            Ip { address: Addr::V4(0xa9fe0000), cidr: 16 },
            "Used for link-local addresses between two hosts on a single link when no IP address is otherwise specified, such as would have normally been retrieved from a DHCP server."@,
        ),
        (Ip { address: Addr::V4(0xac100000), cidr: 12 }, "RFC 1918"@),
        (Ip { address: Addr::V4(0xc0000000), cidr: 24 }, "IETF Protocol Assignments."@),
        (
            Ip { address: Addr::V4(0xc0000200), cidr: 24 },
            "Assigned as TEST-NET-1, documentation and examples."@,
        ),
        (
            Ip { address: Addr::V4(0xc0586300), cidr: 24 },
            "Reserved. Formerly used for IPv6 to IPv4 relay (included IPv6 address block 2002::/16)."@,
        ),
        (Ip { address: Addr::V4(0xc0a80000), cidr: 16 }, "RFC 1918"@),
        (
            Ip { address: Addr::V4(0xc6120000), cidr: 15 },
            "Used for benchmark testing of inter-network communications between two separate subnets."@,
        ),
        (
            Ip { address: Addr::V4(0xc6336400), cidr: 24 },
            "Assigned as TEST-NET-2, documentation and examples."@,
        ),
        (
            Ip { address: Addr::V4(0xcb007100), cidr: 24 },
            "Assigned as TEST-NET-3, documentation and examples."@,
        ),
        (
            Ip { address: Addr::V4(0xe0000000), cidr: 4 },
            "In use for IP multicast. (Former Class D network.)"@,
        ),
        (
            Ip { address: Addr::V4(0xe9fc0000), cidr: 24 },
            "Assigned as MCAST-TEST-NET, documentation and examples."@,
        ),
        (
            Ip { address: Addr::V4(0xf0000000), cidr: 4 },
            "Reserved for future use. (Former Class E network.)"@,
        ),
        (
            Ip { address: Addr::V4(0xffffffff), cidr: 32 },
            "Reserved for limited broadcast destination address."@,
        ),
        (Ip { address: Addr::V4(0x0a000000), cidr: 8 }, "RFC 1918"@),
        (Ip { address: Addr::V6(0x1), cidr: 128 }, "Loopback address"@),
        (Ip { address: Addr::V6(0xffff00000000), cidr: 96 }, "IPv4-mapped addresses"@),
        (
            Ip { address: Addr::V6(0xffff000000000000), cidr: 96 },
            "IPv4 translated addresses"@,
        ),
        (
            Ip { address: Addr::V6(0x0064ff9b000000000000000000000000), cidr: 96 },
            "IPv4/IPv6 translation"@,
        ),
        (
            Ip { address: Addr::V6(0x0064ff9b000100000000000000000000), cidr: 48 },
            "IPv4/IPv6 translation"@,
        ),
        (
            Ip { address: Addr::V6(0x01000000000000000000000000000000), cidr: 64 },
            "Discard prefix"@,
        ),
        (
            Ip { address: Addr::V6(0x20010000000000000000000000000000), cidr: 32 },
            "Teredo tunneling"@,
        ),
        (Ip { address: Addr::V6(0x20010020000000000000000000000000), cidr: 28 }, "ORCHIDv2"@),
        (
            Ip { address: Addr::V6(0x20010db8000000000000000000000000), cidr: 32 },
            "Documentation range"@,
        ),
        (
            Ip { address: Addr::V6(0x20020000000000000000000000000000), cidr: 16 },
            "The 6to4 addressing scheme (legacy)"@,
        ),
        (
            Ip { address: Addr::V6(0xfc000000000000000000000000000000), cidr: 7 },
            "Unique local address"@,
        ),
        (
            Ip { address: Addr::V6(0xff000000000000000000000000000000), cidr: 8 },
            "Multicast address"@,
        ),
        (Ip { address: Addr::V6(0xfe800000000000000000000000000000), cidr: 10 }, "Link local"@),
        (Ip { address: Addr::V6(0xfd000000000000000000000000000000), cidr: 8 }, "Link local"@),
    ]
}

/// What the reservation lookup yields for an address.
pub open spec fn reservation_of(a: Addr) -> Option<Seq<char>> {
    lpm_label(reserved_table(), a, addr_width(a) as int)
}

/// Builds the reserved-range table.
pub fn reserved_rows() -> (r: Vec<(Ip, String)>)
    ensures
        table_views(r@) == reserved_table(),
{
    let mut t: Vec<(Ip, String)> = Vec::new();
    t.push((Ip { address: Addr::V4(0x00000000), cidr: 8 }, String::from_str("Current network")));
    t.push(
        (
            Ip { address: Addr::V4(0x64400000), cidr: 10 },
            String::from_str(
                "Shared address space for communications between a service provider and its subscribers when using a carrier-grade NAT.",
            ),
        ),
    );
    t.push(
        (
            Ip { address: Addr::V4(0x7f000000), cidr: 8 },
            String::from_str("Used for loopback addresses to the local host."),
        ),
    );
    t.push(
        (
            Ip { address: Addr::V4(0xa9fe0000), cidr: 16 },
            String::from_str(
                "Used for link-local addresses between two hosts on a single link when no IP address is otherwise specified, such as would have normally been retrieved from a DHCP server.",
            ),
        ),
    );
    t.push((Ip { address: Addr::V4(0xac100000), cidr: 12 }, String::from_str("RFC 1918")));
    t.push(
        (
            Ip { address: Addr::V4(0xc0000000), cidr: 24 },
            String::from_str("IETF Protocol Assignments."),
        ),
    );
    t.push(
        (
            Ip { address: Addr::V4(0xc0000200), cidr: 24 },
            String::from_str("Assigned as TEST-NET-1, documentation and examples."),
        ),
    );
    t.push(
        (
            Ip { address: Addr::V4(0xc0586300), cidr: 24 },
            String::from_str(
                "Reserved. Formerly used for IPv6 to IPv4 relay (included IPv6 address block 2002::/16).",
            ),
        ),
    );
    t.push((Ip { address: Addr::V4(0xc0a80000), cidr: 16 }, String::from_str("RFC 1918")));
    t.push(
        (
            Ip { address: Addr::V4(0xc6120000), cidr: 15 },
            String::from_str(
                "Used for benchmark testing of inter-network communications between two separate subnets.",
            ),
        ),
    );
    t.push(
        (
            Ip { address: Addr::V4(0xc6336400), cidr: 24 },
            String::from_str("Assigned as TEST-NET-2, documentation and examples."),
        ),
    );
    t.push(
        (
            Ip { address: Addr::V4(0xcb007100), cidr: 24 },
            String::from_str("Assigned as TEST-NET-3, documentation and examples."),
        ),
    );
    t.push(
        (
            Ip { address: Addr::V4(0xe0000000), cidr: 4 },
            String::from_str("In use for IP multicast. (Former Class D network.)"),
        ),
    );
    t.push(
        (
            Ip { address: Addr::V4(0xe9fc0000), cidr: 24 },
            String::from_str("Assigned as MCAST-TEST-NET, documentation and examples."),
        ),
    );
    t.push(
        (
            Ip { address: Addr::V4(0xf0000000), cidr: 4 },
            String::from_str("Reserved for future use. (Former Class E network.)"),
        ),
    );
    t.push(
        (
            Ip { address: Addr::V4(0xffffffff), cidr: 32 },
            String::from_str("Reserved for limited broadcast destination address."),
        ),
    );
    t.push((Ip { address: Addr::V4(0x0a000000), cidr: 8 }, String::from_str("RFC 1918")));
    t.push((Ip { address: Addr::V6(0x1), cidr: 128 }, String::from_str("Loopback address")));
    t.push(
        (
            Ip { address: Addr::V6(0xffff00000000), cidr: 96 },
            String::from_str("IPv4-mapped addresses"),
        ),
    );
    t.push(
        (
            Ip { address: Addr::V6(0xffff000000000000), cidr: 96 },
            String::from_str("IPv4 translated addresses"),
        ),
    );
    t.push(
        (
            Ip { address: Addr::V6(0x0064ff9b000000000000000000000000), cidr: 96 },
            String::from_str("IPv4/IPv6 translation"),
        ),
    );
    t.push(
        (
            Ip { address: Addr::V6(0x0064ff9b000100000000000000000000), cidr: 48 },
            String::from_str("IPv4/IPv6 translation"),
        ),
    );
    t.push(
        (
            Ip { address: Addr::V6(0x01000000000000000000000000000000), cidr: 64 },
            String::from_str("Discard prefix"),
        ),
    );
    t.push(
        (
            Ip { address: Addr::V6(0x20010000000000000000000000000000), cidr: 32 },
            String::from_str("Teredo tunneling"),
        ),
    );
    t.push(
        (
            Ip { address: Addr::V6(0x20010020000000000000000000000000), cidr: 28 },
            String::from_str("ORCHIDv2"),
        ),
    );
    t.push(
        (
            Ip { address: Addr::V6(0x20010db8000000000000000000000000), cidr: 32 },
            String::from_str("Documentation range"),
        ),
    );
    t.push(
        (
            Ip { address: Addr::V6(0x20020000000000000000000000000000), cidr: 16 },
            String::from_str("The 6to4 addressing scheme (legacy)"),
        ),
    );
    t.push(
        (
            Ip { address: Addr::V6(0xfc000000000000000000000000000000), cidr: 7 },
            String::from_str("Unique local address"),
        ),
    );
    t.push(
        (
            Ip { address: Addr::V6(0xff000000000000000000000000000000), cidr: 8 },
            String::from_str("Multicast address"),
        ),
    );
    t.push(
        (
            Ip { address: Addr::V6(0xfe800000000000000000000000000000), cidr: 10 },
            String::from_str("Link local"),
        ),
    );
    t.push(
        (
            Ip { address: Addr::V6(0xfd000000000000000000000000000000), cidr: 8 },
            String::from_str("Link local"),
        ),
    );
    proof {
        assert(table_views(t@) =~= reserved_table());
    }
    t
}

/// The label of the most specific reserved range covering `ip`'s address,
/// or `None` when no reserved range covers it.
pub fn network_reservation(ip: &Ip) -> (r: Option<String>)
    ensures
        r matches Some(s) ==> reservation_of(ip.address) == Some(s@),
        r is None ==> reservation_of(ip.address) is None,
{
    let table = reserved_rows();
    lpm_find(&table, ip)
}

} // verus!
