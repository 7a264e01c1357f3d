//! Matching a network against the local interface table. The table itself
//! comes from the caller as plain values: one name, address and optional
//! netmask per interface.

use vstd::prelude::*;

use crate::cidr::{network, network_addr};
use crate::ip::{same_family, valid_ip, Addr, Ip};

verus! {

/// One local interface: its name, its configured address, and its netmask
/// when one is known.
pub struct NetInterface {
    pub name: String,
    pub address: Addr,
    pub netmask: Option<Addr>,
}

/// The masked values of two addresses of one family agree.
pub open spec fn masked_eq(a: Addr, b: Addr, mask: Addr) -> bool {
    match (a, b, mask) {
        (Addr::V4(x), Addr::V4(y), Addr::V4(m)) => x & m == y & m,
        (Addr::V6(x), Addr::V6(y), Addr::V6(m)) => x & m == y & m,
        _ => false,
    }
}

/// Whether interface `f` matches `ip`: by exact address when `ip_only`,
/// else by the interface's netmask applied to both its address and `ip`'s
/// network address.
pub open spec fn iface_matches(ip: Ip, f: NetInterface, ip_only: bool) -> bool {
    if ip_only {
        f.address == ip.address
    } else {
        match f.netmask {
            Some(m) => masked_eq(network_addr(ip.address, ip.cidr), f.address, m),
            None => false,
        }
    }
}

/// The name of the first matching interface, empty when none matches.
pub open spec fn iface_lookup(ip: Ip, fs: Seq<NetInterface>, ip_only: bool) -> Seq<char>
    decreases fs.len(),
{
    if fs.len() == 0 {
        Seq::empty()
    } else if iface_matches(ip, fs[0], ip_only) {
        fs[0].name@
    } else {
        iface_lookup(ip, fs.skip(1), ip_only)
    }
}

/// Compares two addresses under a mask of the same family.
fn masked_eq_of(a: &Addr, b: &Addr, mask: &Addr) -> (r: bool)
    ensures
        r == masked_eq(*a, *b, *mask),
{
    match (a, b, mask) {
        (Addr::V4(x), Addr::V4(y), Addr::V4(m)) => *x & *m == *y & *m,
        (Addr::V6(x), Addr::V6(y), Addr::V6(m)) => *x & *m == *y & *m,
        _ => false,
    }
}

/// The name of the first local interface whose configured network contains
/// `ip`'s network (or, with `ip_only`, whose address equals `ip`'s), or the
/// empty string when none does.
pub fn matching_network_interface(ip: &Ip, interfaces: &Vec<NetInterface>, ip_only: bool) -> (r:
    String)
    requires
        valid_ip(*ip),
    ensures
        r@ == iface_lookup(*ip, interfaces@, ip_only),
{
    let net = network(ip);
    let mut i: usize = 0;
    proof {
        assert(interfaces@.skip(0) =~= interfaces@);
    }
    while i < interfaces.len()
        invariant
            i <= interfaces@.len(),
            valid_ip(*ip),
            net == (Ip { address: network_addr(ip.address, ip.cidr), cidr: ip.cidr }),
            iface_lookup(*ip, interfaces@, ip_only) == iface_lookup(
                *ip,
                interfaces@.skip(i as int),
                ip_only,
            ),
        decreases interfaces@.len() - i,
    {
        proof {
            assert(interfaces@.skip(i as int)[0] == interfaces@[i as int]);
            assert(interfaces@.skip(i as int).skip(1) =~= interfaces@.skip(i + 1));
        }
        let f = &interfaces[i];
        let hit = if ip_only {
            match (&f.address, &ip.address) {
                (Addr::V4(x), Addr::V4(y)) => *x == *y,
                (Addr::V6(x), Addr::V6(y)) => *x == *y,
                _ => false,
            }
        } else {
            match &f.netmask {
                Some(m) => masked_eq_of(&net.address, &f.address, m),
                None => false,
            }
        };
        if hit {
            let mut out = String::new();
            out.append(f.name.as_str());
            return out;
        }
        i += 1;
    }
    proof {
        assert(interfaces@.skip(interfaces@.len() as int) =~= Seq::<NetInterface>::empty());
    }
    String::new()
}

} // verus!
