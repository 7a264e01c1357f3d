//! Containment relations between two networks. Mixed families always compare
//! as false; the predicates stay total.

use vstd::prelude::*;

use crate::cidr::{broadcast, broadcast_addr, network, network_addr};
use crate::ip::{addr_val, same_family, valid_ip, Addr, Ip};

verus! {

/// `addr`'s block lies inside `net`'s block and is at least as specific:
/// its network is no lower, its broadcast no higher, its prefix no shorter.
/// False whenever the families differ.
pub open spec fn within_spec(net: Ip, addr: Ip) -> bool {
    &&& same_family(net.address, addr.address)
    &&& addr_val(network_addr(addr.address, addr.cidr)) >= addr_val(
        network_addr(net.address, net.cidr),
    )
    &&& addr_val(broadcast_addr(addr.address, addr.cidr)) <= addr_val(
        broadcast_addr(net.address, net.cidr),
    )
    &&& net.cidr <= addr.cidr
}

/// `addr`'s block reaches outside `net`'s block on at least one side.
/// False whenever the families differ.
pub open spec fn without_spec(net: Ip, addr: Ip) -> bool {
    &&& same_family(net.address, addr.address)
    &&& !(addr_val(network_addr(addr.address, addr.cidr)) >= addr_val(
        network_addr(net.address, net.cidr),
    ) && addr_val(broadcast_addr(addr.address, addr.cidr)) <= addr_val(
        broadcast_addr(net.address, net.cidr),
    ))
}

/// `addr`'s block straddles one of `net`'s block boundaries: it covers the
/// network address from below, or crosses past the broadcast address.
/// False whenever the families differ.
pub open spec fn overlap_spec(net: Ip, addr: Ip) -> bool {
    let n = addr_val(network_addr(net.address, net.cidr));
    let b = addr_val(broadcast_addr(net.address, net.cidr));
    let tn = addr_val(network_addr(addr.address, addr.cidr));
    let tb = addr_val(broadcast_addr(addr.address, addr.cidr));
    &&& same_family(net.address, addr.address)
    &&& ((tn <= n && tb >= n) || (tn <= b && tb > b))
}

/// Compares raw address values of one family.
fn addr_le(a: &Addr, b: &Addr) -> (r: bool)
    requires
        same_family(*a, *b),
    ensures
        r == (addr_val(*a) <= addr_val(*b)),
{
    match (a, b) {
        (Addr::V4(x), Addr::V4(y)) => x <= y,
        (Addr::V6(x), Addr::V6(y)) => x <= y,
        _ => false,
    }
}

/// True exactly when `addr` is contained in `net`: same family, block inside
/// block, and a prefix at least as long.
pub fn within(net: &Ip, addr: &Ip) -> (r: bool)
    requires
        same_family(net.address, addr.address) ==> valid_ip(*net) && valid_ip(*addr),
    ensures
        r == within_spec(*net, *addr),
{
    if !net.address.is_same_family(&addr.address) {
        return false;
    }
    let n = network(net);
    let b = broadcast(net);
    let tn = network(addr);
    let tb = broadcast(addr);
    addr_le(&n.address, &tn.address) && addr_le(&tb.address, &b.address) && net.cidr <= addr.cidr
}

/// True exactly when `addr` of the same family is not fully contained in
/// `net`'s block; false for mixed families.
pub fn without(net: &Ip, addr: &Ip) -> (r: bool)
    requires
        same_family(net.address, addr.address) ==> valid_ip(*net) && valid_ip(*addr),
    ensures
        r == without_spec(*net, *addr),
{
    if !net.address.is_same_family(&addr.address) {
        return false;
    }
    let n = network(net);
    let b = broadcast(net);
    let tn = network(addr);
    let tb = broadcast(addr);
    !(addr_le(&n.address, &tn.address) && addr_le(&tb.address, &b.address))
}

/// True exactly when `addr`'s block crosses one of `net`'s block boundaries;
/// false for mixed families.
pub fn withoverlap(net: &Ip, addr: &Ip) -> (r: bool)
    requires
        same_family(net.address, addr.address) ==> valid_ip(*net) && valid_ip(*addr),
    ensures
        r == overlap_spec(*net, *addr),
{
    if !net.address.is_same_family(&addr.address) {
        return false;
    }
    let n = network(net);
    let b = broadcast(net);
    let tn = network(addr);
    let tb = broadcast(addr);
    if addr_le(&tn.address, &n.address) && addr_le(&n.address, &tb.address) {
        return true;
    }
    if addr_le(&tn.address, &b.address) && !addr_le(&tb.address, &b.address) {
        return true;
    }
    false
}

} // verus!
