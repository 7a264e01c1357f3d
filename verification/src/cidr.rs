//! CIDR bit arithmetic: host masks, network and broadcast addresses, subnet
//! and wildcard masks, and network sizes, with the laws that relate them.

use vstd::prelude::*;
use vstd::arithmetic::power2::{
    pow2, lemma2_to64, lemma_pow2_adds, lemma_pow2_pos, lemma_pow2_strictly_increases,
    lemma_pow2_unfold,
};
use vstd::bits::{lemma_u32_shl_is_mul, low_bits_mask};

use crate::ip::{addr_val, addr_width, host_len, same_family, valid_ip, Addr, Ip};

verus! {

/// Host mask for a V4 prefix: the low `32 - cidr` bits set.
pub open spec fn mask4(cidr: u32) -> u32
    recommends
        cidr <= 32,
{
    low_bits_mask((32 - cidr) as nat) as u32
}

/// Host mask for a V6 prefix: the low `128 - cidr` bits set.
pub open spec fn mask6(cidr: u32) -> u128
    recommends
        cidr <= 128,
{
    low_bits_mask((128 - cidr) as nat) as u128
}

/// The network address: host bits cleared.
pub open spec fn network_addr(a: Addr, cidr: u32) -> Addr {
    match a {
        Addr::V4(x) => Addr::V4(x & !mask4(cidr)),
        Addr::V6(x) => Addr::V6(x & !mask6(cidr)),
    }
}

/// The broadcast address: host bits set.
pub open spec fn broadcast_addr(a: Addr, cidr: u32) -> Addr {
    match a {
        Addr::V4(x) => Addr::V4(x | mask4(cidr)),
        Addr::V6(x) => Addr::V6(x | mask6(cidr)),
    }
}

/// The subnet mask: prefix bits set, host bits cleared.
pub open spec fn subnet_addr(a: Addr, cidr: u32) -> Addr {
    match a {
        Addr::V4(_) => Addr::V4(!mask4(cidr)),
        Addr::V6(_) => Addr::V6(!mask6(cidr)),
    }
}

/// The wildcard mask: host bits set, prefix bits cleared.
pub open spec fn wildcard_addr(a: Addr, cidr: u32) -> Addr {
    match a {
        Addr::V4(_) => Addr::V4(mask4(cidr)),
        Addr::V6(_) => Addr::V6(mask6(cidr)),
    }
}

/// The bitwise complement of an address within its family's width.
pub open spec fn addr_not(a: Addr) -> Addr {
    match a {
        Addr::V4(x) => Addr::V4(!x),
        Addr::V6(x) => Addr::V6(!x),
    }
}

/// Number of addresses in the network: 2^(width - prefix).
pub open spec fn size_of_network(ip: Ip) -> nat {
    pow2(host_len(ip))
}

/// 2^128 written out, the bound of the V6 value space.
pub proof fn lemma_pow2_128()
    ensures
        pow2(128) == 0x100000000000000000000000000000000,
{
    lemma_pow2_adds(64, 64);
    lemma2_to64();
}

/// For shifts below the width, `1u128 << k` is 2^k.
pub proof fn lemma_u128_shl1_is_pow2(k: u128)
    ensures
        k < 128 ==> (1u128 << k) == pow2(k as nat),
    decreases k,
{
    if k == 0 {
        assert(1u128 << 0u128 == 1) by (bit_vector);
        lemma2_to64();
    } else if k < 128 {
        lemma_u128_shl1_is_pow2((k - 1) as u128);
        assert(1u128 << k == 2 * (1u128 << ((k - 1) as u128))) by (bit_vector)
            requires
                0 < k < 128,
        ;
        lemma_pow2_unfold(k as nat);
        lemma_pow2_strictly_increases(k as nat, 128);
        lemma_pow2_128();
    }
}

/// The V4 host mask fits in 32 bits, so the cast in `mask4` is exact.
pub proof fn lemma_mask4_value(cidr: u32)
    requires
        cidr <= 32,
    ensures
        mask4(cidr) as nat == low_bits_mask((32 - cidr) as nat),
        mask4(cidr) as nat + 1 == pow2((32 - cidr) as nat),
{
    let k = (32 - cidr) as nat;
    lemma_pow2_pos(k);
    if k < 32 {
        lemma_pow2_strictly_increases(k, 32);
    }
    lemma2_to64();
}

/// The V6 host mask fits in 128 bits, so the cast in `mask6` is exact.
pub proof fn lemma_mask6_value(cidr: u32)
    requires
        cidr <= 128,
    ensures
        mask6(cidr) as nat == low_bits_mask((128 - cidr) as nat),
        mask6(cidr) as nat + 1 == pow2((128 - cidr) as nat),
{
    let k = (128 - cidr) as nat;
    lemma_pow2_pos(k);
    if k < 128 {
        lemma_pow2_strictly_increases(k, 128);
    }
    lemma_pow2_128();
}

/// Computes the V4 host mask.
fn host_mask_v4(cidr: u32) -> (m: u32)
    requires
        cidr <= 32,
    ensures
        m == mask4(cidr),
{
    if cidr == 0 {
        proof {
            lemma_mask4_value(0);
            lemma2_to64();
        }
        0xffff_ffffu32
    } else {
        let k = 32 - cidr;
        proof {
            lemma_mask4_value(cidr);
            lemma_pow2_pos(k as nat);
            if (k as nat) < 32 {
                lemma_pow2_strictly_increases(k as nat, 32);
            }
            lemma2_to64();
            lemma_u32_shl_is_mul(1u32, k);
        }
        (1u32 << k) - 1
    }
}

/// Computes the V6 host mask.
fn host_mask_v6(cidr: u32) -> (m: u128)
    requires
        cidr <= 128,
    ensures
        m == mask6(cidr),
{
    if cidr == 0 {
        proof {
            lemma_mask6_value(0);
            lemma_pow2_128();
        }
        0xffff_ffff_ffff_ffff_ffff_ffff_ffff_ffffu128
    } else {
        let k = 128 - cidr;
        proof {
            lemma_mask6_value(cidr);
            lemma_u128_shl1_is_pow2(k as u128);
            lemma_pow2_pos(k as nat);
        }
        (1u128 << k) - 1
    }
}

/// The network address of `ip`: its address with the host bits cleared.
pub fn network(ip: &Ip) -> (r: Ip)
    requires
        valid_ip(*ip),
    ensures
        r == (Ip { address: network_addr(ip.address, ip.cidr), cidr: ip.cidr }),
{
    match ip.address {
        Addr::V4(x) => {
            let m = host_mask_v4(ip.cidr);
            Ip { address: Addr::V4(x & !m), cidr: ip.cidr }
        },
        Addr::V6(x) => {
            let m = host_mask_v6(ip.cidr);
            Ip { address: Addr::V6(x & !m), cidr: ip.cidr }
        },
    }
}

/// The broadcast address of `ip`: its address with the host bits set.
pub fn broadcast(ip: &Ip) -> (r: Ip)
    requires
        valid_ip(*ip),
    ensures
        r == (Ip { address: broadcast_addr(ip.address, ip.cidr), cidr: ip.cidr }),
{
    match ip.address {
        Addr::V4(x) => {
            let m = host_mask_v4(ip.cidr);
            Ip { address: Addr::V4(x | m), cidr: ip.cidr }
        },
        Addr::V6(x) => {
            let m = host_mask_v6(ip.cidr);
            Ip { address: Addr::V6(x | m), cidr: ip.cidr }
        },
    }
}

/// The subnet mask of `ip`'s prefix, as an address of the same family.
pub fn subnet(ip: &Ip) -> (r: Ip)
    requires
        valid_ip(*ip),
    ensures
        r == (Ip { address: subnet_addr(ip.address, ip.cidr), cidr: ip.cidr }),
{
    match ip.address {
        Addr::V4(_) => {
            let m = host_mask_v4(ip.cidr);
            Ip { address: Addr::V4(!m), cidr: ip.cidr }
        },
        Addr::V6(_) => {
            let m = host_mask_v6(ip.cidr);
            Ip { address: Addr::V6(!m), cidr: ip.cidr }
        },
    }
}

/// The wildcard mask of `ip`'s prefix: the complement of the subnet mask.
pub fn wildcard(ip: &Ip) -> (r: Ip)
    requires
        valid_ip(*ip),
    ensures
        r == (Ip { address: wildcard_addr(ip.address, ip.cidr), cidr: ip.cidr }),
{
    match ip.address {
        Addr::V4(_) => {
            let m = host_mask_v4(ip.cidr);
            Ip { address: Addr::V4(m), cidr: ip.cidr }
        },
        Addr::V6(_) => {
            let m = host_mask_v6(ip.cidr);
            Ip { address: Addr::V6(m), cidr: ip.cidr }
        },
    }
}

/// Number of addresses in `ip`'s network. The whole V6 space (a V6 /0) is one
/// address too many for the return type, so that prefix is excluded.
pub fn network_size(ip: &Ip) -> (r: u128)
    requires
        valid_ip(*ip),
        !(ip.address is V6 && ip.cidr == 0),
    ensures
        r == size_of_network(*ip),
{
    match ip.address {
        Addr::V4(_) => {
            let m = host_mask_v4(ip.cidr);
            proof {
                lemma_mask4_value(ip.cidr);
            }
            m as u128 + 1
        },
        Addr::V6(_) => {
            let m = host_mask_v6(ip.cidr);
            proof {
                lemma_mask6_value(ip.cidr);
                lemma_pow2_strictly_increases((128 - ip.cidr) as nat, 128);
                lemma_pow2_128();
            }
            m + 1
        },
    }
}

/// Number of sub-blocks of prefix `mask` inside `net`: 2^(mask - prefix).
pub fn subnets_in_network(mask: u32, net: &Ip) -> (r: u128)
    requires
        valid_ip(*net),
        net.cidr <= mask <= addr_width(net.address),
        mask - net.cidr < 128,
    ensures
        r == pow2((mask - net.cidr) as nat),
{
    let k = mask - net.cidr;
    proof {
        lemma_u128_shl1_is_pow2(k as u128);
    }
    1u128 << k
}

/// The order law: the network address never exceeds the address, the address
/// never exceeds the broadcast, and the span of the block is exactly
/// 2^(width - prefix), the size of the network.
pub proof fn lemma_network_broadcast_bounds(ip: Ip)
    requires
        valid_ip(ip),
    ensures
        addr_val(network_addr(ip.address, ip.cidr)) <= addr_val(ip.address),
        addr_val(ip.address) <= addr_val(broadcast_addr(ip.address, ip.cidr)),
        addr_val(broadcast_addr(ip.address, ip.cidr)) - addr_val(
            network_addr(ip.address, ip.cidr),
        ) + 1 == size_of_network(ip),
{
    match ip.address {
        Addr::V4(x) => {
            let m = mask4(ip.cidr);
            lemma_mask4_value(ip.cidr);
            assert((x & !m) <= x && x <= (x | m) && (x | m) - (x & !m) == m) by (bit_vector);
        },
        Addr::V6(x) => {
            let m = mask6(ip.cidr);
            lemma_mask6_value(ip.cidr);
            assert((x & !m) <= x && x <= (x | m) && (x | m) - (x & !m) == m) by (bit_vector);
        },
    }
}

/// At a full-width prefix the block has size one, so taking the network
/// address changes nothing.
pub proof fn lemma_network_full_prefix(ip: Ip)
    requires
        valid_ip(ip),
        ip.cidr == addr_width(ip.address),
    ensures
        network_addr(ip.address, ip.cidr) == ip.address,
        size_of_network(ip) == 1,
{
    lemma2_to64();
    match ip.address {
        Addr::V4(x) => {
            lemma_mask4_value(32);
            assert(x & !0u32 == x) by (bit_vector);
        },
        Addr::V6(x) => {
            lemma_mask6_value(128);
            assert(x & !0u128 == x) by (bit_vector);
        },
    }
}

/// The subnet mask is exactly the bitwise complement of the wildcard mask,
/// for every prefix the family admits.
pub proof fn lemma_subnet_is_not_wildcard(ip: Ip)
    requires
        valid_ip(ip),
    ensures
        subnet_addr(ip.address, ip.cidr) == addr_not(wildcard_addr(ip.address, ip.cidr)),
{
}

} // verus!
