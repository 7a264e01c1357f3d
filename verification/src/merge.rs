//! Supernet merging: reduce a set of networks to the smallest enclosing
//! network, or to one enclosing network per group when a bound keeps any
//! single block from growing past a given prefix.

use vstd::prelude::*;
use vstd::bits::lemma_u32_shl_is_mul;

use crate::cidr::{
    lemma_mask4_value, lemma_mask6_value, lemma_u128_shl1_is_pow2, mask4, mask6, network,
    network_addr,
};
use crate::contain::within_spec;
use crate::ip::{addr_width, same_family, valid_ip, Addr, Ip};

verus! {

/// The longest prefix, at most `p` and more than `floor`, at which the two
/// addresses share a network; `None` when even `floor` gives no match below
/// the starting prefix.
pub open spec fn merge_prefix_at(a: Addr, b: Addr, p: u32, floor: u32) -> Option<u32>
    decreases p,
{
    if network_addr(a, p) == network_addr(b, p) {
        Some(p)
    } else if p <= floor {
        None
    } else {
        merge_prefix_at(a, b, (p - 1) as u32, floor)
    }
}

/// The prefix a merging step starts from: the shorter of the two prefixes,
/// raised to `floor` if it falls under it.
pub open spec fn merge_start(acc: Ip, cand: Ip, floor: u32) -> u32 {
    let shared = if acc.cidr <= cand.cidr {
        acc.cidr
    } else {
        cand.cidr
    };
    if shared < floor {
        floor
    } else {
        shared
    }
}

/// One merging step: widen the accumulator just far enough (never below
/// `floor`) to also cover the candidate. Mixed families never merge.
pub open spec fn merge_pair(acc: Ip, cand: Ip, floor: u32) -> Option<Ip> {
    if !same_family(acc.address, cand.address) {
        None
    } else {
        match merge_prefix_at(acc.address, cand.address, merge_start(acc, cand, floor), floor) {
            Some(p) => Some(Ip { address: network_addr(acc.address, p), cidr: p }),
            None => None,
        }
    }
}

/// A single network's starting accumulator: its prefix raised to `floor` if
/// it was shorter.
pub open spec fn merge_seed(ip: Ip, floor: u32) -> Ip {
    if ip.cidr < floor {
        Ip { address: ip.address, cidr: floor }
    } else {
        ip
    }
}

/// Left fold of `merge_pair` over the list, seeded with its first entry.
/// Empty input or any failing step gives `None`.
pub open spec fn scn_fold(s: Seq<Ip>, floor: u32) -> Option<Ip>
    decreases s.len(),
{
    if s.len() == 0 {
        None
    } else if s.len() == 1 {
        Some(merge_seed(s[0], floor))
    } else {
        match scn_fold(s.drop_last(), floor) {
            Some(acc) => merge_pair(acc, s.last(), floor),
            None => None,
        }
    }
}

/// The block of prefix `limit` an input is sorted into.
pub open spec fn group_key(ip: Ip, limit: u32) -> Ip {
    Ip { address: network_addr(ip.address, limit), cidr: limit }
}

/// The distinct group keys of the list, in first-appearance order.
pub open spec fn group_keys(s: Seq<Ip>, limit: u32) -> Seq<Ip>
    decreases s.len(),
{
    if s.len() == 0 {
        Seq::empty()
    } else {
        let ks = group_keys(s.drop_last(), limit);
        if ks.contains(group_key(s.last(), limit)) {
            ks
        } else {
            ks.push(group_key(s.last(), limit))
        }
    }
}

/// The inputs sorted into the group of key `k`, keeping their order.
pub open spec fn group_members(s: Seq<Ip>, k: Ip, limit: u32) -> Seq<Ip> {
    s.filter(|ip: Ip| group_key(ip, limit) == k)
}

/// Every group of the list merges within the bound.
pub open spec fn groups_ok(s: Seq<Ip>, limit: u32) -> bool {
    forall|g: int|
        0 <= g < group_keys(s, limit).len() ==> #[trigger] scn_fold(
            group_members(s, group_keys(s, limit)[g], limit),
            limit,
        ) is Some
}

/// A failed fold prefix never recovers: once the fold of the first `k`
/// entries is `None`, the fold of the whole list is `None`.
proof fn lemma_scn_fold_none(s: Seq<Ip>, floor: u32, k: int)
    requires
        0 < k <= s.len(),
        scn_fold(s.take(k), floor) is None,
    ensures
        scn_fold(s, floor) is None,
    decreases s.len() - k,
{
    if k == s.len() {
        assert(s.take(k) =~= s);
    } else {
        assert(s.take(k + 1).drop_last() =~= s.take(k));
        lemma_scn_fold_none(s, floor, k + 1);
    }
}

/// Finds the merged prefix by stepping down from `start` until the two
/// networks coincide, stopping at `floor`.
fn merge_two(acc: &Ip, cand: &Ip, floor: u32) -> (r: Option<Ip>)
    requires
        valid_ip(*acc),
        valid_ip(*cand),
        same_family(acc.address, cand.address) ==> floor <= addr_width(acc.address),
    ensures
        r == merge_pair(*acc, *cand, floor),
        r matches Some(ip) ==> valid_ip(ip) && floor <= ip.cidr,
{
    if !acc.address.is_same_family(&cand.address) {
        return None;
    }
    let shared = if acc.cidr <= cand.cidr {
        acc.cidr
    } else {
        cand.cidr
    };
    let start = if shared < floor {
        floor
    } else {
        shared
    };
    let mut p = start;
    loop
        invariant
            start == merge_start(*acc, *cand, floor),
            floor <= p <= start <= addr_width(acc.address),
            valid_ip(*acc),
            valid_ip(*cand),
            same_family(acc.address, cand.address),
            merge_prefix_at(acc.address, cand.address, start, floor) == merge_prefix_at(
                acc.address,
                cand.address,
                p,
                floor,
            ),
        decreases p,
    {
        let na = network(&Ip { address: acc.address, cidr: p });
        let nb = network(&Ip { address: cand.address, cidr: p });
        if na.address == nb.address {
            return Some(na);
        }
        if p <= floor {
            return None;
        }
        p = p - 1;
    }
}

/// The smallest network of one family enclosing every network in the list:
/// the first entry widened step by step until each further entry's network
/// coincides with it. `None` for an empty list or mixed families.
pub fn smallest_group_network(networks: &Vec<Ip>) -> (r: Option<Ip>)
    requires
        forall|i: int| 0 <= i < networks@.len() ==> valid_ip(#[trigger] networks@[i]),
    ensures
        r == scn_fold(networks@, 0),
{
    scn_bounded(networks, 0)
}

/// The bounded fold over one list.
fn scn_bounded(list: &Vec<Ip>, floor: u32) -> (r: Option<Ip>)
    requires
        forall|i: int|
            0 <= i < list@.len() ==> valid_ip(#[trigger] list@[i]) && floor <= addr_width(
                list@[i].address,
            ),
    ensures
        r == scn_fold(list@, floor),
        r matches Some(ip) ==> valid_ip(ip) && floor <= ip.cidr,
{
    if list.len() == 0 {
        return None;
    }
    let first = list[0];
    let mut acc = if first.cidr < floor {
        Ip { address: first.address, cidr: floor }
    } else {
        first
    };
    let mut i: usize = 1;
    proof {
        assert(list@.take(1) =~= seq![list@[0]]);
    }
    while i < list.len()
        invariant
            1 <= i <= list@.len(),
            forall|k: int|
                0 <= k < list@.len() ==> valid_ip(#[trigger] list@[k]) && floor <= addr_width(
                    list@[k].address,
                ),
            Some(acc) == scn_fold(list@.take(i as int), floor),
            valid_ip(acc),
            floor <= acc.cidr,
        decreases list@.len() - i,
    {
        proof {
            assert(list@.take(i + 1).drop_last() =~= list@.take(i as int));
            assert(list@.take(i + 1).last() == list@[i as int]);
        }
        match merge_two(&acc, &list[i], floor) {
            Some(x) => {
                acc = x;
            },
            None => {
                proof {
                    lemma_scn_fold_none(list@, floor, i + 1);
                }
                return None;
            },
        }
        i += 1;
    }
    proof {
        assert(list@.take(list@.len() as int) =~= list@);
    }
    Some(acc)
}

/// Linear search of a key list.
fn find_key(keys: &Vec<Ip>, k: &Ip) -> (r: bool)
    ensures
        r == keys@.contains(*k),
{
    let mut i: usize = 0;
    while i < keys.len()
        invariant
            i <= keys@.len(),
            forall|t: int| 0 <= t < i ==> keys@[t] != *k,
        decreases keys@.len() - i,
    {
        if keys[i] == *k {
            return true;
        }
        i += 1;
    }
    false
}

/// Partitions the list into groups by their block of prefix `limit` and
/// merges each group within that bound: one enclosing network per group, in
/// the order the groups first appear. Empty input, or any group that cannot
/// merge within the bound, gives `None`.
pub fn smallest_group_network_limited(networks: &Vec<Ip>, limit: u32) -> (r: Option<Vec<Ip>>)
    requires
        forall|i: int|
            0 <= i < networks@.len() ==> valid_ip(#[trigger] networks@[i]) && limit <= addr_width(
                networks@[i].address,
            ),
    ensures
        r is Some <==> networks@.len() > 0 && groups_ok(networks@, limit),
        r matches Some(v) ==> {
            &&& v@.len() == group_keys(networks@, limit).len()
            &&& forall|g: int|
                0 <= g < v@.len() ==> Some(#[trigger] v@[g]) == scn_fold(
                    group_members(networks@, group_keys(networks@, limit)[g], limit),
                    limit,
                )
        },
{
    let s_len = networks.len();
    if s_len == 0 {
        return None;
    }
    // first pass: the distinct group keys, in first-appearance order
    let mut keys: Vec<Ip> = Vec::new();
    let mut i: usize = 0;
    while i < s_len
        invariant
            i <= networks@.len(),
            s_len == networks@.len(),
            forall|t: int|
                0 <= t < networks@.len() ==> valid_ip(#[trigger] networks@[t]) && limit
                    <= addr_width(networks@[t].address),
            keys@ == group_keys(networks@.take(i as int), limit),
        decreases networks@.len() - i,
    {
        let ip = networks[i];
        let kn = network(&Ip { address: ip.address, cidr: limit });
        proof {
            assert(kn == group_key(networks@[i as int], limit));
            assert(networks@.take(i + 1).drop_last() =~= networks@.take(i as int));
            assert(networks@.take(i + 1).last() == networks@[i as int]);
        }
        if !find_key(&keys, &kn) {
            keys.push(kn);
        }
        i += 1;
    }
    proof {
        assert(networks@.take(networks@.len() as int) =~= networks@);
    }
    // second pass: collect and merge each group
    let mut out: Vec<Ip> = Vec::new();
    let mut g: usize = 0;
    while g < keys.len()
        invariant
            g <= keys@.len(),
            s_len == networks@.len(),
            forall|t: int|
                0 <= t < networks@.len() ==> valid_ip(#[trigger] networks@[t]) && limit
                    <= addr_width(networks@[t].address),
            keys@ == group_keys(networks@, limit),
            out@.len() == g,
            forall|t: int|
                0 <= t < g ==> Some(#[trigger] out@[t]) == scn_fold(
                    group_members(networks@, keys@[t], limit),
                    limit,
                ),
        decreases keys@.len() - g,
    {
        let key = keys[g];
        let ghost pred = |ip: Ip| group_key(ip, limit) == key;
        let mut members: Vec<Ip> = Vec::new();
        let mut i2: usize = 0;
        proof {
            reveal(Seq::filter);
            assert(networks@.take(0).filter(pred) =~= Seq::<Ip>::empty());
        }
        while i2 < s_len
            invariant
                i2 <= networks@.len(),
                s_len == networks@.len(),
                forall|t: int|
                    0 <= t < networks@.len() ==> valid_ip(#[trigger] networks@[t]) && limit
                        <= addr_width(networks@[t].address),
                pred == (|ip: Ip| group_key(ip, limit) == key),
                members@ == networks@.take(i2 as int).filter(pred),
                forall|t: int|
                    0 <= t < members@.len() ==> valid_ip(#[trigger] members@[t]) && limit
                        <= addr_width(members@[t].address),
            decreases networks@.len() - i2,
        {
            let ip = networks[i2];
            let kn = network(&Ip { address: ip.address, cidr: limit });
            proof {
                reveal(Seq::filter);
                assert(networks@.take(i2 + 1).drop_last() =~= networks@.take(i2 as int));
                assert(networks@.take(i2 + 1).last() == networks@[i2 as int]);
                assert(kn == group_key(networks@[i2 as int], limit));
            }
            if kn.address == key.address && kn.cidr == key.cidr {
                members.push(ip);
            }
            i2 += 1;
        }
        proof {
            assert(networks@.take(networks@.len() as int) =~= networks@);
            assert(members@ == group_members(networks@, key, limit));
        }
        match scn_bounded(&members, limit) {
            Some(m) => {
                out.push(m);
            },
            None => {
                proof {
                    assert(scn_fold(
                        group_members(networks@, group_keys(networks@, limit)[g as int], limit),
                        limit,
                    ) is None);
                    assert(!groups_ok(networks@, limit));
                }
                return None;
            },
        }
        g += 1;
    }
    proof {
        assert forall|gg: int|
            0 <= gg < group_keys(networks@, limit).len() implies #[trigger] scn_fold(
            group_members(networks@, group_keys(networks@, limit)[gg], limit),
            limit,
        ) is Some by {
            assert(Some(out@[gg]) == scn_fold(group_members(networks@, keys@[gg], limit), limit));
        };
    }
    Some(out)
}

/// A merged prefix stays between the floor and the starting prefix, and the
/// two networks coincide there.
proof fn lemma_merge_prefix_props(a: Addr, b: Addr, start: u32, floor: u32)
    requires
        merge_prefix_at(a, b, start, floor) is Some,
    ensures
        floor <= merge_prefix_at(a, b, start, floor)->0 || network_addr(a, start) == network_addr(
            b,
            start,
        ),
        merge_prefix_at(a, b, start, floor)->0 <= start,
        network_addr(a, merge_prefix_at(a, b, start, floor)->0) == network_addr(
            b,
            merge_prefix_at(a, b, start, floor)->0,
        ),
    decreases start,
{
    if network_addr(a, start) != network_addr(b, start) && start > floor {
        lemma_merge_prefix_props(a, b, (start - 1) as u32, floor);
    }
}

/// Widening a V4 block keeps every narrower aligned block inside it: if two
/// addresses share a network at prefix `p`, the second's block at any longer
/// prefix `q` lies between the first's network and broadcast at `p`.
proof fn lemma_cover_v4(x: u32, y: u32, p: u32, q: u32)
    requires
        p <= q <= 32,
        x & !mask4(p) == y & !mask4(p),
    ensures
        y & !mask4(q) >= x & !mask4(p),
        y | mask4(q) <= x | mask4(p),
{
    let m = mask4(p);
    let mm = mask4(q);
    if p == 0 {
        lemma_mask4_value(0);
        vstd::arithmetic::power2::lemma2_to64();
        assert(y & !mm >= x & !m && y | mm <= x | m) by (bit_vector)
            requires
                m == 0xffff_ffffu32,
                x & !m == y & !m,
        ;
    } else {
        let kp: u32 = (32 - p) as u32;
        let kq: u32 = (32 - q) as u32;
        lemma_mask4_value(p);
        lemma_mask4_value(q);
        vstd::arithmetic::power2::lemma_pow2_pos(kp as nat);
        vstd::arithmetic::power2::lemma_pow2_pos(kq as nat);
        if (kp as nat) < 32 {
            vstd::arithmetic::power2::lemma_pow2_strictly_increases(kp as nat, 32);
        }
        if (kq as nat) < 32 {
            vstd::arithmetic::power2::lemma_pow2_strictly_increases(kq as nat, 32);
        }
        vstd::arithmetic::power2::lemma2_to64();
        lemma_u32_shl_is_mul(1u32, kp);
        lemma_u32_shl_is_mul(1u32, kq);
        assert(y & !mm >= x & !m && y | mm <= x | m) by (bit_vector)
            requires
                kq <= kp < 32u32,
                m == (1u32 << kp) - 1,
                mm == (1u32 << kq) - 1,
                x & !m == y & !m,
        ;
    }
}

/// The V6 form of the same covering fact.
proof fn lemma_cover_v6(x: u128, y: u128, p: u32, q: u32)
    requires
        p <= q <= 128,
        x & !mask6(p) == y & !mask6(p),
    ensures
        y & !mask6(q) >= x & !mask6(p),
        y | mask6(q) <= x | mask6(p),
{
    let m = mask6(p);
    let mm = mask6(q);
    if p == 0 {
        lemma_mask6_value(0);
        crate::cidr::lemma_pow2_128();
        assert(y & !mm >= x & !m && y | mm <= x | m) by (bit_vector)
            requires
                m == 0xffff_ffff_ffff_ffff_ffff_ffff_ffff_ffffu128,
                x & !m == y & !m,
        ;
    } else {
        let kp: u32 = (128 - p) as u32;
        let kq: u32 = (128 - q) as u32;
        lemma_mask6_value(p);
        lemma_mask6_value(q);
        lemma_u128_shl1_is_pow2(kp as u128);
        lemma_u128_shl1_is_pow2(kq as u128);
        vstd::arithmetic::power2::lemma_pow2_pos(kp as nat);
        vstd::arithmetic::power2::lemma_pow2_pos(kq as nat);
        assert(y & !mm >= x & !m && y | mm <= x | m) by (bit_vector)
            requires
                kq <= kp < 128u32,
                m == (1u128 << (kp as u128)) - 1,
                mm == (1u128 << (kq as u128)) - 1,
                x & !m == y & !m,
        ;
    }
}

/// Taking the network address is idempotent, and the broadcast of a block's
/// network address is the block's broadcast.
proof fn lemma_network_idem(a: Addr, p: u32)
    ensures
        network_addr(network_addr(a, p), p) == network_addr(a, p),
        crate::cidr::broadcast_addr(network_addr(a, p), p) == crate::cidr::broadcast_addr(a, p),
{
    match a {
        Addr::V4(x) => {
            let m = mask4(p);
            assert((x & !m) & !m == x & !m && (x & !m) | m == x | m) by (bit_vector);
        },
        Addr::V6(x) => {
            let m = mask6(p);
            assert((x & !m) & !m == x & !m && (x & !m) | m == x | m) by (bit_vector);
        },
    }
}

/// An unbounded merge covers both of its parents.
proof fn lemma_merge_pair_covers(acc: Ip, cand: Ip)
    requires
        valid_ip(acc),
        valid_ip(cand),
        merge_pair(acc, cand, 0) is Some,
    ensures
        within_spec(merge_pair(acc, cand, 0)->0, acc),
        within_spec(merge_pair(acc, cand, 0)->0, cand),
        valid_ip(merge_pair(acc, cand, 0)->0),
{
    let start = merge_start(acc, cand, 0);
    let p = merge_prefix_at(acc.address, cand.address, start, 0)->0;
    lemma_merge_prefix_props(acc.address, cand.address, start, 0);
    let r = merge_pair(acc, cand, 0)->0;
    lemma_network_idem(acc.address, p);
    match (acc.address, cand.address) {
        (Addr::V4(x), Addr::V4(y)) => {
            lemma_cover_v4(x, x, p, acc.cidr);
            lemma_cover_v4(x, y, p, cand.cidr);
        },
        (Addr::V6(x), Addr::V6(y)) => {
            lemma_cover_v6(x, x, p, acc.cidr);
            lemma_cover_v6(x, y, p, cand.cidr);
        },
        _ => {
            assert(false);
        },
    }
}

/// The fold's result is a well-formed network.
proof fn lemma_scn_fold_valid(s: Seq<Ip>)
    requires
        forall|i: int| 0 <= i < s.len() ==> valid_ip(#[trigger] s[i]),
        scn_fold(s, 0) is Some,
    ensures
        valid_ip(scn_fold(s, 0)->0),
    decreases s.len(),
{
    if s.len() > 1 {
        lemma_scn_fold_valid(s.drop_last());
        let acc = scn_fold(s.drop_last(), 0)->0;
        lemma_merge_pair_covers(acc, s.last());
    }
}

/// The covering law: whenever the unbounded merge finds a common network,
/// every input lies within it.
pub proof fn lemma_common_network_covers(s: Seq<Ip>)
    requires
        forall|i: int| 0 <= i < s.len() ==> valid_ip(#[trigger] s[i]),
        scn_fold(s, 0) is Some,
    ensures
        forall|i: int| 0 <= i < s.len() ==> within_spec(scn_fold(s, 0)->0, #[trigger] s[i]),
    decreases s.len(),
{
    let r = scn_fold(s, 0)->0;
    if s.len() == 1 {
        assert(within_spec(r, s[0]));
    } else {
        let init = s.drop_last();
        lemma_common_network_covers(init);
        lemma_scn_fold_valid(init);
        let acc = scn_fold(init, 0)->0;
        lemma_merge_pair_covers(acc, s.last());
        assert forall|i: int| 0 <= i < s.len() implies within_spec(r, #[trigger] s[i]) by {
            if i < s.len() - 1 {
                assert(init[i] == s[i]);
                assert(within_spec(acc, s[i]));
                assert(within_spec(r, acc));
            }
        };
    }
}

} // verus!
