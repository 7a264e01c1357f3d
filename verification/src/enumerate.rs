//! The lazy address enumerator: an ascending, finite walk over one network,
//! yielding hosts one by one, or sub-blocks when a stride prefix is given,
//! skipping addresses found in an optional exclusion list.

use vstd::prelude::*;
use vstd::arithmetic::mul::{
    lemma_mul_inequality, lemma_mul_is_distributive_add_other_way,
    lemma_mul_strict_inequality_converse,
};
use vstd::arithmetic::power2::{lemma_pow2_adds, pow2};

use crate::cidr::{
    broadcast, broadcast_addr, lemma_network_broadcast_bounds, lemma_u128_shl1_is_pow2, network,
    network_addr,
};
use crate::ip::{addr_val, addr_width, host_len, valid_ip, Addr, Ip};

verus! {

/// One cursor walking a network. `cursor` is the raw value of the next slot,
/// `limit` the first raw value past the walk (the broadcast is included for
/// V4 hosts and excluded for V6 hosts), `step` the slot width.
pub struct AddressIter<'a> {
    pub cursor: u128,
    pub limit: u128,
    pub step: u128,
    pub cidr: u32,
    pub is_v6: bool,
    pub stride_mode: bool,
    pub used: Option<&'a Vec<Addr>>,
    pub base: Ghost<Ip>,
    pub pos: Ghost<nat>,
}

/// An address of the iterator's family built from a raw value.
pub open spec fn addr_from(v6: bool, v: int) -> Addr {
    if v6 {
        Addr::V6(v as u128)
    } else {
        Addr::V4(v as u32)
    }
}

/// Raw value of the network address the iterator walks.
pub open spec fn iter_net(it: AddressIter) -> int {
    addr_val(network_addr(it.base@.address, it.base@.cidr)) as int
}

/// Raw value of the broadcast address the iterator walks towards.
pub open spec fn iter_bc(it: AddressIter) -> int {
    addr_val(broadcast_addr(it.base@.address, it.base@.cidr)) as int
}

/// Raw value at which slot `j` starts.
pub open spec fn slot_val(it: AddressIter, j: nat) -> int {
    iter_net(it) + j * it.step
}

/// Slot `j` still lies before the walk's limit.
pub open spec fn valid_slot(it: AddressIter, j: nat) -> bool {
    slot_val(it, j) < it.limit
}

/// Raw value the exclusion list is probed at for slot `j`: the slot's last
/// address (the address itself when walking hosts).
pub open spec fn probe_val(it: AddressIter, j: nat) -> int {
    slot_val(it, j) + it.step - 1
}

/// The address the exclusion list is probed at for slot `j`.
pub open spec fn probe_addr(it: AddressIter, j: nat) -> Addr {
    addr_from(it.is_v6, probe_val(it, j))
}

/// Slot `j` is suppressed by the exclusion list.
pub open spec fn excluded(it: AddressIter, j: nat) -> bool {
    match it.used {
        Some(v) => v@.contains(probe_addr(it, j)),
        None => false,
    }
}

/// The network yielded for slot `j`: the probed host itself, or the probe
/// renormalized to its sub-block's network address in stride mode.
pub open spec fn yielded_ip(it: AddressIter, j: nat) -> Ip {
    if it.stride_mode {
        Ip { address: network_addr(probe_addr(it, j), it.cidr), cidr: it.cidr }
    } else {
        Ip { address: probe_addr(it, j), cidr: it.cidr }
    }
}

/// One `next` call found slot `j`: every slot from the starting position up
/// to `j` was excluded, slot `j` itself is valid and not excluded, `ip` is
/// its rendering and the cursor has moved just past it.
pub open spec fn found_slot(pre: AddressIter, post: AddressIter, j: nat, ip: Ip) -> bool {
    &&& pre.pos@ <= j
    &&& valid_slot(pre, j)
    &&& !excluded(pre, j)
    &&& (forall|k: nat| pre.pos@ <= k < j ==> excluded(pre, k))
    &&& post.pos@ == j + 1
    &&& ip == yielded_ip(pre, j)
}

/// Well-formedness of the cursor state.
pub open spec fn iter_inv(it: AddressIter) -> bool {
    let ip = it.base@;
    let w = addr_width(ip.address);
    &&& valid_ip(ip)
    &&& (ip.address is V6 <==> it.is_v6)
    &&& it.limit == iter_bc(it) + if it.is_v6 {
        0int
    } else {
        1int
    }
    &&& if it.stride_mode {
        &&& ip.cidr <= it.cidr <= w
        &&& w - it.cidr < 128
        &&& it.step == pow2((w - it.cidr) as nat)
    } else {
        &&& it.cidr == ip.cidr
        &&& it.step == 1
    }
    &&& it.cursor == if slot_val(it, it.pos@) < it.limit {
        slot_val(it, it.pos@)
    } else {
        it.limit as int
    }
}

/// The fields fixed over the iterator's lifetime are unchanged.
pub open spec fn iter_framed(a: AddressIter, b: AddressIter) -> bool {
    &&& a.limit == b.limit
    &&& a.step == b.step
    &&& a.cidr == b.cidr
    &&& a.is_v6 == b.is_v6
    &&& a.stride_mode == b.stride_mode
    &&& a.used == b.used
    &&& a.base == b.base
}

/// Bounds of a valid slot: it starts at or after the network address and its
/// probe does not pass the broadcast address.
proof fn lemma_slot_bounds(it: AddressIter, j: nat)
    requires
        iter_inv(it),
        valid_slot(it, j),
    ensures
        slot_val(it, j) >= iter_net(it),
        probe_val(it, j) <= iter_bc(it),
{
    let ip = it.base@;
    let w = addr_width(ip.address);
    let hl = host_len(ip);
    let ls: nat = if it.stride_mode {
        (w - it.cidr) as nat
    } else {
        0
    };
    lemma_network_broadcast_bounds(ip);
    vstd::arithmetic::power2::lemma2_to64();
    assert(iter_bc(it) == iter_net(it) + pow2(hl) - 1);
    assert(it.step == pow2(ls));
    lemma_pow2_adds((hl - ls) as nat, ls);
    vstd::arithmetic::mul::lemma_mul_nonnegative(j as int, it.step as int);
    // j * 2^ls < 2^(hl - ls) * 2^ls, so j < 2^(hl - ls)
    assert(j * it.step < pow2(hl));
    lemma_mul_strict_inequality_converse(
        j as int,
        pow2((hl - ls) as nat) as int,
        pow2(ls) as int,
    );
    // hence (j + 1) * 2^ls <= 2^hl
    lemma_mul_inequality(j as int + 1, pow2((hl - ls) as nat) as int, pow2(ls) as int);
    lemma_mul_is_distributive_add_other_way(pow2(ls) as int, j as int, 1);
}

/// Later slots never move backwards.
proof fn lemma_slot_monotone(it: AddressIter, j: nat, k: nat)
    requires
        j <= k,
    ensures
        slot_val(it, j) <= slot_val(it, k),
{
    lemma_mul_inequality(j as int, k as int, it.step as int);
}

/// Linear scan of the exclusion list.
fn contains_addr(v: &Vec<Addr>, a: &Addr) -> (r: bool)
    ensures
        r == v@.contains(*a),
{
    let mut i: usize = 0;
    while i < v.len()
        invariant
            i <= v@.len(),
            forall|k: int| 0 <= k < i ==> v@[k] != *a,
        decreases v@.len() - i,
    {
        if v[i] == *a {
            return true;
        }
        i += 1;
    }
    false
}

impl<'a> AddressIter<'a> {
    /// Yields the next unexcluded slot in ascending order, or `None` when
    /// every remaining slot is excluded or the walk is finished.
    pub fn next(&mut self) -> (r: Option<Ip>)
        requires
            iter_inv(*old(self)),
        ensures
            iter_inv(*final(self)),
            iter_framed(*old(self), *final(self)),
            old(self).pos@ <= final(self).pos@,
            r is None ==> forall|j: nat|
                old(self).pos@ <= j && valid_slot(*old(self), j) ==> excluded(*old(self), j),
            r matches Some(ip) ==> exists|j: nat|
                #[trigger] found_slot(*old(self), *final(self), j, ip),
    {
        let ghost orig = *old(self);
        loop
            invariant
                orig == *old(self),
                iter_inv(*self),
                iter_framed(orig, *self),
                orig.pos@ <= self.pos@,
                forall|k: nat| orig.pos@ <= k < self.pos@ ==> excluded(orig, k),
            decreases it_fuel(*self),
        {
            if self.cursor >= self.limit {
                proof {
                    assert forall|j: nat|
                        orig.pos@ <= j && valid_slot(orig, j) implies excluded(orig, j) by {
                        if j >= self.pos@ {
                            lemma_slot_monotone(orig, self.pos@, j);
                            assert(slot_val(*self, self.pos@) == slot_val(orig, self.pos@));
                            assert(false);
                        }
                    };
                }
                return None;
            }
            let ghost j = self.pos@;
            proof {
                assert(slot_val(*self, j) < self.limit);
                assert(self.cursor == slot_val(*self, j));
                lemma_slot_bounds(*self, j);
                match self.base@.address {
                    Addr::V4(_) => assert(iter_bc(*self) <= u32::MAX),
                    Addr::V6(_) => assert(iter_bc(*self) <= u128::MAX),
                }
            }
            let cur = self.cursor;
            proof {
                if self.stride_mode {
                    vstd::arithmetic::power2::lemma_pow2_pos(
                        (addr_width(self.base@.address) - self.cidr) as nat,
                    );
                }
                assert(cur + self.step - 1 == probe_val(*self, j));
            }
            // the probe: last address of the slot (the address itself for hosts)
            let probe = cur + (self.step - 1);
            let probe_a = if self.is_v6 {
                Addr::V6(probe)
            } else {
                Addr::V4(probe as u32)
            };
            proof {
                assert(probe_a == probe_addr(*self, j));
            }
            // advance the cursor, clamping at the limit so the walk's end
            // never needs a value past the raw space
            let remaining = self.limit - cur;
            if remaining <= self.step {
                self.cursor = self.limit;
            } else {
                self.cursor = cur + self.step;
            }
            proof {
                self.pos@ = j + 1;
                assert(slot_val(*self, (j + 1) as nat) == slot_val(orig, j) + self.step) by {
                    lemma_mul_is_distributive_add_other_way(self.step as int, j as int, 1);
                };
            }
            let skip = match self.used {
                Some(v) => contains_addr(v, &probe_a),
                None => false,
            };
            if skip {
                continue ;
            }
            let out = if self.stride_mode {
                let host = Ip { address: probe_a, cidr: self.cidr };
                Some(network(&host))
            } else {
                Some(Ip { address: probe_a, cidr: self.cidr })
            };
            proof {
                assert(out == Some(yielded_ip(orig, j)));
                assert(found_slot(orig, *self, j, yielded_ip(orig, j)));
            }
            return out;
        }
    }
}

/// Termination measure of one `next` call: raw distance left to the limit.
pub open spec fn it_fuel(it: AddressIter) -> int {
    it.limit - it.cursor
}

/// Starts a walk over `ip`'s network: one host per address from network to
/// broadcast (the V6 walk stops just short of the broadcast), or one
/// sub-block of prefix `mask` per step when a stride is given. Addresses in
/// `used` are filtered out, not yielded.
pub fn addresses<'a>(ip: &Ip, used: Option<&'a Vec<Addr>>, mask: Option<u32>) -> (r: AddressIter<
    'a,
>)
    requires
        valid_ip(*ip),
        mask matches Some(m) ==> ip.cidr <= m <= addr_width(ip.address) && addr_width(ip.address)
            - m < 128,
    ensures
        iter_inv(r),
        r.base@ == *ip,
        r.pos@ == 0,
        r.used == used,
        r.stride_mode == mask is Some,
        r.cidr == if mask is Some {
            mask->0
        } else {
            ip.cidr
        },
{
    let b = broadcast(ip);
    let n = network(ip);
    let netv: u128 = match n.address {
        Addr::V4(x) => x as u128,
        Addr::V6(x) => x,
    };
    let bcv: u128 = match b.address {
        Addr::V4(x) => x as u128,
        Addr::V6(x) => x,
    };
    let is_v6 = match ip.address {
        Addr::V4(_) => false,
        Addr::V6(_) => true,
    };
    let limit = if is_v6 {
        bcv
    } else {
        bcv + 1
    };
    let (step, cidr, stride_mode): (u128, u32, bool) = match mask {
        Some(m) => {
            let k = if is_v6 {
                128 - m
            } else {
                32 - m
            };
            proof {
                lemma_u128_shl1_is_pow2(k as u128);
            }
            (1u128 << k, m, true)
        },
        None => (1u128, ip.cidr, false),
    };
    let r = AddressIter {
        cursor: netv,
        limit,
        step,
        cidr,
        is_v6,
        stride_mode,
        used,
        base: Ghost(*ip),
        pos: Ghost(0),
    };
    proof {
        lemma_network_broadcast_bounds(*ip);
    }
    r
}

} // verus!
