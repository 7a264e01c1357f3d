//! Text renderings of addresses: dotted decimal, canonical colon notation
//! with zero-run compression, decimal and signed decimal values, binary,
//! split binary, hex quads, and the reverse-zone ordering.

use vstd::prelude::*;

use crate::chars::{
    chars_to_string, digit_char, digit_char_of, fixed_digits, push_all, short_digits, to_fixed,
    to_short,
};
use crate::ip::{valid_ip, Addr, FormatMode, Ip};

verus! {

/// Octet `i` of a V4 address, octet 0 highest.
pub open spec fn v4_octet(n: u32, i: int) -> u32 {
    (n >> ((3 - i) * 8) as u32) & 0xff
}

/// Group `i` of a V6 address, group 0 highest.
pub open spec fn v6_group(n: u128, i: int) -> u128 {
    (n >> ((7 - i) * 16) as u128) & 0xffff
}

/// Dotted decimal form of a V4 address.
pub open spec fn v4_text(n: u32) -> Seq<char> {
    short_digits(v4_octet(n, 0) as nat, 10) + seq!['.'] + short_digits(v4_octet(n, 1) as nat, 10)
        + seq!['.'] + short_digits(v4_octet(n, 2) as nat, 10) + seq!['.'] + short_digits(
        v4_octet(n, 3) as nat,
        10,
    )
}

/// Number of consecutive zero groups of the V6 address starting at group `i`.
pub open spec fn zero_run_at(n: u128, i: int) -> int
    decreases 8 - i,
{
    if i < 0 || i >= 8 || v6_group(n, i) != 0 {
        0
    } else {
        1 + zero_run_at(n, i + 1)
    }
}

/// The leftmost longest zero run at or after group `i`: its start and length.
pub open spec fn best_zero_run(n: u128, i: int) -> (int, int)
    decreases 8 - i,
{
    if i >= 8 {
        (8, 0)
    } else {
        let l = zero_run_at(n, i);
        let rest = best_zero_run(n, i + 1);
        if l >= rest.1 {
            (i, l)
        } else {
            rest
        }
    }
}

/// Groups `from` to `to` of the V6 address in short hex, joined by colons.
pub open spec fn v6_groups_text(n: u128, from: int, to: int) -> Seq<char>
    decreases to - from,
{
    if from >= to {
        Seq::empty()
    } else if from == to - 1 {
        short_digits(v6_group(n, from) as nat, 16)
    } else {
        short_digits(v6_group(n, from) as nat, 16) + seq![':'] + v6_groups_text(n, from + 1, to)
    }
}

/// Canonical colon notation of a V6 address: short lower-case hex groups,
/// with the leftmost longest run of two or more zero groups folded to `::`.
pub open spec fn v6_text(n: u128) -> Seq<char> {
    let run = best_zero_run(n, 0);
    if run.1 >= 2 {
        v6_groups_text(n, 0, run.0) + seq![':'] + seq![':'] + v6_groups_text(n, run.0 + run.1, 8)
    } else {
        v6_groups_text(n, 0, 8)
    }
}

/// The plain text of an address: dotted decimal or colon notation.
pub open spec fn addr_text(a: Addr) -> Seq<char> {
    match a {
        Addr::V4(x) => v4_text(x),
        Addr::V6(x) => v6_text(x),
    }
}

/// The address value in decimal.
pub open spec fn int_text(a: Addr) -> Seq<char> {
    match a {
        Addr::V4(x) => short_digits(x as nat, 10),
        Addr::V6(x) => short_digits(x as nat, 10),
    }
}

/// The address's bit pattern reread as a signed value of the same width, in
/// decimal.
pub open spec fn signed_text(a: Addr) -> Seq<char> {
    match a {
        Addr::V4(x) => if x < 0x8000_0000u32 {
            short_digits(x as nat, 10)
        } else {
            seq!['-'] + short_digits((0x1_0000_0000 - x) as nat, 10)
        },
        Addr::V6(x) => if x < 0x8000_0000_0000_0000_0000_0000_0000_0000u128 {
            short_digits(x as nat, 10)
        } else {
            seq!['-'] + short_digits((0x1_0000_0000_0000_0000_0000_0000_0000_0000 - x) as nat, 10)
        },
    }
}

/// The address as a full-width binary string.
pub open spec fn bin_text(a: Addr) -> Seq<char> {
    match a {
        Addr::V4(x) => fixed_digits(x as nat, 2, 32),
        Addr::V6(x) => fixed_digits(x as nat, 2, 128),
    }
}

/// The binary string with one space after the prefix bits.
pub open spec fn bin_split_text(a: Addr, cidr: u32) -> Seq<char> {
    let b = bin_text(a);
    b.take(cidr as int) + seq![' '] + b.skip(cidr as int)
}

/// Hex quads `from` to 7 of the V6 address, zero-padded, joined by colons.
pub open spec fn hex_groups_text(n: u128, from: int) -> Seq<char>
    decreases 8 - from,
{
    if from >= 8 {
        Seq::empty()
    } else if from == 7 {
        fixed_digits(v6_group(n, from) as nat, 16, 4)
    } else {
        fixed_digits(v6_group(n, from) as nat, 16, 4) + seq![':'] + hex_groups_text(n, from + 1)
    }
}

/// Hex form: eight plain digits for V4, colon-grouped quads for V6.
pub open spec fn hex_text(a: Addr) -> Seq<char> {
    match a {
        Addr::V4(x) => fixed_digits(x as nat, 16, 8),
        Addr::V6(x) => hex_groups_text(x, 0),
    }
}

/// Reverse-zone tail of a V6 address: the low `i + 1` bytes, lowest byte
/// first, each as its low nibble then its high nibble, joined by dots.
pub open spec fn rbl6_text(n: u128, i: int) -> Seq<char>
    decreases i,
{
    let b = (n >> ((15 - i) * 8) as u128) & 0xff;
    let two = seq![digit_char((b & 0xf) as nat), '.', digit_char((b >> 4) as nat)];
    if i <= 0 {
        two
    } else {
        two + seq!['.'] + rbl6_text(n, i - 1)
    }
}

/// Reverse-zone ordering: reversed dotted octets for V4, reversed dotted
/// nibbles for V6.
pub open spec fn rbl_text(a: Addr) -> Seq<char> {
    match a {
        Addr::V4(x) => short_digits(v4_octet(x, 3) as nat, 10) + seq!['.'] + short_digits(
            v4_octet(x, 2) as nat,
            10,
        ) + seq!['.'] + short_digits(v4_octet(x, 1) as nat, 10) + seq!['.'] + short_digits(
            v4_octet(x, 0) as nat,
            10,
        ),
        Addr::V6(x) => rbl6_text(x, 15),
    }
}

/// One address value rendered in one mode; the mode set by a backslash
/// escape renders as nothing.
pub open spec fn formatted_text(ip: Ip, mode: FormatMode) -> Seq<char> {
    match mode {
        FormatMode::Text => addr_text(ip.address),
        FormatMode::Integer => int_text(ip.address),
        FormatMode::SignedInteger => signed_text(ip.address),
        FormatMode::Hex => hex_text(ip.address),
        FormatMode::SplitBinary => bin_split_text(ip.address, ip.cidr),
        FormatMode::Binary => bin_text(ip.address),
        FormatMode::Backslash => Seq::empty(),
    }
}

/// Writes one V4 octet in decimal.
fn v4_octet_chars(n: u32, i: u32) -> (r: Vec<char>)
    requires
        i < 4,
    ensures
        r@ == short_digits(v4_octet(n, i as int) as nat, 10),
{
    let o = (n >> ((3 - i) * 8)) & 0xff;
    to_short(o as u128, 10)
}

/// Dotted decimal form of a V4 address.
fn v4_text_chars(n: u32) -> (r: Vec<char>)
    ensures
        r@ == v4_text(n),
{
    let mut v = v4_octet_chars(n, 0);
    v.push('.');
    let o1 = v4_octet_chars(n, 1);
    push_all(&mut v, &o1);
    v.push('.');
    let o2 = v4_octet_chars(n, 2);
    push_all(&mut v, &o2);
    v.push('.');
    let o3 = v4_octet_chars(n, 3);
    push_all(&mut v, &o3);
    proof {
        assert(v@ =~= v4_text(n));
    }
    v
}

/// Reads one V6 group.
fn v6_group_of(n: u128, i: u32) -> (r: u128)
    requires
        i < 8,
    ensures
        r == v6_group(n, i as int),
{
    (n >> ((7 - i) * 16)) & 0xffff
}

/// Length of the zero run starting at group `i`.
fn zero_run_of(n: u128, i: u32) -> (r: u32)
    requires
        i <= 8,
    ensures
        r == zero_run_at(n, i as int),
        r <= 8 - i,
    decreases 8 - i,
{
    if i >= 8 {
        0
    } else if v6_group_of(n, i) != 0 {
        0
    } else {
        1 + zero_run_of(n, i + 1)
    }
}

/// The leftmost longest zero run at or after group `i`.
fn best_zero_run_of(n: u128, i: u32) -> (r: (u32, u32))
    requires
        i <= 8,
    ensures
        (r.0 as int, r.1 as int) == best_zero_run(n, i as int),
        r.0 + r.1 <= 8,
    decreases 8 - i,
{
    if i >= 8 {
        (8, 0)
    } else {
        let l = zero_run_of(n, i);
        let rest = best_zero_run_of(n, i + 1);
        if l >= rest.1 {
            (i, l)
        } else {
            rest
        }
    }
}

/// Groups `from` to `to` in short hex, joined by colons.
fn v6_groups_chars(n: u128, from: u32, to: u32) -> (r: Vec<char>)
    requires
        from <= 8,
        to <= 8,
    ensures
        r@ == v6_groups_text(n, from as int, to as int),
    decreases 8 - from,
{
    if from >= to {
        Vec::new()
    } else if from == to - 1 {
        to_short(v6_group_of(n, from), 16)
    } else {
        let mut v = to_short(v6_group_of(n, from), 16);
        v.push(':');
        let rest = v6_groups_chars(n, from + 1, to);
        push_all(&mut v, &rest);
        proof {
            assert(v@ =~= v6_groups_text(n, from as int, to as int));
        }
        v
    }
}

/// Canonical colon notation of a V6 address.
fn v6_text_chars(n: u128) -> (r: Vec<char>)
    ensures
        r@ == v6_text(n),
{
    let run = best_zero_run_of(n, 0);
    if run.1 >= 2 {
        let mut v = v6_groups_chars(n, 0, run.0);
        v.push(':');
        v.push(':');
        let tail = v6_groups_chars(n, run.0 + run.1, 8);
        push_all(&mut v, &tail);
        proof {
            assert(v@ =~= v6_text(n));
        }
        v
    } else {
        v6_groups_chars(n, 0, 8)
    }
}

/// The plain text of an address, as characters.
pub fn addr_text_chars(a: &Addr) -> (r: Vec<char>)
    ensures
        r@ == addr_text(*a),
{
    match a {
        Addr::V4(x) => v4_text_chars(*x),
        Addr::V6(x) => v6_text_chars(*x),
    }
}

/// The plain text of an address: dotted decimal for V4, canonical colon
/// notation for V6.
pub fn address_text(ip: &Ip) -> (r: String)
    ensures
        r@ == addr_text(ip.address),
{
    let v = addr_text_chars(&ip.address);
    chars_to_string(&v)
}

/// Hex quads of a V6 address from group `from` on.
fn hex_groups_chars(n: u128, from: u32) -> (r: Vec<char>)
    requires
        from <= 8,
    ensures
        r@ == hex_groups_text(n, from as int),
    decreases 8 - from,
{
    if from >= 8 {
        Vec::new()
    } else if from == 7 {
        to_fixed(v6_group_of(n, from), 16, 4)
    } else {
        let mut v = to_fixed(v6_group_of(n, from), 16, 4);
        v.push(':');
        let rest = hex_groups_chars(n, from + 1);
        push_all(&mut v, &rest);
        proof {
            assert(v@ =~= hex_groups_text(n, from as int));
        }
        v
    }
}

/// Reverse-zone nibbles of the low `i + 1` bytes, lowest byte first.
fn rbl6_chars(n: u128, i: u32) -> (r: Vec<char>)
    requires
        i < 16,
    ensures
        r@ == rbl6_text(n, i as int),
    decreases i,
{
    let sh: u128 = ((15 - i) as u128) * 8;
    let b: u128 = (n >> sh) & 0xff;
    proof {
        assert(b == (n >> ((15 - i) * 8) as u128) & 0xff);
        assert((n >> sh) & 0xffu128 <= 0xff && ((n >> sh) & 0xffu128) & 0xf < 16 && ((n >> sh)
            & 0xffu128) >> 4u128 < 16) by (bit_vector);
    }
    let mut v: Vec<char> = Vec::new();
    v.push(digit_char_of((b & 0xf) as u32));
    v.push('.');
    v.push(digit_char_of((b >> 4u128) as u32));
    if i == 0 {
        proof {
            assert(v@ =~= rbl6_text(n, 0));
        }
        v
    } else {
        v.push('.');
        let rest = rbl6_chars(n, i - 1);
        push_all(&mut v, &rest);
        proof {
            assert(v@ =~= rbl6_text(n, i as int));
        }
        v
    }
}

/// Reverse-zone ordering of the address, for PTR zone names.
pub fn rbl_format(ip: &Ip) -> (r: String)
    ensures
        r@ == rbl_text(ip.address),
{
    let v: Vec<char> = match ip.address {
        Addr::V4(x) => {
            let mut v = v4_octet_chars(x, 3);
            v.push('.');
            let o2 = v4_octet_chars(x, 2);
            push_all(&mut v, &o2);
            v.push('.');
            let o1 = v4_octet_chars(x, 1);
            push_all(&mut v, &o1);
            v.push('.');
            let o0 = v4_octet_chars(x, 0);
            push_all(&mut v, &o0);
            proof {
                assert(v@ =~= rbl_text(ip.address));
            }
            v
        },
        Addr::V6(x) => rbl6_chars(x, 15),
    };
    chars_to_string(&v)
}

/// One address value rendered in one mode, as characters.
pub fn formatted_chars(ip: &Ip, mode: &FormatMode) -> (r: Vec<char>)
    requires
        valid_ip(*ip),
    ensures
        r@ == formatted_text(*ip, *mode),
{
    match mode {
        FormatMode::Text => addr_text_chars(&ip.address),
        FormatMode::Integer => {
            let n: u128 = match ip.address {
                Addr::V4(x) => x as u128,
                Addr::V6(x) => x,
            };
            to_short(n, 10)
        },
        FormatMode::SignedInteger => {
            match ip.address {
                Addr::V4(x) => {
                    if x < 0x8000_0000u32 {
                        to_short(x as u128, 10)
                    } else {
                        let mut v: Vec<char> = Vec::new();
                        v.push('-');
                        let d = to_short(0x1_0000_0000u128 - x as u128, 10);
                        push_all(&mut v, &d);
                        proof {
                            assert(v@ =~= signed_text(ip.address));
                        }
                        v
                    }
                },
                Addr::V6(x) => {
                    if x < 0x8000_0000_0000_0000_0000_0000_0000_0000u128 {
                        to_short(x, 10)
                    } else {
                        let mut v: Vec<char> = Vec::new();
                        v.push('-');
                        let d = to_short((u128::MAX - x) + 1, 10);
                        push_all(&mut v, &d);
                        proof {
                            assert(v@ =~= signed_text(ip.address));
                        }
                        v
                    }
                },
            }
        },
        FormatMode::Hex => {
            match ip.address {
                Addr::V4(x) => to_fixed(x as u128, 16, 8),
                Addr::V6(x) => hex_groups_chars(x, 0),
            }
        },
        FormatMode::SplitBinary => {
            let b = match ip.address {
                Addr::V4(x) => to_fixed(x as u128, 2, 32),
                Addr::V6(x) => to_fixed(x, 2, 128),
            };
            let mut v: Vec<char> = Vec::new();
            let mut i: usize = 0;
            let cut = ip.cidr as usize;
            while i < b.len()
                invariant
                    i <= b@.len(),
                    cut <= b@.len(),
                    v@ == if i <= cut {
                        b@.take(i as int)
                    } else {
                        b@.take(cut as int) + seq![' '] + b@.subrange(cut as int, i as int)
                    },
                decreases b@.len() - i,
            {
                if i == cut {
                    v.push(' ');
                }
                v.push(b[i]);
                proof {
                    if i + 1 <= cut {
                        assert(b@.take(i + 1) =~= b@.take(i as int).push(b@[i as int]));
                    } else if i == cut {
                        assert(b@.take(cut as int) + seq![' '] + b@.subrange(cut as int, i + 1)
                            =~= (b@.take(i as int) + seq![' ']).push(b@[i as int]));
                    } else {
                        assert(b@.take(cut as int) + seq![' '] + b@.subrange(cut as int, i + 1)
                            =~= (b@.take(cut as int) + seq![' '] + b@.subrange(
                            cut as int,
                            i as int,
                        )).push(b@[i as int]));
                    }
                }
                i += 1;
            }
            if cut == b.len() {
                v.push(' ');
                proof {
                    assert(b@.take(cut as int) =~= b@);
                    assert(b@.skip(cut as int) =~= Seq::<char>::empty());
                    assert(v@ =~= bin_split_text(ip.address, ip.cidr));
                }
            } else {
                proof {
                    assert(b@.take(b@.len() as int) =~= b@);
                    assert(v@ =~= bin_split_text(ip.address, ip.cidr));
                }
            }
            v
        },
        FormatMode::Binary => {
            match ip.address {
                Addr::V4(x) => to_fixed(x as u128, 2, 32),
                Addr::V6(x) => to_fixed(x, 2, 128),
            }
        },
        FormatMode::Backslash => Vec::new(),
    }
}

/// One address value rendered in one mode.
pub fn formatted_address(ip: &Ip, mode: &FormatMode) -> (r: String)
    requires
        valid_ip(*ip),
    ensures
        r@ == formatted_text(*ip, *mode),
{
    let v = formatted_chars(ip, mode);
    chars_to_string(&v)
}

} // verus!
