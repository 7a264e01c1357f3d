//! The parser: text to addresses. Dotted decimal and colon notation,
//! arbitrary radix forms, the byte and nibble reversals of reverse-zone
//! input, and the address-with-prefix form.

use vstd::prelude::*;
use vstd::arithmetic::mul::lemma_mul_inequality;

use crate::chars::{parse_uint, radix_num, radix_val, str_to_chars};
use crate::ip::{Addr, Ip};

verus! {

/// Index of the first occurrence of `c`, or the length when absent.
pub open spec fn first_idx(s: Seq<char>, c: char) -> int
    decreases s.len(),
{
    if s.len() == 0 {
        0
    } else if s[0] == c {
        0
    } else {
        1 + first_idx(s.skip(1), c)
    }
}

/// What `first_idx` finds: the leftmost occurrence, or the length.
pub proof fn lemma_first_idx(s: Seq<char>, c: char)
    ensures
        0 <= first_idx(s, c) <= s.len(),
        first_idx(s, c) < s.len() ==> s[first_idx(s, c)] == c,
        forall|j: int| 0 <= j < first_idx(s, c) ==> s[j] != c,
    decreases s.len(),
{
    if s.len() > 0 && s[0] != c {
        lemma_first_idx(s.skip(1), c);
        let i = first_idx(s, c);
        assert forall|j: int| 0 <= j < i implies s[j] != c by {
            if j > 0 {
                assert(s.skip(1)[j - 1] == s[j]);
            }
        };
        if i < s.len() {
            assert(s.skip(1)[i - 1] == s[i]);
        }
    }
}

/// The parts of `s` between occurrences of `c`; one part when `c` is absent.
pub open spec fn split_char(s: Seq<char>, c: char) -> Seq<Seq<char>>
    decreases s.len(),
    via split_char_dec
{
    let i = first_idx(s, c);
    if i >= s.len() {
        seq![s]
    } else {
        seq![s.take(i)] + split_char(s.skip(i + 1), c)
    }
}

#[via_fn]
proof fn split_char_dec(s: Seq<char>, c: char) {
    lemma_first_idx(s, c);
}

/// Finds the first occurrence of `c`.
pub fn find_char(v: &Vec<char>, from: usize, c: char) -> (r: usize)
    requires
        from <= v@.len(),
    ensures
        r - from == first_idx(v@.skip(from as int), c),
        from <= r <= v@.len(),
        r < v@.len() ==> v@[r as int] == c,
        forall|j: int| from <= j < r ==> v@[j] != c,
{
    let ghost tail = v@.skip(from as int);
    proof {
        lemma_first_idx(tail, c);
    }
    let mut i = from;
    while i < v.len()
        invariant
            from <= i <= v@.len(),
            tail == v@.skip(from as int),
            forall|j: int| from <= j < i ==> v@[j] != c,
        decreases v@.len() - i,
    {
        if v[i] == c {
            proof {
                lemma_first_idx(tail, c);
                assert(tail[i - from] == v@[i as int]);
                let f = first_idx(tail, c);
                if f < i - from {
                    assert(v@[f + from] == tail[f]);
                    assert(false);
                }
                assert forall|j: int| 0 <= j < i - from implies tail[j] != c by {
                    assert(tail[j] == v@[j + from]);
                };
            }
            return i;
        }
        i += 1;
    }
    proof {
        lemma_first_idx(tail, c);
        let f = first_idx(tail, c);
        if f < tail.len() {
            assert(v@[f + from] == tail[f]);
            assert(false);
        }
    }
    i
}

/// Copies the characters of `v` between `from` and `to`.
pub fn slice_chars(v: &Vec<char>, from: usize, to: usize) -> (r: Vec<char>)
    requires
        from <= to <= v@.len(),
    ensures
        r@ == v@.subrange(from as int, to as int),
{
    let mut out: Vec<char> = Vec::new();
    let mut i = from;
    while i < to
        invariant
            from <= i <= to <= v@.len(),
            out@ == v@.subrange(from as int, i as int),
        decreases to - i,
    {
        out.push(v[i]);
        proof {
            assert(v@.subrange(from as int, i + 1) =~= v@.subrange(from as int, i as int).push(
                v@[i as int],
            ));
        }
        i += 1;
    }
    out
}

/// V4 byte reversal: the four octets in the opposite order.
pub open spec fn rev4_spec(x: u32) -> u32 {
    ((x >> 24) & 0xff) | (((x >> 16) & 0xff) << 8) | (((x >> 8) & 0xff) << 16) | ((x & 0xff) << 24)
}

/// Reverses the octet order of a V4 address.
pub fn rev4(x: u32) -> (r: u32)
    ensures
        r == rev4_spec(x),
{
    ((x >> 24) & 0xff) | (((x >> 16) & 0xff) << 8) | (((x >> 8) & 0xff) << 16) | ((x & 0xff) << 24)
}

/// The V4 byte reversal is self-inverse.
pub proof fn lemma_rev4_self_inverse(x: u32)
    ensures
        rev4_spec(rev4_spec(x)) == x,
{
    assert(rev4_spec(rev4_spec(x)) == x) by (bit_vector);
}

/// One byte with its two nibbles swapped.
pub open spec fn nib_swap(b: u128) -> u128 {
    ((b & 0x0f) << 4) | ((b & 0xf0) >> 4)
}

/// V6 reversal for reverse-zone input: the sixteen bytes in the opposite
/// order, each with its nibbles swapped.
pub open spec fn rev6_spec(x: u128) -> u128 {
    (nib_swap((x >> 120) & 0xff) << 0) | (nib_swap((x >> 112) & 0xff) << 8) | (nib_swap(
        (x >> 104) & 0xff,
    ) << 16) | (nib_swap((x >> 96) & 0xff) << 24) | (nib_swap((x >> 88) & 0xff) << 32) | (nib_swap(
        (x >> 80) & 0xff,
    ) << 40) | (nib_swap((x >> 72) & 0xff) << 48) | (nib_swap((x >> 64) & 0xff) << 56) | (nib_swap(
        (x >> 56) & 0xff,
    ) << 64) | (nib_swap((x >> 48) & 0xff) << 72) | (nib_swap((x >> 40) & 0xff) << 80) | (nib_swap(
        (x >> 32) & 0xff,
    ) << 88) | (nib_swap((x >> 24) & 0xff) << 96) | (nib_swap((x >> 16) & 0xff) << 104) | (
    nib_swap((x >> 8) & 0xff) << 112) | (nib_swap(x & 0xff) << 120)
}

/// One byte of a V6 value, taken at a bit offset.
fn byte_at(x: u128, sh: u128) -> (r: u128)
    requires
        sh <= 120,
    ensures
        r == (x >> sh) & 0xff,
        r <= 0xff,
{
    proof {
        assert((x >> sh) & 0xffu128 <= 0xff) by (bit_vector);
    }
    (x >> sh) & 0xff
}

/// Reverses byte order and swaps the nibbles of every byte.
pub fn rev6(x: u128) -> (r: u128)
    ensures
        r == rev6_spec(x),
{
    proof {
        assert(((x >> 0u128) & 0xff) == (x & 0xff)) by (bit_vector);
    }
    let r = (nib_swap_x(byte_at(x, 120)) << 0) | (nib_swap_x(byte_at(x, 112)) << 8) | (nib_swap_x(
        byte_at(x, 104),
    ) << 16) | (nib_swap_x(byte_at(x, 96)) << 24) | (nib_swap_x(byte_at(x, 88)) << 32) | (
    nib_swap_x(byte_at(x, 80)) << 40) | (nib_swap_x(byte_at(x, 72)) << 48) | (nib_swap_x(
        byte_at(x, 64),
    ) << 56) | (nib_swap_x(byte_at(x, 56)) << 64) | (nib_swap_x(byte_at(x, 48)) << 72) | (
    nib_swap_x(byte_at(x, 40)) << 80) | (nib_swap_x(byte_at(x, 32)) << 88) | (nib_swap_x(
        byte_at(x, 24),
    ) << 96) | (nib_swap_x(byte_at(x, 16)) << 104) | (nib_swap_x(byte_at(x, 8)) << 112) | (
    nib_swap_x(byte_at(x, 0)) << 120);
    r
}

/// Swaps the nibbles of one byte value.
fn nib_swap_x(b: u128) -> (r: u128)
    requires
        b <= 0xff,
    ensures
        r == nib_swap(b),
        r <= 0xff,
{
    proof {
        assert(((b & 0x0f) << 4) | ((b & 0xf0) >> 4u128) <= 0xff) by (bit_vector)
            requires
                b <= 0xffu128,
        ;
    }
    ((b & 0x0f) << 4) | ((b & 0xf0) >> 4)
}

/// The V6 reverse-then-nibble-swap is self-inverse.
pub proof fn lemma_rev6_self_inverse(x: u128)
    ensures
        rev6_spec(rev6_spec(x)) == x,
{
    assert(rev6_spec(rev6_spec(x)) == x) by (bit_vector);
}

/// The number a prefix-length string denotes: decimal with an optional
/// leading plus sign.
pub open spec fn mask_num(s: Seq<char>) -> Option<nat> {
    radix_num(s, 10, true)
}

/// Reads a prefix length: a decimal number that fits the type.
pub fn parse_mask(mask: &str) -> (r: Option<u32>)
    ensures
        r matches Some(v) ==> mask_num(mask@) == Some(v as nat),
        r is None ==> !(mask_num(mask@) matches Some(v) && v <= u32::MAX),
{
    let chars = str_to_chars(mask);
    proof {
        assert(chars@.skip(0) =~= chars@);
    }
    match parse_uint(&chars, 0, 10, true) {
        Some(v) => {
            if v <= u32::MAX as u128 {
                Some(v as u32)
            } else {
                None
            }
        },
        None => None,
    }
}

/// The views of a list of character vectors.
pub open spec fn views_of(ps: Seq<Vec<char>>) -> Seq<Seq<char>> {
    ps.map_values(|p: Vec<char>| p@)
}

/// Splits on every occurrence of `c`.
pub fn split_all(v: &Vec<char>, c: char) -> (parts: Vec<Vec<char>>)
    ensures
        views_of(parts@) == split_char(v@, c),
        forall|i: int| 0 <= i < parts@.len() ==> (#[trigger] parts@[i])@ == split_char(v@, c)[i],
{
    let mut parts: Vec<Vec<char>> = Vec::new();
    let mut pos: usize = 0;
    proof {
        assert(v@.skip(0) =~= v@);
    }
    loop
        invariant
            pos <= v@.len(),
            split_char(v@, c) == views_of(parts@) + split_char(v@.skip(pos as int), c),
        decreases v@.len() - pos,
    {
        let d = find_char(v, pos, c);
        let part = slice_chars(v, pos, d);
        proof {
            lemma_first_idx(v@.skip(pos as int), c);
            assert(v@.skip(pos as int).take(d - pos) =~= v@.subrange(pos as int, d as int));
        }
        parts.push(part);
        proof {
            assert(views_of(parts@) =~= views_of(parts@.drop_last()).push(part@));
        }
        if d == v.len() {
            proof {
                assert(split_char(v@.skip(pos as int), c) =~= seq![v@.subrange(
                    pos as int,
                    d as int,
                )]);
                assert(views_of(parts@) + split_char(v@.skip(d as int), c).skip(1) =~= views_of(
                    parts@,
                ));
                assert(split_char(v@, c) =~= views_of(parts@));
            }
            return parts;
        }
        proof {
            assert(v@.skip(pos as int).skip(d - pos + 1) =~= v@.skip(d + 1));
            assert(views_of(parts@) + split_char(v@.skip(d + 1), c) =~= split_char(v@, c));
        }
        pos = d + 1;
    }
}

/// One octet of dotted decimal: up to three digits, no leading zero, value
/// at most 255.
pub open spec fn octet_str(s: Seq<char>) -> Option<u32> {
    match radix_val(s, 10) {
        Some(v) => if v <= 255 && (s.len() > 1 ==> s[0] != '0') {
            Some(v as u32)
        } else {
            None
        },
        None => None,
    }
}

/// The 32-bit value of four byte values, highest first.
pub open spec fn quad_val(b0: u32, b1: u32, b2: u32, b3: u32) -> u32
    recommends
        b0 <= 255 && b1 <= 255 && b2 <= 255 && b3 <= 255,
{
    (b0 * 0x1000000 + b1 * 0x10000 + b2 * 0x100 + b3) as u32
}

/// Standard dotted decimal: exactly four octets separated by dots.
pub open spec fn dotted_quad(s: Seq<char>) -> Option<u32> {
    let ps = split_char(s, '.');
    if ps.len() == 4 {
        match (octet_str(ps[0]), octet_str(ps[1]), octet_str(ps[2]), octet_str(ps[3])) {
            (Some(b0), Some(b1), Some(b2), Some(b3)) => Some(quad_val(b0, b1, b2, b3)),
            _ => None,
        }
    } else {
        None
    }
}

/// Reads one part as an octet of dotted decimal.
fn parse_octet(p: &Vec<char>) -> (r: Option<u32>)
    ensures
        r == octet_str(p@),
{
    match parse_uint(p, 0, 10, false) {
        Some(v) => {
            proof {
                assert(p@.skip(0) =~= p@);
            }
            if v <= 255 && !(p.len() > 1 && p[0] == '0') {
                Some(v as u32)
            } else {
                None
            }
        },
        None => {
            proof {
                assert(p@.skip(0) =~= p@);
            }
            None
        },
    }
}

/// Reads standard dotted decimal.
fn parse_dotted_quad(v: &Vec<char>) -> (r: Option<u32>)
    ensures
        r == dotted_quad(v@),
{
    let parts = split_all(v, '.');
    if parts.len() != 4 {
        return None;
    }
    let b0 = match parse_octet(&parts[0]) {
        Some(b) => b,
        None => {
            return None;
        },
    };
    let b1 = match parse_octet(&parts[1]) {
        Some(b) => b,
        None => {
            return None;
        },
    };
    let b2 = match parse_octet(&parts[2]) {
        Some(b) => b,
        None => {
            return None;
        },
    };
    let b3 = match parse_octet(&parts[3]) {
        Some(b) => b,
        None => {
            return None;
        },
    };
    Some(b0 * 0x1000000 + b1 * 0x10000 + b2 * 0x100 + b3)
}

/// Two-character chunks of the text, a shorter final chunk kept.
pub open spec fn chunks2(s: Seq<char>) -> Seq<Seq<char>>
    decreases s.len(),
{
    if s.len() == 0 {
        Seq::empty()
    } else if s.len() <= 2 {
        seq![s]
    } else {
        seq![s.take(2)] + chunks2(s.skip(2))
    }
}

/// Splits into two-character chunks.
fn chunks2_of(v: &Vec<char>) -> (parts: Vec<Vec<char>>)
    ensures
        views_of(parts@) == chunks2(v@),
        forall|i: int| 0 <= i < parts@.len() ==> (#[trigger] parts@[i])@ == chunks2(v@)[i],
{
    let mut parts: Vec<Vec<char>> = Vec::new();
    let mut pos: usize = 0;
    proof {
        assert(v@.skip(0) =~= v@);
        assert(views_of(parts@) + chunks2(v@) =~= chunks2(v@));
    }
    while pos < v.len()
        invariant
            pos <= v@.len(),
            chunks2(v@) == views_of(parts@) + chunks2(v@.skip(pos as int)),
        decreases v@.len() - pos,
    {
        let upto = if v.len() - pos <= 2 {
            v.len()
        } else {
            pos + 2
        };
        let part = slice_chars(v, pos, upto);
        parts.push(part);
        proof {
            let tail = v@.skip(pos as int);
            if tail.len() <= 2 {
                assert(tail =~= v@.subrange(pos as int, upto as int));
                assert(chunks2(v@.skip(upto as int)) =~= Seq::<Seq<char>>::empty());
            } else {
                assert(tail.take(2) =~= v@.subrange(pos as int, upto as int));
                assert(tail.skip(2) =~= v@.skip(upto as int));
            }
            assert(views_of(parts@) =~= views_of(parts@.drop_last()).push(part@));
            assert(views_of(parts@) + chunks2(v@.skip(upto as int)) =~= chunks2(v@));
        }
        pos = upto;
    }
    proof {
        assert(chunks2(v@.skip(pos as int)) =~= Seq::<Seq<char>>::empty());
        assert(views_of(parts@) + chunks2(v@.skip(pos as int)) =~= views_of(parts@));
    }
    parts
}

/// The byte values of the parts, each read in the base with an optional
/// plus sign, each at most 255.
pub open spec fn bytes_of_parts(ps: Seq<Seq<char>>, base: u32) -> Option<Seq<u32>>
    decreases ps.len(),
{
    if ps.len() == 0 {
        Some(Seq::empty())
    } else {
        match (bytes_of_parts(ps.drop_last(), base), radix_num(ps.last(), base, true)) {
            (Some(bs), Some(v)) => if v <= 255 {
                Some(bs.push(v as u32))
            } else {
                None
            },
            _ => None,
        }
    }
}

/// A failed part never recovers.
proof fn lemma_bytes_none(ps: Seq<Seq<char>>, base: u32, k: int)
    requires
        0 <= k <= ps.len(),
        bytes_of_parts(ps.take(k), base) is None,
    ensures
        bytes_of_parts(ps, base) is None,
    decreases ps.len() - k,
{
    if k == ps.len() {
        assert(ps.take(k) =~= ps);
    } else {
        assert(ps.take(k + 1).drop_last() =~= ps.take(k));
        lemma_bytes_none(ps, base, k + 1);
    }
}

/// Reads every part as one byte of the base.
fn parse_parts_bytes(parts: &Vec<Vec<char>>, base: u32) -> (r: Option<Vec<u32>>)
    requires
        2 <= base <= 36,
    ensures
        r matches Some(bs) ==> bytes_of_parts(views_of(parts@), base) == Some(bs@) && bs@.len()
            == parts@.len() && forall|i: int| 0 <= i < bs@.len() ==> #[trigger] bs@[i] <= 255,
        r is None ==> bytes_of_parts(views_of(parts@), base) is None,
{
    let ghost ps = views_of(parts@);
    let mut bs: Vec<u32> = Vec::new();
    let mut i: usize = 0;
    proof {
        assert(ps.take(0) =~= Seq::<Seq<char>>::empty());
    }
    while i < parts.len()
        invariant
            i <= parts@.len(),
            ps == views_of(parts@),
            2 <= base <= 36,
            Some(bs@) == bytes_of_parts(ps.take(i as int), base),
            bs@.len() == i,
            forall|t: int| 0 <= t < bs@.len() ==> #[trigger] bs@[t] <= 255,
        decreases parts@.len() - i,
    {
        proof {
            assert(ps.take(i + 1).drop_last() =~= ps.take(i as int));
            assert(ps.take(i + 1).last() == parts@[i as int]@);
        }
        let p = &parts[i];
        proof {
            assert(p@.skip(0) =~= p@);
        }
        match parse_uint(p, 0, base, true) {
            Some(v) => {
                if v <= 255 {
                    bs.push(v as u32);
                } else {
                    proof {
                        lemma_bytes_none(ps, base, i + 1);
                    }
                    return None;
                }
            },
            None => {
                proof {
                    lemma_bytes_none(ps, base, i + 1);
                }
                return None;
            },
        }
        i += 1;
    }
    proof {
        assert(ps.take(parts@.len() as int) =~= ps);
    }
    Some(bs)
}

/// The byte list padded with zeros to four entries.
pub open spec fn arr4_of(bs: Seq<u32>) -> Seq<u32>
    recommends
        bs.len() <= 4,
{
    bs + Seq::new((4 - bs.len()) as nat, |i: int| 0u32)
}

/// What a V4 text denotes. With no base: standard dotted decimal, the bytes
/// reversed afterwards on reverse-zone input. With a base: dotted components
/// are bytes of that base (reversal swaps the component order first); an
/// undotted text is two-character byte chunks (reversed after parsing), save
/// that an undotted, unreversed text in a base other than sixteen is one
/// whole number. A base outside 2..=36 denotes nothing.
pub open spec fn parse_v4_spec(s: Seq<char>, input_base: Option<i32>, reverse: bool) -> Option<
    Addr,
> {
    match input_base {
        None => match dotted_quad(s) {
            Some(x) => Some(Addr::V4(if reverse {
                rev4_spec(x)
            } else {
                x
            })),
            None => None,
        },
        Some(b) => if b < 2 || b > 36 {
            None
        } else {
            let bb = b as u32;
            let has_dot = first_idx(s, '.') < s.len();
            if !has_dot && !reverse && b != 16 {
                match radix_num(s, bb, true) {
                    Some(v) => if v <= u32::MAX {
                        Some(Addr::V4(v as u32))
                    } else {
                        None
                    },
                    None => None,
                }
            } else {
                let parts0 = if has_dot {
                    split_char(s, '.')
                } else {
                    chunks2(s)
                };
                let parts = if reverse && has_dot {
                    parts0.reverse()
                } else {
                    parts0
                };
                if parts.len() > 4 {
                    None
                } else {
                    match bytes_of_parts(parts, bb) {
                        Some(bs) => {
                            let arr = if reverse && !has_dot {
                                arr4_of(bs).reverse()
                            } else {
                                arr4_of(bs)
                            };
                            Some(Addr::V4(quad_val(arr[0], arr[1], arr[2], arr[3])))
                        },
                        None => None,
                    }
                }
            }
        },
    }
}

/// Reverses the order of the parts.
fn reverse_parts(parts: &Vec<Vec<char>>) -> (r: Vec<Vec<char>>)
    ensures
        views_of(r@) == views_of(parts@).reverse(),
{
    let n = parts.len();
    let mut out: Vec<Vec<char>> = Vec::new();
    let mut i: usize = 0;
    while i < n
        invariant
            i <= n,
            n == parts@.len(),
            out@.len() == i,
            forall|t: int| 0 <= t < i ==> (#[trigger] out@[t])@ == parts@[n - 1 - t]@,
        decreases n - i,
    {
        let src = &parts[n - 1 - i];
        let copied = slice_chars(src, 0, src.len());
        proof {
            assert(src@.subrange(0, src@.len() as int) =~= src@);
        }
        out.push(copied);
        proof {
            assert(views_of(out@) =~= views_of(out@.drop_last()).push(copied@));
        }
        i += 1;
    }
    proof {
        assert(views_of(out@) =~= views_of(parts@).reverse());
    }
    out
}

/// Reads a V4 address as `parse_v4_spec` describes.
pub fn parse_v4(address: &str, input_base: Option<i32>, reverse: bool) -> (r: Option<Addr>)
    ensures
        r == parse_v4_spec(address@, input_base, reverse),
{
    let chars = str_to_chars(address);
    parse_v4_chars(&chars, input_base, reverse)
}

/// Reads a V4 address given as characters.
#[verifier::rlimit(60)]
pub fn parse_v4_chars(v: &Vec<char>, input_base: Option<i32>, reverse: bool) -> (r: Option<Addr>)
    ensures
        r == parse_v4_spec(v@, input_base, reverse),
{
    let chars = slice_chars(v, 0, v.len());
    proof {
        assert(chars@ =~= v@);
    }
    match input_base {
        None => {
            match parse_dotted_quad(&chars) {
                Some(x) => Some(
                    Addr::V4(
                        if reverse {
                            rev4(x)
                        } else {
                            x
                        },
                    ),
                ),
                None => None,
            }
        },
        Some(b) => {
            if b < 2 || b > 36 {
                return None;
            }
            let bb = b as u32;
            let d = find_char(&chars, 0, '.');
            let has_dot = d < chars.len();
            proof {
                assert(chars@.skip(0) =~= chars@);
            }
            if !has_dot && !reverse && b != 16 {
                return match parse_uint(&chars, 0, bb, true) {
                    Some(v) => if v <= u32::MAX as u128 {
                        Some(Addr::V4(v as u32))
                    } else {
                        None
                    },
                    None => None,
                };
            }
            let parts0 = if has_dot {
                split_all(&chars, '.')
            } else {
                chunks2_of(&chars)
            };
            let parts = if reverse && has_dot {
                reverse_parts(&parts0)
            } else {
                parts0
            };
            if parts.len() > 4 {
                return None;
            }
            let bs = match parse_parts_bytes(&parts, bb) {
                Some(bs) => bs,
                None => {
                    return None;
                },
            };
            let b0 = if bs.len() > 0 {
                bs[0]
            } else {
                0
            };
            let b1 = if bs.len() > 1 {
                bs[1]
            } else {
                0
            };
            let b2 = if bs.len() > 2 {
                bs[2]
            } else {
                0
            };
            let b3 = if bs.len() > 3 {
                bs[3]
            } else {
                0
            };
            proof {
                assert(arr4_of(bs@) =~= seq![b0, b1, b2, b3]);
            }
            let (a0, a1, a2, a3) = if reverse && !has_dot {
                proof {
                    assert(arr4_of(bs@).reverse() =~= seq![b3, b2, b1, b0]);
                }
                (b3, b2, b1, b0)
            } else {
                (b0, b1, b2, b3)
            };
            Some(Addr::V4(a0 * 0x1000000 + a1 * 0x10000 + a2 * 0x100 + a3))
        },
    }
}

/// Splitting always yields at least one part.
proof fn lemma_split_min_len(s: Seq<char>, c: char)
    ensures
        split_char(s, c).len() >= 1,
{
    lemma_first_idx(s, c);
}

/// Index of the first `::`, or the length when absent.
pub open spec fn first_dc(s: Seq<char>) -> int
    decreases s.len(),
{
    if s.len() < 2 {
        s.len() as int
    } else if s[0] == ':' && s[1] == ':' {
        0
    } else {
        1 + first_dc(s.skip(1))
    }
}

/// What `first_dc` finds: the leftmost `::`, or the length.
pub proof fn lemma_first_dc(s: Seq<char>)
    ensures
        0 <= first_dc(s) <= s.len(),
        first_dc(s) + 1 < s.len() ==> s[first_dc(s)] == ':' && s[first_dc(s) + 1] == ':',
        first_dc(s) < s.len() ==> first_dc(s) + 1 < s.len(),
        forall|j: int|
            0 <= j < first_dc(s) && j + 1 < s.len() ==> !(#[trigger] s[j] == ':' && s[j + 1]
                == ':'),
    decreases s.len(),
{
    if s.len() >= 2 && !(s[0] == ':' && s[1] == ':') {
        lemma_first_dc(s.skip(1));
        let i = first_dc(s);
        assert forall|j: int|
            0 <= j < i && j + 1 < s.len() implies !(#[trigger] s[j] == ':' && s[j + 1] == ':') by {
            if j > 0 {
                assert(s.skip(1)[j - 1] == s[j]);
                assert(s.skip(1)[j] == s[j + 1]);
            }
        };
        if i < s.len() {
            assert(s.skip(1)[i - 1] == s[i]);
            if i + 1 < s.len() {
                assert(s.skip(1)[i] == s[i + 1]);
            }
        }
    } else if s.len() < 2 {
    }
}

/// Finds the first `::`.
fn find_dc_of(v: &Vec<char>) -> (r: usize)
    ensures
        r == first_dc(v@),
        r <= v@.len(),
        r < v@.len() ==> r + 1 < v@.len() && v@[r as int] == ':' && v@[r + 1] == ':',
{
    proof {
        lemma_first_dc(v@);
    }
    if v.len() < 2 {
        return v.len();
    }
    let mut i: usize = 0;
    while i < v.len() - 1
        invariant
            i <= v@.len() - 1,
            v@.len() >= 2,
            forall|j: int|
                0 <= j < i && j + 1 < v@.len() ==> !(#[trigger] v@[j] == ':' && v@[j + 1] == ':'),
        decreases v@.len() - i,
    {
        if v[i] == ':' && v[i + 1] == ':' {
            proof {
                lemma_first_dc(v@);
                let f = first_dc(v@);
                if f < i {
                    assert(!(v@[f] == ':' && v@[f + 1] == ':'));
                    assert(false);
                }
                if f > i {
                    assert(false);
                }
            }
            return i;
        }
        i += 1;
    }
    proof {
        lemma_first_dc(v@);
        let f = first_dc(v@);
        if f < v@.len() {
            assert(!(v@[f] == ':' && v@[f + 1] == ':'));
            assert(false);
        }
    }
    v.len()
}

/// One colon group: up to four hex digits.
pub open spec fn hex_group(g: Seq<char>) -> Option<u32> {
    match radix_val(g, 16) {
        Some(v) => if g.len() <= 4 && v <= 0xffff {
            Some(v as u32)
        } else {
            None
        },
        None => None,
    }
}

/// The group values of colon-separated parts. Only the final part may be an
/// embedded dotted quad, which contributes two groups.
pub open spec fn v6_groups_of(parts: Seq<Seq<char>>, v4_tail: bool) -> Option<Seq<u32>>
    decreases parts.len(),
{
    if parts.len() == 0 {
        Some(Seq::empty())
    } else {
        let lastp = parts.last();
        match v6_groups_of(parts.drop_last(), false) {
            Some(gs) => if v4_tail && first_idx(lastp, '.') < lastp.len() {
                match dotted_quad(lastp) {
                    Some(x) => Some(gs.push(x >> 16).push(x & 0xffff)),
                    None => None,
                }
            } else {
                match hex_group(lastp) {
                    Some(g) => Some(gs.push(g)),
                    None => None,
                }
            },
            None => None,
        }
    }
}

/// A failed group never recovers.
proof fn lemma_v6_groups_none(ps: Seq<Seq<char>>, k: int, v4_tail: bool)
    requires
        0 <= k < ps.len(),
        v6_groups_of(ps.take(k), false) is None,
    ensures
        v6_groups_of(ps, v4_tail) is None,
    decreases ps.len() - k,
{
    if k == ps.len() - 1 {
        assert(ps.drop_last() =~= ps.take(k));
    } else {
        assert(ps.take(k + 1).drop_last() =~= ps.take(k));
        lemma_v6_groups_none(ps, k + 1, v4_tail);
    }
}

/// Reads the parts as colon groups.
fn parse_v6_groups(parts: &Vec<Vec<char>>, v4_tail: bool) -> (r: Option<Vec<u32>>)
    ensures
        r matches Some(gs) ==> v6_groups_of(views_of(parts@), v4_tail) == Some(gs@) && forall|
            t: int,
        |
            0 <= t < gs@.len() ==> #[trigger] gs@[t] <= 0xffff,
        r is None ==> v6_groups_of(views_of(parts@), v4_tail) is None,
{
    let ghost ps = views_of(parts@);
    let mut gs: Vec<u32> = Vec::new();
    if parts.len() == 0 {
        proof {
            assert(v6_groups_of(ps, v4_tail) == Some(Seq::<u32>::empty()));
            assert(gs@ =~= Seq::<u32>::empty());
        }
        return Some(gs);
    }
    let n = parts.len();
    let mut i: usize = 0;
    proof {
        assert(ps.take(0) =~= Seq::<Seq<char>>::empty());
    }
    while i < n - 1
        invariant
            i <= n - 1,
            n == parts@.len(),
            n >= 1,
            ps == views_of(parts@),
            Some(gs@) == v6_groups_of(ps.take(i as int), false),
            forall|t: int| 0 <= t < gs@.len() ==> #[trigger] gs@[t] <= 0xffff,
        decreases n - i,
    {
        proof {
            assert(ps.take(i + 1).drop_last() =~= ps.take(i as int));
            assert(ps.take(i + 1).last() == parts@[i as int]@);
        }
        let p = &parts[i];
        proof {
            assert(p@.skip(0) =~= p@);
        }
        match parse_uint(p, 0, 16, false) {
            Some(x) => {
                if p.len() <= 4 && x <= 0xffff {
                    gs.push(x as u32);
                } else {
                    proof {
                        lemma_v6_groups_none(ps, i + 1, v4_tail);
                    }
                    return None;
                }
            },
            None => {
                proof {
                    lemma_v6_groups_none(ps, i + 1, v4_tail);
                }
                return None;
            },
        }
        i += 1;
    }
    proof {
        assert(ps.drop_last() =~= ps.take((n - 1) as int));
        assert(ps.last() == parts@[n - 1]@);
    }
    let p = &parts[n - 1];
    let dot = find_char(p, 0, '.');
    proof {
        assert(p@.skip(0) =~= p@);
    }
    if v4_tail && dot < p.len() {
        match parse_dotted_quad(p) {
            Some(x) => {
                proof {
                    assert(x >> 16u32 <= 0xffff && x & 0xffffu32 <= 0xffff) by (bit_vector);
                }
                gs.push(x >> 16);
                gs.push(x & 0xffff);
                Some(gs)
            },
            None => None,
        }
    } else {
        match parse_uint(p, 0, 16, false) {
            Some(x) => {
                if p.len() <= 4 && x <= 0xffff {
                    gs.push(x as u32);
                    Some(gs)
                } else {
                    None
                }
            },
            None => None,
        }
    }
}

/// The 128-bit value of at most eight group values, highest first.
pub open spec fn groups_val(gs: Seq<u32>) -> nat
    decreases gs.len(),
{
    if gs.len() == 0 {
        0
    } else {
        (groups_val(gs.drop_last()) * 0x10000 + gs.last()) as nat
    }
}

/// Bound of a group list's value.
proof fn lemma_groups_val_bound(gs: Seq<u32>)
    requires
        forall|t: int| 0 <= t < gs.len() ==> #[trigger] gs[t] <= 0xffff,
    ensures
        groups_val(gs) < vstd::arithmetic::power2::pow2(16 * gs.len()),
    decreases gs.len(),
{
    vstd::arithmetic::power2::lemma2_to64();
    if gs.len() > 0 {
        lemma_groups_val_bound(gs.drop_last());
        let v = groups_val(gs.drop_last());
        let k = 16 * (gs.len() - 1);
        vstd::arithmetic::power2::lemma_pow2_adds(k as nat, 16);
        lemma_mul_inequality(v as int, vstd::arithmetic::power2::pow2(k as nat) as int - 1, 0x10000);
        vstd::arithmetic::mul::lemma_mul_is_distributive_sub_other_way(
            0x10000,
            vstd::arithmetic::power2::pow2(k as nat) as int,
            1,
        );
        vstd::arithmetic::mul::lemma_mul_is_commutative(
            vstd::arithmetic::power2::pow2(k as nat) as int,
            0x10000,
        );
    }
}

/// Folds eight group values into the address value.
fn groups_val_of(gs: &Vec<u32>) -> (r: u128)
    requires
        gs@.len() == 8,
        forall|t: int| 0 <= t < gs@.len() ==> #[trigger] gs@[t] <= 0xffff,
    ensures
        r == groups_val(gs@),
{
    let mut acc: u128 = 0;
    let mut i: usize = 0;
    proof {
        assert(gs@.take(0) =~= Seq::<u32>::empty());
        vstd::arithmetic::power2::lemma2_to64();
    }
    while i < 8
        invariant
            i <= 8,
            gs@.len() == 8,
            forall|t: int| 0 <= t < gs@.len() ==> #[trigger] gs@[t] <= 0xffff,
            acc == groups_val(gs@.take(i as int)),
            acc < vstd::arithmetic::power2::pow2(16 * i as nat),
        decreases 8 - i,
    {
        proof {
            assert(gs@.take(i + 1).drop_last() =~= gs@.take(i as int));
            assert(gs@.take(i + 1).last() == gs@[i as int]);
            let k: nat = 16 * i as nat;
            vstd::arithmetic::power2::lemma2_to64();
            vstd::arithmetic::power2::lemma_pow2_adds(k, 16);
            lemma_mul_inequality(
                acc as int,
                vstd::arithmetic::power2::pow2(k) as int - 1,
                0x10000,
            );
            vstd::arithmetic::mul::lemma_mul_is_distributive_sub_other_way(
                0x10000,
                vstd::arithmetic::power2::pow2(k) as int,
                1,
            );
            vstd::arithmetic::mul::lemma_mul_is_commutative(
                vstd::arithmetic::power2::pow2(k) as int,
                0x10000,
            );
            vstd::arithmetic::power2::lemma_pow2_adds(64, 64);
            if 16 * (i + 1) < 128 {
                vstd::arithmetic::power2::lemma_pow2_strictly_increases(
                    (16 * (i + 1)) as nat,
                    128,
                );
            }
            lemma_groups_val_bound(gs@.take(i + 1));
        }
        acc = acc * 0x10000 + gs[i] as u128;
        i += 1;
    }
    proof {
        assert(gs@.take(8) =~= gs@);
    }
    acc
}

/// What a colon-notation text denotes: eight hex groups, or fewer groups
/// around one `::` standing for the missing zero groups, with an optional
/// dotted quad as the last two groups.
pub open spec fn colon_parse(s: Seq<char>) -> Option<u128> {
    let dc = first_dc(s);
    if dc >= s.len() {
        match v6_groups_of(split_char(s, ':'), true) {
            Some(gs) => if gs.len() == 8 {
                Some(groups_val(gs) as u128)
            } else {
                None
            },
            None => None,
        }
    } else {
        let head = s.take(dc);
        let tail = s.skip(dc + 2);
        let hps = if head.len() == 0 {
            Seq::<Seq<char>>::empty()
        } else {
            split_char(head, ':')
        };
        let tps = if tail.len() == 0 {
            Seq::<Seq<char>>::empty()
        } else {
            split_char(tail, ':')
        };
        match (v6_groups_of(hps, false), v6_groups_of(tps, true)) {
            (Some(hg), Some(tg)) => if hg.len() + tg.len() <= 7 {
                Some(
                    groups_val(
                        hg + Seq::new((8 - hg.len() - tg.len()) as nat, |i: int| 0u32) + tg,
                    ) as u128,
                )
            } else {
                None
            },
            _ => None,
        }
    }
}

/// Reads colon notation.
#[verifier::rlimit(60)]
fn parse_colon_text(v: &Vec<char>) -> (r: Option<u128>)
    ensures
        r == colon_parse(v@),
{
    let dc = find_dc_of(v);
    if dc == v.len() {
        let parts = split_all(v, ':');
        match parse_v6_groups(&parts, true) {
            Some(gs) => {
                if gs.len() == 8 {
                    proof {
                        lemma_groups_val_bound(gs@);
                        vstd::arithmetic::power2::lemma_pow2_adds(64, 64);
                    }
                    Some(groups_val_of(&gs))
                } else {
                    None
                }
            },
            None => None,
        }
    } else {
        let head = slice_chars(v, 0, dc);
        let tail = slice_chars(v, dc + 2, v.len());
        proof {
            assert(head@ =~= v@.take(dc as int));
            assert(tail@ =~= v@.skip(dc + 2));
        }
        let hps: Vec<Vec<char>> = if head.len() == 0 {
            Vec::new()
        } else {
            split_all(&head, ':')
        };
        let tps: Vec<Vec<char>> = if tail.len() == 0 {
            Vec::new()
        } else {
            split_all(&tail, ':')
        };
        proof {
            if head@.len() == 0 {
                assert(views_of(hps@) =~= Seq::<Seq<char>>::empty());
            }
            if tail@.len() == 0 {
                assert(views_of(tps@) =~= Seq::<Seq<char>>::empty());
            }
        }
        let hg = match parse_v6_groups(&hps, false) {
            Some(g) => g,
            None => {
                return None;
            },
        };
        let tg = match parse_v6_groups(&tps, true) {
            Some(g) => g,
            None => {
                return None;
            },
        };
        if hg.len() > 7 {
            return None;
        }
        if tg.len() > 7 - hg.len() {
            return None;
        }
        let mut all: Vec<u32> = Vec::new();
        let mut i: usize = 0;
        while i < hg.len()
            invariant
                i <= hg@.len(),
                all@ == hg@.take(i as int),
            decreases hg@.len() - i,
        {
            all.push(hg[i]);
            proof {
                assert(hg@.take(i + 1) =~= hg@.take(i as int).push(hg@[i as int]));
            }
            i += 1;
        }
        let zeros = 8 - hg.len() - tg.len();
        let mut z: usize = 0;
        while z < zeros
            invariant
                z <= zeros,
                zeros == 8 - hg@.len() - tg@.len(),
                hg@.len() + tg@.len() <= 7,
                all@.len() == hg@.len() + z,
                all@ == hg@.take(hg@.len() as int) + Seq::new(z as nat, |t: int| 0u32),
            decreases zeros - z,
        {
            all.push(0);
            proof {
                assert(hg@.take(hg@.len() as int) + Seq::new((z + 1) as nat, |t: int| 0u32)
                    =~= (hg@.take(hg@.len() as int) + Seq::new(z as nat, |t: int| 0u32)).push(
                    0u32,
                ));
            }
            z += 1;
        }
        let mut j: usize = 0;
        let ghost mid = hg@ + Seq::new(zeros as nat, |t: int| 0u32);
        proof {
            assert(hg@.take(hg@.len() as int) =~= hg@);
            assert(all@ =~= mid);
        }
        while j < tg.len()
            invariant
                j <= tg@.len(),
                mid == hg@ + Seq::new((8 - hg@.len() - tg@.len()) as nat, |t: int| 0u32),
                hg@.len() + tg@.len() <= 7,
                all@ == mid + tg@.take(j as int),
            decreases tg@.len() - j,
        {
            all.push(tg[j]);
            proof {
                assert(mid + tg@.take(j + 1) =~= (mid + tg@.take(j as int)).push(tg@[j as int]));
            }
            j += 1;
        }
        proof {
            assert(all@ =~= hg@ + Seq::new((8 - hg@.len() - tg@.len()) as nat, |t: int| 0u32)
                + tg@);
            assert(all@.len() == 8);
            assert forall|t: int| 0 <= t < all@.len() implies #[trigger] all@[t] <= 0xffff by {
                let hl = hg@.len() as int;
                let zl = (8 - hg@.len() - tg@.len()) as int;
                if t < hl {
                    assert(all@[t] == hg@[t]);
                } else if t < hl + zl {
                    assert(all@[t] == 0);
                } else {
                    assert(all@[t] == tg@[t - hl - zl]);
                }
            };
            lemma_groups_val_bound(all@);
            vstd::arithmetic::power2::lemma_pow2_adds(64, 64);
        }
        Some(groups_val_of(&all))
    }
}

/// What a V6 text denotes. With no base: colon notation, nibble-reversed on
/// reverse-zone input. With a base in 2..=36: one whole number of that base.
pub open spec fn parse_v6_spec(s: Seq<char>, input_base: Option<i32>, reverse: bool) -> Option<
    Addr,
> {
    match input_base {
        Some(b) => if b < 2 || b > 36 {
            None
        } else {
            match radix_num(s, b as u32, true) {
                Some(v) => if v <= u128::MAX {
                    Some(Addr::V6(v as u128))
                } else {
                    None
                },
                None => None,
            }
        },
        None => match colon_parse(s) {
            Some(x) => Some(Addr::V6(if reverse {
                rev6_spec(x)
            } else {
                x
            })),
            None => None,
        },
    }
}

/// Reads a V6 address given as characters.
pub fn parse_v6_chars(v: &Vec<char>, input_base: Option<i32>, reverse: bool) -> (r: Option<Addr>)
    ensures
        r == parse_v6_spec(v@, input_base, reverse),
{
    match input_base {
        Some(b) => {
            if b < 2 || b > 36 {
                return None;
            }
            proof {
                assert(v@.skip(0) =~= v@);
            }
            match parse_uint(v, 0, b as u32, true) {
                Some(x) => Some(Addr::V6(x)),
                None => None,
            }
        },
        None => {
            match parse_colon_text(v) {
                Some(x) => Some(
                    Addr::V6(
                        if reverse {
                            rev6(x)
                        } else {
                            x
                        },
                    ),
                ),
                None => None,
            }
        },
    }
}

/// Reads a V6 address as `parse_v6_spec` describes.
pub fn parse_v6(address: &str, input_base: Option<i32>, reverse: bool) -> (r: Option<Addr>)
    ensures
        r == parse_v6_spec(address@, input_base, reverse),
{
    let chars = str_to_chars(address);
    parse_v6_chars(&chars, input_base, reverse)
}

/// Family selection: a colon selects V6, as does, under an explicit base, a
/// text of more than twenty characters.
pub open spec fn parse_any_spec(s: Seq<char>, input_base: Option<i32>, reverse: bool) -> Option<
    Addr,
> {
    if first_idx(s, ':') < s.len() || (s.len() > 20 && input_base is Some) {
        parse_v6_spec(s, input_base, reverse)
    } else {
        parse_v4_spec(s, input_base, reverse)
    }
}

/// Reads an address of either family given as characters.
pub fn parse_v4_v6_chars(v: &Vec<char>, input_base: Option<i32>, reverse: bool) -> (r: Option<
    Addr,
>)
    ensures
        r == parse_any_spec(v@, input_base, reverse),
{
    let colon = find_char(v, 0, ':');
    proof {
        assert(v@.skip(0) =~= v@);
    }
    if colon < v.len() || (v.len() > 20 && input_base.is_some()) {
        parse_v6_chars(v, input_base, reverse)
    } else {
        parse_v4_chars(v, input_base, reverse)
    }
}

/// Reads an address of either family.
pub fn parse_v4_v6(address: &str, input_base: Option<i32>, reverse: bool) -> (r: Option<Addr>)
    ensures
        r == parse_any_spec(address@, input_base, reverse),
{
    let chars = str_to_chars(address);
    parse_v4_v6_chars(&chars, input_base, reverse)
}

/// What an `address[/prefix]` text denotes: the part before the first slash
/// as an address, the part between the first two slashes as a decimal prefix
/// length, with the family's default (24 or 64 when none is given) filling
/// in for a missing or unreadable prefix.
pub open spec fn parse_address_mask_spec(
    s: Seq<char>,
    default_v4_mask: Option<u32>,
    default_v6_mask: Option<u32>,
    input_base: Option<i32>,
    reverse: bool,
) -> Option<Ip> {
    let ps = split_char(s, '/');
    let input_mask: Option<u32> = if ps.len() > 1 {
        match mask_num(ps[1]) {
            Some(m) => if m <= u32::MAX {
                Some(m as u32)
            } else {
                None
            },
            None => None,
        }
    } else {
        None
    };
    match parse_any_spec(ps[0], input_base, reverse) {
        Some(a) => Some(
            Ip {
                address: a,
                cidr: match a {
                    Addr::V4(_) => if input_mask is Some {
                        input_mask->0
                    } else if default_v4_mask is Some {
                        default_v4_mask->0
                    } else {
                        24
                    },
                    Addr::V6(_) => if input_mask is Some {
                        input_mask->0
                    } else if default_v6_mask is Some {
                        default_v6_mask->0
                    } else {
                        64
                    },
                },
            },
        ),
        None => None,
    }
}

/// Reads an `address[/prefix]` form. A text that denotes no address gives
/// `None`; resolving such a text as a host name is the caller's affair.
pub fn parse_address_mask(
    a: &str,
    default_v4_mask: Option<u32>,
    default_v6_mask: Option<u32>,
    input_base: Option<i32>,
    reverse: bool,
) -> (r: Option<Ip>)
    ensures
        r == parse_address_mask_spec(a@, default_v4_mask, default_v6_mask, input_base, reverse),
{
    let chars = str_to_chars(a);
    parse_address_mask_chars(&chars, default_v4_mask, default_v6_mask, input_base, reverse)
}

/// Reads an `address[/prefix]` form given as characters.
pub fn parse_address_mask_chars(
    chars: &Vec<char>,
    default_v4_mask: Option<u32>,
    default_v6_mask: Option<u32>,
    input_base: Option<i32>,
    reverse: bool,
) -> (r: Option<Ip>)
    ensures
        r == parse_address_mask_spec(
            chars@,
            default_v4_mask,
            default_v6_mask,
            input_base,
            reverse,
        ),
{
    let parts = split_all(chars, '/');
    proof {
        lemma_split_min_len(chars@, '/');
    }
    let mut input_mask: Option<u32> = None;
    if parts.len() > 1 {
        let p1 = &parts[1];
        proof {
            assert(p1@.skip(0) =~= p1@);
        }
        match parse_uint(p1, 0, 10, true) {
            Some(m) => {
                if m <= u32::MAX as u128 {
                    input_mask = Some(m as u32);
                }
            },
            None => {},
        }
    }
    match parse_v4_v6_chars(&parts[0], input_base, reverse) {
        Some(a) => {
            let cidr = match a {
                Addr::V4(_) => match input_mask {
                    Some(m) => m,
                    None => match default_v4_mask {
                        Some(m) => m,
                        None => 24,
                    },
                },
                Addr::V6(_) => match input_mask {
                    Some(m) => m,
                    None => match default_v6_mask {
                        Some(m) => m,
                        None => 64,
                    },
                },
            };
            Some(Ip { address: a, cidr })
        },
        None => None,
    }
}

} // verus!
