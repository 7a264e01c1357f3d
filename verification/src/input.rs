//! Reading address tokens out of input lines: each line is trimmed and its
//! space-separated words parsed as `address[/prefix]`, unparseable words
//! skipped.

use vstd::prelude::*;

use crate::chars::str_to_chars;
use crate::ip::{Ip, Reverse};
use crate::parse::{
    parse_address_mask_chars, parse_address_mask_spec, slice_chars, split_all, split_char,
    views_of,
};

verus! {

/// ASCII whitespace.
pub open spec fn is_ws(c: char) -> bool {
    c == ' ' || c == '\t' || c == '\r' || c == '\n' || c == '\u{b}' || c == '\u{c}'
}

/// The text with leading whitespace dropped.
pub open spec fn trim_front(s: Seq<char>) -> Seq<char>
    decreases s.len(),
{
    if s.len() > 0 && is_ws(s[0]) {
        trim_front(s.skip(1))
    } else {
        s
    }
}

/// The text with trailing whitespace dropped.
pub open spec fn trim_back(s: Seq<char>) -> Seq<char>
    decreases s.len(),
{
    if s.len() > 0 && is_ws(s.last()) {
        trim_back(s.drop_last())
    } else {
        s
    }
}

/// The text with whitespace dropped at both ends.
pub open spec fn trim_spec(s: Seq<char>) -> Seq<char> {
    trim_back(trim_front(s))
}

/// Whether this reversal setting applies to free-standing input addresses.
pub open spec fn reverses_input(r: Reverse) -> bool {
    r is Both || r is Input
}

/// Whether this reversal setting applies to stream-derived addresses.
pub open spec fn reverses_source(r: Reverse) -> bool {
    r is Both || r is Source
}

/// Tests one whitespace character.
fn is_ws_of(c: char) -> (r: bool)
    ensures
        r == is_ws(c),
{
    c == ' ' || c == '\t' || c == '\r' || c == '\n' || c == '\u{b}' || c == '\u{c}'
}

/// Trims whitespace from both ends.
pub fn trim_chars(v: &Vec<char>) -> (r: Vec<char>)
    ensures
        r@ == trim_spec(v@),
{
    let mut a: usize = 0;
    proof {
        assert(v@.skip(0) =~= v@);
    }
    while a < v.len() && is_ws_of(v[a])
        invariant
            a <= v@.len(),
            trim_front(v@) == trim_front(v@.skip(a as int)),
        decreases v@.len() - a,
    {
        proof {
            assert(v@.skip(a as int)[0] == v@[a as int]);
            assert(v@.skip(a as int).skip(1) =~= v@.skip(a + 1));
        }
        a += 1;
    }
    proof {
        if a < v@.len() {
            assert(v@.skip(a as int)[0] == v@[a as int]);
        } else {
            assert(v@.skip(a as int) =~= Seq::<char>::empty());
        }
        assert(trim_front(v@) == v@.skip(a as int));
    }
    let mut b: usize = v.len();
    while b > a && is_ws_of(v[b - 1])
        invariant
            a <= b <= v@.len(),
            trim_front(v@) == v@.skip(a as int),
            trim_back(v@.skip(a as int)) == trim_back(v@.subrange(a as int, b as int)),
        decreases b,
    {
        proof {
            let cur = v@.subrange(a as int, b as int);
            assert(cur.last() == v@[b - 1]);
            assert(cur.drop_last() =~= v@.subrange(a as int, b - 1));
        }
        b -= 1;
    }
    proof {
        let cur = v@.subrange(a as int, b as int);
        if b > a {
            assert(cur.last() == v@[b - 1]);
        }
        assert(v@.skip(a as int) =~= v@.subrange(a as int, v@.len() as int));
        assert(trim_back(cur) == cur);
    }
    slice_chars(v, a, b)
}

/// The addresses of a list of words: each word trimmed, empty words
/// skipped, each remaining word read as `address[/prefix]` with the host
/// defaults (a single address is its own one-address network), words that
/// denote no address skipped.
pub open spec fn ips_of_words(parts: Seq<Seq<char>>, input_base: Option<i32>, rev: bool) -> Seq<
    Ip,
>
    decreases parts.len(),
{
    if parts.len() == 0 {
        Seq::empty()
    } else {
        let w = trim_spec(parts[0]);
        let rest = ips_of_words(parts.skip(1), input_base, rev);
        if w.len() == 0 {
            rest
        } else {
            match parse_address_mask_spec(w, Some(32u32), Some(128u32), input_base, rev) {
                Some(ip) => seq![ip] + rest,
                None => rest,
            }
        }
    }
}

/// The addresses of one line: its space-separated words in order.
pub open spec fn ips_of_line(line: Seq<char>, input_base: Option<i32>, rev: bool) -> Seq<Ip> {
    ips_of_words(split_char(trim_spec(line), ' '), input_base, rev)
}

/// The addresses of all lines, in order.
pub open spec fn ips_of_lines(lines: Seq<Seq<char>>, input_base: Option<i32>, rev: bool) -> Seq<
    Ip,
>
    decreases lines.len(),
{
    if lines.len() == 0 {
        Seq::empty()
    } else {
        ips_of_line(lines[0], input_base, rev) + ips_of_lines(lines.skip(1), input_base, rev)
    }
}

/// Collects the addresses of one line of words.
fn line_ips_of(line: &Vec<char>, input_base: Option<i32>, rev: bool) -> (r: Vec<Ip>)
    ensures
        r@ == ips_of_line(line@, input_base, rev),
{
    let trimmed = trim_chars(line);
    let words = split_all(&trimmed, ' ');
    let ghost wseq = split_char(trim_spec(line@), ' ');
    let mut out: Vec<Ip> = Vec::new();
    let mut w: usize = 0;
    proof {
        assert(wseq.skip(0) =~= wseq);
    }
    while w < words.len()
        invariant
            w <= words@.len(),
            wseq == views_of(words@),
            forall|t: int| 0 <= t < words@.len() ==> (#[trigger] words@[t])@ == wseq[t],
            ips_of_line(line@, input_base, rev) == out@ + ips_of_words(
                wseq.skip(w as int),
                input_base,
                rev,
            ),
        decreases words@.len() - w,
    {
        proof {
            assert(wseq.skip(w as int)[0] == wseq[w as int]);
            assert(wseq.skip(w as int).skip(1) =~= wseq.skip(w + 1));
        }
        let word = trim_chars(&words[w]);
        if word.len() > 0 {
            match parse_address_mask_chars(&word, Some(32), Some(128), input_base, rev) {
                Some(ip) => {
                    out.push(ip);
                    proof {
                        assert(out@.drop_last() + (seq![ip] + ips_of_words(
                            wseq.skip(w + 1),
                            input_base,
                            rev,
                        )) =~= out@ + ips_of_words(wseq.skip(w + 1), input_base, rev));
                    }
                },
                None => {},
            }
        }
        w += 1;
    }
    proof {
        assert(wseq.skip(words@.len() as int) =~= Seq::<Seq<char>>::empty());
        assert(out@ + Seq::<Ip>::empty() =~= out@);
    }
    out
}

/// Collects every address token of the given lines, with the host defaults
/// (/32 and /128) for tokens without a prefix, in input order. Tokens that
/// denote no address are skipped.
pub fn find_ips(lines: &Vec<String>, input_base: Option<i32>, reverse: &Reverse) -> (r: Vec<Ip>)
    ensures
        r@ == ips_of_lines(
            lines@.map_values(|l: String| l@),
            input_base,
            reverses_input(*reverse),
        ),
{
    let rev = match reverse {
        Reverse::Both => true,
        Reverse::Input => true,
        _ => false,
    };
    let ghost lseq = lines@.map_values(|l: String| l@);
    let mut out: Vec<Ip> = Vec::new();
    let mut i: usize = 0;
    proof {
        assert(lseq.skip(0) =~= lseq);
        assert(out@ + ips_of_lines(lseq, input_base, rev) =~= ips_of_lines(
            lseq,
            input_base,
            rev,
        ));
    }
    while i < lines.len()
        invariant
            i <= lines@.len(),
            lseq == lines@.map_values(|l: String| l@),
            rev == reverses_input(*reverse),
            ips_of_lines(lseq, input_base, rev) == out@ + ips_of_lines(
                lseq.skip(i as int),
                input_base,
                rev,
            ),
        decreases lines@.len() - i,
    {
        proof {
            assert(lseq.skip(i as int)[0] == lines@[i as int]@);
            assert(lseq.skip(i as int).skip(1) =~= lseq.skip(i + 1));
        }
        let line = str_to_chars(lines[i].as_str());
        let ips = line_ips_of(&line, input_base, rev);
        let mut k: usize = 0;
        while k < ips.len()
            invariant
                k <= ips@.len(),
                ips_of_lines(lseq, input_base, rev) == out@ + ips@.skip(k as int)
                    + ips_of_lines(lseq.skip(i + 1), input_base, rev),
            decreases ips@.len() - k,
        {
            out.push(ips[k]);
            proof {
                assert(out@.drop_last() + ips@.skip(k as int) =~= out@ + ips@.skip(k + 1));
            }
            k += 1;
        }
        proof {
            assert(ips@.skip(ips@.len() as int) =~= Seq::<Ip>::empty());
            assert(out@ + Seq::<Ip>::empty() + ips_of_lines(lseq.skip(i + 1), input_base, rev)
                =~= out@ + ips_of_lines(lseq.skip(i + 1), input_base, rev));
        }
        i += 1;
    }
    proof {
        assert(lseq.skip(lines@.len() as int) =~= Seq::<Seq<char>>::empty());
        assert(out@ + Seq::<Ip>::empty() =~= out@);
    }
    out
}

} // verus!
