//! The template formatter: `%` placeholders render the address's derived
//! values under chainable mode modifiers, backslash escapes produce control
//! characters, `%{field}` substitution comes from a matched row table, and
//! `%r` from the reserved-range table.

use vstd::prelude::*;

use crate::chars::{chars_to_string, dec_digits, push_all, str_to_chars, to_dec};
use crate::cidr::{
    broadcast, broadcast_addr, network, network_addr, network_size, size_of_network, subnet,
    subnet_addr, wildcard, wildcard_addr,
};
use crate::iface::{iface_lookup, matching_network_interface, NetInterface};
use crate::ip::{addr_width, valid_ip, Addr, FormatMode, FormatProcessor, Ip};
use crate::lookup::{network_reservation, reservation_of};
use crate::render::{formatted_chars, formatted_text, rbl_format, rbl_text};

verus! {

/// A row of the external table: named fields for `%{field}` substitution.
pub struct NetRow {
    pub row: Vec<(String, String)>,
}

/// The field views of one row.
pub open spec fn fields_of(nr: NetRow) -> Seq<(Seq<char>, Seq<char>)> {
    nr.row@.map_values(|p: (String, String)| (p.0@, p.1@))
}

/// The text with every occurrence of a non-empty pattern replaced, left to
/// right, without revisiting replaced text.
pub open spec fn replace_spec(s: Seq<char>, pat: Seq<char>, rep: Seq<char>) -> Seq<char>
    decreases s.len(),
{
    if s.len() == 0 {
        s
    } else if pat.len() > 0 && s.len() >= pat.len() && s.take(pat.len() as int) == pat {
        rep + replace_spec(s.skip(pat.len() as int), pat, rep)
    } else {
        seq![s[0]] + replace_spec(s.skip(1), pat, rep)
    }
}

/// The placeholder pattern of a field name: `%{name}`.
pub open spec fn field_pat(name: Seq<char>) -> Seq<char> {
    seq!['%', '{'] + name + seq!['}']
}

/// The text with each field's `%{name}` pattern replaced by its value, in
/// field order.
pub open spec fn subst_fields(s: Seq<char>, fields: Seq<(Seq<char>, Seq<char>)>) -> Seq<char>
    decreases fields.len(),
{
    if fields.len() == 0 {
        s
    } else {
        subst_fields(replace_spec(s, field_pat(fields[0].0), fields[0].1), fields.skip(1))
    }
}

/// The first row keyed exactly by `key`.
pub open spec fn row_at(t: Seq<(Ip, NetRow)>, key: Ip) -> Option<NetRow>
    decreases t.len(),
{
    if t.len() == 0 {
        None
    } else if t[0].0 == key {
        Some(t[0].1)
    } else {
        row_at(t.skip(1), key)
    }
}

/// A found key is the key of some entry.
proof fn lemma_row_at_key(t: Seq<(Ip, NetRow)>, key: Ip)
    requires
        row_at(t, key) is Some,
    ensures
        exists|j: int| 0 <= j < t.len() && (#[trigger] t[j]).0 == key,
    decreases t.len(),
{
    if t.len() > 0 && t[0].0 != key {
        lemma_row_at_key(t.skip(1), key);
        let j = choose|j: int| 0 <= j < t.skip(1).len() && (#[trigger] t.skip(1)[j]).0 == key;
        assert(t[j + 1] == t.skip(1)[j]);
    }
}

/// No V6 row of the table sits at prefix zero.
pub open spec fn rows_have_positive_v6_prefix(t: Seq<(Ip, NetRow)>) -> bool {
    forall|j: int| 0 <= j < t.len() ==> (#[trigger] t[j]).0.cidr >= 1 || t[j].0.address is V4
}

/// A matched V6 prefix is positive when every V6 row's prefix is.
proof fn lemma_row_lpm_positive(t: Seq<(Ip, NetRow)>, a: Addr, p: int)
    requires
        rows_have_positive_v6_prefix(t),
        a is V6,
        row_lpm(t, a, p) is Some,
    ensures
        (row_lpm(t, a, p)->0).0 >= 1,
    decreases p + 1,
{
    if p >= 0 {
        let key = Ip { address: network_addr(a, p as u32), cidr: p as u32 };
        if row_at(t, key) is Some {
            lemma_row_at_key(t, key);
        } else {
            lemma_row_lpm_positive(t, a, p - 1);
        }
    }
}

/// The most specific row covering `a`, with its prefix: prefixes are tried
/// from `p` down to zero.
pub open spec fn row_lpm(t: Seq<(Ip, NetRow)>, a: Addr, p: int) -> Option<(u32, NetRow)>
    decreases p + 1,
{
    if p < 0 {
        None
    } else {
        match row_at(t, Ip { address: network_addr(a, p as u32), cidr: p as u32 }) {
            Some(nr) => Some(((p as u32), nr)),
            None => row_lpm(t, a, (p - 1) as int),
        }
    }
}

/// The machine's output from the rest of the format text, given the current
/// escape state and mode. At the end of input a pending escape character is
/// emitted literally.
pub open spec fn render_spec(
    s: Seq<char>,
    ip: Ip,
    ifs: Seq<NetInterface>,
    proc: FormatProcessor,
    mode: FormatMode,
) -> Seq<char>
    decreases s.len(),
{
    if s.len() == 0 {
        match proc {
            FormatProcessor::Percent => seq!['%'],
            FormatProcessor::Backslash => seq!['\\'],
            FormatProcessor::Inactive => Seq::empty(),
        }
    } else {
        let k = s[0];
        let rest = s.skip(1);
        match proc {
            FormatProcessor::Percent => {
                if k == 'B' {
                    render_spec(rest, ip, ifs, FormatProcessor::Percent, FormatMode::Binary)
                } else if k == 'S' {
                    render_spec(rest, ip, ifs, FormatProcessor::Percent, FormatMode::SplitBinary)
                } else if k == 'l' {
                    render_spec(rest, ip, ifs, FormatProcessor::Percent, FormatMode::Integer)
                } else if k == 'L' {
                    render_spec(
                        rest,
                        ip,
                        ifs,
                        FormatProcessor::Percent,
                        FormatMode::SignedInteger,
                    )
                } else if k == 'x' {
                    render_spec(rest, ip, ifs, FormatProcessor::Percent, FormatMode::Hex)
                } else {
                    let emitted: Seq<char> = if k == 'a' {
                        formatted_text(ip, mode)
                    } else if k == 'b' {
                        formatted_text(
                            Ip { address: broadcast_addr(ip.address, ip.cidr), cidr: ip.cidr },
                            mode,
                        )
                    } else if k == 'n' {
                        formatted_text(
                            Ip { address: network_addr(ip.address, ip.cidr), cidr: ip.cidr },
                            mode,
                        )
                    } else if k == 'w' {
                        formatted_text(
                            Ip { address: wildcard_addr(ip.address, ip.cidr), cidr: ip.cidr },
                            mode,
                        )
                    } else if k == 's' {
                        formatted_text(
                            Ip { address: subnet_addr(ip.address, ip.cidr), cidr: ip.cidr },
                            mode,
                        )
                    } else if k == 'c' {
                        dec_digits(ip.cidr as nat)
                    } else if k == 't' {
                        dec_digits(size_of_network(ip))
                    } else if k == 'm' {
                        iface_lookup(ip, ifs, false)
                    } else if k == 'd' {
                        iface_lookup(ip, ifs, true)
                    } else if k == 'k' {
                        rbl_text(ip.address)
                    } else if k == '%' {
                        seq!['%']
                    } else {
                        seq![k]
                    };
                    emitted + render_spec(rest, ip, ifs, FormatProcessor::Inactive, mode)
                }
            },
            FormatProcessor::Backslash => {
                let emitted: Seq<char> = if k == 'n' {
                    seq!['\n']
                } else if k == 't' {
                    seq!['\t']
                } else if k == '\\' {
                    seq!['\\']
                } else {
                    seq![k]
                };
                emitted + render_spec(rest, ip, ifs, FormatProcessor::Inactive, FormatMode::Text)
            },
            FormatProcessor::Inactive => {
                if k == '%' {
                    render_spec(rest, ip, ifs, FormatProcessor::Percent, FormatMode::Text)
                } else if k == '\\' {
                    render_spec(rest, ip, ifs, FormatProcessor::Backslash, FormatMode::Text)
                } else {
                    seq![k] + render_spec(rest, ip, ifs, FormatProcessor::Inactive, mode)
                }
            },
        }
    }
}

/// The reservation label substituted for `%r`, when one covers the address.
pub open spec fn apply_reservation(a: Addr, s: Seq<char>) -> Seq<char> {
    match reservation_of(a) {
        Some(lbl) => replace_spec(s, seq!['%', 'r'], lbl),
        None => s,
    }
}

/// What the whole formatting pass yields. With a row table, the most
/// specific row decides the effective prefix and feeds `%{field}`
/// substitution, and an address no row covers yields nothing at all.
pub open spec fn format_details_spec(
    ip: Ip,
    formatted: Seq<char>,
    rows: Option<Seq<(Ip, NetRow)>>,
    ifs: Seq<NetInterface>,
) -> Option<Seq<char>> {
    match rows {
        Some(t) => match row_lpm(t, ip.address, addr_width(ip.address) as int) {
            Some(m) => {
                let eff = Ip { address: ip.address, cidr: m.0 };
                let txt = subst_fields(formatted, fields_of(m.1));
                Some(
                    render_spec(
                        apply_reservation(ip.address, txt),
                        eff,
                        ifs,
                        FormatProcessor::Inactive,
                        FormatMode::Text,
                    ),
                )
            },
            None => None,
        },
        None => Some(
            render_spec(
                apply_reservation(ip.address, formatted),
                ip,
                ifs,
                FormatProcessor::Inactive,
                FormatMode::Text,
            ),
        ),
    }
}

/// Replaces every occurrence of a non-empty pattern.
pub fn replace_chars(s: &Vec<char>, pat: &Vec<char>, rep: &Vec<char>) -> (r: Vec<char>)
    requires
        pat@.len() > 0,
    ensures
        r@ == replace_spec(s@, pat@, rep@),
{
    let mut out: Vec<char> = Vec::new();
    let mut i: usize = 0;
    proof {
        assert(s@.skip(0) =~= s@);
        assert(out@ + replace_spec(s@, pat@, rep@) =~= replace_spec(s@, pat@, rep@));
    }
    while i < s.len()
        invariant
            i <= s@.len(),
            pat@.len() > 0,
            replace_spec(s@, pat@, rep@) == out@ + replace_spec(s@.skip(i as int), pat@, rep@),
        decreases s@.len() - i,
    {
        let long_enough = s.len() - i >= pat.len();
        let mut hit = long_enough;
        let mut j: usize = 0;
        while hit && j < pat.len()
            invariant
                j <= pat@.len(),
                s@.len() <= usize::MAX,
                hit ==> i + pat@.len() <= s@.len(),
                hit ==> forall|u: int| 0 <= u < j ==> s@[i + u] == pat@[u],
                !hit ==> i + pat@.len() > s@.len() || (j < pat@.len() && s@[i + j]
                    != pat@.index(j as int)),
            decreases (if hit { 1int } else { 0int }), pat@.len() - j,
        {
            if s[i + j] != pat[j] {
                hit = false;
            } else {
                j += 1;
            }
        }
        proof {
            let tail = s@.skip(i as int);
            if hit {
                assert forall|u: int| 0 <= u < pat@.len() implies tail.take(
                    pat@.len() as int,
                )[u] == pat@[u] by {
                    assert(s@[i + u] == pat@[u]);
                };
                assert(tail.take(pat@.len() as int) =~= pat@);
            } else {
                if tail.len() >= pat@.len() && tail.take(pat@.len() as int) == pat@ {
                    assert(s@[i + j] == tail.take(pat@.len() as int)[j as int]);
                    assert(false);
                }
            }
        }
        if hit {
            push_all(&mut out, rep);
            proof {
                assert(s@.skip(i as int).skip(pat@.len() as int) =~= s@.skip(
                    i + pat@.len(),
                ));
            }
            i = i + pat.len();
        } else {
            out.push(s[i]);
            proof {
                assert(s@.skip(i as int)[0] == s@[i as int]);
                assert(s@.skip(i as int).skip(1) =~= s@.skip(i + 1));
                assert(out@ + replace_spec(s@.skip(i + 1), pat@, rep@) =~= out@.drop_last() + (
                seq![s@[i as int]] + replace_spec(s@.skip(i + 1), pat@, rep@)));
            }
            i = i + 1;
        }
    }
    proof {
        assert(s@.skip(s@.len() as int) =~= Seq::<char>::empty());
        assert(out@ + Seq::<char>::empty() =~= out@);
    }
    out
}

/// Substitutes every field of a row.
fn subst_fields_of(s: Vec<char>, nr: &NetRow) -> (r: Vec<char>)
    ensures
        r@ == subst_fields(s@, fields_of(*nr)),
{
    let ghost fs = fields_of(*nr);
    let ghost orig = s@;
    let mut txt = s;
    let mut i: usize = 0;
    proof {
        assert(fs.skip(0) =~= fs);
    }
    while i < nr.row.len()
        invariant
            i <= nr.row@.len(),
            fs == fields_of(*nr),
            subst_fields(txt@, fs.skip(i as int)) == subst_fields(orig, fs),
        decreases nr.row@.len() - i,
    {
        proof {
            assert(fs.skip(i as int)[0] == fs[i as int]);
            assert(fs.skip(i as int).skip(1) =~= fs.skip(i + 1));
        }
        let mut pat: Vec<char> = Vec::new();
        pat.push('%');
        pat.push('{');
        let kc = str_to_chars(nr.row[i].0.as_str());
        push_all(&mut pat, &kc);
        pat.push('}');
        proof {
            assert(pat@ =~= field_pat(fs[i as int].0));
        }
        let vc = str_to_chars(nr.row[i].1.as_str());
        txt = replace_chars(&txt, &pat, &vc);
        i += 1;
    }
    proof {
        assert(fs.skip(nr.row@.len() as int) =~= Seq::<(Seq<char>, Seq<char>)>::empty());
    }
    txt
}

/// Scans the row table for an exact key.
fn row_find<'a>(t: &'a Vec<(Ip, NetRow)>, key: &Ip) -> (r: Option<&'a NetRow>)
    ensures
        r matches Some(nr) ==> row_at(t@, *key) == Some(*nr),
        r is None ==> row_at(t@, *key) is None,
{
    let mut i: usize = 0;
    proof {
        assert(t@.skip(0) =~= t@);
    }
    while i < t.len()
        invariant
            i <= t@.len(),
            row_at(t@, *key) == row_at(t@.skip(i as int), *key),
        decreases t@.len() - i,
    {
        proof {
            assert(t@.skip(i as int)[0] == t@[i as int]);
            assert(t@.skip(i as int).skip(1) =~= t@.skip(i + 1));
        }
        if t[i].0.address == key.address && t[i].0.cidr == key.cidr {
            return Some(&t[i].1);
        }
        i += 1;
    }
    proof {
        assert(t@.skip(t@.len() as int) =~= Seq::<(Ip, NetRow)>::empty());
    }
    None
}

/// Finds the most specific row covering `ip`'s address.
fn row_lpm_find<'a>(t: &'a Vec<(Ip, NetRow)>, ip: &Ip) -> (r: Option<(u32, &'a NetRow)>)
    ensures
        r matches Some(m) ==> row_lpm(t@, ip.address, addr_width(ip.address) as int) matches Some(
            sm,
        ) && sm.0 == m.0 && sm.1 == *m.1 && m.0 <= addr_width(ip.address),
        r is None ==> row_lpm(t@, ip.address, addr_width(ip.address) as int) is None,
{
    let width: u32 = match ip.address {
        Addr::V4(_) => 32,
        Addr::V6(_) => 128,
    };
    let mut p: u32 = width;
    loop
        invariant
            p <= width,
            width == addr_width(ip.address),
            row_lpm(t@, ip.address, width as int) == row_lpm(t@, ip.address, p as int),
        decreases p,
    {
        let key = network(&Ip { address: ip.address, cidr: p });
        match row_find(t, &key) {
            Some(nr) => {
                return Some((p, nr));
            },
            None => {},
        }
        if p == 0 {
            proof {
                assert(row_lpm(t@, ip.address, -1) is None);
            }
            return None;
        }
        p = p - 1;
    }
}

/// Renders one format text for one address: row-field and reservation
/// substitution, then the escape-driven machine over the characters. With a
/// row table, an address no row covers yields `None`.
pub fn format_details(
    ip: &Ip,
    formatted: String,
    rows: &Option<Vec<(Ip, NetRow)>>,
    interfaces: &Vec<NetInterface>,
) -> (r: Option<String>)
    requires
        valid_ip(*ip),
        !(ip.address is V6 && ip.cidr == 0),
        rows matches Some(t) ==> rows_have_positive_v6_prefix(t@),
    ensures
        match format_details_spec(
            *ip,
            formatted@,
            match *rows {
                Some(t) => Some(t@),
                None => None,
            },
            interfaces@,
        ) {
            Some(txt) => r matches Some(out) && out@ == txt,
            None => r is None,
        },
{
    let mut eff = Ip { address: ip.address, cidr: ip.cidr };
    let mut txt = str_to_chars(formatted.as_str());
    match rows {
        Some(t) => {
            match row_lpm_find(t, ip) {
                Some((cidr, nr)) => {
                    proof {
                        if ip.address is V6 {
                            lemma_row_lpm_positive(
                                t@,
                                ip.address,
                                addr_width(ip.address) as int,
                            );
                        }
                    }
                    eff = Ip { address: ip.address, cidr };
                    txt = subst_fields_of(txt, nr);
                },
                None => {
                    return None;
                },
            }
        },
        None => {},
    }
    match network_reservation(&eff) {
        Some(lbl) => {
            let mut pat: Vec<char> = Vec::new();
            pat.push('%');
            pat.push('r');
            proof {
                assert(pat@ =~= seq!['%', 'r']);
            }
            let lblc = str_to_chars(lbl.as_str());
            txt = replace_chars(&txt, &pat, &lblc);
        },
        None => {},
    }
    let out = render_text(&txt, &eff, interfaces);
    Some(chars_to_string(&out))
}

/// Runs the escape machine over the whole text.
fn render_text(txt: &Vec<char>, ip: &Ip, interfaces: &Vec<NetInterface>) -> (r: Vec<char>)
    requires
        valid_ip(*ip),
        !(ip.address is V6 && ip.cidr == 0),
    ensures
        r@ == render_spec(txt@, *ip, interfaces@, FormatProcessor::Inactive, FormatMode::Text),
{
    let mut out: Vec<char> = Vec::new();
    let mut proc = FormatProcessor::Inactive;
    let mut mode = FormatMode::Text;
    let mut i: usize = 0;
    proof {
        assert(txt@.skip(0) =~= txt@);
        assert(out@ + render_spec(txt@, *ip, interfaces@, proc, mode) =~= render_spec(
            txt@,
            *ip,
            interfaces@,
            proc,
            mode,
        ));
    }
    while i < txt.len()
        invariant
            i <= txt@.len(),
            valid_ip(*ip),
            !(ip.address is V6 && ip.cidr == 0),
            render_spec(txt@, *ip, interfaces@, FormatProcessor::Inactive, FormatMode::Text)
                == out@ + render_spec(txt@.skip(i as int), *ip, interfaces@, proc, mode),
        decreases txt@.len() - i,
    {
        proof {
            assert(txt@.skip(i as int)[0] == txt@[i as int]);
            assert(txt@.skip(i as int).skip(1) =~= txt@.skip(i + 1));
        }
        let k = txt[i];
        match proc {
            FormatProcessor::Percent => {
                proc = FormatProcessor::Inactive;
                if k == 'B' {
                    proc = FormatProcessor::Percent;
                    mode = FormatMode::Binary;
                } else if k == 'S' {
                    proc = FormatProcessor::Percent;
                    mode = FormatMode::SplitBinary;
                } else if k == 'l' {
                    proc = FormatProcessor::Percent;
                    mode = FormatMode::Integer;
                } else if k == 'L' {
                    proc = FormatProcessor::Percent;
                    mode = FormatMode::SignedInteger;
                } else if k == 'x' {
                    proc = FormatProcessor::Percent;
                    mode = FormatMode::Hex;
                } else if k == 'a' {
                    let piece = formatted_chars(ip, &mode);
                    push_all(&mut out, &piece);
                } else if k == 'b' {
                    let b = broadcast(ip);
                    let piece = formatted_chars(&b, &mode);
                    push_all(&mut out, &piece);
                } else if k == 'n' {
                    let n = network(ip);
                    let piece = formatted_chars(&n, &mode);
                    push_all(&mut out, &piece);
                } else if k == 'w' {
                    let w = wildcard(ip);
                    let piece = formatted_chars(&w, &mode);
                    push_all(&mut out, &piece);
                } else if k == 's' {
                    let s = subnet(ip);
                    let piece = formatted_chars(&s, &mode);
                    push_all(&mut out, &piece);
                } else if k == 'c' {
                    let piece = to_dec(ip.cidr as u128);
                    push_all(&mut out, &piece);
                } else if k == 't' {
                    let piece = to_dec(network_size(ip));
                    push_all(&mut out, &piece);
                } else if k == 'm' {
                    let name = matching_network_interface(ip, interfaces, false);
                    let piece = str_to_chars(name.as_str());
                    push_all(&mut out, &piece);
                } else if k == 'd' {
                    let name = matching_network_interface(ip, interfaces, true);
                    let piece = str_to_chars(name.as_str());
                    push_all(&mut out, &piece);
                } else if k == 'k' {
                    let z = rbl_format(ip);
                    let piece = str_to_chars(z.as_str());
                    push_all(&mut out, &piece);
                } else if k == '%' {
                    out.push('%');
                } else {
                    out.push(k);
                }
            },
            FormatProcessor::Backslash => {
                proc = FormatProcessor::Inactive;
                mode = FormatMode::Text;
                if k == 'n' {
                    out.push('\n');
                } else if k == 't' {
                    out.push('\t');
                } else if k == '\\' {
                    out.push('\\');
                } else {
                    out.push(k);
                }
            },
            FormatProcessor::Inactive => {
                if k == '%' {
                    proc = FormatProcessor::Percent;
                    mode = FormatMode::Text;
                } else if k == '\\' {
                    proc = FormatProcessor::Backslash;
                    mode = FormatMode::Text;
                } else {
                    out.push(k);
                }
            },
        }
        i += 1;
    }
    proof {
        assert(txt@.skip(txt@.len() as int) =~= Seq::<char>::empty());
    }
    match proc {
        FormatProcessor::Percent => {
            out.push('%');
        },
        FormatProcessor::Backslash => {
            out.push('\\');
        },
        FormatProcessor::Inactive => {},
    }
    proof {
        assert(out@ =~= render_spec(
            txt@,
            *ip,
            interfaces@,
            FormatProcessor::Inactive,
            FormatMode::Text,
        ));
    }
    out
}

/// The escape law: for every address and interface table, the format text
/// `%%b` renders as the literal `%b`, never as the broadcast placeholder.
pub proof fn lemma_percent_literal(ip: Ip, ifs: Seq<NetInterface>)
    ensures
        format_details_spec(ip, "%%b"@, None, ifs) == Some("%b"@),
{
    reveal_strlit("%%b");
    reveal_strlit("%b");
    let s = "%%b"@;
    let s2 = seq!['%', 'b'];
    let s1 = seq!['b'];
    let s0 = Seq::<char>::empty();
    assert(s =~= seq!['%', '%', 'b']);
    assert(s.skip(1) =~= s2);
    assert(s2.skip(1) =~= s1);
    assert(s1.skip(1) =~= s0);
    let pat = seq!['%', 'r'];
    match reservation_of(ip.address) {
        Some(lbl) => {
            assert(s.take(2) =~= seq!['%', '%']);
            assert(s2.take(2) =~= s2);
            if s.take(2) == pat {
                assert(s.take(2)[1] == '%');
                assert(false);
            }
            if s2.take(2) == pat {
                assert(s2.take(2)[1] == 'b');
                assert(false);
            }
            assert(replace_spec(s0, pat, lbl) =~= s0);
            assert(replace_spec(s1, pat, lbl) =~= s1);
            assert(replace_spec(s2, pat, lbl) =~= s2);
            assert(replace_spec(s, pat, lbl) =~= s);
            assert(apply_reservation(ip.address, s) == s);
        },
        None => {
            assert(apply_reservation(ip.address, s) == s);
        },
    }
    assert(render_spec(s0, ip, ifs, FormatProcessor::Inactive, FormatMode::Text) =~= s0);
    assert(render_spec(s1, ip, ifs, FormatProcessor::Inactive, FormatMode::Text) =~= s1);
    assert(render_spec(s2, ip, ifs, FormatProcessor::Percent, FormatMode::Text) =~= s2);
    assert(render_spec(s, ip, ifs, FormatProcessor::Inactive, FormatMode::Text) =~= s2);
    assert("%b"@ =~= s2);
}

} // verus!
