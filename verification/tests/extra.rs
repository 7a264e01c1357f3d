use ripcalc::addresses;
use ripcalc::broadcast;
use ripcalc::find_ips;
use ripcalc::format_details;
use ripcalc::matching_network_interface;
use ripcalc::network;
use ripcalc::network_reservation;
use ripcalc::network_size;
use ripcalc::parse_address_mask;
use ripcalc::parse_mask;
use ripcalc::parse_v4;
use ripcalc::parse_v4_v6;
use ripcalc::parse_v6;
use ripcalc::rbl_format;
use ripcalc::smallest_group_network;
use ripcalc::smallest_group_network_limited;
use ripcalc::subnet;
use ripcalc::wildcard;
use ripcalc::within;
use ripcalc::withoverlap;
use ripcalc::without;
use ripcalc::Addr;
use ripcalc::Ip;
use ripcalc::NetInterface;
use ripcalc::NetRow;
use ripcalc::Reverse;

fn v4(s: &str) -> Addr {
    parse_v4(s, None, false).unwrap()
}

fn v6(s: &str) -> Addr {
    parse_v6(s, None, false).unwrap()
}

fn no_ifaces() -> Vec<NetInterface> {
    Vec::new()
}

#[test]
fn test_order_law_concrete() {
    // the network address is never above the address, the broadcast never
    // below, and the span is the network size
    let ip = Ip { address: v4("203.0.113.77"), cidr: 26 };
    let n = network(&ip);
    let b = broadcast(&ip);
    assert_eq!(n.address, v4("203.0.113.64"));
    assert_eq!(b.address, v4("203.0.113.127"));
    assert_eq!(network_size(&ip), 64);
}

#[test]
fn test_network_idempotent_full_prefix() {
    let ip = Ip { address: v4("203.0.113.77"), cidr: 32 };
    assert_eq!(network(&ip).address, ip.address);
    let ip6 = Ip { address: v6("2001:db8::77"), cidr: 128 };
    assert_eq!(network(&ip6).address, ip6.address);
}

#[test]
fn test_subnet_complements_wildcard() {
    for cidr in 0..=32u32 {
        let ip = Ip { address: v4("10.1.2.3"), cidr };
        let s = subnet(&ip);
        let w = wildcard(&ip);
        match (s.address, w.address) {
            (Addr::V4(sv), Addr::V4(wv)) => assert_eq!(sv, !wv),
            _ => panic!("family changed"),
        }
    }
}

#[test]
fn test_reversal_self_inverse() {
    // V4 byte reversal twice recovers the address
    let a = parse_v4("0101A8C0", Some(16), true).unwrap();
    assert_eq!(a, v4("192.168.1.1"));
    let b = match parse_address_mask("C0A80101", None, None, Some(16), true) {
        Some(x) => x.address,
        None => panic!("parse failed"),
    };
    assert_eq!(b, v4("1.1.168.192"));
    // V6 nibble reversal twice recovers the address
    let once = parse_v6("2001:db8::1", None, true).unwrap();
    let once_text = match once {
        Addr::V6(_) => format_details(
            &Ip { address: once, cidr: 128 },
            "%a".to_string(),
            &None,
            &no_ifaces(),
        )
        .unwrap(),
        _ => panic!("family changed"),
    };
    let twice = parse_v6(&once_text, None, true).unwrap();
    assert_eq!(twice, v6("2001:db8::1"));
}

#[test]
fn test_smallest_common_five() {
    let nets: Vec<Ip> = vec![
        Ip { address: v4("192.168.1.0"), cidr: 24 },
        Ip { address: v4("192.168.2.0"), cidr: 24 },
        Ip { address: v4("192.168.3.0"), cidr: 24 },
        Ip { address: v4("192.168.4.0"), cidr: 24 },
        Ip { address: v4("192.168.5.0"), cidr: 24 },
    ];
    assert_eq!(
        smallest_group_network(&nets),
        Some(Ip { address: v4("192.168.0.0"), cidr: 21 })
    );
}

#[test]
fn test_smallest_common_mixed_families() {
    let nets: Vec<Ip> = vec![
        Ip { address: v4("192.168.1.0"), cidr: 24 },
        Ip { address: v6("2001:db8::"), cidr: 64 },
    ];
    assert_eq!(smallest_group_network(&nets), None);
    assert_eq!(smallest_group_network(&Vec::new()), None);
}

#[test]
fn test_grouped_sixteen() {
    let mut nets: Vec<Ip> = Vec::new();
    for i in 0..4 {
        for j in 0..4 {
            nets.push(Ip {
                address: v4(&format!("192.168.{}.{}", i, j * 64)),
                cidr: 24,
            });
        }
    }
    let r = smallest_group_network_limited(&nets, 22).unwrap();
    assert_eq!(r, vec![Ip { address: v4("192.168.0.0"), cidr: 22 }]);
}

#[test]
fn test_parse_v4_rejects() {
    assert_eq!(parse_v4("999.1.1.1", None, false), None);
    assert_eq!(parse_v4("1.2.3", None, false), None);
    assert_eq!(parse_v4("1.2.3.4.5", None, false), None);
    assert_eq!(parse_v4("01.2.3.4", None, false), None);
    assert_eq!(parse_v4("1.2.3.x", None, false), None);
    assert_eq!(parse_v4("", None, false), None);
    // a radix outside 2..=36 denotes nothing
    assert_eq!(parse_v4("1.2.3.4", Some(1), false), None);
    assert_eq!(parse_v4("1.2.3.4", Some(40), false), None);
    // a component too large for a byte denotes nothing
    assert_eq!(parse_v4("300.1.1.1", Some(10), false), None);
}

#[test]
fn test_parse_v4_base_paths() {
    // whole-string form: no dots, unreversed, base other than sixteen
    assert_eq!(parse_v4("3232235777", Some(10), false), Some(v4("192.168.1.1")));
    // base sixteen without dots goes through two-character chunks
    assert_eq!(parse_v4("C0A80101", Some(16), false), Some(v4("192.168.1.1")));
    // an odd final chunk is one byte
    assert_eq!(parse_v4("ABC", Some(16), false), Some(v4("171.12.0.0")));
    // dotted components in the base
    assert_eq!(parse_v4("377.0.0.1", Some(8), false), Some(v4("255.0.0.1")));
}

#[test]
fn test_parse_v6_rejects() {
    assert_eq!(parse_v6("1::2::3", None, false), None);
    assert_eq!(parse_v6("1:2:3:4:5:6:7", None, false), None);
    assert_eq!(parse_v6("1:2:3:4:5:6:7:8:9", None, false), None);
    assert_eq!(parse_v6("12345::", None, false), None);
    assert_eq!(parse_v6(":1:2:3:4:5:6:7", None, false), None);
    assert_eq!(parse_v6("1:2:3:4:5:6:7:", None, false), None);
    assert_eq!(parse_v6("", None, false), None);
    assert_eq!(parse_v6("g::1", None, false), None);
}

#[test]
fn test_parse_v6_forms() {
    assert_eq!(parse_v6("::", None, false), Some(Addr::V6(0)));
    assert_eq!(parse_v6("::1", None, false), Some(Addr::V6(1)));
    assert_eq!(
        parse_v6("1:2:3:4:5:6:7:8", None, false),
        Some(Addr::V6(0x0001_0002_0003_0004_0005_0006_0007_0008))
    );
    assert_eq!(
        parse_v6("2001:db8::1", None, false),
        Some(Addr::V6(0x2001_0db8_0000_0000_0000_0000_0000_0001))
    );
    assert_eq!(
        parse_v6("1:2:3:4:5:6:7::", None, false),
        Some(Addr::V6(0x0001_0002_0003_0004_0005_0006_0007_0000))
    );
    // an embedded dotted quad fills the last two groups
    assert_eq!(
        parse_v6("::ffff:192.168.0.1", None, false),
        Some(Addr::V6(0x0000_0000_0000_0000_0000_ffff_c0a8_0001))
    );
    // a whole-string radix form
    assert_eq!(parse_v6("ff", Some(16), false), Some(Addr::V6(255)));
    assert_eq!(parse_v6("255", Some(10), false), Some(Addr::V6(255)));
}

#[test]
fn test_parse_family_selection() {
    assert_eq!(parse_v4_v6("::1", None, false), Some(Addr::V6(1)));
    assert_eq!(parse_v4_v6("10.0.0.1", None, false), Some(v4("10.0.0.1")));
    // more than twenty characters under an explicit base selects V6
    assert_eq!(
        parse_v4_v6("340282366920938463463374607431768211455", Some(10), false),
        Some(Addr::V6(u128::MAX))
    );
}

#[test]
fn test_parse_mask_forms() {
    assert_eq!(parse_mask("24"), Some(24));
    assert_eq!(parse_mask("+24"), Some(24));
    assert_eq!(parse_mask("abc"), None);
    assert_eq!(parse_mask(""), None);
    assert_eq!(parse_mask("99999999999999999999"), None);
}

#[test]
fn test_parse_address_mask_defaults() {
    assert_eq!(
        parse_address_mask("10.0.0.1/8", None, None, None, false),
        Some(Ip { address: v4("10.0.0.1"), cidr: 8 })
    );
    assert_eq!(
        parse_address_mask("10.0.0.1", Some(30), Some(120), None, false),
        Some(Ip { address: v4("10.0.0.1"), cidr: 30 })
    );
    assert_eq!(
        parse_address_mask("::1", None, None, None, false),
        Some(Ip { address: v6("::1"), cidr: 64 })
    );
    // an unreadable prefix part falls back to the default
    assert_eq!(
        parse_address_mask("10.0.0.1/abc", None, None, None, false),
        Some(Ip { address: v4("10.0.0.1"), cidr: 24 })
    );
    assert_eq!(parse_address_mask("nonsense", None, None, None, false), None);
}

#[test]
fn test_format_modes() {
    let ip = Ip { address: v4("192.168.1.1"), cidr: 24 };
    let f = format_details(&ip, "%Ba".to_string(), &None, &no_ifaces());
    assert_eq!(f, Some("11000000101010000000000100000001".to_string()));
    let f = format_details(&ip, "%Sa".to_string(), &None, &no_ifaces());
    assert_eq!(f, Some("110000001010100000000001 00000001".to_string()));
    let f = format_details(&ip, "%xa".to_string(), &None, &no_ifaces());
    assert_eq!(f, Some("c0a80101".to_string()));
    let f = format_details(&ip, "%c".to_string(), &None, &no_ifaces());
    assert_eq!(f, Some("24".to_string()));
    let f = format_details(&ip, "%t".to_string(), &None, &no_ifaces());
    assert_eq!(f, Some("256".to_string()));
    let f = format_details(&ip, "%n/%c".to_string(), &None, &no_ifaces());
    assert_eq!(f, Some("192.168.1.0/24".to_string()));
    let f = format_details(&ip, "%s and %w".to_string(), &None, &no_ifaces());
    assert_eq!(f, Some("255.255.255.0 and 0.0.0.255".to_string()));
    // an unrecognized placeholder letter is copied through
    let f = format_details(&ip, "%q".to_string(), &None, &no_ifaces());
    assert_eq!(f, Some("q".to_string()));
    let ip6 = Ip { address: v6("2001:db8::1"), cidr: 64 };
    let f = format_details(&ip6, "%xa".to_string(), &None, &no_ifaces());
    assert_eq!(f, Some("2001:0db8:0000:0000:0000:0000:0000:0001".to_string()));
}

#[test]
fn test_format_rbl() {
    let ip = Ip { address: v4("1.2.3.4"), cidr: 32 };
    assert_eq!(rbl_format(&ip), "4.3.2.1".to_string());
    let f = format_details(&ip, "%k".to_string(), &None, &no_ifaces());
    assert_eq!(f, Some("4.3.2.1".to_string()));
    let ip6 = Ip { address: v6("2001:db8::1"), cidr: 128 };
    assert_eq!(
        rbl_format(&ip6),
        "1.0.0.0.0.0.0.0.0.0.0.0.0.0.0.0.0.0.0.0.0.0.0.0.8.b.d.0.1.0.0.2".to_string()
    );
}

#[test]
fn test_v6_text_compression() {
    let show = |a: Addr| -> String {
        format_details(&Ip { address: a, cidr: 128 }, "%a".to_string(), &None, &no_ifaces())
            .unwrap()
    };
    assert_eq!(show(Addr::V6(0)), "::".to_string());
    assert_eq!(show(Addr::V6(1)), "::1".to_string());
    assert_eq!(show(v6("1::")), "1::".to_string());
    assert_eq!(show(v6("1:0:2:3:4:5:6:7")), "1:0:2:3:4:5:6:7".to_string());
    // the leftmost of two equally long zero runs is folded
    assert_eq!(
        show(v6("2001:0db8:0000:0000:0001:0000:0000:0001")),
        "2001:db8::1:0:0:1".to_string()
    );
}

#[test]
fn test_reservation_labels() {
    let r = network_reservation(&Ip { address: v4("10.1.2.3"), cidr: 32 });
    assert_eq!(r, Some("RFC 1918".to_string()));
    let r = network_reservation(&Ip { address: v4("127.0.0.1"), cidr: 8 });
    assert_eq!(r, Some("Used for loopback addresses to the local host.".to_string()));
    let r = network_reservation(&Ip { address: v4("8.8.8.8"), cidr: 32 });
    assert_eq!(r, None);
    let r = network_reservation(&Ip { address: v6("fe80::1"), cidr: 64 });
    assert_eq!(r, Some("Link local".to_string()));
    let ip = Ip { address: v4("10.0.0.1"), cidr: 24 };
    let f = format_details(&ip, "%r".to_string(), &None, &no_ifaces());
    assert_eq!(f, Some("RFC 1918".to_string()));
}

#[test]
fn test_containment_relations() {
    let net = Ip { address: v4("192.168.0.0"), cidr: 16 };
    let inside = Ip { address: v4("192.168.40.0"), cidr: 24 };
    let outside = Ip { address: v4("10.0.0.0"), cidr: 24 };
    let straddle = Ip { address: v4("192.0.0.0"), cidr: 8 };
    assert!(within(&net, &inside));
    assert!(!within(&net, &outside));
    assert!(!without(&net, &inside));
    assert!(without(&net, &outside));
    assert!(withoverlap(&net, &straddle));
    assert!(!withoverlap(&net, &outside));
    // mixed families always compare as false
    let six = Ip { address: v6("2001:db8::"), cidr: 32 };
    assert!(!within(&net, &six));
    assert!(!without(&net, &six));
    assert!(!withoverlap(&net, &six));
}

#[test]
fn test_row_substitution() {
    let rows = Some(vec![(
        Ip { address: v4("10.0.0.0"), cidr: 8 },
        NetRow {
            row: vec![
                ("site".to_string(), "main office".to_string()),
                ("vlan".to_string(), "42".to_string()),
            ],
        },
    )]);
    let ip = Ip { address: v4("10.9.9.9"), cidr: 24 };
    let f = format_details(&ip, "%{site} vlan %{vlan} is %a/%c".to_string(), &rows, &no_ifaces());
    // the matched row fills the fields and resets the effective prefix
    assert_eq!(f, Some("main office vlan 42 is 10.9.9.9/8".to_string()));
    // an address no row covers yields nothing at all
    let miss = Ip { address: v4("192.168.0.1"), cidr: 24 };
    let f = format_details(&miss, "%a".to_string(), &rows, &no_ifaces());
    assert_eq!(f, None);
}

#[test]
fn test_interface_names() {
    let ifaces = vec![
        NetInterface {
            name: "lo".to_string(),
            address: v4("127.0.0.1"),
            netmask: Some(v4("255.0.0.0")),
        },
        NetInterface {
            name: "eth0".to_string(),
            address: v4("192.168.1.10"),
            netmask: Some(v4("255.255.255.0")),
        },
    ];
    let ip = Ip { address: v4("192.168.1.77"), cidr: 24 };
    assert_eq!(matching_network_interface(&ip, &ifaces, false), "eth0".to_string());
    let exact = Ip { address: v4("192.168.1.10"), cidr: 32 };
    assert_eq!(matching_network_interface(&exact, &ifaces, true), "eth0".to_string());
    let nowhere = Ip { address: v4("10.0.0.1"), cidr: 32 };
    assert_eq!(matching_network_interface(&nowhere, &ifaces, true), "".to_string());
    let f = format_details(&ip, "%m".to_string(), &None, &ifaces);
    assert_eq!(f, Some("eth0".to_string()));
    let f = format_details(&exact, "%d".to_string(), &None, &ifaces);
    assert_eq!(f, Some("eth0".to_string()));
}

#[test]
fn test_find_ips_lines() {
    let lines = vec![
        "192.168.1.1/28 10.0.0.1".to_string(),
        "  junk 8.8.8.8  ".to_string(),
        "".to_string(),
    ];
    let ips = find_ips(&lines, None, &Reverse::Neither);
    assert_eq!(
        ips,
        vec![
            Ip { address: v4("192.168.1.1"), cidr: 28 },
            Ip { address: v4("10.0.0.1"), cidr: 32 },
            Ip { address: v4("8.8.8.8"), cidr: 32 },
        ]
    );
}

#[test]
fn test_enumerate_excluded_blocks() {
    // in stride mode the exclusion list is probed at a block's last address
    let net = Ip { address: v4("192.168.0.0"), cidr: 24 };
    let used = vec![v4("192.168.0.127")];
    let mut i = addresses(&net, Some(&used), Some(25));
    assert_eq!(i.next().as_ref().unwrap().address, v4("192.168.0.128"));
    assert_eq!(i.next(), None);
}

#[test]
fn test_enumerate_extremes() {
    // dividing the whole V4 space in two
    let net = Ip { address: v4("0.0.0.0"), cidr: 0 };
    let mut i = addresses(&net, None, Some(1));
    assert_eq!(i.next().unwrap().address, v4("0.0.0.0"));
    assert_eq!(i.next().unwrap().address, v4("128.0.0.0"));
    assert_eq!(i.next(), None);
    // the V6 host walk stops just short of the broadcast
    let net6 = Ip { address: v6("2001:db8::"), cidr: 126 };
    let mut i = addresses(&net6, None, None);
    assert_eq!(i.next().unwrap().address, v6("2001:db8::"));
    assert_eq!(i.next().unwrap().address, v6("2001:db8::1"));
    assert_eq!(i.next().unwrap().address, v6("2001:db8::2"));
    assert_eq!(i.next(), None);
    // a stride at the top of the space never needs a cursor past it
    let top = Ip { address: v6("8000::"), cidr: 1 };
    let mut i = addresses(&top, None, Some(1));
    assert_eq!(i.next().unwrap().address, v6("8000::"));
    assert_eq!(i.next(), None);
}
