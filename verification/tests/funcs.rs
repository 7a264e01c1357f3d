use ripcalc::addresses;
use ripcalc::broadcast;
use ripcalc::format_details;
use ripcalc::network;
use ripcalc::network_size;
use ripcalc::parse_address_mask;
use ripcalc::parse_v4;
use ripcalc::parse_v6;
use ripcalc::smallest_group_network;
use ripcalc::smallest_group_network_limited;
use ripcalc::subnet;
use ripcalc::subnets_in_network;
use ripcalc::wildcard;
use ripcalc::Addr;
use ripcalc::Ip;
use ripcalc::NetInterface;

fn v4(s: &str) -> Addr {
    parse_v4(s, None, false).unwrap()
}

fn v6(s: &str) -> Addr {
    parse_v6(s, None, false).unwrap()
}

fn no_ifaces() -> Vec<NetInterface> {
    Vec::new()
}

#[test]
fn test_broadcast_num() {
    assert_eq!(
        broadcast(&Ip {
            address: v4("192.168.0.1"),
            cidr: 24,
        })
        .address,
        v4("192.168.0.255")
    );

    assert_eq!(
        broadcast(&Ip {
            address: v4("192.168.255.1"),
            cidr: 24,
        })
        .address,
        v4("192.168.255.255")
    );

    assert_eq!(
        broadcast(&Ip {
            address: v6("2001:0db8:85a3:0000:0000:8a2e:0370:7334"),
            cidr: 64,
        })
        .address,
        v6("2001:0db8:85a3:0000:ffff:ffff:ffff:ffff")
    );
}

#[test]
fn test_network_num() {
    assert_eq!(
        network(&Ip {
            address: v4("192.168.0.1"),
            cidr: 24,
        })
        .address,
        v4("192.168.0.0")
    );

    assert_eq!(
        network(&Ip {
            address: v4("192.168.255.1"),
            cidr: 24,
        })
        .address,
        v4("192.168.255.0")
    );

    assert_eq!(
        network(&Ip {
            address: v6("2001:0db8:85a3:0000:0000:8a2e:0370:7334"),
            cidr: 64,
        })
        .address,
        v6("2001:0db8:85a3:0000:0000:0000:0000:0000")
    );
}

#[test]
fn test_subnet_num() {
    assert_eq!(
        subnet(&Ip {
            address: v4("192.168.0.1"),
            cidr: 24,
        })
        .address,
        v4("255.255.255.0")
    );

    assert_eq!(
        subnet(&Ip {
            address: v4("192.168.255.1"),
            cidr: 24,
        })
        .address,
        v4("255.255.255.0")
    );
}

#[test]
fn test_wildcard_num() {
    assert_eq!(
        wildcard(&Ip {
            address: v4("192.168.0.1"),
            cidr: 24,
        })
        .address,
        v4("0.0.0.255")
    );

    assert_eq!(
        wildcard(&Ip {
            address: v4("192.168.255.1"),
            cidr: 24,
        })
        .address,
        v4("0.0.0.255")
    );
}

#[test]
fn test_network_size() {
    assert_eq!(network_size(&Ip { address: v4("192.168.0.0"), cidr: 32 }), 1);
    assert_eq!(network_size(&Ip { address: v4("192.168.0.0"), cidr: 31 }), 2);
    assert_eq!(network_size(&Ip { address: v4("192.168.0.0"), cidr: 30 }), 4);
    assert_eq!(network_size(&Ip { address: v4("192.168.0.0"), cidr: 29 }), 8);
    assert_eq!(network_size(&Ip { address: v4("192.168.0.0"), cidr: 28 }), 16);

    let a = v6("2001:0db8:85a3:0000:0000:0000:0000:0000");
    assert_eq!(network_size(&Ip { address: a, cidr: 128 }), 1);
    assert_eq!(network_size(&Ip { address: a, cidr: 127 }), 2);
    assert_eq!(network_size(&Ip { address: a, cidr: 126 }), 4);
    assert_eq!(network_size(&Ip { address: a, cidr: 125 }), 8);
    assert_eq!(network_size(&Ip { address: a, cidr: 124 }), 16);
    assert_eq!(network_size(&Ip { address: a, cidr: 123 }), 32);
    assert_eq!(network_size(&Ip { address: a, cidr: 122 }), 64);
    assert_eq!(network_size(&Ip { address: a, cidr: 121 }), 128);
    assert_eq!(network_size(&Ip { address: a, cidr: 120 }), 256);
}

#[test]
fn test_network_iter() {
    let net = Ip { address: v4("192.168.0.0"), cidr: 30 };

    let mut i = addresses(&net, None, None);

    assert_eq!(i.next().as_ref().unwrap().address, v4("192.168.0.0"));
    assert_eq!(i.next().as_ref().unwrap().address, v4("192.168.0.1"));
    assert_eq!(i.next().as_ref().unwrap().address, v4("192.168.0.2"));
    assert_eq!(i.next().as_ref().unwrap().address, v4("192.168.0.3"));
    assert_eq!(i.next(), None);
}

#[test]
fn test_format_ng_ip() {
    let net = Ip { address: v4("192.168.0.0"), cidr: 30 };

    let f = format_details(&net, "%a".to_string(), &None, &no_ifaces());

    assert_eq!(f, Some("192.168.0.0".to_string()));
}

#[test]
fn test_format_ng_percent() {
    let net = Ip { address: v4("192.168.0.0"), cidr: 30 };

    let f = format_details(&net, "%".to_string(), &None, &no_ifaces());
    assert_eq!(f, Some("%".to_string()));

    let f = format_details(&net, "%%".to_string(), &None, &no_ifaces());
    assert_eq!(f, Some("%".to_string()));

    let f = format_details(&net, "%%%".to_string(), &None, &no_ifaces());
    assert_eq!(f, Some("%%".to_string()));

    let f = format_details(&net, "%%%%".to_string(), &None, &no_ifaces());
    assert_eq!(f, Some("%%".to_string()));
}

#[test]
fn test_format_ng_boilerplate() {
    let net = Ip { address: v6("2001:ba8:1f1:f1cb::4"), cidr: 64 };

    let f = format_details(&net, "select * from IP6 where (ip >= %ln and ip <= %lb) and active = 1;\nupdate IP6 set active = 0 where (ip >= %ln and ip <= %lb) and active = 1;".to_string(), &None, &no_ifaces());

    assert_eq!(f, Some("select * from IP6 where (ip >= 42540724579414763292693624807812497408 and ip <= 42540724579414763311140368881522049023) and active = 1;
update IP6 set active = 0 where (ip >= 42540724579414763292693624807812497408 and ip <= 42540724579414763311140368881522049023) and active = 1;".to_string()));
}

#[test]
fn test_format_ng_percent_marker() {
    let net = Ip { address: v6("2001:ba8:1f1:f1cb::4"), cidr: 64 };

    let f = format_details(&net, "%%b".to_string(), &None, &no_ifaces());

    assert_eq!(f, Some("%b".to_string()));
}

#[test]
fn test_format_ng_long_broadcast() {
    let net = Ip { address: v6("2001:ba8:1f1:f1cb::4"), cidr: 64 };

    let f = format_details(&net, "%lb".to_string(), &None, &no_ifaces());

    assert_eq!(f, Some("42540724579414763311140368881522049023".to_string()));
}

#[test]
fn test_format_ng_long_broadcast_backslash() {
    let net = Ip { address: v6("2001:ba8:1f1:f1cb::4"), cidr: 64 };

    let f = format_details(&net, "%lb\n\n\n%%".to_string(), &None, &no_ifaces());

    assert_eq!(
        f,
        Some("42540724579414763311140368881522049023\n\n\n%".to_string())
    );
}

#[test]
fn test_format_ng_backslash() {
    let net = Ip { address: v6("2001:ba8:1f1:f1cb::4"), cidr: 64 };

    let f = format_details(&net, "\n".to_string(), &None, &no_ifaces());
    assert_eq!(f, Some("\n".to_string()));

    let f = format_details(&net, "\\".to_string(), &None, &no_ifaces());
    assert_eq!(f, Some('\\'.to_string()));

    let f = format_details(&net, "\\i".to_string(), &None, &no_ifaces());
    assert_eq!(f, Some("i".to_string()));

    let f = format_details(&net, "\\t".to_string(), &None, &no_ifaces());
    assert_eq!(f, Some("\t".to_string()));
}

#[test]
fn test_address_space_use() {
    let net = Ip { address: v4("192.168.0.0"), cidr: 30 };

    let used = vec![v4("192.168.0.0"), v4("192.168.0.1"), v4("192.168.0.2")];

    let mut i = addresses(&net, Some(&used), None);

    assert_eq!(i.next().as_ref().unwrap().address, v4("192.168.0.3"));
    assert_eq!(i.next(), None);

    let used = vec![v4("192.168.1.0"), v4("192.168.1.1"), v4("192.168.1.2")];

    let mut i = addresses(&net, Some(&used), None);

    assert_eq!(i.next().as_ref().unwrap().address, v4("192.168.0.0"));
}

#[test]
fn test_smallest_network() {
    let mut nets: Vec<Ip> = Vec::new();
    nets.push(Ip { address: v4("192.168.0.0"), cidr: 30 });
    nets.push(Ip { address: v4("192.168.1.0"), cidr: 24 });
    nets.push(Ip { address: v4("192.168.2.0"), cidr: 24 });
    nets.push(Ip { address: v4("192.168.3.0"), cidr: 24 });
    nets.push(Ip { address: v4("192.168.4.0"), cidr: 24 });
    nets.push(Ip { address: v4("192.168.5.0"), cidr: 24 });
    nets.push(Ip { address: v4("192.168.2.0"), cidr: 24 });

    assert_eq!(
        smallest_group_network(&nets),
        Some(Ip { address: v4("192.168.0.0"), cidr: 21 })
    );

    let mut nets: Vec<Ip> = Vec::new();
    nets.push(Ip { address: v4("192.168.0.0"), cidr: 24 });
    nets.push(Ip { address: v4("192.168.1.0"), cidr: 24 });
    nets.push(Ip { address: v4("192.168.20.0"), cidr: 24 });
    nets.push(Ip { address: v4("192.168.40.0"), cidr: 24 });
    nets.push(Ip { address: v4("192.168.70.0"), cidr: 24 });
    nets.push(Ip { address: v4("192.168.90.0"), cidr: 24 });
    nets.push(Ip { address: v4("192.168.200.0"), cidr: 24 });
    nets.push(Ip { address: v4("192.168.255.0"), cidr: 24 });
    nets.push(Ip { address: v4("192.168.220.0"), cidr: 24 });

    assert_eq!(
        smallest_group_network(&nets),
        Some(Ip { address: v4("192.168.0.0"), cidr: 16 })
    );

    let mut nets: Vec<Ip> = Vec::new();
    nets.push(Ip { address: v4("192.168.0.0"), cidr: 30 });
    nets.push(Ip { address: v4("192.168.0.1"), cidr: 30 });
    nets.push(Ip { address: v4("192.168.0.2"), cidr: 30 });

    assert_eq!(
        smallest_group_network(&nets),
        Some(Ip { address: v4("192.168.0.0"), cidr: 30 })
    );
}

#[test]
fn test_base_hex() {
    assert_eq!(
        parse_address_mask("192.168.1.1", None, None, Some(10), false),
        Some(Ip { address: v4("192.168.1.1"), cidr: 24 })
    );

    assert_eq!(
        parse_address_mask("192.168.1.1", None, None, None, false),
        Some(Ip { address: v4("192.168.1.1"), cidr: 24 })
    );
    assert_eq!(
        parse_address_mask("D4166001", None, None, Some(16), false),
        Some(Ip { address: v4("212.22.96.1"), cidr: 24 })
    );
    assert_eq!(
        parse_address_mask("177.0.0.1", None, None, Some(8), false),
        Some(Ip { address: v4("127.0.0.1"), cidr: 24 })
    );
}

#[test]
fn test_reverse() {
    assert_eq!(
        parse_address_mask("0101A8C0", None, None, Some(16), true),
        Some(Ip { address: v4("192.168.1.1"), cidr: 24 })
    );
}

#[test]
fn test_signed_ints() {
    let net = Ip { address: v4("147.147.137.206"), cidr: 30 };

    let f = format_details(&net, "%La".to_string(), &None, &no_ifaces());
    assert_eq!(f, Some("-1819047474".to_string()));
    let f = format_details(&net, "%la".to_string(), &None, &no_ifaces());
    assert_eq!(f, Some("2475919822".to_string()));

    let net = Ip { address: v6("ffff::ffff"), cidr: 30 };

    let f = format_details(&net, "%La".to_string(), &None, &no_ifaces());
    assert_eq!(f, Some("-5192296858534827628530496329154561".to_string()));
    let f = format_details(&net, "%la".to_string(), &None, &no_ifaces());
    assert_eq!(
        f,
        Some("340277174624079928635746076935439056895".to_string())
    );
}

#[test]
fn test_within_ipv4() {
    assert_eq!(
        ripcalc::within(
            &Ip { address: v4("127.0.0.1"), cidr: 8 },
            &Ip { address: v4("10.0.0.0"), cidr: 8 },
        ),
        false
    );
    assert_eq!(
        ripcalc::within(
            &Ip { address: v4("192.168.0.0"), cidr: 24 },
            &Ip { address: v4("192.168.0.0"), cidr: 16 },
        ),
        false
    );
    assert_eq!(
        ripcalc::within(
            &Ip { address: v4("127.0.0.1"), cidr: 8 },
            &Ip { address: v4("192.168.0.0"), cidr: 16 },
        ),
        false
    );
    assert_eq!(
        ripcalc::within(
            &Ip { address: v4("127.0.0.1"), cidr: 8 },
            &Ip { address: v4("127.1.1.1"), cidr: 16 },
        ),
        true
    );
}

#[test]
fn test_within_ipv6() {
    assert_eq!(
        ripcalc::within(
            &Ip { address: v6("::1"), cidr: 48 },
            &Ip { address: v6("f::1"), cidr: 48 },
        ),
        false
    );
    assert_eq!(
        ripcalc::within(
            &Ip { address: v6("::1"), cidr: 48 },
            &Ip { address: v6("dead:beef::cafe"), cidr: 48 },
        ),
        false
    );
    assert_eq!(
        ripcalc::within(
            &Ip { address: v6("1::1"), cidr: 48 },
            &Ip { address: v6("::f:f:f:f:f"), cidr: 48 },
        ),
        false
    );
}

#[test]
fn test_network_divide_iter() {
    let net = Ip { address: v4("192.168.0.0"), cidr: 24 };

    let mut i = addresses(&net, None, Some(25));
    assert_eq!(i.next().as_ref().unwrap().address, v4("192.168.0.0"));
    assert_eq!(i.next().as_ref().unwrap().address, v4("192.168.0.128"));
    assert_eq!(i.next(), None,);

    let mut i = addresses(&net, None, Some(26));
    assert_eq!(i.next().as_ref().unwrap().address, v4("192.168.0.0"));
    assert_eq!(i.next().as_ref().unwrap().address, v4("192.168.0.64"));
    assert_eq!(i.next().as_ref().unwrap().address, v4("192.168.0.128"));
    assert_eq!(i.next().as_ref().unwrap().address, v4("192.168.0.192"));
    assert_eq!(i.next(), None,);
}

#[test]
fn test_network_divide_iter_v6() {
    let net = Ip { address: v6("::1"), cidr: 48 };

    let mut i = addresses(&net, None, Some(64));
    assert_eq!(i.next().as_ref().unwrap().address, v6("::"));
    assert_eq!(i.next().as_ref().unwrap().address, v6("0:0:0:1::"));
    assert_eq!(i.next().as_ref().unwrap().address, v6("0:0:0:2::"));

    let mut i = addresses(&net, None, Some(64));
    let mut count: u64 = 0;
    while i.next().is_some() {
        count += 1;
    }
    assert_eq!(count, 65536);
}

#[test]
fn test_networks_sizing_v6() {
    let net = Ip { address: v6("::1"), cidr: 48 };

    assert_eq!(subnets_in_network(64, &net), 65536);
    assert_eq!(subnets_in_network(48, &net), 1);
    assert_eq!(subnets_in_network(49, &net), 2);
}

#[test]
fn test_networks_sizing_v4() {
    let net = Ip { address: v4("127.0.0.1"), cidr: 16 };

    assert_eq!(subnets_in_network(24, &net), 256);
    assert_eq!(subnets_in_network(25, &net), 512);
    assert_eq!(subnets_in_network(26, &net), 1024);
    assert_eq!(subnets_in_network(27, &net), 2048);
    assert_eq!(subnets_in_network(28, &net), 4096);
}

#[test]
fn test_smallest_network_limited() {
    let empty: Vec<Ip> = Vec::new();
    assert_eq!(smallest_group_network_limited(&empty, 32), None);
}

#[test]
fn test_smallest_network_limited_22_24() {
    let mut net_list: Vec<Ip> = Vec::new();
    for i in 0..4 {
        for j in 0..4 {
            net_list.push(Ip {
                address: v4(&format!("192.168.{i}.{j}")),
                cidr: 24,
            });
        }
    }

    let mut resp = smallest_group_network_limited(&net_list, 22).unwrap();
    resp.sort_by(|a, b| a.partial_cmp(b).unwrap());
    assert_eq!(
        resp,
        [Ip {
            address: v4(&format!("192.168.0.0")),
            cidr: 22
        }]
    );
}

#[test]
fn test_smallest_network_limited_22_8() {
    let mut net_list: Vec<Ip> = Vec::new();
    for i in 0..4 {
        for j in 0..4 {
            net_list.push(Ip {
                address: v4(&format!("192.{i}.{j}.0")),
                cidr: 8,
            });
        }
    }

    let mut resp = smallest_group_network_limited(&net_list, 22).unwrap();
    resp.sort_by(|a, b| a.partial_cmp(b).unwrap());
    assert_eq!(
        resp,
        [
            Ip { address: v4(&format!("192.0.0.0")), cidr: 22 },
            Ip { address: v4(&format!("192.1.0.0")), cidr: 22 },
            Ip { address: v4(&format!("192.2.0.0")), cidr: 22 },
            Ip { address: v4(&format!("192.3.0.0")), cidr: 22 },
        ]
    );
}

#[test]
fn test_smallest_network_limited_24_8() {
    let mut net_list: Vec<Ip> = Vec::new();
    for i in 0..4 {
        for j in 0..4 {
            net_list.push(Ip {
                address: v4(&format!("192.0.{i}.{j}")),
                cidr: 8,
            });
        }
    }

    let mut resp = smallest_group_network_limited(&net_list, 24).unwrap();
    resp.sort_by(|a, b| a.partial_cmp(b).unwrap());
    assert_eq!(
        resp,
        [
            Ip { address: v4(&format!("192.0.0.0")), cidr: 24 },
            Ip { address: v4(&format!("192.0.1.0")), cidr: 24 },
            Ip { address: v4(&format!("192.0.2.0")), cidr: 24 },
            Ip { address: v4(&format!("192.0.3.0")), cidr: 24 },
        ]
    );
}
