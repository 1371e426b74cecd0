use ipmsg::ipmsg_core::protocol::PORT;
use ipmsg::net::{
    addr_allowed, addr_precedes, addr_to_string, broadcast_target, choose_net, choose_self_addr,
    default_self_addr, detect_net, detect_self_addr, is_private, is_virtual_name, normalize_addr,
    parse_ipv4, self_addr_or_localhost, Interface, IpAddr, LocalNet, NetSettings, SocketAddr,
};

fn six(ip: u128, port: u16, flowinfo: u32, scope_id: u32) -> SocketAddr {
    SocketAddr::V6 { ip, port, flowinfo, scope_id }
}

#[test]
fn addresses_are_written_in_their_usual_form() {
    for (ip, port, text) in [
        (0u32, 0u16, "0.0.0.0:0"),
        (0x7f00_0001, 80, "127.0.0.1:80"),
        (0xc0a8_44f5, 2425, "192.168.68.245:2425"),
        (0xffff_ffff, 65535, "255.255.255.255:65535"),
    ] {
        assert_eq!(addr_to_string(&SocketAddr::V4 { ip, port }), text);
    }
    for (ip, text) in [
        (0x0, "::"),
        (0x1, "::1"),
        (0xffffc0a80001, "::ffff:192.168.0.1"),
        (0xc0a80001, "::c0a8:1"),
        (0xfe800000000000000000000000000001, "fe80::1"),
        (0x20010db8000000000001000000000001, "2001:db8::1:0:0:1"),
        (0x20010db8000000010001000100010001, "2001:db8:0:1:1:1:1:1"),
        (0x10000000000000002000000000000, "1::2:0:0:0"),
        (0x10002000300040005000600070008, "1:2:3:4:5:6:7:8"),
        (0x10000000300040005000600000000, "1:0:3:4:5:6::"),
        (0xffffffffffffffffffffffffffffffff, "ffff:ffff:ffff:ffff:ffff:ffff:ffff:ffff"),
        (0x10000000000000000000000000000, "1::"),
    ] {
        assert_eq!(addr_to_string(&six(ip, 2425, 0, 0)), format!("[{text}]:2425"));
        assert_eq!(addr_to_string(&six(ip, 1, 9, 3)), format!("[{text}%3]:1"));
    }
}

#[test]
fn addresses_are_in_order() {
    let order = [
        SocketAddr::V4 { ip: 1, port: 2 },
        SocketAddr::V4 { ip: 1, port: 3 },
        SocketAddr::V4 { ip: 2, port: 1 },
        SocketAddr::V4 { ip: 0xffff_ffff, port: 1 },
        six(0, 5, 0, 0),
        six(1, 1, 0, 0),
        six(1, 1, 0, 1),
        six(1, 1, 2, 0),
        six(1, 2, 0, 0),
        six(2, 0, 0, 0),
    ];
    for (i, a) in order.iter().enumerate() {
        for (j, b) in order.iter().enumerate() {
            assert_eq!(addr_precedes(a, b), i < j);
        }
    }
}

#[test]
fn normalized_addresses_have_the_port() {
    let addr = SocketAddr::V4 { ip: 7, port: 50000 };
    assert_eq!(normalize_addr(addr), SocketAddr::V4 { ip: 7, port: PORT });
    let addr = SocketAddr::V6 { ip: 7, port: 50000, flowinfo: 1, scope_id: 2 };
    assert_eq!(
        normalize_addr(addr),
        SocketAddr::V6 { ip: 7, port: PORT, flowinfo: 0, scope_id: 0 }
    );
    assert_eq!(addr_to_string(&default_self_addr()), "127.0.0.1:2425");
}

#[test]
fn dotted_decimal_is_read() {
    assert_eq!(parse_ipv4("192.168.1.255"), Some(0xc0a8_01ff));
    assert_eq!(parse_ipv4("0.0.0.0"), Some(0));
    assert_eq!(parse_ipv4("255.255.255.255"), Some(0xffff_ffff));
    for s in [
        "256.1.1.1", "1.1.1", "1.1.1.1.1", "", "01.1.1.1", "1.1.1.+1", "1..1.1", " 1.1.1.1",
        "1.1.1.1 ", "1.1.1.0000", "a.b.c.d", "00.0.0.0",
    ] {
        assert_eq!(parse_ipv4(s), None, "{s}");
    }
}

#[test]
fn private_networks() {
    let p = |s: &str| is_private(parse_ipv4(s).unwrap());
    assert!(p("10.1.2.3"));
    assert!(p("172.16.0.1"));
    assert!(p("172.31.255.1"));
    assert!(p("192.168.0.1"));
    assert!(!p("172.15.0.1"));
    assert!(!p("172.32.0.1"));
    assert!(!p("192.169.0.1"));
    assert!(!p("8.8.8.8"));
}

#[test]
fn virtual_interfaces() {
    assert!(is_virtual_name("VMware Network Adapter"));
    assert!(is_virtual_name("vboxnet0"));
    assert!(is_virtual_name("My VIRTUAL nic"));
    assert!(is_virtual_name("Hyper-V Switch"));
    assert!(is_virtual_name("hyperv0"));
    assert!(!is_virtual_name("eth0"));
}

fn iface(name: &str, ip: &str) -> Interface {
    Interface { name: name.to_string(), v4: parse_ipv4(ip) }
}

#[test]
fn home_network_comes_first() {
    let ifs = vec![
        iface("lo", "127.0.0.1"),
        iface("vmware1", "192.168.99.1"),
        iface("eth1", "10.0.0.5"),
        Interface { name: "eth2".to_string(), v4: None },
        iface("ppp0", "8.8.8.8"),
        iface("eth0", "192.168.68.10"),
        iface("eth3", "192.168.70.10"),
    ];
    let net = choose_net(&ifs).unwrap();
    assert_eq!(net.prefix, "192.168.68.");
    assert_eq!(Some(net.broadcast), parse_ipv4("192.168.68.255"));
    assert_eq!(
        choose_self_addr(&ifs, 2425).map(|a| addr_to_string(&a)).as_deref(),
        Some("192.168.68.10:2425")
    );
    let others = vec![ifs[0].clone(), ifs[2].clone()];
    assert_eq!(choose_net(&others).unwrap().prefix, "10.0.0.");
    assert!(choose_net(&vec![ifs[0].clone()]).is_none());
    assert!(choose_self_addr(&vec![ifs[4].clone()], 1).is_none());
}

#[test]
fn what_the_machine_has_is_private() {
    if let Some(SocketAddr::V4 { ip, port }) = detect_self_addr(77) {
        assert!(is_private(ip));
        assert_eq!(port, 77);
        assert!(detect_net().is_some());
    } else {
        assert!(detect_net().is_none());
    }
    assert_eq!(
        self_addr_or_localhost(None, 9),
        SocketAddr::V4 { ip: 0x7f00_0001, port: 9 }
    );
    let own = SocketAddr::new(IpAddr::V4(5), 6);
    assert_eq!(self_addr_or_localhost(Some(own), 9), own);
}

fn settings(prefix: Option<&str>, broadcast: Option<&str>, detected: Option<(&str, u32)>) -> NetSettings {
    NetSettings {
        prefix: prefix.map(|s| s.to_string()),
        broadcast: broadcast.map(|s| s.to_string()),
        detected: detected.map(|(p, b)| LocalNet { prefix: p.to_string(), broadcast: b }),
    }
}

#[test]
fn peers_are_heeded_by_prefix() {
    let near = SocketAddr::V4 { ip: parse_ipv4("192.168.1.7").unwrap(), port: 1 };
    let far = SocketAddr::V4 { ip: parse_ipv4("10.0.0.7").unwrap(), port: 1 };
    let six = SocketAddr::V6 { ip: 1, port: 1, flowinfo: 0, scope_id: 0 };
    let none = settings(None, None, None);
    assert!(addr_allowed(&none, &near) && addr_allowed(&none, &far));
    let auto = settings(None, None, Some(("192.168.1.", 0)));
    assert!(addr_allowed(&auto, &near) && !addr_allowed(&auto, &far));
    let set = settings(Some("10."), None, Some(("192.168.1.", 0)));
    assert!(!addr_allowed(&set, &near) && addr_allowed(&set, &far));
    assert!(addr_allowed(&set, &six));
}

#[test]
fn broadcasts_go_where_they_should() {
    let ip = |s: NetSettings| addr_to_string(&broadcast_target(&s));
    assert_eq!(ip(settings(None, None, None)), "255.255.255.255:2425");
    let found = Some(("x", parse_ipv4("192.168.1.255").unwrap()));
    assert_eq!(ip(settings(None, None, found)), "192.168.1.255:2425");
    assert_eq!(ip(settings(None, Some("10.0.0.255"), found)), "10.0.0.255:2425");
    assert_eq!(ip(settings(None, Some("nonsense"), found)), "192.168.1.255:2425");
}
