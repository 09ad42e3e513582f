use kirin_gateway::data_plane::ip::{
    is_addr_allowed, is_ip_allowed, parse_entry, parse_list, parse_opt_list, IpAddr, IpNet,
};

fn list(entries: &[&str]) -> Option<Vec<IpNet>> {
    let texts: Vec<String> = entries.iter().map(|e| e.to_string()).collect();
    Some(parse_list(&texts).ok().unwrap())
}

#[test]
fn entries_are_blocks_or_addresses() {
    assert_eq!(
        parse_entry("10.1.0.0/16"),
        Some(IpNet {
            addr: IpAddr::V4(0x0a01_0000),
            prefix_len: 16
        })
    );
    assert_eq!(
        parse_entry("10.1.2.3"),
        Some(IpNet {
            addr: IpAddr::V4(0x0a01_0203),
            prefix_len: 32
        })
    );
    assert_eq!(
        parse_entry("2001:db8::/32"),
        Some(IpNet {
            addr: IpAddr::V6(0x2001_0db8 << 96),
            prefix_len: 32
        })
    );
    assert_eq!(parse_entry("::1"), Some(IpNet::host(IpAddr::V6(1))));
    assert_eq!(parse_entry("10.1.2.3/33"), None);
    assert_eq!(parse_entry("10.1.2"), None);
    assert_eq!(parse_entry(""), None);
    let bad = vec!["10.0.0.1".to_string(), "x".to_string(), "y".to_string()];
    assert_eq!(parse_list(&bad), Err("x".to_string()));
    assert_eq!(parse_opt_list(&None), Ok(None));
}

#[test]
fn blocks_hold_what_shares_their_prefix() {
    let net = parse_entry("192.168.16.0/20").unwrap();
    assert!(net.contains(&IpAddr::V4(0xc0a8_1000)));
    assert!(net.contains(&IpAddr::V4(0xc0a8_1fff)));
    assert!(!net.contains(&IpAddr::V4(0xc0a8_2000)));
    assert!(!net.contains(&IpAddr::V6(0xc0a8_1000)));
    let all = parse_entry("0.0.0.0/0").unwrap();
    assert!(all.contains(&IpAddr::V4(u32::MAX)));
    let all6 = parse_entry("::/0").unwrap();
    assert!(all6.contains(&IpAddr::V6(u128::MAX)));
    let net6 = parse_entry("2001:db8::/33").unwrap();
    assert!(net6.contains(&IpAddr::V6(0x2001_0db8 << 96 | 1)));
    assert!(!net6.contains(&IpAddr::V6(0x2001_0db8_8 << 92)));
    let broken = IpNet {
        addr: IpAddr::V4(0),
        prefix_len: 33,
    };
    assert!(!broken.contains(&IpAddr::V4(0)));
}

#[test]
fn the_blacklist_comes_before_the_whitelist() {
    let white = list(&["10.0.0.0/8"]);
    let black = list(&["10.9.0.0/16", "127.0.0.1"]);
    assert!(is_ip_allowed("10.1.1.1", &white, &black));
    assert!(!is_ip_allowed("10.9.1.1", &white, &black));
    assert!(!is_ip_allowed("192.168.0.1", &white, &black));
    assert!(is_ip_allowed("192.168.0.1", &None, &black));
    assert!(!is_ip_allowed("127.0.0.1", &None, &black));
    assert!(!is_ip_allowed("10.1.1.1", &Some(vec![]), &None));
    assert!(is_ip_allowed("10.1.1.1", &None, &None));
    assert!(is_ip_allowed("", &white, &black));
    assert!(is_ip_allowed("not an address", &white, &black));
    assert!(!is_addr_allowed(&IpAddr::V6(1), &white, &None));
}
