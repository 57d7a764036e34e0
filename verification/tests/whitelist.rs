use heavy::ip::IpAddr;
use heavy::whitelist::{FileWhitelist, Whitelist, WhitelistError, WhitelistParams};

fn ip(s: &str) -> IpAddr {
    if s.contains(':') {
        let net: ipnet::Ipv6Net = format!("{s}/128").parse().unwrap();
        IpAddr::V6(net.addr().octets())
    } else {
        let net: ipnet::Ipv4Net = format!("{s}/32").parse().unwrap();
        IpAddr::V4(net.addr().octets())
    }
}

fn compile(params: &WhitelistParams) -> Whitelist {
    match Whitelist::new(params) {
        Ok(wl) => wl,
        Err(e) => panic!("{e:?}"),
    }
}

#[test]
fn whitelist_empty() {
    let wl = compile(&WhitelistParams::default());
    assert!(!wl.is_exempt("/", ip("127.0.0.1")));
    assert!(!wl.is_exempt("/robots.txt", ip("::1")));
}

#[test]
fn whitelist_cidr_blocks() {
    let wl = compile(&WhitelistParams {
        paths: vec![],
        ips: vec![
            "10.0.0.1/32".into(),    // single address
            "192.168.0.0/16".into(), // IPv4 range
            "fd00::/8".into(),       // IPv6 range
        ],
    });

    // Whitelisted
    assert!(wl.is_exempt("/x", ip("10.0.0.1")));
    assert!(wl.is_exempt("/x", ip("192.168.12.34")));
    assert!(wl.is_exempt("/x", ip("fd01:2345::1")));

    // Not whitelisted
    assert!(!wl.is_exempt("/x", ip("10.0.0.2")));
    assert!(!wl.is_exempt("/x", ip("192.169.0.1")));
    assert!(!wl.is_exempt("/x", ip("fe80::1")));
}

#[test]
fn whitelist_paths() {
    let wl = compile(&WhitelistParams {
        paths: vec![r"^/robots\.txt$".into(), r"^/favicon\.ico$".into()],
        ips: vec![],
    });
    let ip = ip("127.0.0.1");
    assert!(wl.is_exempt("/robots.txt", ip));
    assert!(wl.is_exempt("/favicon.ico", ip));
    assert!(!wl.is_exempt("/", ip));
    assert!(!wl.is_exempt("/robots.txt?foo=bar", ip));
}

#[test]
fn blocks_may_nest_and_repeat() {
    let wl = compile(&WhitelistParams {
        paths: vec![],
        ips: vec!["10.1.0.0/16".into(), "10.1.2.3/8".into(), "10.0.0.0/8".into()],
    });
    assert!(wl.is_exempt("/", ip("10.1.2.3")));
    assert!(wl.is_exempt("/", ip("10.200.0.1")));
    assert!(!wl.is_exempt("/", ip("11.0.0.1")));

    // A block of one family says nothing of the other
    let all = compile(&WhitelistParams { paths: vec![], ips: vec!["0.0.0.0/0".into()] });
    assert!(all.is_exempt("/", ip("255.255.255.255")));
    assert!(!all.is_exempt("/", ip("::1")));
}

#[test]
fn invalid_rules_are_refused() {
    let refuse = |paths: Vec<String>, ips: Vec<String>| {
        Whitelist::new(&WhitelistParams { paths, ips }).err().unwrap()
    };
    assert!(matches!(
        refuse(vec!["^/ok$".into(), "(".into()], vec!["nonsense".into()]),
        WhitelistError::InvalidPath(_)
    ));
    match refuse(vec![], vec!["10.0.0.0/8".into(), "10.0.0.1".into(), "x".into()]) {
        WhitelistError::InvalidCidr { text, why } => {
            assert_eq!(text, "10.0.0.1");
            assert_eq!(why, "invalid IP address syntax");
        }
        e => panic!("{e:?}"),
    }
    assert!(matches!(
        refuse(vec![], vec!["10.0.0.0/33".into()]),
        WhitelistError::InvalidCidr { .. }
    ));
}

#[test]
fn rules_of_a_file() {
    let file = FileWhitelist {
        path: Some(vec!["^/a$".into()]),
        ip: Some(vec!["10.0.0.0/8".into()]),
        includes: None,
    };
    let wl = Whitelist::from_config(Some(file)).ok().unwrap();
    assert!(wl.is_exempt("/a", ip("1.2.3.4")));
    assert!(wl.is_exempt("/b", ip("10.2.3.4")));
    assert!(!wl.is_exempt("/b", ip("1.2.3.4")));

    let none = Whitelist::from_config(None).ok().unwrap();
    assert!(!none.is_exempt("/a", ip("10.2.3.4")));
    let empty = Whitelist::from_config(Some(FileWhitelist::default())).ok().unwrap();
    assert!(!empty.is_exempt("/a", ip("10.2.3.4")));
}

fn file(path: &[&str], ip: &[&str], includes: &[&str]) -> FileWhitelist {
    let list = |items: &[&str]| Some(items.iter().map(|s| s.to_string()).collect());
    FileWhitelist { path: list(path), ip: list(ip), includes: list(includes) }
}

#[test]
fn rules_of_included_files_count() {
    let section = file(&["^/a$"], &[], &["one.toml", "two.toml"]);
    let one = file(&["^/b$"], &["10.0.0.0/8"], &["two.toml", "three.toml"]);
    let two = FileWhitelist { path: None, ip: Some(vec!["fd00::/8".into()]), includes: None };
    let merged = section.with_included(vec![one, two]);
    assert_eq!(merged.path, Some(vec!["^/a$".to_string(), "^/b$".to_string()]));
    assert_eq!(merged.ip, Some(vec!["10.0.0.0/8".to_string(), "fd00::/8".to_string()]));
    assert_eq!(merged.includes, Some(vec!["two.toml".to_string(), "three.toml".to_string()]));

    let wl = Whitelist::from_config(Some(merged)).ok().unwrap();
    assert!(wl.is_exempt("/a", ip("1.2.3.4")));
    assert!(wl.is_exempt("/b", ip("1.2.3.4")));
    assert!(wl.is_exempt("/c", ip("10.2.3.4")));
    assert!(wl.is_exempt("/c", ip("fd00::1")));
    assert!(!wl.is_exempt("/c", ip("1.2.3.4")));

    let alone = FileWhitelist::default().with_included(vec![]);
    assert_eq!((alone.path, alone.ip, alone.includes), (Some(vec![]), Some(vec![]), Some(vec![])));
}

#[test]
fn included_files_are_read_once() {
    let section = file(&[], &[], &["one.toml", "two.toml", "one.toml"]);
    assert_eq!(section.unread(&vec![]), vec!["one.toml", "two.toml"]);
    assert_eq!(section.unread(&vec!["one.toml".to_string()]), vec!["two.toml"]);
    let read = vec!["two.toml".to_string(), "one.toml".to_string()];
    assert!(section.unread(&read).is_empty());
    assert!(FileWhitelist::default().unread(&vec![]).is_empty());
}

#[test]
fn blocks_without_patterns_are_valid() {
    let rules = WhitelistParams { paths: vec![], ips: vec!["10.0.0.0/8".into()] };
    assert!(Whitelist::new(&rules).is_ok());
    assert!(Whitelist::new(&WhitelistParams::default()).is_ok());
}
