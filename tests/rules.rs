use lightway::cidr::{ipv4_subnet_mask, prefix_match};
use lightway::dst::DstAddr;
use lightway::error::ParseError;
use lightway::ip::{parse_ip, IpAddr};
use lightway::rules::{enforce, Decision, Pattern, Rule, RuleSet, Rules};

fn domain(s: &str) -> DstAddr {
    DstAddr::Domain(s.as_bytes().to_vec(), 443)
}

fn text(r: &Rule) -> String {
    String::from_utf8(r.to_text()).unwrap()
}

#[test]
fn decision_is_default() {
    assert!(Decision::Default.is_default());
    assert!(!Decision::Deny.is_default());
    assert!(!Decision::Proxy { remote_dns: false }.is_default());
}

#[test]
fn parse_domain_rules() {
    let r = Rule::parse(b"DOMAIN-SUFFIX,example.com,proxy").unwrap();
    assert_eq!(r.decision, Decision::Proxy { remote_dns: false });
    assert!(r.args.is_none());
    assert!(r.pattern.is_match(&domain("a.example.com")));
    assert!(r.pattern.is_match(&domain("badexample.com")));
    assert!(!r.pattern.is_match(&domain("example.org")));
    assert!(!r.pattern.is_match(&DstAddr::Ipv4([1, 2, 3, 4], 443)));

    let exact = Rule::parse(b"domain,example.com,DIRECT").unwrap();
    assert_eq!(exact.decision, Decision::Direct);
    assert!(exact.pattern.is_match(&domain("example.com")));
    assert!(!exact.pattern.is_match(&domain("a.example.com")));

    let kw = Rule::parse(b"DOMAIN-KEYWORD,goog,deny").unwrap();
    assert!(kw.pattern.is_match(&domain("www.google.com")));
    assert!(!kw.pattern.is_match(&domain("www.bing.com")));
}

#[test]
fn parse_regex_rule() {
    let r = Rule::parse(b"DOMAIN-REGEX,^ad[0-9]+\\.,deny").unwrap();
    assert!(r.pattern.is_match(&domain("ad12.example.com")));
    assert!(!r.pattern.is_match(&domain("bad12.example.com")));
    assert!(matches!(Rule::parse(b"DOMAIN-REGEX,a(b,deny"), Err(ParseError::InvalidRegex)));
}

#[test]
fn parse_errors() {
    assert!(matches!(Rule::parse(b"DOMAIN,example.com"), Err(ParseError::InvalidRule)));
    assert!(matches!(Rule::parse(b"DOMAIN,example.com,maybe"), Err(ParseError::InvalidDecision)));
    assert!(matches!(Rule::parse(b"GEOIP,CN,direct"), Err(ParseError::UnknownRule)));
    assert!(matches!(Rule::parse(b"IPV4,1.2.3,direct"), Err(ParseError::InvalidAddr)));
    assert!(matches!(Rule::parse(b"IP-CIDR,10.0.0.0,direct"), Err(ParseError::InvalidSubnet)));
    assert!(matches!(Rule::parse(b"IP-CIDR,10.0.0.0/33,direct"), Err(ParseError::InvalidSubnet)));
    assert!(matches!(Rule::parse(b"IP-CIDR,10.0.0.256/8,direct"), Err(ParseError::InvalidAddr)));
}

#[test]
fn force_remote_dns_argument() {
    let r = Rule::parse(b"DOMAIN,a.com,proxy,FORCE-REMOTE-DNS").unwrap();
    assert_eq!(r.decision, Decision::Proxy { remote_dns: true });
    assert_eq!(r.args.as_ref().unwrap().0, vec![b"FORCE-REMOTE-DNS".to_vec()]);
    let d = Rule::parse(b"DOMAIN,a.com,direct,force-remote-dns").unwrap();
    assert_eq!(d.decision, Decision::Direct);
}

#[test]
fn ip_rules() {
    let exact = Rule::parse(b"IPV4,192.168.1.1,deny").unwrap();
    assert!(exact.pattern.is_match(&DstAddr::Ipv4([192, 168, 1, 1], 22)));
    assert!(!exact.pattern.is_match(&DstAddr::Ipv4([192, 168, 1, 2], 22)));
    assert!(!exact.pattern.is_match(&domain("192.168.1.1")));

    let cidr = Rule::parse(b"IP-CIDR,10.0.0.0/8,direct").unwrap();
    assert!(cidr.pattern.is_match(&DstAddr::Ipv4([10, 1, 2, 3], 80)));
    assert!(!cidr.pattern.is_match(&DstAddr::Ipv4([11, 0, 0, 1], 80)));

    let odd = Rule::parse(b"IP-CIDR,192.168.0.0/23,direct").unwrap();
    assert!(odd.pattern.is_match(&DstAddr::Ipv4([192, 168, 1, 200], 80)));
    assert!(!odd.pattern.is_match(&DstAddr::Ipv4([192, 168, 2, 1], 80)));

    let v6 = Rule::parse(b"IP-CIDR6,2001:db8:0:0:0:0:0:0/32,proxy").unwrap();
    let mut inside = [0u8; 16];
    inside[0] = 0x20;
    inside[1] = 0x01;
    inside[2] = 0x0d;
    inside[3] = 0xb8;
    inside[15] = 1;
    assert!(v6.pattern.is_match(&DstAddr::Ipv6(inside, 443)));
    inside[3] = 0xb9;
    assert!(!v6.pattern.is_match(&DstAddr::Ipv6(inside, 443)));
    assert!(!v6.pattern.is_match(&DstAddr::Ipv4([32, 1, 13, 184], 443)));
}

#[test]
fn out_of_range_prefix_compares_the_whole_address() {
    let p = Pattern::IpCidr(IpAddr::V4([10, 0, 0, 1]), 40);
    assert!(p.is_match(&DstAddr::Ipv4([10, 0, 0, 1], 1)));
    assert!(!p.is_match(&DstAddr::Ipv4([10, 0, 0, 2], 1)));
}

#[test]
fn subnet_masks() {
    assert_eq!(ipv4_subnet_mask(0), [0, 0, 0, 0]);
    assert_eq!(ipv4_subnet_mask(8), [0xff, 0, 0, 0]);
    assert_eq!(ipv4_subnet_mask(12), [0xff, 0xf0, 0, 0]);
    assert_eq!(ipv4_subnet_mask(23), [0xff, 0xff, 0xfe, 0]);
    assert_eq!(ipv4_subnet_mask(31), [0xff, 0xff, 0xff, 0xfe]);
    assert_eq!(ipv4_subnet_mask(32), [0xff, 0xff, 0xff, 0xff]);
}

#[test]
fn prefix_bits() {
    assert!(prefix_match(&[0b1010_0000], &[0b1011_1111], 3));
    assert!(!prefix_match(&[0b1010_0000], &[0b1011_1111], 4));
    assert!(prefix_match(&[1, 2, 3, 4], &[9, 9, 9, 9], 0));
    assert!(prefix_match(&[10, 20, 30, 40], &[10, 20, 30, 40], 32));
}

#[test]
fn ip_text_forms() {
    assert!(matches!(parse_ip(b"127.0.0.1"), Some(IpAddr::V4([127, 0, 0, 1]))));
    assert!(parse_ip(b"1.2.3.4.5").is_none());
    let mut loopback = [0u8; 16];
    loopback[15] = 1;
    assert!(matches!(parse_ip(b"::1"), Some(IpAddr::V6(a)) if a == loopback));
    assert!(matches!(parse_ip(b"::"), Some(IpAddr::V6(a)) if a == [0u8; 16]));
    match parse_ip(b"fe80::1:2") {
        Some(IpAddr::V6(a)) => {
            assert_eq!(&a[..2], &[0xfe, 0x80]);
            assert_eq!(&a[12..], &[0, 1, 0, 2]);
        }
        _ => panic!("expected an IPv6 address"),
    }
    assert!(parse_ip(b"1:2:3:4:5:6:7::").is_some());
    assert!(parse_ip(b"1::2::3").is_none());
    assert!(parse_ip(b"::1:2:3:4:5:6:7:8").is_none());
    assert!(parse_ip(b"1:2:3:4:5:6:7").is_none());
    assert!(parse_ip(b"12345::").is_none());
    match parse_ip(b"2001:DB8:0:0:0:0:0:ff") {
        Some(IpAddr::V6(a)) => {
            assert_eq!(&a[..4], &[0x20, 0x01, 0x0d, 0xb8]);
            assert_eq!(a[15], 0xff);
        }
        _ => panic!("expected an IPv6 address"),
    }
}

#[test]
fn display_round_trip() {
    for line in [
        "domain-suffix,example.com,PROXY",
        "DOMAIN,a.b,deny,x,,y",
        "DOMAIN-REGEX,^ads?\\.,default",
        "IPV4,010.1.2.3,direct",
        "IPV6,2001:DB8:0:0:0:0:0:1,proxy,force-remote-dns",
        "IP-CIDR,10.0.0.0/08,proxy",
        "ip-cidr6,fe80:0:0:0:0:0:0:0/10,deny",
        "IPV6,::1,deny",
        "IP-CIDR6,2001:db8::/32,proxy",
    ] {
        let r = Rule::parse(line.as_bytes()).unwrap();
        let shown = r.to_text();
        let again = Rule::parse(&shown).unwrap();
        assert_eq!(again.to_text(), shown);
        assert_eq!(again.decision, r.decision);
    }
    assert_eq!(text(&Rule::parse(b"domain-suffix,example.com,PROXY").unwrap()), "DOMAIN-SUFFIX,example.com,proxy");
    assert_eq!(text(&Rule::parse(b"IPV4,010.1.2.3,direct").unwrap()), "IPV4,10.1.2.3,direct");
    assert_eq!(text(&Rule::parse(b"IP-CIDR,10.0.0.0/08,proxy").unwrap()), "IP-CIDR,10.0.0.0/8,proxy");
    assert_eq!(text(&Rule::parse(b"IPV6,::1,deny").unwrap()), "IPV6,0:0:0:0:0:0:0:1,deny");
    assert_eq!(
        text(&Rule::parse(b"IPV6,2001:DB8:0:0:0:0:0:1,proxy,force-remote-dns").unwrap()),
        "IPV6,2001:db8:0:0:0:0:0:1,proxy,force-remote-dns"
    );
}

#[test]
fn enforce_first_decisive_rule() {
    let rules = vec![
        Rule::parse(b"DOMAIN,x.example.com,default").unwrap(),
        Rule::parse(b"DOMAIN-SUFFIX,example.com,proxy,note").unwrap(),
        Rule::parse(b"DOMAIN-KEYWORD,example,deny").unwrap(),
    ];
    let (d, args) = enforce(&rules, &domain("a.example.com"));
    assert_eq!(d, Decision::Proxy { remote_dns: false });
    assert_eq!(args.unwrap().0, vec![b"note".to_vec()]);
    let (d, _) = enforce(&rules, &domain("x.example.com"));
    assert_eq!(d, Decision::Proxy { remote_dns: false });
    let (d, _) = enforce(&rules, &domain("example.org"));
    assert_eq!(d, Decision::Deny);
    let (d, args) = enforce(&rules, &domain("other.net"));
    assert_eq!(d, Decision::Default);
    assert!(args.is_none());
    let (d, _) = enforce(&[], &domain("other.net"));
    assert_eq!(d, Decision::Default);
}

#[test]
fn rule_enforce_single() {
    let r = Rule::parse(b"IPV4,8.8.8.8,deny").unwrap();
    assert_eq!(r.enforce(&DstAddr::Ipv4([8, 8, 8, 8], 53)).0, Decision::Deny);
    assert_eq!(r.enforce(&DstAddr::Ipv4([8, 8, 4, 4], 53)).0, Decision::Default);
}

#[test]
fn rule_sets_in_order() {
    let first = RuleSet::new(
        "local".to_string(),
        vec![Rule::parse(b"DOMAIN-SUFFIX,lan,direct").unwrap(), Rule::parse(b"DOMAIN,x.lan,deny").unwrap()],
    );
    assert_eq!(first.rules, vec![b"DOMAIN-SUFFIX,lan,direct".to_vec(), b"DOMAIN,x.lan,deny".to_vec()]);
    let second = RuleSet::new("remote".to_string(), vec![Rule::parse(b"DOMAIN-KEYWORD,x,proxy").unwrap()]);
    let all = Rules { rules: vec![first, second] };
    assert_eq!(all.enforce(&domain("x.lan")), Decision::Direct);
    assert_eq!(all.enforce(&domain("x.com")), Decision::Proxy { remote_dns: false });
    assert_eq!(all.enforce(&domain("y.com")), Decision::Default);
}
