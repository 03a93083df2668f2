use lightway::buffer::{test_bytes, VecReadBuf};
use lightway::codec::{read_fixed_bytes, read_to_fixed_string, write_fixed};
use lightway::config::{parse_protocol, parse_proxy, ConfigError, Protocol};
use lightway::auth::Authentication;
use lightway::dialer::DefaultDialer;
use lightway::dst::DstAddr;
use lightway::error::{Error, IoKind};
use lightway::relay::{finish_relay, HalfCopy, HalfEnd};

#[test]
fn fixed_round_trip() {
    for len in [0usize, 1, 17, 255] {
        let payload: Vec<u8> = (0..len).map(|i| (i * 7) as u8).collect();
        let mut wire = Vec::new();
        write_fixed(&mut wire, &payload).unwrap();
        assert_eq!(wire.len(), len + 1);
        assert_eq!(wire[0] as usize, len);
        wire.extend_from_slice(b"tail");
        let (back, used) = read_fixed_bytes(&wire).unwrap();
        assert_eq!(back, payload);
        assert_eq!(used, len + 1);
    }
}

#[test]
fn fixed_too_long_or_short() {
    let mut wire = vec![9];
    assert_eq!(write_fixed(&mut wire, &[0u8; 256]), Err(Error::Io(IoKind::InvalidData)));
    assert_eq!(wire, vec![9]);
    assert_eq!(read_fixed_bytes(&[3, 1, 2]), Err(Error::Io(IoKind::UnexpectedEof)));
    assert_eq!(read_fixed_bytes(&[]), Err(Error::Io(IoKind::UnexpectedEof)));
}

#[test]
fn fixed_string_validates_utf8() {
    let mut out = String::from("ab");
    assert_eq!(read_to_fixed_string(&mut out, &[2, b'c', b'd']), Ok(3));
    assert_eq!(out, "abcd");
    assert_eq!(read_to_fixed_string(&mut out, &[2, 0xff, 0xfe]), Err(Error::Io(IoKind::InvalidData)));
    assert_eq!(out, "abcd");
}

#[test]
fn destination_round_trip() {
    for d in [
        DstAddr::Ipv4([127, 0, 0, 1], 80),
        DstAddr::Ipv6([0x20, 1, 0x0d, 0xb8, 0, 0, 0, 0, 0, 0, 0, 0, 0, 0, 0, 1], 443),
        DstAddr::Domain(b"example.com".to_vec(), 8080),
        DstAddr::Domain(vec![b'a'; 255], 1),
    ] {
        let mut wire = Vec::new();
        d.write_to(&mut wire).unwrap();
        wire.push(0xee);
        let (back, used) = DstAddr::read_from(&wire).unwrap();
        assert_eq!(back, d);
        assert_eq!(used, wire.len() - 1);
    }
}

#[test]
fn destination_wire_bytes() {
    let mut wire = Vec::new();
    DstAddr::Domain(b"ab".to_vec(), 0x1234).write_to(&mut wire).unwrap();
    assert_eq!(wire, vec![0x03, 2, b'a', b'b', 0x12, 0x34]);
}

#[test]
fn empty_domain_is_invalid_data() {
    assert_eq!(DstAddr::read_from(&[0x03, 0x00, 0x00, 0x50]).unwrap_err(), Error::Io(IoKind::InvalidData));
    let mut wire = Vec::new();
    assert_eq!(DstAddr::Domain(vec![], 80).write_to(&mut wire), Err(Error::Io(IoKind::InvalidData)));
    assert_eq!(DstAddr::Domain(vec![b'a'; 256], 80).write_to(&mut wire), Err(Error::Io(IoKind::InvalidData)));
    assert!(wire.is_empty());
    assert_eq!(DstAddr::read_from(&[0x03, 0x02, 0xff, 0xfe, 0, 80]).unwrap_err(), Error::Io(IoKind::InvalidData));
    assert_eq!(DstAddr::read_from(&[0x02, 1, 2]).unwrap_err(), Error::AddressTypeNotSupported);
}

#[test]
fn destination_text_and_default() {
    assert_eq!(DstAddr::default(), DstAddr::Ipv4([0, 0, 0, 0], 0));
    assert_eq!(DstAddr::Ipv4([10, 0, 0, 1], 8080).to_text(), b"10.0.0.1:8080".to_vec());
    assert_eq!(DstAddr::Domain(b"example.com".to_vec(), 443).to_text(), b"example.com:443".to_vec());
    let mut v6 = [0u8; 16];
    v6[15] = 1;
    assert_eq!(DstAddr::Ipv6(v6, 80).to_text(), b"[0:0:0:0:0:0:0:1]:80".to_vec());
}

#[test]
fn read_buffer() {
    let mut b = VecReadBuf::new(vec![1, 2]);
    assert!(!b.is_empty());
    b.reserve(64);
    b.fill(&[3]);
    assert_eq!(b.take(), vec![1, 2, 3]);
    assert!(b.is_empty());
}

#[test]
fn memory_stream() {
    let mut s = test_bytes();
    s.write(b"hello");
    assert_eq!(s.read(3), b"hel".to_vec());
    assert_eq!(s.read(10), b"lo".to_vec());
    assert!(s.read(10).is_empty());
}

#[test]
fn relay_counts() {
    let mut up = HalfCopy::new();
    let mut down = HalfCopy::new();
    up.record(5);
    down.record(2);
    down.record(3);
    assert_eq!(finish_relay(&up, HalfEnd::Eof, &down, HalfEnd::Eof), Ok((5, 5)));
    assert_eq!(finish_relay(&up, HalfEnd::Failed(IoKind::NotConnected), &down, HalfEnd::Eof), Ok((5, 5)));
    assert_eq!(
        finish_relay(&up, HalfEnd::Eof, &down, HalfEnd::Failed(IoKind::ConnectionRefused)),
        Err(Error::Io(IoKind::ConnectionRefused))
    );
}

#[test]
fn first_resolved_address() {
    assert_eq!(DefaultDialer::first_resolved(vec![3, 4]), Ok(3));
    assert_eq!(DefaultDialer::first_resolved(Vec::<u8>::new()), Err(Error::InvalidDstAddress));
}

#[test]
fn proxy_descriptions() {
    assert_eq!(parse_protocol(b"HTTP"), Ok(Protocol::Http));
    assert_eq!(parse_protocol(b"Socks5"), Ok(Protocol::Socks5));
    assert_eq!(parse_protocol(b"ftp"), Err(ConfigError::UnknownProtocol));
    let p = parse_proxy(b"https, proxy.example.com , 443").unwrap();
    assert_eq!(p.protocol, Protocol::Https);
    assert_eq!(p.host, "proxy.example.com");
    assert_eq!(p.port, 443);
    assert!(matches!(p.auth, Authentication::NoAuth));
    let q = parse_proxy(b"socks5,10.0.0.1,1080,u,p").unwrap();
    assert!(matches!(q.auth, Authentication::Basic(ref u, ref w) if u == "u" && w == "p"));
    assert!(matches!(parse_proxy(b"socks5,h"), Err(ConfigError::UnknownProxyFormat)));
    assert!(matches!(parse_proxy(b"socks5,h,70000"), Err(ConfigError::InvalidPort)));
}

#[test]
fn destination_from_host() {
    assert_eq!(DstAddr::from_host(b"10.1.2.3", 1080), DstAddr::Ipv4([10, 1, 2, 3], 1080));
    assert_eq!(DstAddr::from_host(b"proxy.example.com", 443), DstAddr::Domain(b"proxy.example.com".to_vec(), 443));
}
