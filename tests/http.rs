use lightway::auth::Authentication;
use lightway::dst::DstAddr;
use lightway::error::{Error, IoKind};
use lightway::http::{
    connect_request, connect_target, credentials_match, dial_response, http_server_step, parse_host,
    tunnel_outcome, Basic, Header, HttpStep, RequestLine,
};
use lightway::policy::{ProxyConnect, Route};
use lightway::rules::Rule;

fn basic(user: &str, pass: &str) -> Authentication {
    Authentication::Basic(user.to_string(), pass.to_string())
}

#[test]
fn scenario_connect_through_rule_driven_proxy() {
    let head = b"CONNECT a.example.com:443 HTTP/1.1\r\nHost: a.example.com:443\r\n\r\n";
    let target = match http_server_step(&Authentication::NoAuth, head) {
        HttpStep::Dial { target } => target,
        _ => panic!("expected a dial"),
    };
    assert_eq!(target, DstAddr::Domain(b"a.example.com".to_vec(), 443));
    let mut policy = ProxyConnect::new((), ());
    policy.set_policy(vec![Rule::parse(b"DOMAIN-SUFFIX,example.com,proxy").unwrap()]);
    assert_eq!(policy.route(&target), Ok(Route::Proxy));
    let upstream = connect_request(&target.to_text(), &Authentication::NoAuth);
    assert!(upstream.starts_with(b"CONNECT a.example.com:443 HTTP/1.1\r\nHost: a.example.com:443\r\n"));
    assert_eq!(tunnel_outcome(b"HTTP/1.1 200 Connection established\r\n\r\n"), Ok(0));
    assert_eq!(dial_response(true), b"HTTP/1.1 200 OK\r\n\r\n".to_vec());
}

#[test]
fn unavailable_response() {
    assert_eq!(dial_response(false), b"HTTP/1.1 503 Service Unavailable\r\n\r\n".to_vec());
}

#[test]
fn missing_credentials_get_407() {
    let head = b"CONNECT a.com:443 HTTP/1.1\r\nHost: a.com:443\r\n\r\n";
    match http_server_step(&basic("user", "pass"), head) {
        HttpStep::Reject { reply, error } => {
            assert_eq!(error, Error::ProxyDenied);
            assert_eq!(
                reply,
                b"HTTP/1.1 407 Proxy Authentication Required\r\nProxy-Authenticate: Basic realm=Proxy Server\r\n\r\n"
                    .to_vec()
            );
        }
        _ => panic!("expected a rejection"),
    }
}

#[test]
fn good_credentials_are_accepted() {
    let head = b"CONNECT a.com:443 HTTP/1.1\r\nproxy-authorization:  Basic dXNlcjpwYXNz \r\n\r\n";
    assert!(matches!(http_server_step(&basic("user", "pass"), head), HttpStep::Dial { .. }));
    assert!(matches!(http_server_step(&basic("user", "other"), head), HttpStep::Reject { .. }));
}

#[test]
fn credentials_without_colon_fail() {
    let head = b"CONNECT a.com:443 HTTP/1.1\r\nProxy-Authorization: Basic dXNlcnBhc3M=\r\n\r\n";
    assert!(matches!(
        http_server_step(&basic("user", "pass"), head),
        HttpStep::Reject { error: Error::ProxyDenied, .. }
    ));
    assert!(!credentials_match(b"userpass", &"user".to_string(), &"pass".to_string()));
    assert!(credentials_match(b"user:pass", &"user".to_string(), &"pass".to_string()));
    let garbage = b"CONNECT a.com:443 HTTP/1.1\r\nProxy-Authorization: Basic !!!\r\n\r\n";
    assert!(matches!(http_server_step(&basic("user", "pass"), garbage), HttpStep::Reject { .. }));
}

#[test]
fn malformed_request_line() {
    assert!(matches!(
        http_server_step(&Authentication::NoAuth, b"CONNECT\r\n\r\n"),
        HttpStep::Reject { error: Error::Io(IoKind::InvalidData), .. }
    ));
}

#[test]
fn host_forms() {
    assert_eq!(parse_host(b"a.com:8443"), DstAddr::Domain(b"a.com".to_vec(), 8443));
    assert_eq!(parse_host(b"a.com"), DstAddr::Domain(b"a.com".to_vec(), 0));
    assert_eq!(parse_host(b"a.com:http"), DstAddr::Domain(b"a.com".to_vec(), 0));
    assert_eq!(parse_host(b"a.com:99999"), DstAddr::Domain(b"a.com".to_vec(), 0));
}

#[test]
fn request_and_header_lines() {
    let l = RequestLine::parse(b"CONNECT h:1 HTTP/1.1").unwrap();
    assert_eq!(l.method, b"CONNECT".to_vec());
    assert_eq!(l.host, b"h:1".to_vec());
    assert_eq!(l.protocol, b"HTTP/1.1".to_vec());
    assert!(RequestLine::parse(b"GET /").is_none());
    let h = Header::parse(b"  Host :  a.com:443  ").unwrap();
    assert_eq!(h.name, b"Host".to_vec());
    assert_eq!(h.value, b"a.com:443".to_vec());
    assert!(Header::parse(b"no colon").is_none());
}

#[test]
fn connect_targets() {
    assert_eq!(connect_target(b"http://www.example.com"), b"www.example.com:80".to_vec());
    assert_eq!(connect_target(b"https://www.example.com"), b"www.example.com:443".to_vec());
    assert_eq!(connect_target(b"www.example.com"), b"www.example.com:443".to_vec());
    assert_eq!(connect_target(b"www.example.com:8080"), b"www.example.com:8080".to_vec());
}

#[test]
fn connect_request_with_credentials() {
    let req = connect_request(b"example.com:443", &basic("user", "pass"));
    let expected = b"CONNECT example.com:443 HTTP/1.1\r\nHost: example.com:443\r\nProxy-Connection: keep-alive\r\nProxy-Authorization: Basic dXNlcjpwYXNz\r\nUser-Agent: lightway/0.1.0\r\n\r\n";
    assert_eq!(req, expected.to_vec());
}

#[test]
fn tunnel_outcomes() {
    assert_eq!(tunnel_outcome(b"HTTP/1.1 200 OK\r\nContent-Length: 12\r\n\r\n"), Ok(12));
    assert_eq!(
        tunnel_outcome(b"HTTP/1.1 407 Proxy Authentication Required\r\n\r\n"),
        Err(Error::ProxyServerUnreachable)
    );
    assert_eq!(tunnel_outcome(b"HTTP/1.1 abc x\r\n\r\n"), Err(Error::Io(IoKind::InvalidData)));
    assert_eq!(
        tunnel_outcome(b"HTTP/1.1 200 OK\r\ncontent-length: x\r\n\r\n"),
        Err(Error::Io(IoKind::InvalidData))
    );
}

#[test]
fn basic_credentials() {
    let b = Basic::new(&"user".to_string(), &"pass".to_string());
    assert_eq!(b.encode(), b"Basic dXNlcjpwYXNz".to_vec());
    assert_eq!(b.username(), b"user".to_vec());
    assert_eq!(b.password(), b"pass".to_vec());
    let d = Basic::decode(b"Basic   dXNlcjpwYXNz").unwrap();
    assert_eq!(d.username(), b"user".to_vec());
    assert!(Basic::decode(b"Basic dXNlcnBhc3M=").is_none());
    assert!(Basic::decode(b"Bearer dXNlcjpwYXNz").is_none());
}
