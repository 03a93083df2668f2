use lightway::auth::Authentication;
use lightway::dst::DstAddr;
use lightway::error::{Error, IoKind};
use lightway::policy::{ProxyConnect, Route};
use lightway::rules::Rule;
use lightway::socks5::{CandidateMethods, Method, Rep, Reply, Request, Selection, Status};
use lightway::socks5_client::{client_hello, client_step, ClientPhase, ClientStep};
use lightway::socks5_server::{dial_reply, server_step, ServerPhase, ServerStep};

fn basic(user: &str, pass: &str) -> Authentication {
    Authentication::Basic(user.to_string(), pass.to_string())
}

#[test]
fn test_method_request() {
    let mut buf = Vec::new();
    CandidateMethods::new(vec![Method::NoAuthenticationRequired]).write(&mut buf).unwrap();
    assert_eq!(buf.len(), 3);
    let (req, _) = CandidateMethods::read(&buf).unwrap();
    assert_eq!(req.methods.len(), 1);
    assert_eq!(Method::from_u8(req.methods[0]), Some(Method::NoAuthenticationRequired));
}

#[test]
fn test_method_request2() {
    let mut buf = Vec::new();
    CandidateMethods::new(vec![Method::NoAuthenticationRequired, Method::UsernameAndPassword])
        .write(&mut buf)
        .unwrap();
    assert_eq!(buf.len(), 4);
    let (req, _) = CandidateMethods::read(&buf).unwrap();
    assert_eq!(req.methods.len(), 2);
    assert_eq!(Method::from_u8(req.methods[0]), Some(Method::NoAuthenticationRequired));
    assert_eq!(Method::from_u8(req.methods[1]), Some(Method::UsernameAndPassword));
}

#[test]
fn test_method_reply() {
    let mut buf = Vec::new();
    Selection::new(Method::NoAcceptableMethods).write(&mut buf);
    assert_eq!(buf.len(), 2);
    assert_eq!(buf, vec![0x05, 0xff]);
}

#[test]
fn method_codes() {
    assert_eq!(Method::from_u8(0x03), Some(Method::IanaAssigned(0x03)));
    assert_eq!(Method::from_u8(0x80), Some(Method::Reserved(0x80)));
    assert_eq!(Method::UsernameAndPassword.id(), 0x02);
    assert_eq!(Method::NoAcceptableMethods.as_u8(), 0xff);
}

#[test]
fn candidate_methods_add_and_has() {
    let mut c = CandidateMethods::empty();
    assert!(!c.has(Method::UsernameAndPassword));
    c.add(Method::UsernameAndPassword);
    assert!(c.has(Method::UsernameAndPassword));
    assert!(c.is_valid().is_ok());
    let bad = CandidateMethods { version: 4, methods: vec![0] };
    assert_eq!(bad.is_valid(), Err(Error::InvalidReplyVersion));
}

#[test]
fn status_codes() {
    assert!(Status::new(0x00).is_succeed());
    assert!(!Status::new(0x01).is_succeed());
    assert_eq!(Status::new(0x01).code(), 0x01);
    assert!(Status::new(0).is_valid().is_ok());
}

#[test]
fn rep_from_err_mapping() {
    assert_eq!(Rep::from_err(&Error::ConnectionRefused), Rep::ConnectionRefused);
    assert_eq!(Rep::from_err(&Error::Io(IoKind::ConnectionRefused)), Rep::ConnectionRefused);
    assert_eq!(Rep::from_err(&Error::NetworkUnreachable), Rep::NetworkUnreachable);
    assert_eq!(Rep::from_err(&Error::HostUnreachable), Rep::HostUnreachable);
    assert_eq!(Rep::from_err(&Error::CommandNotSupported), Rep::CommandNotSupported);
    assert_eq!(Rep::from_err(&Error::TtlExpired), Rep::TtlExpired);
    assert_eq!(Rep::from_err(&Error::InvalidDstAddress), Rep::AddressTypeNotSupported);
    assert_eq!(Rep::from_err(&Error::ProxyDenied), Rep::GeneralSocksServerFailure);
    assert_eq!(Rep::HostUnreachable.as_u8(), 0x04);
}

#[test]
fn request_round_trip() {
    let target = DstAddr::Domain(b"example.com".to_vec(), 80);
    let mut buf = Vec::new();
    Request::new(target.clone()).write(&mut buf).unwrap();
    let (req, n) = Request::read(&buf).unwrap();
    assert_eq!(n, buf.len());
    assert!(req.is_connect());
    assert_eq!(req.target, target);
}

#[test]
fn reply_with_reserved_byte_set_is_refused() {
    let bytes = [0x05, 0x00, 0x01, 0x01, 127, 0, 0, 1, 0, 80];
    assert_eq!(Reply::read(&bytes).unwrap_err(), Error::InvalidReservedByte);
}

/// Runs the server over a whole client transcript; returns what it sent and how it ended.
fn run_server(auth: &Authentication, client: &[u8]) -> (Vec<u8>, Result<(DstAddr, usize), Error>) {
    let mut sent = Vec::new();
    let mut phase = ServerPhase::Greeting;
    let mut at = 0;
    loop {
        match server_step(auth, phase, &client[at..]) {
            ServerStep::NeedMore => return (sent, Err(Error::Io(IoKind::UnexpectedEof))),
            ServerStep::Continue { consumed, reply, next } => {
                sent.extend_from_slice(&reply);
                at += consumed;
                phase = next;
            }
            ServerStep::Close { reply, error } => {
                sent.extend_from_slice(&reply);
                return (sent, Err(error));
            }
            ServerStep::Dial { consumed, target } => return (sent, Ok((target, at + consumed))),
        }
    }
}

#[test]
fn scenario_noauth_direct() {
    let client = [0x05, 0x01, 0x00, 0x05, 0x01, 0x00, 0x01, 0x7f, 0x00, 0x00, 0x01, 0x00, 0x50];
    let (sent, outcome) = run_server(&Authentication::NoAuth, &client);
    assert_eq!(sent, vec![0x05, 0x00]);
    let (target, used) = outcome.unwrap();
    assert_eq!(target, DstAddr::Ipv4([127, 0, 0, 1], 80));
    assert_eq!(used, client.len());
    let local = DstAddr::Ipv4([10, 0, 0, 2], 40000);
    let reply = dial_reply(&Ok(local));
    assert_eq!(reply, vec![0x05, 0x00, 0x00, 0x01, 10, 0, 0, 2, 0x9c, 0x40]);
}

#[test]
fn scenario_basic_auth_success() {
    let mut client = vec![0x05, 0x01, 0x02, 0x01, 0x04];
    client.extend_from_slice(b"user");
    client.push(0x04);
    client.extend_from_slice(b"pass");
    client.extend_from_slice(&[0x05, 0x01, 0x00, 0x03, 0x0b]);
    client.extend_from_slice(b"example.com");
    client.extend_from_slice(&[0x00, 0x50]);
    let (sent, outcome) = run_server(&basic("user", "pass"), &client);
    assert_eq!(sent, vec![0x05, 0x02, 0x01, 0x00]);
    let (target, _) = outcome.unwrap();
    assert_eq!(target, DstAddr::Domain(b"example.com".to_vec(), 80));
    let reply = dial_reply(&Ok(DstAddr::Ipv4([1, 2, 3, 4], 5)));
    assert_eq!(&reply[..4], &[0x05, 0x00, 0x00, 0x01]);
}

#[test]
fn scenario_auth_failure() {
    let mut client = vec![0x05, 0x01, 0x02, 0x01, 0x04];
    client.extend_from_slice(b"user");
    client.push(0x05);
    client.extend_from_slice(b"wrong");
    client.extend_from_slice(&[0x05, 0x01, 0x00, 0x01, 127, 0, 0, 1, 0, 80]);
    let (sent, outcome) = run_server(&basic("user", "pass"), &client);
    assert_eq!(sent, vec![0x05, 0x02, 0x01, 0x01]);
    assert_eq!(outcome.unwrap_err(), Error::PasswordAuthFailure(1));
}

#[test]
fn scenario_deny_rule() {
    let mut client = vec![0x05, 0x01, 0x00, 0x05, 0x01, 0x00, 0x03, 0x0c];
    client.extend_from_slice(b"blocked.test");
    client.extend_from_slice(&[0x00, 0x50]);
    let (sent, outcome) = run_server(&Authentication::NoAuth, &client);
    assert_eq!(sent, vec![0x05, 0x00]);
    let (target, _) = outcome.unwrap();
    let mut policy = ProxyConnect::new((), ());
    policy.set_policy(vec![Rule::parse(b"DOMAIN,blocked.test,deny").unwrap()]);
    let routed = policy.route(&target);
    assert_eq!(routed, Err(Error::HostUnreachable));
    let reply = dial_reply(&Err(Error::HostUnreachable));
    assert_eq!(reply, vec![0x05, 0x04, 0x00, 0x01, 0, 0, 0, 0, 0, 0]);
}

#[test]
fn scenario_unsupported_command() {
    let client = [0x05, 0x01, 0x00, 0x05, 0x03, 0x00, 0x01, 0x7f, 0x00, 0x00, 0x01, 0x00, 0x50];
    let (sent, outcome) = run_server(&Authentication::NoAuth, &client);
    assert_eq!(sent, vec![0x05, 0x00, 0x05, 0x07, 0x00, 0x01, 0, 0, 0, 0, 0, 0]);
    assert_eq!(outcome.unwrap_err(), Error::CommandNotSupported);
}

#[test]
fn no_methods_is_refused() {
    for auth in [Authentication::NoAuth, basic("u", "p")] {
        let (sent, outcome) = run_server(&auth, &[0x05, 0x00]);
        assert_eq!(sent, vec![0x05, 0xff]);
        assert_eq!(outcome.unwrap_err(), Error::NoAcceptableMethods);
    }
}

#[test]
fn basic_server_without_password_method() {
    let (sent, outcome) = run_server(&basic("u", "p"), &[0x05, 0x01, 0x00]);
    assert_eq!(sent, vec![0x05, 0xff]);
    assert_eq!(outcome.unwrap_err(), Error::NoAcceptableMethods);
}

#[test]
fn server_waits_for_whole_messages() {
    assert!(matches!(server_step(&Authentication::NoAuth, ServerPhase::Greeting, &[0x05, 0x02, 0x00]), ServerStep::NeedMore));
    assert!(matches!(
        server_step(&Authentication::NoAuth, ServerPhase::Greeting, &[0x04, 0x01, 0x00]),
        ServerStep::Close { error: Error::InvalidReplyVersion, .. }
    ));
}

#[test]
fn unknown_address_type_gets_its_reply() {
    let step = server_step(&Authentication::NoAuth, ServerPhase::Request, &[0x05, 0x01, 0x00, 0x09, 1, 2]);
    match step {
        ServerStep::Close { reply, error } => {
            assert_eq!(error, Error::AddressTypeNotSupported);
            assert_eq!(reply, vec![0x05, 0x08, 0x00, 0x01, 0, 0, 0, 0, 0, 0]);
        }
        _ => panic!("expected a close"),
    }
}

#[test]
fn dial_failure_reply_codes() {
    assert_eq!(dial_reply(&Err(Error::ConnectionRefused))[1], 0x05);
    assert_eq!(dial_reply(&Err(Error::NetworkUnreachable))[1], 0x03);
    assert_eq!(dial_reply(&Err(Error::TtlExpired))[1], 0x06);
    assert_eq!(dial_reply(&Err(Error::InvalidDstAddress))[1], 0x08);
    assert_eq!(dial_reply(&Err(Error::ProxyServerUnreachable))[1], 0x01);
}

#[test]
fn client_negotiates_with_password() {
    let auth = basic("user", "pass");
    let target = DstAddr::Domain(b"example.com".to_vec(), 443);
    assert_eq!(client_hello(&auth), vec![0x05, 0x02, 0x00, 0x02]);
    assert_eq!(client_hello(&Authentication::NoAuth), vec![0x05, 0x01, 0x00]);
    let step = client_step(&auth, &target, ClientPhase::AwaitSelection, &[0x05, 0x02]);
    match step {
        ClientStep::Send { consumed, bytes, next } => {
            assert_eq!(consumed, 2);
            assert_eq!(next, ClientPhase::AwaitStatus);
            let mut expected = vec![0x01, 0x04];
            expected.extend_from_slice(b"user");
            expected.push(0x04);
            expected.extend_from_slice(b"pass");
            assert_eq!(bytes, expected);
        }
        _ => panic!("expected credentials"),
    }
    let step = client_step(&auth, &target, ClientPhase::AwaitStatus, &[0x01, 0x00]);
    match step {
        ClientStep::Send { bytes, next, .. } => {
            assert_eq!(next, ClientPhase::AwaitReply);
            let mut expected = vec![0x05, 0x01, 0x00, 0x03, 0x0b];
            expected.extend_from_slice(b"example.com");
            expected.extend_from_slice(&[0x01, 0xbb]);
            assert_eq!(bytes, expected);
        }
        _ => panic!("expected the request"),
    }
    let reply = [0x05, 0x00, 0x00, 0x01, 1, 2, 3, 4, 0, 80, 0xaa];
    assert!(matches!(client_step(&auth, &target, ClientPhase::AwaitReply, &reply), ClientStep::Done { consumed: 10 }));
}

#[test]
fn client_reports_failures() {
    let target = DstAddr::Ipv4([1, 1, 1, 1], 53);
    let auth = basic("u", "p");
    assert!(matches!(client_step(&auth, &target, ClientPhase::AwaitStatus, &[0x01, 0x01]), ClientStep::Fail(Error::PasswordAuthFailure(1))));
    assert!(matches!(client_step(&auth, &target, ClientPhase::AwaitSelection, &[0x05, 0xff]), ClientStep::Fail(Error::NoAcceptableMethods)));
    assert!(matches!(
        client_step(&Authentication::NoAuth, &target, ClientPhase::AwaitSelection, &[0x05, 0x02]),
        ClientStep::Fail(Error::UnknownMethod)
    ));
    let refused = [0x05, 0x05, 0x00, 0x01, 0, 0, 0, 0, 0, 0];
    assert!(matches!(client_step(&auth, &target, ClientPhase::AwaitReply, &refused), ClientStep::Fail(Error::ConnectionRefused)));
    assert!(matches!(client_step(&auth, &target, ClientPhase::AwaitReply, &refused[..5]), ClientStep::NeedMore));
}

#[test]
fn policy_routes() {
    let mut p = ProxyConnect::new((), ());
    let d = DstAddr::Domain(b"a.example.com".to_vec(), 443);
    assert_eq!(p.route(&d), Ok(Route::Direct));
    p.set_default_proxy(true);
    assert_eq!(p.route(&d), Ok(Route::Proxy));
    p.set_default_proxy(false);
    p.set_policy(vec![Rule::parse(b"DOMAIN-SUFFIX,example.com,proxy").unwrap()]);
    assert_eq!(p.route(&d), Ok(Route::Proxy));
    assert_eq!(p.route(&DstAddr::Domain(b"other.org".to_vec(), 80)), Ok(Route::Direct));
    let mut forced = ProxyConnect::new((), ());
    forced.set_force_proxy(true);
    assert_eq!(forced.route(&d), Ok(Route::Proxy));
}
