//! HTTP CONNECT: the request head a client sends, the head a proxy answers, and
//! the decisions both sides take on them.
use vstd::prelude::*;
use vstd::utf8::{encode_utf8, valid_utf8};

use crate::auth::{AuthView, Authentication};
use crate::codec::{copy_range, push_all, utf8_string};
use crate::dst::{DstAddr, DstView};
use crate::error::{Error, IoKind};
use crate::text::{
    all_digits, decimal_value, eq_ignore_ascii_case, eq_ignore_case, find_byte, first_index,
    has_byte, last_index, parse_decimal, rfind_byte, split, split_bytes, starts_with,
    starts_with_bytes, trim, trim_bytes, views,
};

verus! {

/// A request line: `METHOD HOST PROTOCOL`.
#[derive(Debug, Clone)]
pub struct RequestLine {
    pub method: Vec<u8>,
    pub host: Vec<u8>,
    pub protocol: Vec<u8>,
}

/// A status line: `PROTOCOL STATUS MESSAGE`.
#[derive(Debug, Clone)]
pub struct StatusLine {
    pub protocol: Vec<u8>,
    pub status: Vec<u8>,
    pub message: Vec<u8>,
}

/// A header: `Name: value`, both trimmed.
#[derive(Debug, Clone)]
pub struct Header {
    pub name: Vec<u8>,
    pub value: Vec<u8>,
}

/// A line without its carriage return.
pub open spec fn strip_cr(l: Seq<u8>) -> Seq<u8> {
    if l.len() > 0 && l.last() == 13 {
        l.drop_last()
    } else {
        l
    }
}

/// The lines of a head, without their line endings.
pub open spec fn head_lines(head: Seq<u8>) -> Seq<Seq<u8>> {
    Seq::new(split(head, 10).len(), |i: int| strip_cr(split(head, 10)[i]))
}

/// The name and value of a header line, if it has a colon.
pub open spec fn header_of(line: Seq<u8>) -> Option<(Seq<u8>, Seq<u8>)> {
    match first_index(line, 58) {
        Some(i) => Some((trim(line.subrange(0, i)), trim(line.subrange(i + 1, line.len() as int)))),
        None => None,
    }
}

/// The three parts of a request line, if it has exactly three.
pub open spec fn request_line_of(line: Seq<u8>) -> Option<(Seq<u8>, Seq<u8>, Seq<u8>)> {
    let f = split(line, 32);
    if f.len() == 3 {
        Some((f[0], f[1], f[2]))
    } else {
        None
    }
}

/// Splits a head into its lines and drops the carriage returns.
pub fn lines_of(head: &[u8]) -> (r: Vec<Vec<u8>>)
    ensures
        views(r@) == head_lines(head@),
{
    let parts = split_bytes(head, 10);
    let mut out: Vec<Vec<u8>> = Vec::new();
    let mut i: usize = 0;
    while i < parts.len()
        invariant
            i <= parts@.len(),
            views(parts@) == split(head@, 10),
            views(out@) == head_lines(head@).subrange(0, i as int),
        decreases parts@.len() - i,
    {
        let l = parts[i].as_slice();
        assert(l@ == split(head@, 10)[i as int]);
        let line = if l.len() > 0 && l[l.len() - 1] == 13 {
            copy_range(l, 0, l.len() - 1)
        } else {
            copy_range(l, 0, l.len())
        };
        assert(l@.subrange(0, l@.len() as int) == l@);
        let ghost before = views(out@);
        out.push(line);
        assert(views(out@) =~= before.push(strip_cr(l@)));
        assert(head_lines(head@).subrange(0, i + 1) =~= head_lines(head@).subrange(0, i as int).push(
            strip_cr(l@),
        ));
        i = i + 1;
    }
    assert(head_lines(head@).subrange(0, parts@.len() as int) == head_lines(head@));
    out
}

impl RequestLine {
    /// Reads a request line; it must have exactly three space-separated parts.
    pub fn parse(line: &[u8]) -> (r: Option<RequestLine>)
        ensures
            match (r, request_line_of(line@)) {
                (Some(l), Some((m, h, p))) => l.method@ == m && l.host@ == h && l.protocol@ == p,
                (None, None) => true,
                _ => false,
            },
    {
        let f = split_bytes(line, 32);
        if f.len() != 3 {
            return None;
        }
        assert(views(f@)[0] == f@[0]@ && views(f@)[1] == f@[1]@ && views(f@)[2] == f@[2]@);
        let method = copy_range(f[0].as_slice(), 0, f[0].len());
        let host = copy_range(f[1].as_slice(), 0, f[1].len());
        let protocol = copy_range(f[2].as_slice(), 0, f[2].len());
        assert(f@[0]@.subrange(0, f@[0]@.len() as int) == f@[0]@);
        assert(f@[1]@.subrange(0, f@[1]@.len() as int) == f@[1]@);
        assert(f@[2]@.subrange(0, f@[2]@.len() as int) == f@[2]@);
        Some(RequestLine { method, host, protocol })
    }
}

/// The parts of a status line: protocol, status, and the rest as the message.
pub open spec fn status_line_of(line: Seq<u8>) -> Option<(Seq<u8>, Seq<u8>, Seq<u8>)> {
    let f = split(line, 32);
    if f.len() < 3 {
        None
    } else {
        Some((f[0], f[1], crate::text::join(f.subrange(2, f.len() as int), 32)))
    }
}

impl StatusLine {
    /// Reads a status line `PROTOCOL STATUS MESSAGE`; the message may hold spaces.
    pub fn parse(line: &[u8]) -> (r: Option<StatusLine>)
        ensures
            match (r, status_line_of(line@)) {
                (Some(l), Some((p, s, m))) => l.protocol@ == p && l.status@ == s && l.message@ == m,
                (None, None) => true,
                _ => false,
            },
    {
        let f = split_bytes(line, 32);
        if f.len() < 3 {
            return None;
        }
        let ghost all = views(f@);
        assert(all[0] == f@[0]@ && all[1] == f@[1]@);
        let mut rest: Vec<Vec<u8>> = Vec::new();
        let mut i: usize = 2;
        while i < f.len()
            invariant
                2 <= i <= f@.len(),
                all == views(f@),
                views(rest@) == all.subrange(2, i as int),
            decreases f@.len() - i,
        {
            let ghost before = views(rest@);
            rest.push(copy_range(f[i].as_slice(), 0, f[i].len()));
            assert(f@[i as int]@.subrange(0, f@[i as int]@.len() as int) == f@[i as int]@);
            assert(views(rest@) =~= before.push(all[i as int]));
            assert(all.subrange(2, i + 1) =~= all.subrange(2, i as int).push(all[i as int]));
            i = i + 1;
        }
        let mut message: Vec<u8> = Vec::new();
        crate::text::write_joined(&mut message, &rest, 32);
        let protocol = copy_range(f[0].as_slice(), 0, f[0].len());
        let status = copy_range(f[1].as_slice(), 0, f[1].len());
        assert(f@[0]@.subrange(0, f@[0]@.len() as int) == f@[0]@);
        assert(f@[1]@.subrange(0, f@[1]@.len() as int) == f@[1]@);
        Some(StatusLine { protocol, status, message })
    }
}

impl Header {
    /// Reads a header line: the name before the first colon and the value after
    /// it, both trimmed. A line without a colon is no header.
    pub fn parse(line: &[u8]) -> (r: Option<Header>)
        ensures
            match (r, header_of(line@)) {
                (Some(h), Some((n, v))) => h.name@ == n && h.value@ == v,
                (None, None) => true,
                _ => false,
            },
    {
        let _n = line.len();
        match find_byte(line, 58) {
            Some(i) => {
                proof {
                    lemma_first_index_range(line@, 58);
                }
                let name = trim_bytes(vstd::slice::slice_subrange(line, 0, i));
                let value = trim_bytes(vstd::slice::slice_subrange(line, i + 1, line.len()));
                Some(Header { name, value })
            },
            None => None,
        }
    }
}

/// The first position of a byte lies within the string and holds that byte.
pub proof fn lemma_first_index_range(s: Seq<u8>, c: u8)
    ensures
        first_index(s, c) matches Some(i) ==> 0 <= i < s.len() && s[i] == c,
        first_index(s, c) is None ==> !has_byte(s, c),
    decreases s.len(),
{
    if s.len() > 0 {
        lemma_first_index_range(s.drop_first(), c);
        if first_index(s, c) is None {
            assert forall|k: int| 0 <= k < s.len() implies s[k] != c by {
                if k > 0 {
                    assert(s[k] == s.drop_first()[k - 1]);
                }
            }
        }
    }
}

/// The last position of a byte lies within the string and holds that byte.
pub proof fn lemma_last_index_range(s: Seq<u8>, c: u8)
    ensures
        last_index(s, c) matches Some(i) ==> 0 <= i < s.len() && s[i] == c,
    decreases s.len(),
{
    if s.len() > 0 {
        lemma_last_index_range(s.drop_last(), c);
    }
}

/// The port a host field names after its last colon: its decimal value, or 0 when
/// it is not a number that fits in 16 bits.
pub open spec fn port_or_zero(s: Seq<u8>) -> u16 {
    if 1 <= s.len() && all_digits(s) && decimal_value(s) <= 65535 {
        decimal_value(s) as u16
    } else {
        0
    }
}

/// The destination a CONNECT host names: split at the last colon, the port taken
/// as `port_or_zero`; without a colon, the whole host with port 0.
pub open spec fn host_target(host: Seq<u8>) -> DstView {
    match last_index(host, 58) {
        Some(i) => DstView::Domain(host.subrange(0, i), port_or_zero(host.subrange(i + 1, host.len() as int))),
        None => DstView::Domain(host, 0),
    }
}

/// Reads the destination a CONNECT host names.
pub fn parse_host(host: &[u8]) -> (r: DstAddr)
    ensures
        r@ == host_target(host@),
{
    let _n = host.len();
    match rfind_byte(host, 58) {
        Some(i) => {
            proof {
                lemma_last_index_range(host@, 58);
            }
            let name = copy_range(host, 0, i);
            let port_text = vstd::slice::slice_subrange(host, i + 1, host.len());
            let port = match parse_decimal(port_text, 65535) {
                Some(p) => p as u16,
                None => 0,
            };
            DstAddr::Domain(name, port)
        },
        None => {
            let name = copy_range(host, 0, host.len());
            assert(host@.subrange(0, host@.len() as int) == host@);
            DstAddr::Domain(name, 0)
        },
    }
}

/// What `base64::decode` gives for some text: the decoded octets, or nothing when
/// the text is not valid base64.
pub uninterp spec fn base64_decoded(text: Seq<u8>) -> Option<Seq<u8>>;

/// What `base64::encode` gives for some octets.
pub uninterp spec fn base64_of(bytes: Seq<u8>) -> Seq<char>;

/// Relies on `base64::decode` (standard alphabet, padded): the result depends on
/// the text alone.
#[verifier::external_body]
fn base64_decode(text: &[u8]) -> (r: Option<Vec<u8>>)
    ensures
        r is Some <==> base64_decoded(text@) is Some,
        r matches Some(v) ==> base64_decoded(text@) == Some(v@),
{
    base64::decode(text).ok()
}

/// Relies on `base64::encode` (standard alphabet, padded): the result depends on
/// the octets alone.
#[verifier::external_body]
fn base64_encode(bytes: &[u8]) -> (r: String)
    ensures
        r@ == base64_of(bytes@),
{
    base64::encode(bytes)
}

/// The credentials text `user:pass`.
pub open spec fn credentials(user: Seq<char>, pass: Seq<char>) -> Seq<u8> {
    encode_utf8(user) + seq![58u8] + encode_utf8(pass)
}

/// Writes `user:pass`.
fn write_credentials(out: &mut Vec<u8>, user: &String, pass: &String)
    ensures
        final(out)@ == old(out)@ + credentials(user@, pass@),
{
    push_all(out, user.as_str().as_bytes());
    out.push(58);
    push_all(out, pass.as_str().as_bytes());
    assert(final(out)@ =~= old(out)@ + credentials(user@, pass@));
}

/// Whether decoded Basic credentials are exactly `user:pass`. Decoded bytes
/// without a colon never are.
pub fn credentials_match(decoded: &[u8], user: &String, pass: &String) -> (r: bool)
    ensures
        r == (decoded@ == credentials(user@, pass@)),
{
    let mut expected: Vec<u8> = Vec::new();
    write_credentials(&mut expected, user, pass);
    crate::text::bytes_eq(decoded, expected.as_slice())
}

/// Decoded Basic credentials without a colon are refused, whatever the configured
/// pair: a body lacking `:` is an authentication failure.
pub proof fn lemma_no_colon_refused(decoded: Seq<u8>, user: Seq<char>, pass: Seq<char>)
    requires
        !has_byte(decoded, 58),
    ensures
        decoded != credentials(user, pass),
{
    let c = credentials(user, pass);
    assert(c[encode_utf8(user).len() as int] == 58);
}

/// `Basic ` (with its space).
pub open spec fn basic_prefix() -> Seq<u8> {
    encode_utf8("Basic "@)
}

/// `Proxy-Authorization`
pub open spec fn proxy_authorization() -> Seq<u8> {
    encode_utf8("Proxy-Authorization"@)
}

/// The base64 token of a `Basic` header value; empty when the prefix is missing.
pub open spec fn basic_token(value: Seq<u8>) -> Seq<u8> {
    if starts_with(value, basic_prefix()) {
        value.subrange(basic_prefix().len() as int, value.len() as int)
    } else {
        seq![]
    }
}

/// Whether a header line carries Basic credentials equal to `user:pass`.
pub open spec fn line_authorizes(line: Seq<u8>, user: Seq<char>, pass: Seq<char>) -> bool {
    match header_of(line) {
        Some((n, v)) => eq_ignore_case(n, proxy_authorization()) && base64_decoded(basic_token(v))
            == Some(credentials(user, pass)),
        None => false,
    }
}

/// Whether some header line of a head (after the request line) authorizes the
/// configured pair.
pub open spec fn head_authorizes(lines: Seq<Seq<u8>>, user: Seq<char>, pass: Seq<char>) -> bool {
    exists|i: int| 1 <= i < lines.len() && line_authorizes(#[trigger] lines[i], user, pass)
}

/// Copies a string literal's bytes.
fn literal(s: &str) -> (r: Vec<u8>)
    ensures
        r@ == encode_utf8(s@),
{
    let b = s.as_bytes();
    let r = copy_range(b, 0, b.len());
    assert(b@.subrange(0, b@.len() as int) == b@);
    r
}

/// Whether one header line authorizes `user:pass`.
fn authorizes(line: &[u8], user: &String, pass: &String) -> (r: bool)
    ensures
        r == line_authorizes(line@, user@, pass@),
{
    let h = match Header::parse(line) {
        Some(h) => h,
        None => return false,
    };
    if !eq_ignore_ascii_case(h.name.as_slice(), literal("Proxy-Authorization").as_slice()) {
        return false;
    }
    let prefix = literal("Basic ");
    let token = if starts_with_bytes(h.value.as_slice(), prefix.as_slice()) {
        copy_range(h.value.as_slice(), prefix.len(), h.value.len())
    } else {
        Vec::new()
    };
    assert(token@ == basic_token(h.value@));
    match base64_decode(token.as_slice()) {
        Some(decoded) => credentials_match(decoded.as_slice(), user, pass),
        None => false,
    }
}

/// What the server does with a CONNECT request head.
#[derive(Debug)]
pub enum HttpStep {
    /// Send `reply`, then close the connection with `error`.
    Reject { reply: Vec<u8>, error: Error },
    /// Dial `target`.
    Dial { target: DstAddr },
}

/// The mathematical value of an HTTP server step.
pub enum HttpView {
    Reject(Seq<u8>, Error),
    Dial(DstView),
}

impl View for HttpStep {
    type V = HttpView;

    open spec fn view(&self) -> HttpView {
        match self {
            HttpStep::Reject { reply, error } => HttpView::Reject(reply@, *error),
            HttpStep::Dial { target } => HttpView::Dial(target@),
        }
    }
}

/// `HTTP/1.1 407 Proxy Authentication Required` with its `Proxy-Authenticate` header.
pub open spec fn auth_required_response() -> Seq<u8> {
    encode_utf8(
        "HTTP/1.1 407 Proxy Authentication Required\r\nProxy-Authenticate: Basic realm=Proxy Server\r\n\r\n"@,
    )
}

/// `HTTP/1.1 200 OK`
pub open spec fn ok_response() -> Seq<u8> {
    encode_utf8("HTTP/1.1 200 OK\r\n\r\n"@)
}

/// `HTTP/1.1 503 Service Unavailable`
pub open spec fn unavailable_response() -> Seq<u8> {
    encode_utf8("HTTP/1.1 503 Service Unavailable\r\n\r\n"@)
}

/// What the server does with a request head: a malformed request line closes the
/// connection with `InvalidData`; missing or wrong credentials get the 407 reply
/// and `ProxyDenied`; otherwise the host is dialed.
pub open spec fn http_step_spec(auth: AuthView, head: Seq<u8>) -> HttpView {
    let lines = head_lines(head);
    match request_line_of(lines[0]) {
        None => HttpView::Reject(seq![], Error::Io(IoKind::InvalidData)),
        Some((_, host, _)) => match auth {
            AuthView::Basic(u, p) => if head_authorizes(lines, u, p) {
                HttpView::Dial(host_target(host))
            } else {
                HttpView::Reject(auth_required_response(), Error::ProxyDenied)
            },
            AuthView::NoAuth => HttpView::Dial(host_target(host)),
        },
    }
}

/// Decides what to do with a CONNECT request head (request line and headers).
pub fn http_server_step(auth: &Authentication, head: &[u8]) -> (r: HttpStep)
    ensures
        r@ == http_step_spec(auth@, head@),
{
    let lines = lines_of(head);
    proof {
        crate::text::lemma_split_len(head@, 10);
        assert(head_lines(head@).len() >= 1);
        assert(views(lines@).len() == lines@.len());
    }
    assert(views(lines@)[0] == lines@[0]@);
    let line = match RequestLine::parse(lines[0].as_slice()) {
        Some(l) => l,
        None => return HttpStep::Reject { reply: Vec::new(), error: Error::Io(IoKind::InvalidData) },
    };
    match auth {
        Authentication::Basic(u, p) => {
            let mut i: usize = 1;
            let mut ok = false;
            while i < lines.len()
                invariant
                    1 <= i <= lines@.len(),
                    views(lines@) == head_lines(head@),
                    ok == exists|k: int| 1 <= k < i && line_authorizes(#[trigger] views(lines@)[k], u@, p@),
                decreases lines@.len() - i,
            {
                assert(views(lines@)[i as int] == lines@[i as int]@);
                if authorizes(lines[i].as_slice(), u, p) {
                    ok = true;
                }
                i = i + 1;
            }
            if ok {
                HttpStep::Dial { target: parse_host(line.host.as_slice()) }
            } else {
                HttpStep::Reject {
                    reply: literal(
                        "HTTP/1.1 407 Proxy Authentication Required\r\nProxy-Authenticate: Basic realm=Proxy Server\r\n\r\n",
                    ),
                    error: Error::ProxyDenied,
                }
            }
        },
        Authentication::NoAuth => HttpStep::Dial { target: parse_host(line.host.as_slice()) },
    }
}

/// The reply the server sends once the dial is over: 200 on success, 503 on failure.
pub fn dial_response(connected: bool) -> (r: Vec<u8>)
    ensures
        connected ==> r@ == ok_response(),
        !connected ==> r@ == unavailable_response(),
{
    if connected {
        literal("HTTP/1.1 200 OK\r\n\r\n")
    } else {
        literal("HTTP/1.1 503 Service Unavailable\r\n\r\n")
    }
}

/// The authority a CONNECT request names for a target: the scheme prefix
/// (`http://`, `https://`) is dropped, and a missing port becomes 80 for `http`
/// and 443 otherwise.
pub open spec fn connect_authority(target: Seq<u8>) -> Seq<u8> {
    let http = encode_utf8("http://"@);
    let https = encode_utf8("https://"@);
    let is_http = starts_with(target, http);
    let host = if is_http {
        target.subrange(http.len() as int, target.len() as int)
    } else if starts_with(target, https) {
        target.subrange(https.len() as int, target.len() as int)
    } else {
        target
    };
    if has_byte(host, 58) {
        host
    } else if is_http {
        host + encode_utf8(":80"@)
    } else {
        host + encode_utf8(":443"@)
    }
}

/// The `Proxy-Authorization` line, when there are credentials.
pub open spec fn authorization_line(auth: AuthView) -> Seq<u8> {
    match auth {
        AuthView::NoAuth => seq![],
        AuthView::Basic(u, p) => encode_utf8("Proxy-Authorization: Basic "@) + encode_utf8(
            base64_of(credentials(u, p)),
        ) + encode_utf8("\r\n"@),
    }
}

/// The CONNECT request head for an authority.
pub open spec fn connect_request_spec(authority: Seq<u8>, auth: AuthView) -> Seq<u8> {
    encode_utf8("CONNECT "@) + authority + encode_utf8(" HTTP/1.1\r\nHost: "@) + authority
        + encode_utf8("\r\nProxy-Connection: keep-alive\r\n"@) + authorization_line(auth)
        + encode_utf8("User-Agent: lightway/0.1.0\r\n\r\n"@)
}

/// The authority a CONNECT request names for `target`.
pub fn connect_target(target: &[u8]) -> (r: Vec<u8>)
    ensures
        r@ == connect_authority(target@),
{
    let http = literal("http://");
    let https = literal("https://");
    let is_http = starts_with_bytes(target, http.as_slice());
    let mut host = if is_http {
        copy_range(target, http.len(), target.len())
    } else if starts_with_bytes(target, https.as_slice()) {
        copy_range(target, https.len(), target.len())
    } else {
        copy_range(target, 0, target.len())
    };
    assert(target@.subrange(0, target@.len() as int) == target@);
    let has_colon = find_byte(host.as_slice(), 58).is_some();
    proof {
        lemma_first_index_range(host@, 58);
    }
    if !has_colon {
        if is_http {
            push_all(&mut host, literal(":80").as_slice());
        } else {
            push_all(&mut host, literal(":443").as_slice());
        }
    }
    host
}

/// The CONNECT request head a client sends to a proxy for `target`, with Basic
/// credentials when there are any.
pub fn connect_request(target: &[u8], auth: &Authentication) -> (r: Vec<u8>)
    ensures
        r@ == connect_request_spec(connect_authority(target@), auth@),
{
    let authority = connect_target(target);
    let mut out = literal("CONNECT ");
    push_all(&mut out, authority.as_slice());
    push_all(&mut out, literal(" HTTP/1.1\r\nHost: ").as_slice());
    push_all(&mut out, authority.as_slice());
    push_all(&mut out, literal("\r\nProxy-Connection: keep-alive\r\n").as_slice());
    match auth {
        Authentication::NoAuth => {},
        Authentication::Basic(u, p) => {
            let mut cred: Vec<u8> = Vec::new();
            write_credentials(&mut cred, u, p);
            let token = base64_encode(cred.as_slice());
            push_all(&mut out, literal("Proxy-Authorization: Basic ").as_slice());
            push_all(&mut out, token.as_str().as_bytes());
            push_all(&mut out, literal("\r\n").as_slice());
        },
    }
    push_all(&mut out, literal("User-Agent: lightway/0.1.0\r\n\r\n").as_slice());
    assert(out@ =~= connect_request_spec(connect_authority(target@), auth@));
    out
}

/// `Content-Length`
pub open spec fn content_length_name() -> Seq<u8> {
    encode_utf8("Content-Length"@)
}

/// The body length the headers from line `i` on announce: the value of the first
/// `Content-Length` header (which must be a decimal number below 2^32), or 0.
pub open spec fn content_length_from(lines: Seq<Seq<u8>>, i: int) -> Result<nat, Error>
    decreases lines.len() - i,
{
    if i < 1 || i >= lines.len() {
        Ok(0)
    } else {
        match header_of(lines[i]) {
            Some((n, v)) => if eq_ignore_case(n, content_length_name()) {
                if 1 <= v.len() && all_digits(v) && decimal_value(v) <= 0xffff_ffff {
                    Ok(decimal_value(v))
                } else {
                    Err(Error::Io(IoKind::InvalidData))
                }
            } else {
                content_length_from(lines, i + 1)
            },
            None => content_length_from(lines, i + 1),
        }
    }
}

/// What a client makes of the proxy's answer head: the length of the body that
/// follows when the status is 200; `ProxyServerUnreachable` for any other status;
/// `InvalidData` when the status line or the length is malformed.
pub open spec fn tunnel_outcome_spec(head: Seq<u8>) -> Result<nat, Error> {
    let lines = head_lines(head);
    let f = split(lines[0], 32);
    if f.len() < 2 || !(1 <= f[1].len() && all_digits(f[1]) && decimal_value(f[1]) <= 65535) {
        Err(Error::Io(IoKind::InvalidData))
    } else {
        match content_length_from(lines, 1) {
            Err(e) => Err(e),
            Ok(n) => if decimal_value(f[1]) == 200 {
                Ok(n)
            } else {
                Err(Error::ProxyServerUnreachable)
            },
        }
    }
}

/// The body length announced by the header lines of a head.
fn content_length(lines: &Vec<Vec<u8>>, head: &[u8]) -> (r: Result<usize, Error>)
    requires
        views(lines@) == head_lines(head@),
    ensures
        match (r, content_length_from(head_lines(head@), 1)) {
            (Ok(n), Ok(m)) => n == m,
            (Err(e), Err(f)) => e == f,
            _ => false,
        },
{
    let name = literal("Content-Length");
    let mut i: usize = 1;
    while i < lines.len()
        invariant
            1 <= i,
            i <= lines@.len() || lines@.len() == 0,
            views(lines@) == head_lines(head@),
            name@ == content_length_name(),
            content_length_from(head_lines(head@), 1) == content_length_from(head_lines(head@), i as int),
        decreases lines@.len() - i,
    {
        assert(views(lines@)[i as int] == lines@[i as int]@);
        match Header::parse(lines[i].as_slice()) {
            Some(h) => {
                if eq_ignore_ascii_case(h.name.as_slice(), name.as_slice()) {
                    return match parse_decimal(h.value.as_slice(), 0xffff_ffff) {
                        Some(v) => Ok(v as usize),
                        None => Err(Error::Io(IoKind::InvalidData)),
                    };
                }
            },
            None => {},
        }
        i = i + 1;
    }
    Ok(0)
}

/// Reads the proxy's answer head to a CONNECT request.
pub fn tunnel_outcome(head: &[u8]) -> (r: Result<usize, Error>)
    ensures
        match (r, tunnel_outcome_spec(head@)) {
            (Ok(n), Ok(m)) => n == m,
            (Err(e), Err(f)) => e == f,
            _ => false,
        },
{
    let lines = lines_of(head);
    proof {
        crate::text::lemma_split_len(head@, 10);
        assert(head_lines(head@).len() >= 1);
        assert(views(lines@).len() == lines@.len());
    }
    assert(views(lines@)[0] == lines@[0]@);
    let f = split_bytes(lines[0].as_slice(), 32);
    if f.len() < 2 {
        return Err(Error::Io(IoKind::InvalidData));
    }
    assert(views(f@)[1] == f@[1]@);
    let code = match parse_decimal(f[1].as_slice(), 65535) {
        Some(c) => c,
        None => return Err(Error::Io(IoKind::InvalidData)),
    };
    let body = match content_length(&lines, head) {
        Ok(n) => n,
        Err(e) => return Err(e),
    };
    if code == 200 {
        Ok(body)
    } else {
        Err(Error::ProxyServerUnreachable)
    }
}

/// Basic credentials: the decoded `user:pass` text and the position of its colon.
#[derive(Debug, Clone)]
pub struct Basic {
    decoded: Vec<u8>,
    colon_pos: usize,
}

/// The credentials a `Basic` header value carries: after the `Basic ` prefix and
/// any further spaces, base64 that decodes to UTF-8 text with a colon.
pub open spec fn basic_decode_spec(value: Seq<u8>) -> Option<(Seq<u8>, int)> {
    if !starts_with(value, basic_prefix()) {
        None
    } else {
        let rest = value.subrange(basic_prefix().len() as int, value.len() as int);
        match skip_spaces(rest) {
            None => None,
            Some(token) => match base64_decoded(token) {
                None => None,
                Some(d) => if !valid_utf8(d) {
                    None
                } else {
                    match first_index(d, 58) {
                        Some(i) => Some((d, i)),
                        None => None,
                    }
                },
            },
        }
    }
}

/// `s` from its first byte that is not a space; nothing when there is none.
pub open spec fn skip_spaces(s: Seq<u8>) -> Option<Seq<u8>>
    decreases s.len(),
{
    if s.len() == 0 {
        None
    } else if s[0] != 32 {
        Some(s)
    } else {
        skip_spaces(s.drop_first())
    }
}

impl Basic {
    /// The decoded text.
    pub closed spec fn text(&self) -> Seq<u8> {
        self.decoded@
    }

    /// The position of the colon that ends the username.
    pub closed spec fn colon(&self) -> int {
        self.colon_pos as int
    }

    /// Credentials for a username and a password.
    pub fn new(username: &String, password: &String) -> (r: Basic)
        ensures
            r.text() == credentials(username@, password@),
            r.colon() == encode_utf8(username@).len(),
    {
        let mut decoded: Vec<u8> = Vec::new();
        write_credentials(&mut decoded, username, password);
        let colon_pos = username.as_str().as_bytes().len();
        Basic { decoded, colon_pos }
    }

    /// The username: the text before the colon.
    pub fn username(&self) -> (r: Vec<u8>)
        requires
            0 <= self.colon() <= self.text().len(),
        ensures
            r@ == self.text().subrange(0, self.colon()),
    {
        copy_range(self.decoded.as_slice(), 0, self.colon_pos)
    }

    /// The password: the text after the colon.
    pub fn password(&self) -> (r: Vec<u8>)
        requires
            0 <= self.colon() < self.text().len(),
        ensures
            r@ == self.text().subrange(self.colon() + 1, self.text().len() as int),
    {
        let n = self.decoded.len();
        copy_range(self.decoded.as_slice(), self.colon_pos + 1, n)
    }

    /// The header value `Basic <base64 of user:pass>`.
    pub fn encode(&self) -> (r: Vec<u8>)
        ensures
            r@ == basic_prefix() + encode_utf8(base64_of(self.text())),
    {
        let mut out = literal("Basic ");
        let token = base64_encode(self.decoded.as_slice());
        push_all(&mut out, token.as_str().as_bytes());
        out
    }

    /// Reads credentials from a header value `Basic <base64>`.
    pub fn decode(value: &[u8]) -> (r: Option<Basic>)
        ensures
            match (r, basic_decode_spec(value@)) {
                (Some(b), Some((d, i))) => b.text() == d && b.colon() == i,
                (None, None) => true,
                _ => false,
            },
    {
        let prefix = literal("Basic ");
        if !starts_with_bytes(value, prefix.as_slice()) {
            return None;
        }
        let mut start = prefix.len();
        while start < value.len() && value[start] == 32
            invariant
                prefix@.len() <= start <= value@.len(),
                skip_spaces(value@.subrange(prefix@.len() as int, value@.len() as int)) == skip_spaces(
                    value@.subrange(start as int, value@.len() as int),
                ),
            decreases value@.len() - start,
        {
            assert(value@.subrange(start as int, value@.len() as int).drop_first() == value@.subrange(
                start + 1,
                value@.len() as int,
            ));
            start = start + 1;
        }
        if start == value.len() {
            return None;
        }
        let token = vstd::slice::slice_subrange(value, start, value.len());
        let decoded = match base64_decode(token) {
            Some(d) => d,
            None => return None,
        };
        if utf8_string(decoded.as_slice()).is_none() {
            return None;
        }
        let _n = decoded.len();
        match find_byte(decoded.as_slice(), 58) {
            Some(i) => Some(Basic { decoded, colon_pos: i }),
            None => None,
        }
    }
}

} // verus!
