//! The configured upstream proxies and proxy mode, and what the process makes of
//! them.
use vstd::prelude::*;
use vstd::utf8::{decode_utf8, valid_utf8};

use crate::auth::{AuthView, Authentication};
use crate::codec::utf8_string;
use crate::policy::ProxyConnect;
use crate::rules::{rule_views, Rule};
use crate::text::{
    all_digits, decimal_value, eq_ignore_ascii_case, eq_ignore_case, parse_decimal, split,
    split_bytes, trim, trim_bytes, views,
};

verus! {

/// How destinations are routed.
#[derive(Debug, Clone, Copy, PartialEq, Eq, Structural)]
pub enum ProxyMode {
    /// Everything directly.
    Direct,
    /// Everything through the selected proxy.
    Proxy,
    /// As the rules decide.
    Auto,
}

/// The scheme of an upstream proxy.
#[derive(Debug, Clone, Copy, PartialEq, Eq, Structural)]
pub enum Protocol {
    Socks5,
    Http,
    Https,
}

/// Credentials for an upstream proxy.
#[derive(Debug, Clone)]
pub enum Authorization {
    Basic { username: String, password: String },
}

/// One configured upstream proxy.
#[derive(Debug, Clone)]
pub struct UpstreamProxy {
    pub name: String,
    pub scheme: String,
    pub host: String,
    pub port: u16,
    pub authorization: Option<Authorization>,
}

/// The process configuration.
#[derive(Debug, Clone)]
pub struct Config {
    pub http_listen: String,
    pub socks5_listen: String,
    pub proxy_mode: ProxyMode,
    pub proxy: String,
    pub proxies: Vec<UpstreamProxy>,
}

/// Why a proxy description was refused.
#[derive(Debug, Clone, Copy, PartialEq, Eq, Structural)]
pub enum ConfigError {
    UnknownProtocol,
    UnknownProxyFormat,
    InvalidPort,
    InvalidText,
}

/// The protocol a scheme names, without regard to ASCII case.
pub open spec fn protocol_of(s: Seq<u8>) -> Option<Protocol> {
    if eq_ignore_case(s, encode("http")) {
        Some(Protocol::Http)
    } else if eq_ignore_case(s, encode("https")) {
        Some(Protocol::Https)
    } else if eq_ignore_case(s, encode("socks5")) {
        Some(Protocol::Socks5)
    } else {
        None
    }
}

/// The UTF-8 bytes of a literal.
pub open spec fn encode(s: &str) -> Seq<u8> {
    vstd::utf8::encode_utf8(s@)
}

fn literal(s: &str) -> (r: Vec<u8>)
    ensures
        r@ == encode(s),
{
    let b = s.as_bytes();
    let r = crate::codec::copy_range(b, 0, b.len());
    assert(b@.subrange(0, b@.len() as int) == b@);
    r
}

/// Reads a proxy scheme: `http`, `https` or `socks5`, in any case.
pub fn parse_protocol(s: &[u8]) -> (r: Result<Protocol, ConfigError>)
    ensures
        match protocol_of(s@) {
            Some(p) => r == Ok::<Protocol, ConfigError>(p),
            None => r == Err::<Protocol, ConfigError>(ConfigError::UnknownProtocol),
        },
{
    if eq_ignore_ascii_case(s, literal("http").as_slice()) {
        Ok(Protocol::Http)
    } else if eq_ignore_ascii_case(s, literal("https").as_slice()) {
        Ok(Protocol::Https)
    } else if eq_ignore_ascii_case(s, literal("socks5").as_slice()) {
        Ok(Protocol::Socks5)
    } else {
        Err(ConfigError::UnknownProtocol)
    }
}

/// A parsed proxy description.
#[derive(Debug, Clone)]
pub struct ProxySpec {
    pub protocol: Protocol,
    pub host: String,
    pub port: u16,
    pub auth: Authentication,
}

/// A port field: decimal digits of at most 65535.
pub open spec fn is_port_text(f: Seq<u8>) -> bool {
    1 <= f.len() && all_digits(f) && decimal_value(f) <= 65535
}

/// What a proxy description `PROTOCOL,HOST,PORT[,USER,PASS]` (fields trimmed)
/// stands for, as protocol, host, port and credentials.
pub open spec fn parse_proxy_spec(s: Seq<u8>) -> Result<(Protocol, Seq<char>, u16, AuthView), ConfigError> {
    let f = split(s, 44);
    if f.len() != 3 && f.len() != 5 {
        Err(ConfigError::UnknownProxyFormat)
    } else {
        match protocol_of(trim(f[0])) {
            None => Err(ConfigError::UnknownProtocol),
            Some(p) => if !is_port_text(trim(f[2])) {
                Err(ConfigError::InvalidPort)
            } else if !valid_utf8(trim(f[1])) {
                Err(ConfigError::InvalidText)
            } else if f.len() == 3 {
                Ok((p, decode_utf8(trim(f[1])), decimal_value(trim(f[2])) as u16, AuthView::NoAuth))
            } else if !valid_utf8(trim(f[3])) || !valid_utf8(trim(f[4])) {
                Err(ConfigError::InvalidText)
            } else {
                Ok(
                    (
                        p,
                        decode_utf8(trim(f[1])),
                        decimal_value(trim(f[2])) as u16,
                        AuthView::Basic(decode_utf8(trim(f[3])), decode_utf8(trim(f[4]))),
                    ),
                )
            },
        }
    }
}

/// Reads a proxy description `PROTOCOL,HOST,PORT` or
/// `PROTOCOL,HOST,PORT,USER,PASS`; fields are trimmed.
pub fn parse_proxy(s: &[u8]) -> (r: Result<ProxySpec, ConfigError>)
    ensures
        match (r, parse_proxy_spec(s@)) {
            (Ok(x), Ok((p, h, port, a))) => x.protocol == p && x.host@ == h && x.port == port
                && x.auth@ == a,
            (Err(e), Err(f)) => e == f,
            _ => false,
        },
{
    let raw = split_bytes(s, 44);
    if raw.len() != 3 && raw.len() != 5 {
        return Err(ConfigError::UnknownProxyFormat);
    }
    let ghost f = views(raw@);
    assert(f[0] == raw@[0]@ && f[1] == raw@[1]@ && f[2] == raw@[2]@);
    let protocol = match parse_protocol(trim_bytes(raw[0].as_slice()).as_slice()) {
        Ok(p) => p,
        Err(e) => return Err(e),
    };
    let port = match parse_decimal(trim_bytes(raw[2].as_slice()).as_slice(), 65535) {
        Some(p) => p as u16,
        None => return Err(ConfigError::InvalidPort),
    };
    let host = match utf8_string(trim_bytes(raw[1].as_slice()).as_slice()) {
        Some(h) => h,
        None => return Err(ConfigError::InvalidText),
    };
    if raw.len() == 3 {
        return Ok(ProxySpec { protocol, host, port, auth: Authentication::NoAuth });
    }
    assert(f[3] == raw@[3]@ && f[4] == raw@[4]@);
    let user = match utf8_string(trim_bytes(raw[3].as_slice()).as_slice()) {
        Some(u) => u,
        None => return Err(ConfigError::InvalidText),
    };
    let pass = match utf8_string(trim_bytes(raw[4].as_slice()).as_slice()) {
        Some(p) => p,
        None => return Err(ConfigError::InvalidText),
    };
    Ok(ProxySpec { protocol, host, port, auth: Authentication::Basic(user, pass) })
}

impl UpstreamProxy {
    /// The protocol this proxy speaks: SOCKS5 for `socks5`, HTTPS CONNECT for
    /// `https`, HTTP CONNECT otherwise (schemes compared without regard to case).
    pub fn protocol(&self) -> (r: Protocol)
        ensures
            eq_ignore_case(vstd::utf8::encode_utf8(self.scheme@), encode("socks5")) ==> r
                == Protocol::Socks5,
            !eq_ignore_case(vstd::utf8::encode_utf8(self.scheme@), encode("socks5")) && eq_ignore_case(
                vstd::utf8::encode_utf8(self.scheme@),
                encode("https"),
            ) ==> r == Protocol::Https,
            !eq_ignore_case(vstd::utf8::encode_utf8(self.scheme@), encode("socks5"))
                && !eq_ignore_case(vstd::utf8::encode_utf8(self.scheme@), encode("https")) ==> r
                == Protocol::Http,
    {
        let scheme = self.scheme.as_str().as_bytes();
        if eq_ignore_ascii_case(scheme, literal("socks5").as_slice()) {
            Protocol::Socks5
        } else if eq_ignore_ascii_case(scheme, literal("https").as_slice()) {
            Protocol::Https
        } else {
            Protocol::Http
        }
    }

    /// The credentials this proxy is configured with.
    pub fn authentication(&self) -> (r: Authentication)
        ensures
            match &self.authorization {
                Some(Authorization::Basic { username, password }) => r@ == AuthView::Basic(
                    username@,
                    password@,
                ),
                None => r@ == AuthView::NoAuth,
            },
    {
        match &self.authorization {
            Some(Authorization::Basic { username, password }) => Authentication::Basic(
                username.clone(),
                password.clone(),
            ),
            None => Authentication::NoAuth,
        }
    }
}

impl Config {
    /// The selected proxy: the first whose name equals `proxy` up to ASCII case.
    pub fn selected_proxy(&self) -> (r: Option<usize>)
        ensures
            match r {
                Some(i) => i < self.proxies@.len() && eq_ignore_case(
                    vstd::utf8::encode_utf8(self.proxies@[i as int].name@),
                    vstd::utf8::encode_utf8(self.proxy@),
                ) && forall|k: int|
                    0 <= k < i ==> !eq_ignore_case(
                        vstd::utf8::encode_utf8(#[trigger] self.proxies@[k].name@),
                        vstd::utf8::encode_utf8(self.proxy@),
                    ),
                None => forall|k: int|
                    0 <= k < self.proxies@.len() ==> !eq_ignore_case(
                        vstd::utf8::encode_utf8(#[trigger] self.proxies@[k].name@),
                        vstd::utf8::encode_utf8(self.proxy@),
                    ),
            },
    {
        let wanted = self.proxy.as_str().as_bytes();
        let mut i: usize = 0;
        while i < self.proxies.len()
            invariant
                i <= self.proxies@.len(),
                wanted@ == vstd::utf8::encode_utf8(self.proxy@),
                forall|k: int|
                    0 <= k < i ==> !eq_ignore_case(
                        vstd::utf8::encode_utf8(#[trigger] self.proxies@[k].name@),
                        vstd::utf8::encode_utf8(self.proxy@),
                    ),
            decreases self.proxies@.len() - i,
        {
            if eq_ignore_ascii_case(self.proxies[i].name.as_str().as_bytes(), wanted) {
                return Some(i);
            }
            i = i + 1;
        }
        None
    }
}

/// Sets a policy dialer up for a proxy mode: `Proxy` forces the proxy, `Auto`
/// installs the rules, `Direct` leaves both off.
pub fn apply_mode<C, PC>(connect: &mut ProxyConnect<C, PC>, mode: ProxyMode, rules: Vec<Rule>)
    requires
        old(connect).policy_view() is None,
        !old(connect).forces_proxy(),
    ensures
        mode == ProxyMode::Proxy ==> final(connect).forces_proxy() && final(connect).policy_view() is None,
        mode == ProxyMode::Auto ==> !final(connect).forces_proxy() && final(connect).policy_view()
            == Some(rule_views(rules@)),
        mode == ProxyMode::Direct ==> !final(connect).forces_proxy()
            && final(connect).policy_view() is None,
        final(connect).proxies_by_default() == old(connect).proxies_by_default(),
{
    match mode {
        ProxyMode::Direct => {},
        ProxyMode::Proxy => connect.set_force_proxy(true),
        ProxyMode::Auto => connect.set_policy(rules),
    }
}

} // verus!
