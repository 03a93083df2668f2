//! SOCKS5 (RFC 1928) and its username/password subnegotiation (RFC 1929): the
//! codes and the messages, with their wire forms.
use vstd::prelude::*;

use crate::codec::{
    fixed_encoding, parse_fixed, parse_fixed_string, push_all, read_fixed_bytes,
    read_to_fixed_string, write_fixed,
};
use vstd::utf8::encode_utf8;

use crate::dst::{dst_encoding, parse_dst, DstAddr, DstView};
use crate::error::{eof, Error, IoKind};

verus! {

/// The protocol version octet of SOCKS5.
pub const SOCKS_VERSION: u8 = 0x05;

/// The version octet of the username/password subnegotiation.
pub const AUTH_VERSION: u8 = 0x01;

/// The status octet of a successful authentication.
pub const AUTH_SUCCEED: u8 = 0x00;

pub const NO_AUTHENTICATION_REQUIRED: u8 = 0x00;
pub const GSSAPI: u8 = 0x01;
pub const USERNAME_AND_PASSWORD: u8 = 0x02;
pub const IANA_ASSIGNED_MIN: u8 = 0x03;
pub const IANA_ASSIGNED_MAX: u8 = 0x7f;
pub const NO_ACCEPTABLE_METHODS: u8 = 0xff;

pub const CONNECT: u8 = 0x01;
pub const BIND: u8 = 0x02;
pub const UDP_ASSOCIATE: u8 = 0x03;

/// An authentication method.
#[derive(Debug, Clone, Copy, PartialEq, Eq, Structural)]
pub enum Method {
    NoAuthenticationRequired,
    Gssapi,
    UsernameAndPassword,
    IanaAssigned(u8),
    Reserved(u8),
    NoAcceptableMethods,
}

/// The method that a method octet names.
pub open spec fn method_of(code: u8) -> Method {
    if code == NO_AUTHENTICATION_REQUIRED {
        Method::NoAuthenticationRequired
    } else if code == GSSAPI {
        Method::Gssapi
    } else if code == USERNAME_AND_PASSWORD {
        Method::UsernameAndPassword
    } else if code == NO_ACCEPTABLE_METHODS {
        Method::NoAcceptableMethods
    } else if IANA_ASSIGNED_MIN <= code <= IANA_ASSIGNED_MAX {
        Method::IanaAssigned(code)
    } else {
        Method::Reserved(code)
    }
}

/// The octet of a method.
pub open spec fn method_code(m: Method) -> u8 {
    match m {
        Method::NoAuthenticationRequired => NO_AUTHENTICATION_REQUIRED,
        Method::Gssapi => GSSAPI,
        Method::UsernameAndPassword => USERNAME_AND_PASSWORD,
        Method::IanaAssigned(x) => x,
        Method::Reserved(x) => x,
        Method::NoAcceptableMethods => NO_ACCEPTABLE_METHODS,
    }
}

impl Method {
    /// The method that an octet names; every octet names one.
    pub fn from_u8(code: u8) -> (r: Option<Method>)
        ensures
            r == Some(method_of(code)),
    {
        if code == NO_AUTHENTICATION_REQUIRED {
            Some(Method::NoAuthenticationRequired)
        } else if code == GSSAPI {
            Some(Method::Gssapi)
        } else if code == USERNAME_AND_PASSWORD {
            Some(Method::UsernameAndPassword)
        } else if code == NO_ACCEPTABLE_METHODS {
            Some(Method::NoAcceptableMethods)
        } else if IANA_ASSIGNED_MIN <= code && code <= IANA_ASSIGNED_MAX {
            Some(Method::IanaAssigned(code))
        } else {
            Some(Method::Reserved(code))
        }
    }

    /// The octet of this method.
    pub fn as_u8(&self) -> (r: u8)
        ensures
            r == method_code(*self),
    {
        match self {
            Method::NoAuthenticationRequired => NO_AUTHENTICATION_REQUIRED,
            Method::Gssapi => GSSAPI,
            Method::UsernameAndPassword => USERNAME_AND_PASSWORD,
            Method::IanaAssigned(x) => *x,
            Method::Reserved(x) => *x,
            Method::NoAcceptableMethods => NO_ACCEPTABLE_METHODS,
        }
    }

    /// The octet of this method.
    pub fn id(&self) -> (r: u8)
        ensures
            r == method_code(*self),
    {
        self.as_u8()
    }
}

/// A request command.
#[derive(Debug, Clone, Copy, PartialEq, Eq, Structural)]
pub enum Command {
    Connect,
    Bind,
    Associate,
}

/// The command that a command octet names, if any.
pub open spec fn command_of(code: u8) -> Option<Command> {
    if code == CONNECT {
        Some(Command::Connect)
    } else if code == BIND {
        Some(Command::Bind)
    } else if code == UDP_ASSOCIATE {
        Some(Command::Associate)
    } else {
        None
    }
}

impl Command {
    /// The command that an octet names, if any.
    pub fn from_u8(code: u8) -> (r: Option<Command>)
        ensures
            r == command_of(code),
    {
        if code == CONNECT {
            Some(Command::Connect)
        } else if code == BIND {
            Some(Command::Bind)
        } else if code == UDP_ASSOCIATE {
            Some(Command::Associate)
        } else {
            None
        }
    }

    /// The octet of this command.
    pub fn as_u8(&self) -> (r: u8)
        ensures
            command_of(r) == Some(*self),
    {
        match self {
            Command::Connect => CONNECT,
            Command::Bind => BIND,
            Command::Associate => UDP_ASSOCIATE,
        }
    }
}

/// A reply code.
#[derive(Debug, Clone, Copy, PartialEq, Eq, Structural)]
pub enum Rep {
    Succeeded,
    GeneralSocksServerFailure,
    ConnectionNotAllowedByRuleset,
    NetworkUnreachable,
    HostUnreachable,
    ConnectionRefused,
    TtlExpired,
    CommandNotSupported,
    AddressTypeNotSupported,
}

/// The octet of a reply code.
pub open spec fn rep_code(r: Rep) -> u8 {
    match r {
        Rep::Succeeded => 0x00,
        Rep::GeneralSocksServerFailure => 0x01,
        Rep::ConnectionNotAllowedByRuleset => 0x02,
        Rep::NetworkUnreachable => 0x03,
        Rep::HostUnreachable => 0x04,
        Rep::ConnectionRefused => 0x05,
        Rep::TtlExpired => 0x06,
        Rep::CommandNotSupported => 0x07,
        Rep::AddressTypeNotSupported => 0x08,
    }
}

/// The reply code that an octet names: 0x00 to 0x08 are assigned.
pub open spec fn rep_of(code: u8) -> Option<Rep> {
    if code == 0 {
        Some(Rep::Succeeded)
    } else if code == 1 {
        Some(Rep::GeneralSocksServerFailure)
    } else if code == 2 {
        Some(Rep::ConnectionNotAllowedByRuleset)
    } else if code == 3 {
        Some(Rep::NetworkUnreachable)
    } else if code == 4 {
        Some(Rep::HostUnreachable)
    } else if code == 5 {
        Some(Rep::ConnectionRefused)
    } else if code == 6 {
        Some(Rep::TtlExpired)
    } else if code == 7 {
        Some(Rep::CommandNotSupported)
    } else if code == 8 {
        Some(Rep::AddressTypeNotSupported)
    } else {
        None
    }
}

/// The reply code that reports an error to a SOCKS5 client.
pub open spec fn rep_for(e: Error) -> Rep {
    match e {
        Error::ConnectionRefused | Error::Io(IoKind::ConnectionRefused) => Rep::ConnectionRefused,
        Error::NetworkUnreachable | Error::Io(IoKind::NetworkUnreachable) => Rep::NetworkUnreachable,
        Error::HostUnreachable | Error::Io(IoKind::HostUnreachable) => Rep::HostUnreachable,
        Error::CommandNotSupported => Rep::CommandNotSupported,
        Error::TtlExpired => Rep::TtlExpired,
        Error::InvalidDstAddress => Rep::AddressTypeNotSupported,
        _ => Rep::GeneralSocksServerFailure,
    }
}

/// The error that a failing reply code stands for.
pub open spec fn error_for(r: Rep) -> Error {
    match r {
        Rep::Succeeded => Error::UnknownError,
        Rep::GeneralSocksServerFailure => Error::GeneralSocksServerFailure,
        Rep::ConnectionNotAllowedByRuleset => Error::ConnectionNotAllowedByRuleset,
        Rep::NetworkUnreachable => Error::NetworkUnreachable,
        Rep::HostUnreachable => Error::HostUnreachable,
        Rep::ConnectionRefused => Error::ConnectionRefused,
        Rep::TtlExpired => Error::TtlExpired,
        Rep::CommandNotSupported => Error::CommandNotSupported,
        Rep::AddressTypeNotSupported => Error::AddressTypeNotSupported,
    }
}

impl Rep {
    /// The reply code that an octet names, if it is assigned.
    pub fn from_u8(code: u8) -> (r: Option<Rep>)
        ensures
            r == rep_of(code),
    {
        if code == 0 {
            Some(Rep::Succeeded)
        } else if code == 1 {
            Some(Rep::GeneralSocksServerFailure)
        } else if code == 2 {
            Some(Rep::ConnectionNotAllowedByRuleset)
        } else if code == 3 {
            Some(Rep::NetworkUnreachable)
        } else if code == 4 {
            Some(Rep::HostUnreachable)
        } else if code == 5 {
            Some(Rep::ConnectionRefused)
        } else if code == 6 {
            Some(Rep::TtlExpired)
        } else if code == 7 {
            Some(Rep::CommandNotSupported)
        } else if code == 8 {
            Some(Rep::AddressTypeNotSupported)
        } else {
            None
        }
    }

    /// The octet of this reply code.
    pub fn as_u8(&self) -> (r: u8)
        ensures
            r == rep_code(*self),
            rep_of(r) == Some(*self),
    {
        match self {
            Rep::Succeeded => 0x00,
            Rep::GeneralSocksServerFailure => 0x01,
            Rep::ConnectionNotAllowedByRuleset => 0x02,
            Rep::NetworkUnreachable => 0x03,
            Rep::HostUnreachable => 0x04,
            Rep::ConnectionRefused => 0x05,
            Rep::TtlExpired => 0x06,
            Rep::CommandNotSupported => 0x07,
            Rep::AddressTypeNotSupported => 0x08,
        }
    }

    /// The reply code that reports `e` to a SOCKS5 client: refused, unreachable
    /// network or host, unsupported command, expired TTL and an unusable address
    /// have codes of their own; anything else is a general failure.
    pub fn from_err(e: &Error) -> (r: Rep)
        ensures
            r == rep_for(*e),
    {
        match e {
            Error::ConnectionRefused | Error::Io(IoKind::ConnectionRefused) => Rep::ConnectionRefused,
            Error::NetworkUnreachable | Error::Io(IoKind::NetworkUnreachable) => Rep::NetworkUnreachable,
            Error::HostUnreachable | Error::Io(IoKind::HostUnreachable) => Rep::HostUnreachable,
            Error::CommandNotSupported => Rep::CommandNotSupported,
            Error::TtlExpired => Rep::TtlExpired,
            Error::InvalidDstAddress => Rep::AddressTypeNotSupported,
            _ => Rep::GeneralSocksServerFailure,
        }
    }

    /// The error that this failing reply code stands for.
    pub fn to_error(&self) -> (r: Error)
        ensures
            r == error_for(*self),
    {
        match self {
            Rep::Succeeded => Error::UnknownError,
            Rep::GeneralSocksServerFailure => Error::GeneralSocksServerFailure,
            Rep::ConnectionNotAllowedByRuleset => Error::ConnectionNotAllowedByRuleset,
            Rep::NetworkUnreachable => Error::NetworkUnreachable,
            Rep::HostUnreachable => Error::HostUnreachable,
            Rep::ConnectionRefused => Error::ConnectionRefused,
            Rep::TtlExpired => Error::TtlExpired,
            Rep::CommandNotSupported => Error::CommandNotSupported,
            Rep::AddressTypeNotSupported => Error::AddressTypeNotSupported,
        }
    }
}

/// An address type.
#[derive(Debug, Clone, Copy, PartialEq, Eq, Structural)]
pub enum DstAtyp {
    IPv4,
    DomainName,
    IPv6,
}

impl DstAtyp {
    /// The address type that an octet names, if any.
    pub fn from_u8(code: u8) -> (r: Option<DstAtyp>)
        ensures
            code == 1 ==> r == Some(DstAtyp::IPv4),
            code == 3 ==> r == Some(DstAtyp::DomainName),
            code == 4 ==> r == Some(DstAtyp::IPv6),
            code != 1 && code != 3 && code != 4 ==> r is None,
    {
        if code == 1 {
            Some(DstAtyp::IPv4)
        } else if code == 3 {
            Some(DstAtyp::DomainName)
        } else if code == 4 {
            Some(DstAtyp::IPv6)
        } else {
            None
        }
    }

    /// The octet of this address type.
    pub fn as_u8(&self) -> (r: u8)
        ensures
            *self == DstAtyp::IPv4 ==> r == 1,
            *self == DstAtyp::DomainName ==> r == 3,
            *self == DstAtyp::IPv6 ==> r == 4,
    {
        match self {
            DstAtyp::IPv4 => 1,
            DstAtyp::DomainName => 3,
            DstAtyp::IPv6 => 4,
        }
    }
}

/// The methods a client offers: `VER | NMETHODS | METHODS`.
#[derive(Debug, Clone)]
pub struct CandidateMethods {
    pub version: u8,
    pub methods: Vec<u8>,
}

/// What a read of a method request finds: version, method octets and length.
pub open spec fn parse_candidates(input: Seq<u8>) -> Result<(u8, Seq<u8>, nat), Error> {
    if input.len() == 0 {
        Err(eof())
    } else {
        match parse_fixed(input.drop_first()) {
            Err(e) => Err(e),
            Ok((m, n)) => Ok((input[0], m, n + 1)),
        }
    }
}

impl CandidateMethods {
    /// A SOCKS5 method request that offers nothing yet.
    pub fn empty() -> (r: CandidateMethods)
        ensures
            r.version == SOCKS_VERSION,
            r.methods@ == Seq::<u8>::empty(),
    {
        CandidateMethods { version: SOCKS_VERSION, methods: Vec::new() }
    }

    /// A SOCKS5 method request that offers `methods`, in order.
    pub fn new(methods: Vec<Method>) -> (r: CandidateMethods)
        ensures
            r.version == SOCKS_VERSION,
            r.methods@ == Seq::new(methods@.len(), |i: int| method_code(methods@[i])),
    {
        let mut codes: Vec<u8> = Vec::new();
        let mut i: usize = 0;
        while i < methods.len()
            invariant
                i <= methods@.len(),
                codes@ == Seq::new(i as nat, |k: int| method_code(methods@[k])),
            decreases methods@.len() - i,
        {
            codes.push(methods[i].as_u8());
            i = i + 1;
            assert(codes@ =~= Seq::new(i as nat, |k: int| method_code(methods@[k])));
        }
        CandidateMethods { version: SOCKS_VERSION, methods: codes }
    }

    /// Offers one more method.
    pub fn add(&mut self, method: Method)
        ensures
            final(self).version == old(self).version,
            final(self).methods@ == old(self).methods@.push(method_code(method)),
    {
        self.methods.push(method.as_u8());
    }

    /// Whether `method` is offered.
    pub fn has(&self, method: Method) -> (r: bool)
        ensures
            r == self.methods@.contains(method_code(method)),
    {
        let code = method.as_u8();
        let mut i: usize = 0;
        while i < self.methods.len()
            invariant
                i <= self.methods@.len(),
                code == method_code(method),
                forall|k: int| 0 <= k < i ==> self.methods@[k] != code,
            decreases self.methods@.len() - i,
        {
            if self.methods[i] == code {
                assert(self.methods@[i as int] == code);
                assert(self.methods@.contains(code));
                return true;
            }
            i = i + 1;
        }
        false
    }

    /// Checks the version octet.
    pub fn is_valid(&self) -> (r: Result<(), Error>)
        ensures
            r == if self.version == SOCKS_VERSION {
                Ok::<(), Error>(())
            } else {
                Err(Error::InvalidReplyVersion)
            },
    {
        if self.version == SOCKS_VERSION {
            Ok(())
        } else {
            Err(Error::InvalidReplyVersion)
        }
    }

    /// Reads a method request from the start of `input`.
    pub fn read(input: &[u8]) -> (r: Result<(CandidateMethods, usize), Error>)
        ensures
            match (r, parse_candidates(input@)) {
                (Ok((c, n)), Ok((v, m, k))) => c.version == v && c.methods@ == m && n == k,
                (Err(e), Err(f)) => e == f,
                _ => false,
            },
    {
        if input.len() == 0 {
            return Err(Error::Io(IoKind::UnexpectedEof));
        }
        let rest = vstd::slice::slice_subrange(input, 1, input.len());
        assert(rest@ == input@.drop_first());
        match read_fixed_bytes(rest) {
            Ok((methods, n)) => Ok((CandidateMethods { version: input[0], methods }, n + 1)),
            Err(e) => Err(e),
        }
    }

    /// Writes this method request. More than 255 methods cannot be announced: the
    /// write fails with `InvalidData`.
    pub fn write(&self, out: &mut Vec<u8>) -> (r: Result<(), Error>)
        ensures
            self.methods@.len() <= 255 ==> r is Ok && final(out)@ == old(out)@ + seq![self.version]
                + seq![self.methods@.len() as u8] + self.methods@,
            self.methods@.len() > 255 ==> r is Err && final(out)@ == old(out)@,
    {
        if self.methods.len() > 255 {
            return Err(Error::Io(IoKind::InvalidData));
        }
        out.push(self.version);
        out.push(self.methods.len() as u8);
        push_all(out, self.methods.as_slice());
        assert(final(out)@ =~= old(out)@ + seq![self.version] + seq![self.methods@.len() as u8]
            + self.methods@);
        Ok(())
    }
}

/// The method a server selects: `VER | METHOD`.
#[derive(Debug, Clone)]
pub struct Selection {
    pub version: u8,
    pub method: u8,
}

impl Selection {
    /// A SOCKS5 selection of `method`.
    pub fn new(method: Method) -> (r: Selection)
        ensures
            r.version == SOCKS_VERSION,
            r.method == method_code(method),
    {
        Selection { version: SOCKS_VERSION, method: method.as_u8() }
    }

    /// The selected method.
    pub fn method(&self) -> (r: Option<Method>)
        ensures
            r == Some(method_of(self.method)),
    {
        Method::from_u8(self.method)
    }

    /// Checks the version octet.
    pub fn is_valid(&self) -> (r: Result<(), Error>)
        ensures
            r == if self.version == SOCKS_VERSION {
                Ok::<(), Error>(())
            } else {
                Err(Error::InvalidReplyVersion)
            },
    {
        if self.version == SOCKS_VERSION {
            Ok(())
        } else {
            Err(Error::InvalidReplyVersion)
        }
    }

    /// Reads a selection: two octets.
    pub fn read(input: &[u8]) -> (r: Result<(Selection, usize), Error>)
        ensures
            input@.len() < 2 ==> r == Err::<(Selection, usize), Error>(eof()),
            input@.len() >= 2 ==> (r matches Ok((s, n)) && s.version == input@[0] && s.method
                == input@[1] && n == 2),
    {
        if input.len() < 2 {
            return Err(Error::Io(IoKind::UnexpectedEof));
        }
        Ok((Selection { version: input[0], method: input[1] }, 2))
    }

    /// Writes this selection.
    pub fn write(&self, out: &mut Vec<u8>)
        ensures
            final(out)@ == old(out)@ + seq![self.version, self.method],
    {
        out.push(self.version);
        out.push(self.method);
        assert(final(out)@ =~= old(out)@ + seq![self.version, self.method]);
    }
}

/// The status a server gives after the username/password subnegotiation:
/// `VER | STATUS`.
#[derive(Debug, Clone)]
pub struct Status {
    pub version: u8,
    pub status: u8,
}

impl Status {
    /// A status of the username/password subnegotiation.
    pub fn new(status: u8) -> (r: Status)
        ensures
            r.version == AUTH_VERSION,
            r.status == status,
    {
        Status { version: AUTH_VERSION, status }
    }

    /// The status octet.
    pub fn code(&self) -> (r: u8)
        ensures
            r == self.status,
    {
        self.status
    }

    /// Whether the authentication succeeded: only status 0x00 means success.
    pub fn is_succeed(&self) -> (r: bool)
        ensures
            r == (self.status == AUTH_SUCCEED),
    {
        self.status == AUTH_SUCCEED
    }

    /// Checks the version octet.
    pub fn is_valid(&self) -> (r: Result<(), Error>)
        ensures
            r == if self.version == AUTH_VERSION {
                Ok::<(), Error>(())
            } else {
                Err(Error::InvalidReplyVersion)
            },
    {
        if self.version == AUTH_VERSION {
            Ok(())
        } else {
            Err(Error::InvalidReplyVersion)
        }
    }

    /// Reads a status: two octets.
    pub fn read(input: &[u8]) -> (r: Result<(Status, usize), Error>)
        ensures
            input@.len() < 2 ==> r == Err::<(Status, usize), Error>(eof()),
            input@.len() >= 2 ==> (r matches Ok((s, n)) && s.version == input@[0] && s.status
                == input@[1] && n == 2),
    {
        if input.len() < 2 {
            return Err(Error::Io(IoKind::UnexpectedEof));
        }
        Ok((Status { version: input[0], status: input[1] }, 2))
    }

    /// Writes this status.
    pub fn write(&self, out: &mut Vec<u8>)
        ensures
            final(out)@ == old(out)@ + seq![self.version, self.status],
    {
        out.push(self.version);
        out.push(self.status);
        assert(final(out)@ =~= old(out)@ + seq![self.version, self.status]);
    }
}

/// A request: `VER | CMD | RSV | ATYP | DST.ADDR | DST.PORT`.
#[derive(Debug, Clone)]
pub struct Request {
    pub version: u8,
    pub command: u8,
    pub target: DstAddr,
}

/// What a read of a request or a reply finds: version, command or reply octet,
/// reserved octet, address and length.
pub open spec fn parse_request(input: Seq<u8>) -> Result<(u8, u8, u8, DstView, nat), Error> {
    if input.len() < 3 {
        Err(eof())
    } else {
        match parse_dst(input.subrange(3, input.len() as int)) {
            Err(e) => Err(e),
            Ok((d, n)) => Ok((input[0], input[1], input[2], d, n + 3)),
        }
    }
}

/// Reads the three octets and the address that requests and replies share.
fn read_request_parts(input: &[u8]) -> (r: Result<(u8, u8, u8, DstAddr, usize), Error>)
    ensures
        match (r, parse_request(input@)) {
            (Ok((a, b, c, d, n)), Ok((x, y, z, v, m))) => a == x && b == y && c == z && d@ == v && n
                == m,
            (Err(e), Err(f)) => e == f,
            _ => false,
        },
{
    if input.len() < 3 {
        return Err(Error::Io(IoKind::UnexpectedEof));
    }
    let rest = vstd::slice::slice_subrange(input, 3, input.len());
    match DstAddr::read_from(rest) {
        Ok((d, n)) => Ok((input[0], input[1], input[2], d, n + 3)),
        Err(e) => Err(e),
    }
}

impl Request {
    /// A SOCKS5 CONNECT request for `target`.
    pub fn new(target: DstAddr) -> (r: Request)
        ensures
            r.version == SOCKS_VERSION,
            r.command == CONNECT,
            r.target@ == target@,
    {
        Request { version: SOCKS_VERSION, command: CONNECT, target }
    }

    /// Whether this request asks to connect.
    pub fn is_connect(&self) -> (r: bool)
        ensures
            r == (self.command == CONNECT),
    {
        self.command == CONNECT
    }

    /// Checks the version octet.
    pub fn is_valid(&self) -> (r: Result<(), Error>)
        ensures
            r == if self.version == SOCKS_VERSION {
                Ok::<(), Error>(())
            } else {
                Err(Error::InvalidReplyVersion)
            },
    {
        if self.version == SOCKS_VERSION {
            Ok(())
        } else {
            Err(Error::InvalidReplyVersion)
        }
    }

    /// Reads a request from the start of `input`. The reserved octet must be zero.
    pub fn read(input: &[u8]) -> (r: Result<(Request, usize), Error>)
        ensures
            match (r, parse_request(input@)) {
                (Ok((q, n)), Ok((v, c, z, d, m))) => z == 0 && q.version == v && q.command == c
                    && q.target@ == d && n == m,
                (Err(e), Ok((v, c, z, d, m))) => z != 0 && e == Error::InvalidReservedByte,
                (Err(e), Err(f)) => e == f,
                _ => false,
            },
    {
        match read_request_parts(input) {
            Ok((version, command, rsv, target, n)) => {
                if rsv != 0 {
                    return Err(Error::InvalidReservedByte);
                }
                Ok((Request { version, command, target }, n))
            },
            Err(e) => Err(e),
        }
    }

    /// Writes this request.
    pub fn write(&self, out: &mut Vec<u8>) -> (r: Result<(), Error>)
        ensures
            r is Ok ==> final(out)@ == old(out)@ + seq![self.version, self.command, 0u8]
                + dst_encoding(self.target@),
            r is Err ==> final(out)@ == old(out)@,
            (self.target@ is Domain ==> 1 <= self.target@->Domain_0.len() <= 255) <==> r is Ok,
    {
        let mut body: Vec<u8> = Vec::new();
        body.push(self.version);
        body.push(self.command);
        body.push(0);
        match self.target.write_to(&mut body) {
            Ok(()) => {},
            Err(e) => return Err(e),
        }
        push_all(out, body.as_slice());
        assert(body@ =~= seq![self.version, self.command, 0u8] + dst_encoding(self.target@));
        Ok(())
    }
}

/// A reply: `VER | REP | RSV | ATYP | BND.ADDR | BND.PORT`.
#[derive(Debug, Clone)]
pub struct Reply {
    pub version: u8,
    pub rep: u8,
    pub target: DstAddr,
}

impl Reply {
    /// A SOCKS5 reply with code `rep` and the bound address `0.0.0.0:0`.
    pub fn new(rep: Rep) -> (r: Reply)
        ensures
            r.version == SOCKS_VERSION,
            r.rep == rep_code(rep),
            r.target@ == DstView::Ipv4(seq![0u8, 0u8, 0u8, 0u8], 0),
    {
        Reply { version: SOCKS_VERSION, rep: rep.as_u8(), target: DstAddr::unspecified() }
    }

    /// A SOCKS5 reply with code `rep` and the bound address `bound`.
    pub fn with_bound(rep: Rep, bound: DstAddr) -> (r: Reply)
        ensures
            r.version == SOCKS_VERSION,
            r.rep == rep_code(rep),
            r.target@ == bound@,
    {
        Reply { version: SOCKS_VERSION, rep: rep.as_u8(), target: bound }
    }

    /// The reply code, if it is assigned.
    pub fn rep(&self) -> (r: Option<Rep>)
        ensures
            r == rep_of(self.rep),
    {
        Rep::from_u8(self.rep)
    }

    /// Checks the version octet.
    pub fn is_valid(&self) -> (r: Result<(), Error>)
        ensures
            r == if self.version == SOCKS_VERSION {
                Ok::<(), Error>(())
            } else {
                Err(Error::InvalidReplyVersion)
            },
    {
        if self.version == SOCKS_VERSION {
            Ok(())
        } else {
            Err(Error::InvalidReplyVersion)
        }
    }

    /// Reads a reply from the start of `input`. The reserved octet must be zero.
    pub fn read(input: &[u8]) -> (r: Result<(Reply, usize), Error>)
        ensures
            match (r, parse_request(input@)) {
                (Ok((q, n)), Ok((v, c, z, d, m))) => z == 0 && q.version == v && q.rep == c
                    && q.target@ == d && n == m,
                (Err(e), Ok((v, c, z, d, m))) => z != 0 && e == Error::InvalidReservedByte,
                (Err(e), Err(f)) => e == f,
                _ => false,
            },
    {
        match read_request_parts(input) {
            Ok((version, rep, rsv, target, n)) => {
                if rsv != 0 {
                    return Err(Error::InvalidReservedByte);
                }
                Ok((Reply { version, rep, target }, n))
            },
            Err(e) => Err(e),
        }
    }

    /// Writes this reply.
    pub fn write(&self, out: &mut Vec<u8>) -> (r: Result<(), Error>)
        ensures
            r is Ok ==> final(out)@ == old(out)@ + seq![self.version, self.rep, 0u8] + dst_encoding(
                self.target@,
            ),
            r is Err ==> final(out)@ == old(out)@,
            (self.target@ is Domain ==> 1 <= self.target@->Domain_0.len() <= 255) <==> r is Ok,
    {
        let mut body: Vec<u8> = Vec::new();
        body.push(self.version);
        body.push(self.rep);
        body.push(0);
        match self.target.write_to(&mut body) {
            Ok(()) => {},
            Err(e) => return Err(e),
        }
        push_all(out, body.as_slice());
        assert(body@ =~= seq![self.version, self.rep, 0u8] + dst_encoding(self.target@));
        Ok(())
    }
}

/// The credentials a client sends: `VER | ULEN | USERNAME | PLEN | PASSWORD`.
#[derive(Debug, Clone)]
pub struct UsernameAndPassword {
    pub version: u8,
    pub username: String,
    pub password: String,
}

/// What a read of a username/password request finds: version, username,
/// password and length.
pub open spec fn parse_user_pass(input: Seq<u8>) -> Result<(u8, Seq<char>, Seq<char>, nat), Error> {
    if input.len() == 0 {
        Err(eof())
    } else {
        match parse_fixed_string(input.drop_first()) {
            Err(e) => Err(e),
            Ok((u, n1)) => match parse_fixed_string(input.subrange(1 + n1 as int, input.len() as int)) {
                Err(e) => Err(e),
                Ok((p, n2)) => Ok((input[0], u, p, 1 + n1 + n2)),
            },
        }
    }
}

/// What `parse_fixed_string` consumed lies within its input.
pub proof fn lemma_fixed_string_len(input: Seq<u8>)
    ensures
        parse_fixed_string(input) matches Ok((_, n)) ==> 1 <= n <= input.len(),
{
}

impl UsernameAndPassword {
    /// Credentials for the username/password subnegotiation.
    pub fn new(username: String, password: String) -> (r: UsernameAndPassword)
        ensures
            r.version == AUTH_VERSION,
            r.username@ == username@,
            r.password@ == password@,
    {
        UsernameAndPassword { version: AUTH_VERSION, username, password }
    }

    /// Checks the version octet.
    pub fn is_valid(&self) -> (r: Result<(), Error>)
        ensures
            r == if self.version == AUTH_VERSION {
                Ok::<(), Error>(())
            } else {
                Err(Error::InvalidReplyVersion)
            },
    {
        if self.version == AUTH_VERSION {
            Ok(())
        } else {
            Err(Error::InvalidReplyVersion)
        }
    }

    /// Reads credentials from the start of `input`; both fields must be UTF-8.
    pub fn read(input: &[u8]) -> (r: Result<(UsernameAndPassword, usize), Error>)
        ensures
            match (r, parse_user_pass(input@)) {
                (Ok((c, n)), Ok((v, u, p, m))) => c.version == v && c.username@ == u
                    && c.password@ == p && n == m,
                (Err(e), Err(f)) => e == f,
                _ => false,
            },
    {
        if input.len() == 0 {
            return Err(Error::Io(IoKind::UnexpectedEof));
        }
        let rest = vstd::slice::slice_subrange(input, 1, input.len());
        assert(rest@ == input@.drop_first());
        let mut username = String::new();
        let n1 = match read_to_fixed_string(&mut username, rest) {
            Ok(n) => n,
            Err(e) => return Err(e),
        };
        proof {
            lemma_fixed_string_len(rest@);
        }
        let tail = vstd::slice::slice_subrange(input, 1 + n1, input.len());
        let mut password = String::new();
        let n2 = match read_to_fixed_string(&mut password, tail) {
            Ok(n) => n,
            Err(e) => return Err(e),
        };
        proof {
            lemma_fixed_string_len(tail@);
        }
        Ok((UsernameAndPassword { version: input[0], username, password }, 1 + n1 + n2))
    }

    /// Writes these credentials. A field longer than 255 octets cannot be
    /// announced: the write fails with `InvalidData`.
    pub fn write(&self, out: &mut Vec<u8>) -> (r: Result<(), Error>)
        ensures
            r is Ok <==> (encode_utf8(self.username@).len() <= 255
                && encode_utf8(self.password@).len() <= 255),
            r is Ok ==> final(out)@ == old(out)@ + seq![self.version] + fixed_encoding(
                encode_utf8(self.username@),
            ) + fixed_encoding(encode_utf8(self.password@)),
            r is Err ==> final(out)@ == old(out)@ && r == Err::<(), Error>(Error::Io(IoKind::InvalidData)),
    {
        let u = self.username.as_str().as_bytes();
        let p = self.password.as_str().as_bytes();
        if u.len() > 255 || p.len() > 255 {
            return Err(Error::Io(IoKind::InvalidData));
        }
        let mut body: Vec<u8> = Vec::new();
        body.push(self.version);
        let _ = write_fixed(&mut body, u);
        let _ = write_fixed(&mut body, p);
        push_all(out, body.as_slice());
        assert(body@ =~= seq![self.version] + fixed_encoding(u@) + fixed_encoding(p@));
        Ok(())
    }
}

/// The SOCKS5 version octet.
#[derive(Debug, Clone, Copy)]
pub struct SocksVersion;

impl SocksVersion {
    /// Reads the octet and checks its value.
    pub fn read(input: &[u8]) -> (r: Result<(SocksVersion, usize), Error>)
        ensures
            input@.len() == 0 ==> r == Err::<(SocksVersion, usize), Error>(eof()),
            input@.len() > 0 && input@[0] == SOCKS_VERSION ==> (r matches Ok((_, n)) && n == 1),
            input@.len() > 0 && input@[0] != SOCKS_VERSION ==> r == Err::<(SocksVersion, usize), Error>(Error::InvalidReplyVersion),
    {
        if input.len() == 0 {
            return Err(Error::Io(IoKind::UnexpectedEof));
        }
        if input[0] == SOCKS_VERSION {
            Ok((SocksVersion, 1))
        } else {
            Err(Error::InvalidReplyVersion)
        }
    }

    /// Writes the octet.
    pub fn write(&self, out: &mut Vec<u8>)
        ensures
            final(out)@ == old(out)@.push(SOCKS_VERSION),
    {
        out.push(SOCKS_VERSION);
    }
}

/// The version octet of the username/password subnegotiation.
#[derive(Debug, Clone, Copy)]
pub struct PasswordVersion;

impl PasswordVersion {
    /// Reads the octet and checks its value.
    pub fn read(input: &[u8]) -> (r: Result<(PasswordVersion, usize), Error>)
        ensures
            input@.len() == 0 ==> r == Err::<(PasswordVersion, usize), Error>(eof()),
            input@.len() > 0 && input@[0] == AUTH_VERSION ==> (r matches Ok((_, n)) && n == 1),
            input@.len() > 0 && input@[0] != AUTH_VERSION ==> r == Err::<(PasswordVersion, usize), Error>(Error::InvalidReplyVersion),
    {
        if input.len() == 0 {
            return Err(Error::Io(IoKind::UnexpectedEof));
        }
        if input[0] == AUTH_VERSION {
            Ok((PasswordVersion, 1))
        } else {
            Err(Error::InvalidReplyVersion)
        }
    }

    /// Writes the octet.
    pub fn write(&self, out: &mut Vec<u8>)
        ensures
            final(out)@ == old(out)@.push(AUTH_VERSION),
    {
        out.push(AUTH_VERSION);
    }
}

/// The reserved octet, which must be zero.
#[derive(Debug, Clone, Copy)]
pub struct Rsv;

impl Rsv {
    /// Reads the octet and checks its value.
    pub fn read(input: &[u8]) -> (r: Result<(Rsv, usize), Error>)
        ensures
            input@.len() == 0 ==> r == Err::<(Rsv, usize), Error>(eof()),
            input@.len() > 0 && input@[0] == 0u8 ==> (r matches Ok((_, n)) && n == 1),
            input@.len() > 0 && input@[0] != 0u8 ==> r == Err::<(Rsv, usize), Error>(Error::InvalidReservedByte),
    {
        if input.len() == 0 {
            return Err(Error::Io(IoKind::UnexpectedEof));
        }
        if input[0] == 0u8 {
            Ok((Rsv, 1))
        } else {
            Err(Error::InvalidReservedByte)
        }
    }

    /// Writes the octet.
    pub fn write(&self, out: &mut Vec<u8>)
        ensures
            final(out)@ == old(out)@.push(0u8),
    {
        out.push(0u8);
    }
}

} // verus!
