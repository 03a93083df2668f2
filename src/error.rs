//! The errors of the proxy pipeline and of the rule parser.
use vstd::prelude::*;

verus! {

/// The kind of a transport failure, as the socket layer reports it.
#[derive(Debug, Clone, Copy, PartialEq, Eq, Structural)]
pub enum IoKind {
    /// The input ended before the message did.
    UnexpectedEof,
    /// The bytes on the wire do not form a valid value.
    InvalidData,
    ConnectionRefused,
    NetworkUnreachable,
    HostUnreachable,
    /// The peer has already closed the connection.
    NotConnected,
    PermissionDenied,
    WriteZero,
    Other,
}

/// Every failure of the proxy pipeline.
#[derive(Debug, Clone, Copy, PartialEq, Eq, Structural)]
pub enum Error {
    /// A transport failure.
    Io(IoKind),
    /// The destination cannot be used (for instance it did not resolve).
    InvalidDstAddress,
    ProxyServerUnreachable,
    InvalidReplyVersion,
    NoAcceptableMethods,
    UnknownMethod,
    GeneralSocksServerFailure,
    ConnectionNotAllowedByRuleset,
    NetworkUnreachable,
    HostUnreachable,
    ConnectionRefused,
    TtlExpired,
    CommandNotSupported,
    AddressTypeNotSupported,
    UnknownError,
    InvalidReservedByte,
    UnknownAddressType,
    InvalidAuthValues,
    PasswordAuthFailure(u8),
    AuthorizationRequired,
    ProxyDenied,
}

/// Why a textual rule was refused.
#[derive(Debug, Clone, Copy, PartialEq, Eq, Structural)]
pub enum ParseError {
    /// Fewer than three comma-separated fields.
    InvalidRule,
    InvalidDecision,
    InvalidRegex,
    InvalidAddr,
    InvalidSubnet,
    UnknownRule,
}

/// The error that stands for "the input ended too early".
pub open spec fn eof() -> Error {
    Error::Io(IoKind::UnexpectedEof)
}

/// The error that stands for "the bytes are not a valid value".
pub open spec fn invalid_data() -> Error {
    Error::Io(IoKind::InvalidData)
}

} // verus!
