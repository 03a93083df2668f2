//! The client side of SOCKS5, as used by the SOCKS5 dialer, as a transition
//! function: the caller sends what a step asks for and feeds back the bytes the
//! proxy answered.
use vstd::prelude::*;
use vstd::utf8::encode_utf8;

use crate::auth::{AuthView, Authentication};
use crate::codec::fixed_encoding;
use crate::dst::{dst_encoding, DstAddr, DstView};
use crate::error::{eof, Error, IoKind};
use crate::socks5::{
    error_for, parse_request, rep_of, CandidateMethods, Method, Reply,
    UsernameAndPassword, AUTH_VERSION, CONNECT, SOCKS_VERSION,
};

verus! {

/// What the client waits for.
#[derive(Debug, Clone, Copy, PartialEq, Eq, Structural)]
pub enum ClientPhase {
    /// The method the proxy selected.
    AwaitSelection,
    /// The status of the username/password subnegotiation.
    AwaitStatus,
    /// The reply to the connection request.
    AwaitReply,
}

/// What the client does next.
#[derive(Debug)]
pub enum ClientStep {
    /// The input does not yet hold a whole message: read more.
    NeedMore,
    /// Drop `consumed` input bytes, send `bytes`, and wait in phase `next`.
    Send { consumed: usize, bytes: Vec<u8>, next: ClientPhase },
    /// The tunnel is open; payload starts after `consumed` input bytes.
    Done { consumed: usize },
    /// The negotiation failed.
    Fail(Error),
}

/// The mathematical value of a client step.
pub enum ClientView {
    NeedMore,
    Send(nat, Seq<u8>, ClientPhase),
    Done(nat),
    Fail(Error),
}

impl View for ClientStep {
    type V = ClientView;

    open spec fn view(&self) -> ClientView {
        match self {
            ClientStep::NeedMore => ClientView::NeedMore,
            ClientStep::Send { consumed, bytes, next } => ClientView::Send(
                *consumed as nat,
                bytes@,
                *next,
            ),
            ClientStep::Done { consumed } => ClientView::Done(*consumed as nat),
            ClientStep::Fail(e) => ClientView::Fail(*e),
        }
    }
}

/// The method request: no authentication, and username/password too when there
/// are credentials.
pub open spec fn hello_bytes(auth: AuthView) -> Seq<u8> {
    match auth {
        AuthView::NoAuth => seq![SOCKS_VERSION, 1u8, 0x00u8],
        AuthView::Basic(_, _) => seq![SOCKS_VERSION, 2u8, 0x00u8, 0x02u8],
    }
}

/// Whether the target has a wire form.
pub open spec fn encodable(target: DstView) -> bool {
    target is Domain ==> 1 <= target->Domain_0.len() <= 255
}

/// The CONNECT request for a target, once negotiation allows it.
pub open spec fn connect_step(consumed: nat, target: DstView) -> ClientView {
    if encodable(target) {
        ClientView::Send(
            consumed,
            seq![SOCKS_VERSION, CONNECT, 0u8] + dst_encoding(target),
            ClientPhase::AwaitReply,
        )
    } else {
        ClientView::Fail(Error::Io(IoKind::InvalidData))
    }
}

/// One step of the client in `phase` on the bytes the proxy sent so far.
pub open spec fn client_step_spec(
    auth: AuthView,
    target: DstView,
    phase: ClientPhase,
    input: Seq<u8>,
) -> ClientView {
    match phase {
        ClientPhase::AwaitSelection => if input.len() < 2 {
            ClientView::NeedMore
        } else if input[0] != SOCKS_VERSION {
            ClientView::Fail(Error::InvalidReplyVersion)
        } else if input[1] == 0x00 {
            connect_step(2, target)
        } else if input[1] == 0x02 {
            match auth {
                AuthView::Basic(u, p) => if encode_utf8(u).len() <= 255 && encode_utf8(p).len()
                    <= 255 {
                    ClientView::Send(
                        2,
                        seq![AUTH_VERSION] + fixed_encoding(encode_utf8(u)) + fixed_encoding(
                            encode_utf8(p),
                        ),
                        ClientPhase::AwaitStatus,
                    )
                } else {
                    ClientView::Fail(Error::Io(IoKind::InvalidData))
                },
                AuthView::NoAuth => ClientView::Fail(Error::UnknownMethod),
            }
        } else if input[1] == 0xff {
            ClientView::Fail(Error::NoAcceptableMethods)
        } else {
            ClientView::Fail(Error::UnknownMethod)
        },
        ClientPhase::AwaitStatus => if input.len() < 2 {
            ClientView::NeedMore
        } else if input[0] != AUTH_VERSION {
            ClientView::Fail(Error::InvalidReplyVersion)
        } else if input[1] == 0x00 {
            connect_step(2, target)
        } else {
            ClientView::Fail(Error::PasswordAuthFailure(input[1]))
        },
        ClientPhase::AwaitReply => match parse_request(input) {
            Err(e) => if e == eof() {
                ClientView::NeedMore
            } else {
                ClientView::Fail(e)
            },
            Ok((v, rep, z, _, n)) => if v != SOCKS_VERSION {
                ClientView::Fail(Error::InvalidReplyVersion)
            } else if z != 0 {
                ClientView::Fail(Error::InvalidReservedByte)
            } else if rep == 0 {
                ClientView::Done(n)
            } else {
                match rep_of(rep) {
                    Some(r) => ClientView::Fail(error_for(r)),
                    None => ClientView::Fail(Error::UnknownError),
                }
            },
        },
    }
}

/// The method request a client opens with.
pub fn client_hello(auth: &Authentication) -> (r: Vec<u8>)
    ensures
        r@ == hello_bytes(auth@),
{
    let mut methods = CandidateMethods::new(vec![Method::NoAuthenticationRequired]);
    if auth.is_basic() {
        methods.add(Method::UsernameAndPassword);
    }
    let mut out: Vec<u8> = Vec::new();
    let _ = methods.write(&mut out);
    assert(out@ =~= hello_bytes(auth@));
    out
}

fn connect(consumed: usize, target: &DstAddr) -> (r: ClientStep)
    ensures
        r@ == connect_step(consumed as nat, target@),
{
    let mut bytes: Vec<u8> = Vec::new();
    bytes.push(SOCKS_VERSION);
    bytes.push(CONNECT);
    bytes.push(0);
    match target.write_to(&mut bytes) {
        Ok(()) => {
            assert(bytes@ =~= seq![SOCKS_VERSION, CONNECT, 0u8] + dst_encoding(target@));
            ClientStep::Send { consumed, bytes, next: ClientPhase::AwaitReply }
        },
        Err(e) => ClientStep::Fail(e),
    }
}

/// One step of a SOCKS5 client that negotiates a CONNECT to `target` with the
/// given credentials.
pub fn client_step(
    auth: &Authentication,
    target: &DstAddr,
    phase: ClientPhase,
    input: &[u8],
) -> (r: ClientStep)
    ensures
        r@ == client_step_spec(auth@, target@, phase, input@),
{
    match phase {
        ClientPhase::AwaitSelection => {
            if input.len() < 2 {
                return ClientStep::NeedMore;
            }
            if input[0] != SOCKS_VERSION {
                return ClientStep::Fail(Error::InvalidReplyVersion);
            }
            let m = input[1];
            if m == 0x00 {
                connect(2, target)
            } else if m == 0x02 {
                match auth {
                    Authentication::Basic(u, p) => {
                        let cred = UsernameAndPassword::new(u.clone(), p.clone());
                        let mut bytes: Vec<u8> = Vec::new();
                        match cred.write(&mut bytes) {
                            Ok(()) => ClientStep::Send {
                                consumed: 2,
                                bytes,
                                next: ClientPhase::AwaitStatus,
                            },
                            Err(e) => ClientStep::Fail(e),
                        }
                    },
                    Authentication::NoAuth => ClientStep::Fail(Error::UnknownMethod),
                }
            } else if m == 0xff {
                ClientStep::Fail(Error::NoAcceptableMethods)
            } else {
                ClientStep::Fail(Error::UnknownMethod)
            }
        },
        ClientPhase::AwaitStatus => {
            if input.len() < 2 {
                return ClientStep::NeedMore;
            }
            if input[0] != AUTH_VERSION {
                return ClientStep::Fail(Error::InvalidReplyVersion);
            }
            if input[1] == 0x00 {
                connect(2, target)
            } else {
                ClientStep::Fail(Error::PasswordAuthFailure(input[1]))
            }
        },
        ClientPhase::AwaitReply => {
            match Reply::read(input) {
                Err(e) => {
                    if e == Error::Io(IoKind::UnexpectedEof) {
                        ClientStep::NeedMore
                    } else if e == Error::InvalidReservedByte && input[0] != SOCKS_VERSION {
                        ClientStep::Fail(Error::InvalidReplyVersion)
                    } else {
                        ClientStep::Fail(e)
                    }
                },
                Ok((reply, n)) => {
                    if reply.version != SOCKS_VERSION {
                        ClientStep::Fail(Error::InvalidReplyVersion)
                    } else if reply.rep == 0 {
                        ClientStep::Done { consumed: n }
                    } else {
                        match reply.rep() {
                            Some(r) => ClientStep::Fail(r.to_error()),
                            None => ClientStep::Fail(Error::UnknownError),
                        }
                    }
                },
            }
        },
    }
}

/// How the SOCKS5 dialer reports any failure once the proxy was reached: the
/// proxy is treated as unreachable.
pub fn negotiation_failure(e: Error) -> (r: Error)
    ensures
        r == Error::ProxyServerUnreachable,
{
    Error::ProxyServerUnreachable
}

} // verus!
