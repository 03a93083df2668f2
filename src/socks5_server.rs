//! The server side of SOCKS5 as a transition function: the caller feeds the bytes
//! received so far in the current phase and performs what the step asks for.
use vstd::prelude::*;

use crate::auth::{accepts, AuthView, Authentication};
use crate::dst::{dst_encoding, DstAddr, DstView};
use crate::error::{eof, Error, IoKind};
use crate::socks5::{
    parse_candidates, parse_request, parse_user_pass, rep_code, rep_for, CandidateMethods, Method,
    Rep, Reply, Request, Selection, Status, UsernameAndPassword, AUTH_VERSION, CONNECT,
    SOCKS_VERSION,
};

verus! {

/// Where a server connection stands in the negotiation.
#[derive(Debug, Clone, Copy, PartialEq, Eq, Structural)]
pub enum ServerPhase {
    /// Waiting for the method request.
    Greeting,
    /// Waiting for the username and password.
    Authentication,
    /// Waiting for the connection request.
    Request,
}

/// What the server does next.
#[derive(Debug)]
pub enum ServerStep {
    /// The input does not yet hold a whole message: read more.
    NeedMore,
    /// Send `reply`, drop `consumed` input bytes, and go on in phase `next`.
    Continue { consumed: usize, reply: Vec<u8>, next: ServerPhase },
    /// Send `reply` (which may be empty), then close the connection with `error`.
    Close { reply: Vec<u8>, error: Error },
    /// The request is complete: drop `consumed` input bytes and dial `target`.
    Dial { consumed: usize, target: DstAddr },
}

/// The mathematical value of a step.
pub enum StepView {
    NeedMore,
    Continue(nat, Seq<u8>, ServerPhase),
    Close(Seq<u8>, Error),
    Dial(nat, DstView),
}

impl View for ServerStep {
    type V = StepView;

    open spec fn view(&self) -> StepView {
        match self {
            ServerStep::NeedMore => StepView::NeedMore,
            ServerStep::Continue { consumed, reply, next } => StepView::Continue(
                *consumed as nat,
                reply@,
                *next,
            ),
            ServerStep::Close { reply, error } => StepView::Close(reply@, *error),
            ServerStep::Dial { consumed, target } => StepView::Dial(*consumed as nat, target@),
        }
    }
}

/// The bound address sent when there is none to report: `0.0.0.0:0`.
pub open spec fn unspecified() -> DstView {
    DstView::Ipv4(seq![0u8, 0u8, 0u8, 0u8], 0)
}

/// The wire form of a reply with code `rep` and bound address `bound`.
pub open spec fn reply_bytes(rep: Rep, bound: DstView) -> Seq<u8> {
    seq![SOCKS_VERSION, rep_code(rep), 0u8] + dst_encoding(bound)
}

/// The greeting: the server accepts when the client offers the method it is
/// configured with (no authentication, or username and password).
pub open spec fn greeting_step(auth: AuthView, input: Seq<u8>) -> StepView {
    if input.len() == 0 {
        StepView::NeedMore
    } else if input[0] != SOCKS_VERSION {
        StepView::Close(seq![], Error::InvalidReplyVersion)
    } else {
        match parse_candidates(input) {
            Err(e) => if e == eof() {
                StepView::NeedMore
            } else {
                StepView::Close(seq![], e)
            },
            Ok((_, m, n)) => match auth {
                AuthView::NoAuth => if m.contains(0x00) {
                    StepView::Continue(n, seq![SOCKS_VERSION, 0x00], ServerPhase::Request)
                } else {
                    StepView::Close(seq![SOCKS_VERSION, 0xff], Error::NoAcceptableMethods)
                },
                AuthView::Basic(_, _) => if m.contains(0x02) {
                    StepView::Continue(n, seq![SOCKS_VERSION, 0x02], ServerPhase::Authentication)
                } else {
                    StepView::Close(seq![SOCKS_VERSION, 0xff], Error::NoAcceptableMethods)
                },
            },
        }
    }
}

/// The username/password subnegotiation: status 0x00 on the configured pair,
/// else status 0x01 and the connection closes.
pub open spec fn auth_step(auth: AuthView, input: Seq<u8>) -> StepView {
    if input.len() == 0 {
        StepView::NeedMore
    } else if input[0] != AUTH_VERSION {
        StepView::Close(seq![], Error::InvalidReplyVersion)
    } else {
        match parse_user_pass(input) {
            Err(e) => if e == eof() {
                StepView::NeedMore
            } else {
                StepView::Close(seq![], e)
            },
            Ok((_, u, p, n)) => if accepts(auth, u, p) {
                StepView::Continue(n, seq![AUTH_VERSION, 0x00], ServerPhase::Request)
            } else {
                StepView::Close(seq![AUTH_VERSION, 0x01], Error::PasswordAuthFailure(0x01))
            },
        }
    }
}

/// The request: CONNECT is served by dialing; other commands and unknown address
/// types get their reply code and the connection closes.
pub open spec fn request_step(input: Seq<u8>) -> StepView {
    if input.len() == 0 {
        StepView::NeedMore
    } else if input[0] != SOCKS_VERSION {
        StepView::Close(seq![], Error::InvalidReplyVersion)
    } else {
        match parse_request(input) {
            Err(e) => if e == eof() {
                StepView::NeedMore
            } else if e == Error::AddressTypeNotSupported {
                StepView::Close(reply_bytes(Rep::AddressTypeNotSupported, unspecified()), e)
            } else {
                StepView::Close(seq![], e)
            },
            Ok((_, c, z, d, n)) => if z != 0 {
                StepView::Close(seq![], Error::InvalidReservedByte)
            } else if c == CONNECT {
                StepView::Dial(n, d)
            } else {
                StepView::Close(
                    reply_bytes(Rep::CommandNotSupported, unspecified()),
                    Error::CommandNotSupported,
                )
            },
        }
    }
}

/// One step of the server in `phase` on the bytes received so far.
pub open spec fn server_step_spec(auth: AuthView, phase: ServerPhase, input: Seq<u8>) -> StepView {
    match phase {
        ServerPhase::Greeting => greeting_step(auth, input),
        ServerPhase::Authentication => auth_step(auth, input),
        ServerPhase::Request => request_step(input),
    }
}

/// The wire form of a reply with the unspecified bound address.
fn reply_without_bound(rep: Rep) -> (r: Vec<u8>)
    ensures
        r@ == reply_bytes(rep, unspecified()),
{
    let mut out: Vec<u8> = Vec::new();
    let _ = Reply::new(rep).write(&mut out);
    out
}

/// A two-octet message.
fn pair(a: u8, b: u8) -> (r: Vec<u8>)
    ensures
        r@ == seq![a, b],
{
    let mut out: Vec<u8> = Vec::new();
    out.push(a);
    out.push(b);
    assert(out@ =~= seq![a, b]);
    out
}

fn greeting(auth: &Authentication, input: &[u8]) -> (r: ServerStep)
    ensures
        r@ == greeting_step(auth@, input@),
{
    if input.len() == 0 {
        return ServerStep::NeedMore;
    }
    if input[0] != SOCKS_VERSION {
        return ServerStep::Close { reply: Vec::new(), error: Error::InvalidReplyVersion };
    }
    let (methods, n) = match CandidateMethods::read(input) {
        Ok(x) => x,
        Err(e) => {
            if e == Error::Io(IoKind::UnexpectedEof) {
                return ServerStep::NeedMore;
            }
            return ServerStep::Close { reply: Vec::new(), error: e };
        },
    };
    let wanted = if auth.is_basic() {
        Method::UsernameAndPassword
    } else {
        Method::NoAuthenticationRequired
    };
    if !methods.has(wanted) {
        let mut reply: Vec<u8> = Vec::new();
        Selection::new(Method::NoAcceptableMethods).write(&mut reply);
        return ServerStep::Close { reply, error: Error::NoAcceptableMethods };
    }
    let mut reply: Vec<u8> = Vec::new();
    Selection::new(wanted).write(&mut reply);
    let next = if auth.is_basic() {
        ServerPhase::Authentication
    } else {
        ServerPhase::Request
    };
    ServerStep::Continue { consumed: n, reply, next }
}

fn authentication(auth: &Authentication, input: &[u8]) -> (r: ServerStep)
    ensures
        r@ == auth_step(auth@, input@),
{
    if input.len() == 0 {
        return ServerStep::NeedMore;
    }
    if input[0] != AUTH_VERSION {
        return ServerStep::Close { reply: Vec::new(), error: Error::InvalidReplyVersion };
    }
    let (cred, n) = match UsernameAndPassword::read(input) {
        Ok(x) => x,
        Err(e) => {
            if e == Error::Io(IoKind::UnexpectedEof) {
                return ServerStep::NeedMore;
            }
            return ServerStep::Close { reply: Vec::new(), error: e };
        },
    };
    if auth.check(&cred.username, &cred.password) {
        let mut reply: Vec<u8> = Vec::new();
        Status::new(0x00).write(&mut reply);
        ServerStep::Continue { consumed: n, reply, next: ServerPhase::Request }
    } else {
        let mut reply: Vec<u8> = Vec::new();
        Status::new(0x01).write(&mut reply);
        ServerStep::Close { reply, error: Error::PasswordAuthFailure(0x01) }
    }
}

fn request(input: &[u8]) -> (r: ServerStep)
    ensures
        r@ == request_step(input@),
{
    if input.len() == 0 {
        return ServerStep::NeedMore;
    }
    if input[0] != SOCKS_VERSION {
        return ServerStep::Close { reply: Vec::new(), error: Error::InvalidReplyVersion };
    }
    match Request::read(input) {
        Err(e) => {
            if e == Error::Io(IoKind::UnexpectedEof) {
                ServerStep::NeedMore
            } else if e == Error::AddressTypeNotSupported {
                ServerStep::Close { reply: reply_without_bound(Rep::AddressTypeNotSupported), error: e }
            } else {
                ServerStep::Close { reply: Vec::new(), error: e }
            }
        },
        Ok((req, n)) => {
            if req.is_connect() {
                ServerStep::Dial { consumed: n, target: req.target }
            } else {
                ServerStep::Close {
                    reply: reply_without_bound(Rep::CommandNotSupported),
                    error: Error::CommandNotSupported,
                }
            }
        },
    }
}

/// One step of a SOCKS5 server connection: given the configured authentication,
/// the phase and the bytes received since the phase began, says what to send and
/// where to go, when to close and with which error, or what to dial.
pub fn server_step(auth: &Authentication, phase: ServerPhase, input: &[u8]) -> (r: ServerStep)
    ensures
        r@ == server_step_spec(auth@, phase, input@),
{
    match phase {
        ServerPhase::Greeting => greeting(auth, input),
        ServerPhase::Authentication => authentication(auth, input),
        ServerPhase::Request => request(input),
    }
}

/// The reply to a dial: success with the egress stream's local address, or the
/// reply code of the failure with the unspecified bound address.
pub open spec fn dial_reply_spec(outcome: Result<DstView, Error>) -> Seq<u8> {
    match outcome {
        Ok(local) => if local is Domain && !(1 <= local->Domain_0.len() <= 255) {
            reply_bytes(Rep::Succeeded, unspecified())
        } else {
            reply_bytes(Rep::Succeeded, local)
        },
        Err(e) => reply_bytes(rep_for(e), unspecified()),
    }
}

/// The reply a server sends once the dial is over. A bound address that has no
/// wire form is reported as `0.0.0.0:0`.
pub fn dial_reply(outcome: &Result<DstAddr, Error>) -> (r: Vec<u8>)
    ensures
        r@ == dial_reply_spec(match outcome {
            Ok(d) => Ok(d@),
            Err(e) => Err(*e),
        }),
{
    match outcome {
        Ok(local) => {
            let mut out: Vec<u8> = Vec::new();
            out.push(SOCKS_VERSION);
            out.push(Rep::Succeeded.as_u8());
            out.push(0);
            match local.write_to(&mut out) {
                Ok(()) => {
                    assert(out@ =~= reply_bytes(Rep::Succeeded, local@));
                    out
                },
                Err(_) => reply_without_bound(Rep::Succeeded),
            }
        },
        Err(e) => reply_without_bound(Rep::from_err(e)),
    }
}

/// A method request that offers no method at all is refused whatever the server
/// is configured with: the server answers "no acceptable methods" and closes.
pub proof fn lemma_no_methods_refused(auth: AuthView, rest: Seq<u8>)
    ensures
        greeting_step(auth, seq![SOCKS_VERSION, 0u8] + rest) == StepView::Close(
            seq![SOCKS_VERSION, 0xffu8],
            Error::NoAcceptableMethods,
        ),
{
    let input = seq![SOCKS_VERSION, 0u8] + rest;
    assert(input.drop_first()[0] == 0);
    assert(input.drop_first().subrange(1, 1) =~= Seq::<u8>::empty());
    let m = Seq::<u8>::empty();
    assert(!m.contains(0x00));
    assert(!m.contains(0x02));
}

} // verus!
