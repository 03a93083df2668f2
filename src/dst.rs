//! Destinations: an IP socket address or a domain name with a port, and their
//! SOCKS5 wire form (ATYP, ADDR, PORT).
use vstd::prelude::*;
use vstd::utf8::valid_utf8;

use crate::codec::{copy_range, push_all, utf8_string};
use crate::error::{eof, invalid_data, Error, IoKind};
use crate::ip::{ip_text, parse_ip, parse_ip_text, IpAddr, IpView};
use crate::text::{bytes_eq, decimal, write_decimal};

verus! {

/// Address type octet of an IPv4 address.
pub const DST_IPV4: u8 = 0x01;

/// Address type octet of a domain name.
pub const DST_DOMAIN: u8 = 0x03;

/// Address type octet of an IPv6 address.
pub const DST_IPV6: u8 = 0x04;

/// A destination the client wants to reach.
#[derive(Debug, Clone)]
pub enum DstAddr {
    /// An IPv4 socket address.
    Ipv4([u8; 4], u16),
    /// An IPv6 socket address.
    Ipv6([u8; 16], u16),
    /// A domain name, resolved later, with a port.
    Domain(Vec<u8>, u16),
}

/// The mathematical value of a destination.
pub enum DstView {
    Ipv4(Seq<u8>, u16),
    Ipv6(Seq<u8>, u16),
    Domain(Seq<u8>, u16),
}

impl View for DstAddr {
    type V = DstView;

    open spec fn view(&self) -> DstView {
        match self {
            DstAddr::Ipv4(a, p) => DstView::Ipv4(a@, *p),
            DstAddr::Ipv6(a, p) => DstView::Ipv6(a@, *p),
            DstAddr::Domain(d, p) => DstView::Domain(d@, *p),
        }
    }
}

/// A domain name that the wire form can carry: 1 to 255 octets of UTF-8.
pub open spec fn valid_domain(d: Seq<u8>) -> bool {
    1 <= d.len() <= 255 && valid_utf8(d)
}

/// A destination whose wire form is well defined.
pub open spec fn valid_dst(d: DstView) -> bool {
    match d {
        DstView::Ipv4(a, _) => a.len() == 4,
        DstView::Ipv6(a, _) => a.len() == 16,
        DstView::Domain(n, _) => valid_domain(n),
    }
}

/// A port in network byte order.
pub open spec fn be16_bytes(p: u16) -> Seq<u8> {
    seq![(p / 256) as u8, (p % 256) as u8]
}

/// The port that two octets in network byte order stand for.
pub open spec fn be16(hi: u8, lo: u8) -> u16 {
    (hi as nat * 256 + lo as nat) as u16
}

/// The SOCKS5 address triple of a destination.
pub open spec fn dst_encoding(d: DstView) -> Seq<u8> {
    match d {
        DstView::Ipv4(a, p) => seq![DST_IPV4] + a + be16_bytes(p),
        DstView::Ipv6(a, p) => seq![DST_IPV6] + a + be16_bytes(p),
        DstView::Domain(n, p) => seq![DST_DOMAIN] + seq![n.len() as u8] + n + be16_bytes(p),
    }
}

/// What a read of an address triple finds at the start of `input`: the destination
/// and the number of bytes it took, or the error.
pub open spec fn parse_dst(input: Seq<u8>) -> Result<(DstView, nat), Error> {
    if input.len() == 0 {
        Err(eof())
    } else if input[0] == DST_IPV4 {
        if input.len() < 7 {
            Err(eof())
        } else {
            Ok((DstView::Ipv4(input.subrange(1, 5), be16(input[5], input[6])), 7))
        }
    } else if input[0] == DST_IPV6 {
        if input.len() < 19 {
            Err(eof())
        } else {
            Ok((DstView::Ipv6(input.subrange(1, 17), be16(input[17], input[18])), 19))
        }
    } else if input[0] == DST_DOMAIN {
        if input.len() < 2 {
            Err(eof())
        } else if input[1] == 0 {
            Err(invalid_data())
        } else if input.len() < 4 + input[1] as nat {
            Err(eof())
        } else {
            let n = input[1] as int;
            let name = input.subrange(2, 2 + n);
            if valid_utf8(name) {
                Ok(
                    (
                        DstView::Domain(name, be16(input[2 + n], input[3 + n])),
                        (4 + n) as nat,
                    ),
                )
            } else {
                Err(invalid_data())
            }
        }
    } else {
        Err(Error::AddressTypeNotSupported)
    }
}

/// Reads two octets in network byte order.
pub fn read_be16(input: &[u8], at: usize) -> (r: u16)
    requires
        at + 2 <= input@.len(),
    ensures
        r == be16(input@[at as int], input@[at + 1]),
{
    (input[at] as u16) * 256 + (input[at + 1] as u16)
}

/// Writes a port in network byte order.
pub fn write_be16(out: &mut Vec<u8>, p: u16)
    ensures
        final(out)@ == old(out)@ + be16_bytes(p),
{
    out.push((p / 256) as u8);
    out.push((p % 256) as u8);
    assert(old(out)@.push((p / 256) as u8).push((p % 256) as u8) == old(out)@ + be16_bytes(p));
}

impl DstAddr {
    /// Whether this destination is a domain name.
    pub fn is_domain(&self) -> (r: bool)
        ensures
            r == (self@ is Domain),
    {
        match self {
            DstAddr::Domain(..) => true,
            _ => false,
        }
    }

    /// The port of this destination.
    pub fn port(&self) -> (r: u16)
        ensures
            r == match self@ {
                DstView::Ipv4(_, p) => p,
                DstView::Ipv6(_, p) => p,
                DstView::Domain(_, p) => p,
            },
    {
        match self {
            DstAddr::Ipv4(_, p) => *p,
            DstAddr::Ipv6(_, p) => *p,
            DstAddr::Domain(_, p) => *p,
        }
    }

    /// The unspecified address `0.0.0.0:0`.
    pub fn unspecified() -> (r: DstAddr)
        ensures
            r@ == DstView::Ipv4(seq![0u8, 0u8, 0u8, 0u8], 0),
    {
        let r = DstAddr::Ipv4([0u8, 0u8, 0u8, 0u8], 0);
        assert(r@ == DstView::Ipv4(seq![0u8, 0u8, 0u8, 0u8], 0)) by {
            if let DstView::Ipv4(a, _) = r@ {
                assert(a =~= seq![0u8, 0u8, 0u8, 0u8]);
            }
        }
        r
    }

    /// Writes the SOCKS5 address triple of this destination. A domain name that is
    /// empty or longer than 255 octets has no wire form: it is refused with
    /// `InvalidData` and nothing is written.
    pub fn write_to(&self, out: &mut Vec<u8>) -> (r: Result<(), Error>)
        ensures
            (self@ is Domain ==> 1 <= self@->Domain_0.len() <= 255) ==> r is Ok && final(out)@
                == old(out)@ + dst_encoding(self@),
            !(self@ is Domain ==> 1 <= self@->Domain_0.len() <= 255) ==> r == Err::<(), Error>(
                invalid_data(),
            ) && final(out)@ == old(out)@,
    {
        match self {
            DstAddr::Ipv4(a, p) => {
                out.push(DST_IPV4);
                push_all(out, a.as_slice());
                write_be16(out, *p);
                assert(final(out)@ =~= old(out)@ + dst_encoding(self@));
            },
            DstAddr::Ipv6(a, p) => {
                out.push(DST_IPV6);
                push_all(out, a.as_slice());
                write_be16(out, *p);
                assert(final(out)@ =~= old(out)@ + dst_encoding(self@));
            },
            DstAddr::Domain(n, p) => {
                if n.len() == 0 || n.len() > 255 {
                    return Err(Error::Io(IoKind::InvalidData));
                }
                out.push(DST_DOMAIN);
                out.push(n.len() as u8);
                push_all(out, n.as_slice());
                write_be16(out, *p);
                assert(final(out)@ =~= old(out)@ + dst_encoding(self@));
            },
        }
        Ok(())
    }

    /// Reads a SOCKS5 address triple from the start of `input`, and returns the
    /// destination with the number of bytes it took.
    pub fn read_from(input: &[u8]) -> (r: Result<(DstAddr, usize), Error>)
        ensures
            match (r, parse_dst(input@)) {
                (Ok((d, n)), Ok((v, m))) => d@ == v && n == m,
                (Err(e), Err(f)) => e == f,
                _ => false,
            },
    {
        if input.len() == 0 {
            return Err(Error::Io(IoKind::UnexpectedEof));
        }
        let atyp = input[0];
        if atyp == DST_IPV4 {
            if input.len() < 7 {
                return Err(Error::Io(IoKind::UnexpectedEof));
            }
            let a = [input[1], input[2], input[3], input[4]];
            assert(a@ =~= input@.subrange(1, 5));
            Ok((DstAddr::Ipv4(a, read_be16(input, 5)), 7))
        } else if atyp == DST_IPV6 {
            if input.len() < 19 {
                return Err(Error::Io(IoKind::UnexpectedEof));
            }
            let a = [
                input[1],
                input[2],
                input[3],
                input[4],
                input[5],
                input[6],
                input[7],
                input[8],
                input[9],
                input[10],
                input[11],
                input[12],
                input[13],
                input[14],
                input[15],
                input[16],
            ];
            assert(a@ =~= input@.subrange(1, 17));
            Ok((DstAddr::Ipv6(a, read_be16(input, 17)), 19))
        } else if atyp == DST_DOMAIN {
            if input.len() < 2 {
                return Err(Error::Io(IoKind::UnexpectedEof));
            }
            let n = input[1] as usize;
            if n == 0 {
                return Err(Error::Io(IoKind::InvalidData));
            }
            if input.len() < 4 + n {
                return Err(Error::Io(IoKind::UnexpectedEof));
            }
            let name = copy_range(input, 2, 2 + n);
            match utf8_string(name.as_slice()) {
                Some(_) => {},
                None => {
                    return Err(Error::Io(IoKind::InvalidData));
                },
            }
            let port = read_be16(input, 2 + n);
            Ok((DstAddr::Domain(name, port), 4 + n))
        } else {
            Err(Error::AddressTypeNotSupported)
        }
    }
}

/// Reading back the SOCKS5 address triple of a valid destination yields that
/// destination, byte for byte, and consumes exactly the triple, whatever follows.
pub proof fn lemma_dst_round_trip(d: DstView, rest: Seq<u8>)
    requires
        valid_dst(d),
    ensures
        parse_dst(dst_encoding(d) + rest) == Ok::<(DstView, nat), Error>(
            (d, dst_encoding(d).len()),
        ),
{
    let w = dst_encoding(d) + rest;
    match d {
        DstView::Ipv4(a, p) => {
            assert(w.subrange(1, 5) =~= a);
            assert(be16(w[5], w[6]) == p);
        },
        DstView::Ipv6(a, p) => {
            assert(w.subrange(1, 17) =~= a);
            assert(be16(w[17], w[18]) == p);
        },
        DstView::Domain(n, p) => {
            let k = n.len() as int;
            assert(w[1] as int == k);
            assert(w.subrange(2, 2 + k) =~= n);
            assert(w[2 + k] == (p / 256) as u8);
            assert(w[3 + k] == (p % 256) as u8);
            assert(be16(w[2 + k], w[3 + k]) == p);
        },
    }
}

/// The destination a configured host names: a socket address when the host is
/// an IP address, else a domain name.
pub open spec fn host_dst(host: Seq<u8>, port: u16) -> DstView {
    match parse_ip_text(host) {
        Some(IpView::V4(a)) => DstView::Ipv4(a, port),
        Some(IpView::V6(a)) => DstView::Ipv6(a, port),
        None => DstView::Domain(host, port),
    }
}

impl DstAddr {
    /// The destination for a host and a port: an IP address if the host spells
    /// one, else a domain name.
    pub fn from_host(host: &[u8], port: u16) -> (r: DstAddr)
        ensures
            r@ == host_dst(host@, port),
    {
        match parse_ip(host) {
            Some(IpAddr::V4(a)) => DstAddr::Ipv4(a, port),
            Some(IpAddr::V6(a)) => DstAddr::Ipv6(a, port),
            None => {
                let name = copy_range(host, 0, host.len());
                assert(host@.subrange(0, host@.len() as int) == host@);
                DstAddr::Domain(name, port)
            },
        }
    }
}

/// An empty domain name is refused with `InvalidData`, whatever follows it.
pub proof fn lemma_empty_domain_refused(rest: Seq<u8>)
    ensures
        parse_dst(seq![DST_DOMAIN, 0u8] + rest) == Err::<(DstView, nat), Error>(invalid_data()),
{
    let w = seq![DST_DOMAIN, 0u8] + rest;
    assert(w[0] == DST_DOMAIN && w[1] == 0);
}

/// The display form of a destination: `ip:port`, `[ipv6]:port` or `domain:port`.
pub open spec fn dst_text(d: DstView) -> Seq<u8> {
    match d {
        DstView::Ipv4(a, p) => ip_text(IpView::V4(a)) + seq![58u8] + decimal(p as nat),
        DstView::Ipv6(a, p) => seq![91u8] + ip_text(IpView::V6(a)) + seq![93u8, 58u8] + decimal(
            p as nat,
        ),
        DstView::Domain(n, p) => n + seq![58u8] + decimal(p as nat),
    }
}

impl DstAddr {
    /// The display form of this destination.
    pub fn to_text(&self) -> (r: Vec<u8>)
        ensures
            r@ == dst_text(self@),
    {
        let mut out: Vec<u8> = Vec::new();
        match self {
            DstAddr::Ipv4(a, p) => {
                IpAddr::V4(*a).write_text(&mut out);
                out.push(58);
                write_decimal(&mut out, *p as u64);
            },
            DstAddr::Ipv6(a, p) => {
                out.push(91);
                IpAddr::V6(*a).write_text(&mut out);
                out.push(93);
                out.push(58);
                write_decimal(&mut out, *p as u64);
            },
            DstAddr::Domain(n, p) => {
                push_all(&mut out, n.as_slice());
                out.push(58);
                write_decimal(&mut out, *p as u64);
            },
        }
        assert(out@ =~= dst_text(self@));
        out
    }

    /// Whether two destinations are the same.
    pub fn same(&self, other: &DstAddr) -> (r: bool)
        ensures
            r == (self@ == other@),
    {
        match (self, other) {
            (DstAddr::Ipv4(a, p), DstAddr::Ipv4(b, q)) => *p == *q && bytes_eq(a.as_slice(), b.as_slice()),
            (DstAddr::Ipv6(a, p), DstAddr::Ipv6(b, q)) => *p == *q && bytes_eq(a.as_slice(), b.as_slice()),
            (DstAddr::Domain(a, p), DstAddr::Domain(b, q)) => *p == *q && bytes_eq(
                a.as_slice(),
                b.as_slice(),
            ),
            _ => false,
        }
    }
}

impl PartialEq for DstAddr {
    fn eq(&self, other: &DstAddr) -> (r: bool) {
        self.same(other)
    }
}

impl vstd::std_specs::cmp::PartialEqSpecImpl for DstAddr {
    open spec fn obeys_eq_spec() -> bool {
        true
    }

    open spec fn eq_spec(&self, other: &DstAddr) -> bool {
        self@ == other@
    }
}

impl Default for DstAddr {
    fn default() -> (r: DstAddr)
        ensures
            r@ == DstView::Ipv4(seq![0u8, 0u8, 0u8, 0u8], 0),
    {
        DstAddr::unspecified()
    }
}

} // verus!
