//! Length-prefixed octet strings: one length octet `L`, then `L` bytes.
use vstd::prelude::*;
use vstd::string::StringExecFns;
use vstd::utf8::{decode_utf8, valid_utf8};

use crate::error::{eof, invalid_data, Error, IoKind};

verus! {

/// The wire form of `payload`: its length in one octet, then the payload.
pub open spec fn fixed_encoding(payload: Seq<u8>) -> Seq<u8> {
    seq![payload.len() as u8] + payload
}

/// What a length-prefixed read finds at the start of `input`: the payload and the
/// number of bytes it took, or the error.
pub open spec fn parse_fixed(input: Seq<u8>) -> Result<(Seq<u8>, nat), Error> {
    if input.len() == 0 {
        Err(eof())
    } else if input.len() < 1 + input[0] as nat {
        Err(eof())
    } else {
        Ok((input.subrange(1, 1 + input[0] as int), (1 + input[0] as nat) as nat))
    }
}

/// Appends every byte of `src` to `out`.
pub fn push_all(out: &mut Vec<u8>, src: &[u8])
    ensures
        final(out)@ == old(out)@ + src@,
{
    let mut i: usize = 0;
    while i < src.len()
        invariant
            i <= src@.len(),
            out@ == old(out)@ + src@.subrange(0, i as int),
        decreases src@.len() - i,
    {
        out.push(src[i]);
        i = i + 1;
        assert(src@.subrange(0, i as int) == src@.subrange(0, i - 1) + seq![src@[i - 1]]);
    }
    assert(src@.subrange(0, src@.len() as int) == src@);
}

/// Copies `src[start..end]` into a new vector.
pub fn copy_range(src: &[u8], start: usize, end: usize) -> (r: Vec<u8>)
    requires
        start <= end <= src@.len(),
    ensures
        r@ == src@.subrange(start as int, end as int),
{
    let mut r: Vec<u8> = Vec::new();
    let mut i: usize = start;
    while i < end
        invariant
            start <= i <= end <= src@.len(),
            r@ == src@.subrange(start as int, i as int),
        decreases end - i,
    {
        r.push(src[i]);
        i = i + 1;
        assert(src@.subrange(start as int, i as int) == src@.subrange(start as int, i - 1) + seq![
            src@[i - 1],
        ]);
    }
    r
}

/// Writes `payload` with its one-octet length prefix. A payload longer than 255
/// bytes cannot be announced in one octet: it is refused and nothing is written.
pub fn write_fixed(out: &mut Vec<u8>, payload: &[u8]) -> (r: Result<(), Error>)
    ensures
        payload@.len() <= 255 ==> r is Ok && final(out)@ == old(out)@ + fixed_encoding(payload@),
        payload@.len() > 255 ==> r == Err::<(), Error>(invalid_data()) && final(out)@ == old(out)@,
{
    if payload.len() > 255 {
        return Err(Error::Io(IoKind::InvalidData));
    }
    out.push(payload.len() as u8);
    push_all(out, payload);
    assert(old(out)@.push(payload@.len() as u8) + payload@ == old(out)@ + fixed_encoding(payload@));
    Ok(())
}

/// Reads one length-prefixed octet string from the start of `input`, and returns it
/// with the number of bytes it took.
pub fn read_fixed_bytes(input: &[u8]) -> (r: Result<(Vec<u8>, usize), Error>)
    ensures
        match (r, parse_fixed(input@)) {
            (Ok((v, n)), Ok((p, m))) => v@ == p && n == m,
            (Err(e), Err(f)) => e == f,
            _ => false,
        },
{
    if input.len() == 0 {
        return Err(Error::Io(IoKind::UnexpectedEof));
    }
    let len = input[0] as usize;
    if input.len() < 1 + len {
        return Err(Error::Io(IoKind::UnexpectedEof));
    }
    let v = copy_range(input, 1, 1 + len);
    Ok((v, 1 + len))
}

/// The length-prefixed codec gives back what it was given: for every payload of at
/// most 255 bytes, whatever follows it on the wire, reading its encoding yields the
/// payload and consumes exactly the encoding.
pub proof fn lemma_fixed_round_trip(payload: Seq<u8>, rest: Seq<u8>)
    requires
        payload.len() <= 255,
    ensures
        parse_fixed(fixed_encoding(payload) + rest) == Ok::<(Seq<u8>, nat), Error>(
            (payload, payload.len() + 1),
        ),
{
    let w = fixed_encoding(payload) + rest;
    assert(w[0] as nat == payload.len());
    assert(w.subrange(1, 1 + payload.len() as int) == payload);
}

/// Relies on `String::from_utf8`: it succeeds exactly on valid UTF-8, and the
/// string then holds the characters that the bytes encode.
#[verifier::external_body]
pub(crate) fn utf8_string(bytes: &[u8]) -> (r: Option<String>)
    ensures
        r is Some <==> valid_utf8(bytes@),
        r matches Some(s) ==> s@ == decode_utf8(bytes@),
{
    String::from_utf8(bytes.to_vec()).ok()
}

/// What a UTF-8 validated length-prefixed read finds: the characters and the
/// number of bytes taken, or the error (`InvalidData` when the payload is not UTF-8).
pub open spec fn parse_fixed_string(input: Seq<u8>) -> Result<(Seq<char>, nat), Error> {
    match parse_fixed(input) {
        Err(e) => Err(e),
        Ok((p, n)) => if valid_utf8(p) {
            Ok((decode_utf8(p), n))
        } else {
            Err(invalid_data())
        },
    }
}

/// Reads one length-prefixed octet string from `input` and appends it to `output`
/// as text. When the payload is not valid UTF-8 the read fails with `InvalidData`
/// and `output` keeps what it held.
pub fn read_to_fixed_string(output: &mut String, input: &[u8]) -> (r: Result<usize, Error>)
    ensures
        match (r, parse_fixed_string(input@)) {
            (Ok(n), Ok((s, m))) => n == m && final(output)@ == old(output)@ + s,
            (Err(e), Err(f)) => e == f && final(output)@ == old(output)@,
            _ => false,
        },
{
    let (payload, n) = match read_fixed_bytes(input) {
        Ok(x) => x,
        Err(e) => return Err(e),
    };
    match utf8_string(payload.as_slice()) {
        Some(s) => {
            output.append(s.as_str());
            Ok(n)
        },
        None => Err(Error::Io(IoKind::InvalidData)),
    }
}

} // verus!
