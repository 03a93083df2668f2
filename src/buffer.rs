//! In-memory byte buffers: a growable read buffer and an in-memory stream.
use vstd::prelude::*;

use crate::codec::{copy_range, push_all};

verus! {

/// A byte vector that reads fill, with the number of its bytes known to be
/// initialized (at least its length).
#[derive(Debug)]
pub struct VecReadBuf {
    vec: Vec<u8>,
    num_initialized: usize,
}

impl VecReadBuf {
    /// The bytes held.
    pub closed spec fn contents(&self) -> Seq<u8> {
        self.vec@
    }

    /// The number of initialized bytes.
    pub closed spec fn initialized(&self) -> nat {
        self.num_initialized as nat
    }

    /// Wraps a vector; its bytes are its initialized part.
    pub fn new(vec: Vec<u8>) -> (r: VecReadBuf)
        ensures
            r.contents() == vec@,
            r.initialized() == vec@.len(),
    {
        let n = vec.len();
        VecReadBuf { vec, num_initialized: n }
    }

    /// Makes room for `num_bytes` more bytes; the contents stay as they are.
    pub fn reserve(&mut self, num_bytes: usize)
        ensures
            final(self).contents() == old(self).contents(),
            final(self).initialized() >= final(self).contents().len(),
    {
        let len = self.vec.len();
        self.vec.reserve(num_bytes);
        if self.num_initialized < len {
            self.num_initialized = len;
        }
    }

    /// Whether the buffer holds nothing.
    pub fn is_empty(&self) -> (r: bool)
        ensures
            r == (self.contents().len() == 0),
    {
        self.vec.len() == 0
    }

    /// Appends bytes that a read produced.
    pub fn fill(&mut self, data: &[u8])
        ensures
            final(self).contents() == old(self).contents() + data@,
    {
        push_all(&mut self.vec, data);
        if self.num_initialized < self.vec.len() {
            self.num_initialized = self.vec.len();
        }
    }

    /// Takes the bytes out, leaving the buffer empty.
    pub fn take(&mut self) -> (r: Vec<u8>)
        ensures
            r@ == old(self).contents(),
            final(self).contents() == Seq::<u8>::empty(),
            final(self).initialized() == 0,
    {
        self.num_initialized = 0;
        let mut out: Vec<u8> = Vec::new();
        core::mem::swap(&mut out, &mut self.vec);
        out
    }
}

/// An in-memory stream: reads consume `inner` from `pos`, writes append to it.
#[derive(Debug)]
pub struct Bytes {
    pub inner: Vec<u8>,
    pub pos: usize,
}

/// An empty in-memory stream.
pub fn test_bytes() -> (r: Bytes)
    ensures
        r.inner@ == Seq::<u8>::empty(),
        r.pos == 0,
{
    Bytes { inner: Vec::new(), pos: 0 }
}

impl Bytes {
    /// Reads up to `max` bytes from the current position.
    pub fn read(&mut self, max: usize) -> (r: Vec<u8>)
        requires
            old(self).pos <= old(self).inner@.len(),
        ensures
            final(self).inner@ == old(self).inner@,
            r@ == old(self).inner@.subrange(old(self).pos as int, final(self).pos as int),
            final(self).pos == if old(self).inner@.len() - old(self).pos <= max {
                old(self).inner@.len() as int
            } else {
                old(self).pos + max
            },
    {
        let pos = self.pos;
        let avail = self.inner.len() - pos;
        let n = if avail <= max {
            avail
        } else {
            max
        };
        let r = copy_range(self.inner.as_slice(), pos, pos + n);
        self.pos = pos + n;
        r
    }

    /// Appends `data`.
    pub fn write(&mut self, data: &[u8])
        ensures
            final(self).inner@ == old(self).inner@ + data@,
            final(self).pos == old(self).pos,
    {
        push_all(&mut self.inner, data);
    }
}

} // verus!
