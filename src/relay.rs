//! Bookkeeping of the relay phase: what each direction wrote, and how the two
//! directions together end.
use vstd::prelude::*;

use crate::error::{Error, IoKind};

verus! {

/// The sum of the sizes of the writes.
pub open spec fn sum(writes: Seq<u64>) -> nat
    decreases writes.len(),
{
    if writes.len() == 0 {
        0
    } else {
        sum(writes.drop_last()) + writes.last() as nat
    }
}

/// One direction of the relay: the successful writes to its destination so far.
pub struct HalfCopy {
    total: u64,
    writes: Ghost<Seq<u64>>,
}

impl HalfCopy {
    /// The sizes of the successful writes, in order.
    pub closed spec fn written(&self) -> Seq<u64> {
        self.writes@
    }

    /// The count agrees with the writes.
    pub closed spec fn wf(&self) -> bool {
        self.total as nat == sum(self.writes@)
    }

    /// A direction that has written nothing.
    pub fn new() -> (r: HalfCopy)
        ensures
            r.wf(),
            r.written() == Seq::<u64>::empty(),
    {
        HalfCopy { total: 0, writes: Ghost(Seq::empty()) }
    }

    /// Records a successful write of `n` bytes.
    pub fn record(&mut self, n: u64)
        requires
            old(self).wf(),
            sum(old(self).written()) + n <= u64::MAX,
        ensures
            final(self).wf(),
            final(self).written() == old(self).written().push(n),
    {
        proof {
            assert(self.writes@.push(n).drop_last() =~= self.writes@);
        }
        self.total = self.total + n;
        self.writes = Ghost(self.writes@.push(n));
    }

    /// The number of bytes written so far.
    pub fn total(&self) -> (r: u64)
        requires
            self.wf(),
        ensures
            r == sum(self.written()),
    {
        self.total
    }
}

/// How one direction of the relay ended.
#[derive(Debug, Clone, Copy, PartialEq, Eq, Structural)]
pub enum HalfEnd {
    /// Its source reached end of file (or was shut down).
    Eof,
    /// A read or a write failed.
    Failed(IoKind),
}

/// Whether an ending is an error: `NotConnected` (the peer had already closed)
/// counts as a clean end.
pub open spec fn is_failure(e: HalfEnd) -> bool {
    e matches HalfEnd::Failed(k) && k != IoKind::NotConnected
}

/// The outcome of the relay once both directions ended: the first real failure
/// (the upward direction first), else the byte counts of both directions.
pub open spec fn relay_outcome(up: Seq<u64>, up_end: HalfEnd, down: Seq<u64>, down_end: HalfEnd) -> Result<(nat, nat), Error> {
    if is_failure(up_end) {
        Err(Error::Io(up_end->Failed_0))
    } else if is_failure(down_end) {
        Err(Error::Io(down_end->Failed_0))
    } else {
        Ok((sum(up), sum(down)))
    }
}

/// Ends the relay: `(bytes_up, bytes_down)`, where each count is the total of the
/// successful writes in that direction, unless a direction failed otherwise than
/// with `NotConnected`.
pub fn finish_relay(up: &HalfCopy, up_end: HalfEnd, down: &HalfCopy, down_end: HalfEnd) -> (r: Result<(u64, u64), Error>)
    requires
        up.wf(),
        down.wf(),
    ensures
        match (r, relay_outcome(up.written(), up_end, down.written(), down_end)) {
            (Ok((a, b)), Ok((x, y))) => a == x && b == y,
            (Err(e), Err(f)) => e == f,
            _ => false,
        },
{
    match up_end {
        HalfEnd::Failed(k) => {
            if k != IoKind::NotConnected {
                return Err(Error::Io(k));
            }
        },
        HalfEnd::Eof => {},
    }
    match down_end {
        HalfEnd::Failed(k) => {
            if k != IoKind::NotConnected {
                return Err(Error::Io(k));
            }
        },
        HalfEnd::Eof => {},
    }
    Ok((up.total(), down.total()))
}

} // verus!
