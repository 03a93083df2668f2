//! A value of one of two types: the egress stream of a direct dial or of a proxy dial.
use vstd::prelude::*;

verus! {

/// A value of one of two types.
#[derive(Debug)]
pub enum Either<L, R> {
    Left(L),
    Right(R),
}

impl<L, R> Either<L, R> {
    /// Whether this is the left value.
    pub fn is_left(&self) -> (r: bool)
        ensures
            r == (self is Left),
    {
        match self {
            Either::Left(_) => true,
            Either::Right(_) => false,
        }
    }

    /// Whether this is the right value.
    pub fn is_right(&self) -> (r: bool)
        ensures
            r == (self is Right),
    {
        match self {
            Either::Left(_) => false,
            Either::Right(_) => true,
        }
    }
}

} // verus!
