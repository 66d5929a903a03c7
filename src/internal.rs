//! The three-way parse result shared by every rule of the library.
use vstd::prelude::*;

verus! {

/// Which rule stopped matching.
#[derive(Debug, PartialEq, Eq, Hash, Clone, Copy, Structural)]
pub enum ErrorKind {
    /// A grammar-specific diagnostic.
    Custom(u32),
    /// A literal did not match.
    Tag,
    /// Whitespace was required but none was found.
    MultiSpace,
    /// More input was asked for where the grammar expects none.
    Complete,
}

/// A failure: what failed, and where in the input matching stopped.
#[derive(Debug, PartialEq, Eq, Clone, Copy)]
pub enum ParseError<P> {
    Position(ErrorKind, P),
}

/// How much more input a parser asks for, counted from the start of the input it was given.
#[derive(Debug, PartialEq, Eq, Hash, Clone, Copy, Structural)]
pub enum Needed {
    Unknown,
    Size(usize),
}

/// The outcome of a parse: the remaining input and the value produced, a
/// failure, or a request for more input.
#[derive(Debug, PartialEq, Eq, Clone)]
pub enum IResult<I, O> {
    Done(I, O),
    Error(ParseError<I>),
    Incomplete(Needed),
}

impl<I: View, O: View> View for IResult<I, O> {
    type V = IResult<I::V, O::V>;

    open spec fn view(&self) -> IResult<I::V, O::V> {
        match self {
            IResult::Done(i, o) => IResult::Done(i@, o@),
            IResult::Error(ParseError::Position(k, p)) => IResult::Error(ParseError::Position(*k, p@)),
            IResult::Incomplete(n) => IResult::Incomplete(*n),
        }
    }
}

/// The numeric code of an error kind.
pub open spec fn spec_error_code(e: ErrorKind) -> u32 {
    match e {
        ErrorKind::Custom(_) => 0,
        ErrorKind::Tag => 1,
        ErrorKind::MultiSpace => 21,
        ErrorKind::Complete => 48,
    }
}

pub fn error_to_u32(e: &ErrorKind) -> (r: u32)
    ensures
        r == spec_error_code(*e),
{
    match *e {
        ErrorKind::Custom(_) => 0,
        ErrorKind::Tag => 1,
        ErrorKind::MultiSpace => 21,
        ErrorKind::Complete => 48,
    }
}

/// A request for `n` more bytes made after `consumed` bytes were already
/// taken, counted from the start: `Unknown` where the total does not fit.
pub open spec fn spec_needed_after(consumed: int, n: Needed) -> Needed {
    match n {
        Needed::Unknown => Needed::Unknown,
        Needed::Size(k) => if consumed + k <= usize::MAX {
            Needed::Size((consumed + k) as usize)
        } else {
            Needed::Unknown
        },
    }
}

pub fn needed_after(consumed: usize, n: Needed) -> (r: Needed)
    ensures
        r == spec_needed_after(consumed as int, n),
{
    match n {
        Needed::Unknown => Needed::Unknown,
        Needed::Size(k) => match consumed.checked_add(k) {
            Some(t) => Needed::Size(t),
            None => Needed::Unknown,
        },
    }
}

} // verus!
