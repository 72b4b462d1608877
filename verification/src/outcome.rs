//! What a parser reports, and how an executable result is held to its specification.
use vstd::prelude::*;

verus! {

/// Why a parser returned no value.
///
/// The parsers read a byte slice that may be the beginning of a longer input
/// (streaming input): `Incomplete` says that the bytes ran out before the
/// grammar could decide, so that more bytes may change the answer; `Error`
/// says that the bytes at hand do not match.
#[derive(Debug, Clone, Copy, PartialEq, Eq, Structural)]
pub enum ParseError {
    Error,
    Incomplete,
}

/// The mathematical meaning of a parser on an input `s` from a position `i`.
///
/// Positions are absolute indices into `s`.
pub enum Parsed<V> {
    /// The parser matched the bytes from `i` up to this end position, with this value.
    Done(int, V),
    /// The parser reports this error.
    Fail(ParseError),
    /// The grammar hands text that is not UTF-8 to a conversion that cannot fail;
    /// the parsers of this crate are not to be called on such input.
    Abort,
}

impl<V> Parsed<V> {
    pub open spec fn end(self) -> int
        recommends
            self is Done,
    {
        self->Done_0
    }

    pub open spec fn value(self) -> V
        recommends
            self is Done,
    {
        self->Done_1
    }
}

/// Passes on the outcome of a step that did not succeed, at another value type.
pub open spec fn halt<A, B>(p: Parsed<A>) -> Parsed<B> {
    match p {
        Parsed::Fail(e) => Parsed::Fail(e),
        _ => Parsed::Abort,
    }
}

/// An outcome with the value replaced (what `map!` and `value!` do).
pub open spec fn with_value<A, B>(p: Parsed<A>, v: B) -> Parsed<B> {
    match p {
        Parsed::Done(j, _) => Parsed::Done(j, v),
        Parsed::Fail(e) => Parsed::Fail(e),
        Parsed::Abort => Parsed::Abort,
    }
}

/// `alt!` of two parsers: the second is tried only where the first reports `Error`.
pub open spec fn either<V>(a: Parsed<V>, b: Parsed<V>) -> Parsed<V> {
    if a matches Parsed::Fail(ParseError::Error) {
        b
    } else {
        a
    }
}

/// `complete!`: `Incomplete` becomes `Error`.
pub open spec fn completed<V>(p: Parsed<V>) -> Parsed<V> {
    if p matches Parsed::Fail(ParseError::Incomplete) {
        Parsed::Fail(ParseError::Error)
    } else {
        p
    }
}

/// An outcome that more input cannot change: anything but `Incomplete`.
pub open spec fn settled<V>(p: Parsed<V>) -> bool {
    !(p matches Parsed::Fail(ParseError::Incomplete))
}

/// A successful outcome ends between the positions `i` and `n`.
pub open spec fn ends_in<V>(p: Parsed<V>, i: int, n: int) -> bool {
    p is Done ==> i <= p.end() <= n
}

/// The executable result `r` of a parser is its specified outcome `p`.
pub open spec fn agrees<T: DeepView>(r: Result<(usize, T), ParseError>, p: Parsed<T::V>) -> bool {
    match r {
        Ok((j, v)) => p == Parsed::Done(j as int, v.deep_view()),
        Err(e) => p matches Parsed::Fail(f) && f == e,
    }
}

/// The executable result of a parser that yields no value is its specified outcome.
pub open spec fn agrees_at(r: Result<usize, ParseError>, p: Parsed<()>) -> bool {
    match r {
        Ok(j) => p == Parsed::Done(j as int, ()),
        Err(e) => p matches Parsed::Fail(f) && f == e,
    }
}

/// A successful executable result ends between the start position and the end of input.
pub open spec fn ends_within<T>(r: Result<(usize, T), ParseError>, i: int, n: int) -> bool {
    r matches Ok((j, _)) ==> i <= j <= n
}

/// A successful result of a parser that yields no value ends between the start position
/// and the end of input.
pub open spec fn at_within(r: Result<usize, ParseError>, i: int, n: int) -> bool {
    r matches Ok(j) ==> i <= j <= n
}

/// What the public entry points return: the input that is left, and the value; held to
/// the specified outcome from position 0.
pub open spec fn answers<T: DeepView>(
    input: Seq<u8>,
    r: Result<(&[u8], T), ParseError>,
    p: Parsed<T::V>,
) -> bool {
    match r {
        Ok((rest, v)) => {
            &&& p is Done
            &&& 0 <= p.end() <= input.len()
            &&& rest@ == input.subrange(p.end(), input.len() as int)
            &&& v.deep_view() == p.value()
        },
        Err(e) => p matches Parsed::Fail(f) && f == e,
    }
}

/// `complete!` on the result of a parser.
pub fn complete<T: DeepView>(r: Result<(usize, T), ParseError>) -> (c: Result<(usize, T), ParseError>)
    ensures
        forall|p: Parsed<T::V>| agrees(r, p) ==> agrees(c, completed(p)),
        forall|i: int, n: int| ends_within(r, i, n) ==> ends_within(c, i, n),
{
    match r {
        Err(ParseError::Incomplete) => Err(ParseError::Error),
        other => other,
    }
}

/// `complete!` on the result of a parser that yields no value.
pub fn complete_pos(r: Result<usize, ParseError>) -> (c: Result<usize, ParseError>)
    ensures
        forall|p: Parsed<()>| agrees_at(r, p) ==> agrees_at(c, completed(p)),
        forall|i: int, n: int| at_within(r, i, n) ==> at_within(c, i, n),
{
    match r {
        Err(ParseError::Incomplete) => Err(ParseError::Error),
        other => other,
    }
}

} // verus!
