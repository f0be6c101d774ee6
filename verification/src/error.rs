use vstd::prelude::*;

verus! {

/// The rule of the grammar that rejected the input.
#[derive(Clone, Copy, Debug, PartialEq, Eq, Structural)]
pub enum ErrorKind {
    /// A fixed byte sequence (a magic number) did not match.
    Tag,
    /// A length-prefixed string was not valid UTF-8.
    MapRes,
    /// None of the alternatives of a choice matched.
    Alt,
    /// An item of a repeated field was rejected.
    Count,
}

/// Why a parser did not produce a value.
#[derive(Clone, Copy, Debug, PartialEq, Eq, Structural)]
pub enum ParseError {
    /// The input ended before the item being read was complete; the number
    /// is how many bytes that item needs.
    Incomplete(usize),
    /// The input is malformed.  The number is how many bytes of the input
    /// were left at the point where the rejecting rule started, so that
    /// `input.len() - remaining` is the offset of that point.
    Error(ErrorKind, usize),
}

/// The outcome of a parser at the level of specifications: either the
/// remaining input and the value read, or the reason for the failure.
pub type SpecRes<T> = Result<(Seq<u8>, T), ParseError>;

/// An executable parse result agrees with a specified one: same failure, or
/// the same remaining input and a value whose view is the specified value.
pub open spec fn agrees<T: View>(r: Result<(&[u8], T), ParseError>, s: SpecRes<T::V>) -> bool {
    match r {
        Ok((rest, v)) => s matches Ok((srest, sv)) && rest@ == srest && v@ == sv,
        Err(e) => s == Err::<(Seq<u8>, T::V), ParseError>(e),
    }
}

/// The error that a rule raises at the start of input `s`.
pub open spec fn error_at(kind: ErrorKind, s: Seq<u8>) -> ParseError {
    ParseError::Error(kind, s.len() as usize)
}

/// Applies a function to the value of a successful parse.
pub open spec fn map_res<A, B>(r: SpecRes<A>, f: spec_fn(A) -> B) -> SpecRes<B> {
    match r {
        Ok((rest, a)) => Ok((rest, f(a))),
        Err(e) => Err(e),
    }
}

/// A choice between alternatives that gives up on the current one only
/// when it rejects the input (an `Incomplete` answer ends the choice): the
/// result of the chosen alternative, or `Alt` at the start of `s` when the
/// alternative rejected it.
pub open spec fn or_alt<A>(r: SpecRes<A>, s: Seq<u8>) -> SpecRes<A> {
    match r {
        Err(ParseError::Error(_, _)) => Err(error_at(ErrorKind::Alt, s)),
        other => other,
    }
}

/// Runs the continuation `k` on the remaining input and the value of a
/// successful parse; a failure ends the sequence.
pub open spec fn bind<A, B>(r: SpecRes<A>, k: spec_fn(Seq<u8>, A) -> SpecRes<B>) -> SpecRes<B> {
    match r {
        Ok((rest, a)) => k(rest, a),
        Err(e) => Err(e),
    }
}

/// An executable parse result agrees with a specified one, comparing the
/// value itself rather than its view.
pub open spec fn agrees_value<T>(r: Result<(&[u8], T), ParseError>, s: SpecRes<T>) -> bool {
    match r {
        Ok((rest, v)) => s matches Ok((srest, sv)) && rest@ == srest && v == sv,
        Err(e) => s == Err::<(Seq<u8>, T), ParseError>(e),
    }
}

/// Appending input `t` leaves a decided answer decided: a success keeps its
/// value and leaves the appended bytes after its rest, a rejection stays the
/// same rejection at the same point.  Only an `Incomplete` answer may change.
pub open spec fn stable<A>(r: SpecRes<A>, r2: SpecRes<A>, t: Seq<u8>) -> bool {
    match r {
        Ok((rest, v)) => r2 == Ok::<(Seq<u8>, A), ParseError>((rest + t, v)),
        Err(ParseError::Error(k, n)) => r2 == Err::<(Seq<u8>, A), ParseError>(
            ParseError::Error(k, (n + t.len()) as usize),
        ),
        Err(ParseError::Incomplete(_)) => true,
    }
}

/// A successful parse leaves at most the input it was given.
pub open spec fn shrinks<A>(r: SpecRes<A>, s: Seq<u8>) -> bool {
    r matches Ok((rest, _)) ==> rest.len() <= s.len()
}

/// The first `n` bytes of `s2` are those of `s`.
pub open spec fn agree_on(s: Seq<u8>, s2: Seq<u8>, n: int) -> bool {
    &&& 0 <= n <= s.len()
    &&& n <= s2.len()
    &&& forall|i: int| 0 <= i < n ==> s2[i] == s[i]
}

/// A success on `s` consumes a prefix of `s`, and any input `s2` that starts
/// with the same bytes gives the same value, leaving what follows that
/// prefix in `s2`.
pub open spec fn local<A>(r: SpecRes<A>, s: Seq<u8>, r2: SpecRes<A>, s2: Seq<u8>) -> bool {
    r matches Ok((rest, v)) ==> {
        let n = s.len() - rest.len();
        &&& 0 <= n
        &&& rest == s.skip(n)
        &&& agree_on(s, s2, n) ==> r2 == Ok::<(Seq<u8>, A), ParseError>((s2.skip(n), v))
    }
}

/// Where `s2` stands once the prefix that a success on `s` leaves `rest`
/// after has been read from it.
pub open spec fn after_same(s: Seq<u8>, s2: Seq<u8>, rest: Seq<u8>) -> Seq<u8> {
    s2.skip(s.len() - rest.len())
}

/// Two parses decided the same way: the same value with as much input left,
/// or the same failure.
pub open spec fn same_outcome<A>(r1: SpecRes<A>, r2: SpecRes<A>) -> bool {
    match r1 {
        Ok((rest1, v1)) => r2 matches Ok((rest2, v2)) && v1 == v2 && rest1.len() == rest2.len(),
        Err(e) => r2 == Err::<(Seq<u8>, A), ParseError>(e),
    }
}

/// `r`, the result of a parser on the first `j` bytes of `s`, already
/// decides the parse of `s`: those bytes suffice for a success or a
/// rejection, or they are all of `s`.  They are then the bytes that the
/// parser examines in `s`.
pub open spec fn decided<A>(r: SpecRes<A>, s: Seq<u8>, j: int) -> bool {
    &&& 0 <= j <= s.len()
    &&& j < s.len() ==> !(r matches Err(ParseError::Incomplete(_)))
}

} // verus!
