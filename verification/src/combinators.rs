//! The two parsers of `nom` that the scanner is built from, each with what it
//! is taken to do on string slices.

use crate::text::{first_at, occurs_at};
use vstd::prelude::*;

verus! {

/// `nom::Err`, the error of a parser. Nothing is said of what it holds.
#[verifier::external_type_specification]
#[verifier::external_body]
#[verifier::reject_recursive_types(E)]
pub struct ExErr<E>(nom::Err<E>);

/// `nom::error::Error`, the place and kind of a parser's error. Nothing is
/// said of what it holds.
#[verifier::external_type_specification]
#[verifier::external_body]
#[verifier::reject_recursive_types(I)]
pub struct ExError<I>(nom::error::Error<I>);

/// `nom::bytes::complete::take_until`, applied to `s`. Where `pat` stands in
/// `s`, the result is `Ok` of what follows from the first such place on,
/// `pat` included, and of what stands before it. Where `pat` stands nowhere
/// in `s`, the result is an error.
#[verifier::external_body]
pub(crate) fn take_until<'a>(pat: &str, s: &'a str) -> (r: nom::IResult<&'a str, &'a str>)
    ensures
        match r {
            Ok((rest, taken)) => taken@ + rest@ == s@ && first_at(s@, pat@, taken@.len() as int),
            Err(_) => forall|i: int| !occurs_at(s@, pat@, i),
        },
{
    nom::bytes::complete::take_until(pat)(s)
}

/// `nom::bytes::complete::tag`, applied to `s`. Where `s` starts with `pat`,
/// the result is `Ok` of what follows `pat` and of the part of `s` that
/// matched it. Where `s` does not start with `pat`, the result is an error.
#[verifier::external_body]
pub(crate) fn tag<'a>(pat: &str, s: &'a str) -> (r: nom::IResult<&'a str, &'a str>)
    ensures
        match r {
            Ok((rest, matched)) => matched@ == pat@ && matched@ + rest@ == s@,
            Err(_) => !occurs_at(s@, pat@, 0),
        },
{
    nom::bytes::complete::tag(pat)(s)
}

} // verus!
