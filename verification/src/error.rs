//! The error type of the library.

use crate::text::{concat2, concat3};
use vstd::prelude::*;
use vstd::string::*;

verus! {

/// A refused request, described by its message.
#[derive(Debug)]
pub struct Error {
    pub message: String,
}

impl View for Error {
    type V = Seq<char>;

    open spec fn view(&self) -> Seq<char> {
        self.message@
    }
}

impl Error {
    /// An error with the given message.
    pub fn new(message: &str) -> (r: Error)
        ensures
            r@ == message@,
    {
        Error { message: message.to_owned() }
    }

    /// An error whose message is `a` followed by `b`.
    pub fn of2(a: &str, b: &str) -> (r: Error)
        ensures
            r@ == a@ + b@,
    {
        Error { message: concat2(a, b) }
    }

    /// An error whose message is `a`, `b` and `c` in turn.
    pub fn of3(a: &str, b: &str, c: &str) -> (r: Error)
        ensures
            r@ == a@ + b@ + c@,
    {
        Error { message: concat3(a, b, c) }
    }

    /// An error whose message is the four parts in turn.
    pub fn of4(a: &str, b: &str, c: &str, d: &str) -> (r: Error)
        ensures
            r@ == a@ + b@ + c@ + d@,
    {
        let head: String = concat3(a, b, c);
        Error { message: concat2(head.as_str(), d) }
    }

    /// An error whose message is the five parts in turn.
    pub fn of5(a: &str, b: &str, c: &str, d: &str, e: &str) -> (r: Error)
        ensures
            r@ == a@ + b@ + c@ + d@ + e@,
    {
        let head: String = concat3(a, b, c);
        Error { message: concat3(head.as_str(), d, e) }
    }

    /// An error whose message is the six parts in turn.
    pub fn of6(a: &str, b: &str, c: &str, d: &str, e: &str, f: &str) -> (r: Error)
        ensures
            r@ == a@ + b@ + c@ + d@ + e@ + f@,
    {
        let head: String = concat3(a, b, c);
        let body: String = concat3(head.as_str(), d, e);
        Error { message: concat2(body.as_str(), f) }
    }

    /// The message of the error.
    pub fn message(&self) -> (r: String)
        ensures
            r@ == self@,
    {
        self.message.clone()
    }
}

/// Outcome of an operation whose value is modelled by its view: the value's
/// view, or the message of the error.
pub open spec fn outcome<T: View>(r: Result<T, Error>) -> Result<T::V, Seq<char>> {
    match r {
        Ok(value) => Ok(value@),
        Err(error) => Err(error@),
    }
}

/// The first of two reasons to refuse a request.
pub open spec fn either(a: Option<Seq<char>>, b: Option<Seq<char>>) -> Option<Seq<char>> {
    match a {
        Some(_) => a,
        None => b,
    }
}

/// Outcome of a check: nothing, or the message of the error.
pub open spec fn refusal(r: Result<(), Error>) -> Option<Seq<char>> {
    match r {
        Ok(_) => None,
        Err(error) => Some(error@),
    }
}

} // verus!
