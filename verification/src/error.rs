use vstd::prelude::*;

verus! {

/// A build error: a single human-readable message.  Every failure of the
/// library is reported through this one type; no error is recovered
/// internally.
#[derive(Debug)]
pub struct Error(pub String);

impl Error {
    pub fn new(msg: &str) -> (r: Error)
        ensures
            r.0@ == msg@,
    {
        Error(String::from_str(msg))
    }
}

/// Turns an optional or fallible value into a `Result<_, Error>`, replacing
/// the missing case by an error built from the given message.
pub trait Raise: Sized {
    type Out;

    /// What `or_raise` is allowed to return for a given receiver and message.
    spec fn raises_to(self, msg: Seq<char>, r: Self::Out) -> bool;

    fn or_raise(self, msg: &str) -> (r: Self::Out)
        ensures
            self.raises_to(msg@, r),
    ;
}

impl<T> Raise for Option<T> {
    type Out = Result<T, Error>;

    open spec fn raises_to(self, msg: Seq<char>, r: Result<T, Error>) -> bool {
        match self {
            Some(x) => r matches Ok(y) && y == x,
            None => r matches Err(e) && e.0@ == msg,
        }
    }

    fn or_raise(self, msg: &str) -> (r: Result<T, Error>) {
        match self {
            Some(x) => Ok(x),
            None => Err(Error::new(msg)),
        }
    }
}

impl<T, E> Raise for Result<T, E> {
    type Out = Result<T, Error>;

    open spec fn raises_to(self, msg: Seq<char>, r: Result<T, Error>) -> bool {
        match self {
            Ok(x) => r matches Ok(y) && y == x,
            Err(_) => r matches Err(e) && e.0@ == msg,
        }
    }

    fn or_raise(self, msg: &str) -> (r: Result<T, Error>) {
        match self {
            Ok(x) => Ok(x),
            Err(_) => Err(Error::new(msg)),
        }
    }
}

} // verus!
