//! Results and the warning outcome that carries partial output.

use vstd::prelude::*;

verus! {

/// `t` as a success.
pub fn res_ok<T, E>(t: T) -> (r: Result<T, E>)
    ensures
        r == Ok::<T, E>(t),
{
    Ok(t)
}

/// `e` as a failure.
pub fn res_err<T, E>(e: E) -> (r: Result<T, E>)
    ensures
        r == Err::<T, E>(e),
{
    Err(e)
}

/// A value that may come with the failures met while producing it.
#[derive(Debug, Clone, PartialEq, Eq)]
pub enum Warning<T, E> {
    /// The value, produced without failure.
    Complete(T),
    /// The value produced in spite of a failure, and that failure.
    Partial(T, E),
}

impl<T, E> Warning<T, E> {
    /// `Partial` when `might_err` holds a failure, `Complete` otherwise.
    pub fn from(partial: T, might_err: Option<E>) -> (r: Self)
        ensures
            might_err is None ==> r == Warning::<T, E>::Complete(partial),
            might_err matches Some(e) ==> r == Warning::<T, E>::Partial(partial, e),
    {
        match might_err {
            Some(err) => Warning::Partial(partial, err),
            None => Warning::Complete(partial),
        }
    }
}

} // verus!
