use vstd::prelude::*;

use crate::server::{GetResponse, RemoveResponse, SetResponse};

verus! {

/// The text printed when `get` finds no value.
pub const NOT_FOUND_MESSAGE: &'static str = "Key not found";

/// What the client does with a response: print a line to standard output and exit with
/// success, exit with success silently, or print to standard error and exit with failure.
pub enum Outcome {
    Print(String),
    Quiet,
    Fail(String),
}

/// `Get`: the value is printed; a missing key prints the not-found text and still succeeds;
/// an error is a failure.
pub fn get_outcome(resp: GetResponse) -> (o: Outcome)
    ensures
        match resp {
            GetResponse::Success(Some(v)) => o matches Outcome::Print(s) && s@ == v@,
            GetResponse::Success(None) => o matches Outcome::Print(s) && s@ == NOT_FOUND_MESSAGE@,
            GetResponse::Failure(m) => o matches Outcome::Fail(s) && s@ == m@,
        },
{
    match resp {
        GetResponse::Success(Some(v)) => Outcome::Print(v),
        GetResponse::Success(None) => Outcome::Print(NOT_FOUND_MESSAGE.to_string()),
        GetResponse::Failure(m) => Outcome::Fail(m),
    }
}

/// `Set`: success is silent; an error is a failure.
pub fn set_outcome(resp: SetResponse) -> (o: Outcome)
    ensures
        match resp {
            SetResponse::Success => o is Quiet,
            SetResponse::Failure(m) => o matches Outcome::Fail(s) && s@ == m@,
        },
{
    match resp {
        SetResponse::Success => Outcome::Quiet,
        SetResponse::Failure(m) => Outcome::Fail(m),
    }
}

/// `Remove`: success is silent; an error is printed and the client fails.
pub fn remove_outcome(resp: RemoveResponse) -> (o: Outcome)
    ensures
        match resp {
            RemoveResponse::Success => o is Quiet,
            RemoveResponse::Failure(m) => o matches Outcome::Fail(s) && s@ == m@,
        },
{
    match resp {
        RemoveResponse::Success => Outcome::Quiet,
        RemoveResponse::Failure(m) => Outcome::Fail(m),
    }
}

} // verus!
