use vstd::prelude::*;

use crate::error::KvsError;

verus! {

/// The operations that every storage engine offers.
///
/// `set` inserts or overwrites and is durable once it returns `Ok`; `get` gives the current
/// value or `None`; `remove` deletes a live key and fails with `KeyNotFound`, writing
/// nothing, when the key is absent. Each engine may say, through the `*_answer` relations,
/// which results it gives for which arguments; one that says nothing admits any result.
/// Code written for every engine sees only that each call's result is one of its answers
/// for the arguments it was given.
pub trait KvsEngine {
    /// `r` is a result this engine may give to `get(k)`.
    closed spec fn get_answer(&self, k: Seq<char>, r: Result<Option<String>, KvsError>) -> bool {
        true
    }

    /// `r` is a result this engine may give to `set(k, v)`.
    closed spec fn set_answer(&self, k: Seq<char>, v: Seq<char>, r: Result<(), KvsError>) -> bool {
        true
    }

    /// `r` is a result this engine may give to `remove(k)`.
    closed spec fn remove_answer(&self, k: Seq<char>, r: Result<(), KvsError>) -> bool {
        true
    }

    fn set(&mut self, k: String, v: String) -> (r: Result<(), KvsError>)
        ensures
            old(self).set_answer(k@, v@, r),
    ;

    fn get(&mut self, k: String) -> (r: Result<Option<String>, KvsError>)
        ensures
            old(self).get_answer(k@, r),
    ;

    fn remove(&mut self, k: String) -> (r: Result<(), KvsError>)
        ensures
            old(self).remove_answer(k@, r),
    ;
}

} // verus!
