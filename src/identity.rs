use vstd::prelude::*;

use crate::error::KvsError;
use crate::keydir::str_eq;

verus! {

/// The marker that the log-structured engine writes into its directory.
pub const KVS_IDENTITY: &'static str = "kvs";

/// The marker that the embedded-database engine writes into its directory.
pub const SLED_IDENTITY: &'static str = "sled";

/// Decides whether an engine named `own` may open a directory whose marker file holds
/// `marker` (`None` when there is no marker file yet). A marker that names another
/// engine is `WrongMeta`; a missing marker is compatible.
pub fn check_meta(marker: Option<&str>, own: &str) -> (r: Result<(), KvsError>)
    ensures
        match marker {
            None => r is Ok,
            Some(m) => if m@ == own@ {
                r is Ok
            } else {
                r matches Err(e) && e is WrongMeta
            },
        },
{
    match marker {
        None => Ok(()),
        Some(m) => {
            if str_eq(m, own) {
                Ok(())
            } else {
                Err(KvsError::WrongMeta)
            }
        },
    }
}

} // verus!
