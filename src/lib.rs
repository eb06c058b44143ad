//! A persistent key-value store: a log-structured engine whose log holds one record per
//! line, an identity marker per store directory, and a request/response protocol that
//! serves any engine.
use vstd::prelude::*;

pub mod client;
pub mod engine;
pub mod error;
pub mod identity;
pub mod keydir;
pub mod laws;
pub mod logstore;
pub mod record;
pub mod replay;
pub mod server;

pub use client::{get_outcome, remove_outcome, set_outcome, Outcome};
pub use engine::KvsEngine;
pub use error::KvsError;
pub use identity::{check_meta, KVS_IDENTITY, SLED_IDENTITY};
pub use keydir::KeyDir;
pub use logstore::{get_step, remove_step, set_step, LogWrite};
pub use record::{decode_record, encode_record, Record};
pub use server::{GetResponse, KvsServer, RemoveResponse, Reply, Req, SetResponse};

verus! {

} // verus!
