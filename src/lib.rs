//! Client library for the AniDB UDP API: ED2K fingerprints of files, the
//! text protocol, the login session with its send pacing, and a response cache.
use vstd::prelude::*;

pub mod cache;
pub mod client;
pub mod ed2k;
pub mod errors;
pub mod md4;
pub mod naming;
pub mod protocol;
pub mod text;

pub use cache::Cache;
pub use client::{Anidb, Session, Step};
pub use ed2k::Ed2kHash;
pub use errors::{AnidbError, Result};
pub use protocol::{File, ServerReply};

verus! {

} // verus!
