//! Process configuration, passed explicitly into the components that need
//! it (token service, progress tracker, analytics aggregator) instead of
//! living in ambient global state.

use vstd::prelude::*;

verus! {

/// Server configuration. The signing secret and the token lifetime drive
/// the token service; the rest parameterises the surrounding process.
pub struct Config {
    pub host: String,
    pub port: u16,
    pub database_url: String,
    /// Symmetric secret the token service signs and verifies with.
    pub jwt_secret: String,
    /// Token lifetime in seconds.
    pub jwt_expires_in: u64,
    pub book_storage_path: String,
}

} // verus!
