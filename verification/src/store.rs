//! Records of the market and account store.

use vstd::prelude::*;

verus! {

/// Where the store lives and how it writes.
#[derive(Debug, Clone)]
pub struct StoreConfig {
    pub path: String,
    /// Flush every write to disk.
    pub sync: bool,
}

impl Default for StoreConfig {
    /// `hiquant.db`, without flushing every write.
    fn default() -> (r: StoreConfig)
        ensures
            r.path@ == "hiquant.db"@,
            !r.sync,
    {
        StoreConfig { path: String::from_str("hiquant.db"), sync: false }
    }
}

impl StoreConfig {
    /// A store at `path`, without flushing every write.
    pub fn new(path: String) -> (r: StoreConfig)
        ensures
            r.path == path,
            !r.sync,
    {
        StoreConfig { path, sync: false }
    }
}

/// What an incremental write did.
#[derive(Debug, Clone, Default)]
pub struct UpsertResult {
    pub inserted: usize,
    pub updated: usize,
    pub last_datetime: Option<String>,
}

/// A stored account snapshot.
#[derive(Debug, Clone)]
pub struct AccountSnapshot {
    pub id: i64,
    pub account_cookie: String,
    pub snapshot_time: String,
    pub qifi_json: String,
}

} // verus!
