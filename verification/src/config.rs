//! Application and store-connection configuration values.
//!
//! Reading the process environment is the surrounding application's
//! business; this module holds the configuration data itself and the two
//! fixed profiles.

use vstd::prelude::*;

verus! {

/// How the application runs: against the backing store, or on sample data.
pub struct AppConfig {
    pub use_database: bool,
    pub database_url: Option<String>,
    pub database_max_connections: u32,
}

impl AppConfig {
    /// The development profile: sample data, no store.
    pub fn development() -> (r: Self)
        ensures
            !r.use_database,
            r.database_url is None,
            r.database_max_connections == 10,
    {
        AppConfig { use_database: false, database_url: None, database_max_connections: 10 }
    }

    /// The production profile: the store at `database_url`.
    pub fn production(database_url: String) -> (r: Self)
        ensures
            r.use_database,
            r.database_url matches Some(u) && u@ == database_url@,
            r.database_max_connections == 10,
    {
        AppConfig { use_database: true, database_url: Some(database_url), database_max_connections: 10 }
    }
}

/// Connection-pool configuration for the backing store.
pub struct DatabaseConfig {
    pub database_url: String,
    pub max_connections: usize,
    pub min_connections: usize,
    pub connection_timeout: u64,
}

impl DatabaseConfig {
    /// The default pool shape around a given store address.
    pub fn with_url(database_url: String) -> (r: Self)
        ensures
            r.database_url@ == database_url@,
            r.max_connections == 10,
            r.min_connections == 1,
            r.connection_timeout == 30,
    {
        DatabaseConfig {
            database_url,
            max_connections: 10,
            min_connections: 1,
            connection_timeout: 30,
        }
    }
}

} // verus!
