//! Server configuration values.
//!
//! Plain data carried from the configuration file to the process wiring;
//! reading and parsing the file stay with the caller.

use vstd::prelude::*;

verus! {

/// Settings of the listening endpoint.
#[derive(Clone, Debug, PartialEq)]
pub struct GeneralConfig {
    pub addr: String,
}

/// Settings of the database connection.
#[derive(Clone, Debug, PartialEq)]
pub struct DbConfig {
    pub db_conn: String,
}

/// The whole server configuration.
#[derive(Clone, Debug, PartialEq)]
pub struct ServerConfig {
    pub general: GeneralConfig,
    pub db: DbConfig,
}

} // verus!
