//! Database settings: which backend a URL names and the pool sizes.
use vstd::prelude::*;

use crate::fmt::{parse_u64, parse_u64_spec};
use crate::text::{owned, str_eq};

verus! {

/// The database product behind a connection URL.
#[derive(Clone, Copy, Debug, PartialEq, Eq, Structural)]
pub enum DatabaseBackend {
    Postgres,
    Sqlite,
}

/// How to reach the database.
#[derive(Debug)]
pub struct DatabaseConfig {
    pub url: String,
    pub max_connections: u32,
    pub min_connections: u32,
    pub backend: DatabaseBackend,
}

/// Why the database settings cannot be used.
#[derive(Debug)]
pub enum ConfigError {
    MissingDatabaseUrl,
    InvalidMaxConnections(String),
    InvalidMinConnections(String),
}

/// What `str::parse::<u32>` accepts.
pub open spec fn parse_u32_spec(s: Seq<char>) -> Option<u32> {
    match parse_u64_spec(s) {
        Some(v) => if v <= u32::MAX {
            Some(v as u32)
        } else {
            None
        },
        None => None,
    }
}

/// `s.parse::<u32>()`, with `None` for every input it rejects.
pub fn parse_u32(s: &str) -> (r: Option<u32>)
    ensures
        r == parse_u32_spec(s@),
{
    match parse_u64(s) {
        Some(v) => if v <= u32::MAX as u64 {
            Some(v as u32)
        } else {
            None
        },
        None => None,
    }
}

/// The backend a URL names: SQLite for URLs starting with `sqlite`, else PostgreSQL.
pub open spec fn backend_of(url: Seq<char>) -> DatabaseBackend {
    if url.len() >= 6 && url.take(6) == "sqlite"@ {
        DatabaseBackend::Sqlite
    } else {
        DatabaseBackend::Postgres
    }
}

pub fn backend_for_url(url: &str) -> (r: DatabaseBackend)
    ensures
        r == backend_of(url@),
{
    if url.unicode_len() >= 6 && str_eq(url.substring_char(0, 6), "sqlite") {
        DatabaseBackend::Sqlite
    } else {
        DatabaseBackend::Postgres
    }
}

impl DatabaseConfig {
    /// The settings from the values of `DATABASE_URL`,
    /// `DATABASE_MAX_CONNECTIONS` and `DATABASE_MIN_CONNECTIONS` (each `None`
    /// where unset): the URL is required, the pool sizes default to 10 and 1
    /// and must be unsigned 32-bit integers when given.
    pub fn from_values(url: Option<String>, max: Option<String>, min: Option<String>) -> (r: Result<DatabaseConfig, ConfigError>)
        ensures
            url is None ==> r matches Err(ConfigError::MissingDatabaseUrl),
            url is Some && max is Some && parse_u32_spec(max->0@) is None ==> (r matches Err(
                ConfigError::InvalidMaxConnections(v),
            ) && v@ == max->0@),
            url is Some && (max is None || parse_u32_spec(max->0@) is Some) && min is Some && parse_u32_spec(min->0@) is None
                ==> (r matches Err(ConfigError::InvalidMinConnections(v)) && v@ == min->0@),
            r matches Ok(c) ==> {
                &&& url is Some && c.url@ == url->0@
                &&& c.max_connections == (match max {
                    Some(m) => parse_u32_spec(m@)->0,
                    None => 10,
                })
                &&& c.min_connections == (match min {
                    Some(m) => parse_u32_spec(m@)->0,
                    None => 1,
                })
                &&& c.backend == backend_of(url->0@)
            },
            url is Some && (max is None || parse_u32_spec(max->0@) is Some) && (min is None || parse_u32_spec(min->0@) is Some)
                ==> r is Ok,
    {
        let url = match url {
            Some(u) => u,
            None => {
                return Err(ConfigError::MissingDatabaseUrl);
            },
        };
        let max_connections = match max {
            Some(v) => match parse_u32(v.as_str()) {
                Some(n) => n,
                None => {
                    return Err(ConfigError::InvalidMaxConnections(v));
                },
            },
            None => 10,
        };
        let min_connections = match min {
            Some(v) => match parse_u32(v.as_str()) {
                Some(n) => n,
                None => {
                    return Err(ConfigError::InvalidMinConnections(v));
                },
            },
            None => 1,
        };
        let backend = backend_for_url(url.as_str());
        Ok(DatabaseConfig { backend, url, max_connections, min_connections })
    }
}

impl ConfigError {
    /// What went wrong, in words.
    pub fn message(&self) -> (r: String)
        ensures
            r@ == (match self {
                ConfigError::MissingDatabaseUrl => "DATABASE_URL environment variable is not set"@,
                ConfigError::InvalidMaxConnections(v) => "DATABASE_MAX_CONNECTIONS is not a valid u32: "@ + v@,
                ConfigError::InvalidMinConnections(v) => "DATABASE_MIN_CONNECTIONS is not a valid u32: "@ + v@,
            }),
    {
        match self {
            ConfigError::MissingDatabaseUrl => owned("DATABASE_URL environment variable is not set"),
            ConfigError::InvalidMaxConnections(v) => {
                let mut m = owned("DATABASE_MAX_CONNECTIONS is not a valid u32: ");
                m.append(v.as_str());
                m
            },
            ConfigError::InvalidMinConnections(v) => {
                let mut m = owned("DATABASE_MIN_CONNECTIONS is not a valid u32: ");
                m.append(v.as_str());
                m
            },
        }
    }
}

} // verus!
