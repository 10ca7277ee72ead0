//! Backend core of a portfolio-management service: credentials and sessions,
//! the ownership / publication access rule, portfolio and work stores with
//! their child tables, and chunked big-file chains.
//!
//! The relational state lives in [`database::Database`]; every store
//! operation is a verified function over it.

pub mod access;
pub mod api_errors;
pub mod array_string_types;
pub mod crypto;
pub mod data;
pub mod database;
pub mod encoding;
pub mod request_state;
pub mod routes;
pub mod services;
