//! What the HTTP handlers decide: input validation, which store operation
//! runs, and which API error a failure becomes.

pub mod files;
pub mod portfolio;
pub mod user;
pub mod work;
