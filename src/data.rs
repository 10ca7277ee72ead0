//! Rows of the relational model and the objects assembled from them.

pub mod portfolio;
pub mod portfolios;
pub mod user;
pub mod work;
