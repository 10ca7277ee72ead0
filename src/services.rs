//! Store operations over the tables of [`crate::database::Database`].

pub mod user;
pub mod subtables;
pub mod work;
pub mod big_files;
pub mod portfolio;
