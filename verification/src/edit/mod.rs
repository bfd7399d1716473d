//! Editing the library: batches of operations on files and what they leave in
//! the catalogue.

pub mod batch;
pub mod error;
pub mod history;
pub mod md5fill;
pub mod naming;
pub mod normalize;
pub mod picture;
pub mod rename;
pub mod revert;
pub mod tags;
