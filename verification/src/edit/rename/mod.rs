//! Renaming tracks in bulk: the paths that are planned, the batch that is
//! recorded, and the two phases in which the files move.

pub mod albums;
pub mod apply;
pub mod plan;
pub mod prepare;
