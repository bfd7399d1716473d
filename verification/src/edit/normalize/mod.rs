//! Normalising lossless files to FLAC: the paths that are planned, the batch
//! that is recorded, and the steps in which a file takes the place of its source
//! while the source goes to the archive.

pub mod commit;
pub mod inspect;
pub mod plan;
pub mod stage;
pub mod undo;
