//! Taking music into the library.

pub mod albums;
pub mod artwork;
pub mod commit;
pub mod cover;
pub mod destination;
pub mod draft;
pub mod grouping;
pub mod inbox;
pub mod numbering;
pub mod place;
pub mod placement;
pub mod proposal;
pub mod propose;
pub mod register;
pub mod run;
pub mod scanner;
pub mod settling;
pub mod sidecar;
pub mod snapshot;
pub mod walk;
pub mod ytmusic;
