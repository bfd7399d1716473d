//! Music from video platforms: what a video is, where it goes and how a
//! playlist is kept in order.

pub mod downloader;
pub mod metadata;
pub mod playlist;
pub mod sidecar;

pub use metadata::{Item, MetadataProvider, Outcome, ProviderError, Track};
