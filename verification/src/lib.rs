//! Decision logic of a music library manager.

pub mod catalog;
pub mod digest;
pub mod edit;
pub mod forms;
pub mod fsroot;
pub mod gc;
pub mod hex;
pub mod import;
pub mod lists;
pub mod order;
pub mod relpath;
pub mod split;
pub mod text;
pub mod unicode;
