//! A resource archive container with a name filter language to select its
//! entries, and the small integer vector kit that the engine shares with
//! them.

pub mod archive;
pub mod error;
pub mod filter;
pub mod format;
pub mod location;
pub mod num_traits;
pub mod options;
pub mod path;
pub mod select;
pub mod vector;
