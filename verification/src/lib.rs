//! The engine of a file finder: which file names match, which entries are
//! hidden, what a traversal does with each path it meets, and when it is done.
//!
//! The library reads no file and prints nothing. A caller builds a
//! [`finder::Finder`] from what the command line gave, hands it to a
//! [`walker::Walker`] with the paths to search, and then takes units from
//! the walker, looks at the file system for each, and hands back what it
//! found; the walker decides what is reported and which paths follow, and
//! tells when the traversal is complete. [`traversal`] states what such a
//! traversal finds, in whatever order its units end.

pub mod config;
pub mod finder;
pub mod hidden;
pub mod json;
pub mod matcher;
pub mod sink;
pub mod text;
pub mod tracker;
pub mod traversal;
pub mod visit;
pub mod walker;
