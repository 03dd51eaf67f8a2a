//! Engine for installing game add-ons that arrive as zip archives.
//!
//! The library sanitizes archive entry names, discovers which top-level
//! folders an archive owns, refuses to clobber folders owned by someone
//! else, and plans the removal of a previous version together with the
//! extraction of the new one.  Network retrieval, configuration storage
//! and the command line live outside the library.

pub mod addons;
pub mod archive;
pub mod conflict;
pub mod errors;
pub mod install;
pub mod model;
pub mod ownership;
pub mod paths;
