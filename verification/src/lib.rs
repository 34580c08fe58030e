//! An archive of meteorological sounding files.
//!
//! The archive keeps an index of sites, sounding types and locations, each
//! row found again by its natural key, and a table of files that binds a
//! site, a sounding type and an initialization time to a compressed blob in
//! a store. From the table of files it computes, per site, which
//! initialization times are covered and which are missing.
//!
//! Index and store are values: whoever keeps an archive on disk reads the
//! rows and the blobs into an [`Archive`], and writes through what changes.

pub mod archive;
pub mod blobs;
pub mod errors;
pub mod files;
pub mod inventory;
pub mod location;
pub mod naming;
pub mod optional;
pub mod site;
pub mod sounding_type;
pub mod trusted;

pub use crate::archive::Archive;
pub use crate::blobs::BlobStore;
pub use crate::errors::BufkitDataErr;
pub use crate::inventory::Inventory;
pub use crate::location::Location;
pub use crate::site::{Site, StateProv};
pub use crate::sounding_type::{FileType, SoundingType};
