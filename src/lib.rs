//! A compilation database: a JSON list of build-command records, read into a
//! deduplicated set of entries and written back in either on-disk shape.

pub mod codec;
pub mod database;
pub mod entry;
pub mod error;
pub mod json;
pub mod laws;
pub mod record;
pub mod shell;

pub use crate::database::Database;
pub use crate::entry::{Entries, Entry};
pub use crate::error::{ConversionError, Error};
pub use crate::record::{from, into, DatabaseFormat, GenericEntry};
