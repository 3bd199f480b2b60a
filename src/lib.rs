//! A single-file container of named, independently compressed byte streams,
//! with a trailing table of contents.
pub mod codec;
pub mod depot_handle;
pub mod error;
pub mod handle;
pub mod laws;
pub mod order;
pub mod outside;
pub mod timestamp;
pub mod types;

pub use crate::depot_handle::{DepotHandle, OpenMode, PathKind};
pub use crate::error::{DepotError, ErrorKind};
pub use crate::handle::ByteHandle;
pub use crate::timestamp::TsWithTz;
pub use crate::types::{DepotToc, EntryInfo, StreamInfo, MAGIC};
