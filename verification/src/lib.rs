//! A per-chunk cache of template definitions, keyed by the byte offset at
//! which each definition starts in the chunk's raw buffer.

pub mod cache;
pub mod error;
pub mod laws;
pub mod model;
pub mod offset;

pub use crate::cache::TemplateCache;
pub use crate::error::PopulateError;
pub use crate::offset::{Offset, PositionError, SENTINEL};
