//! An in-process asset loader and cache.
//!
//! Callers request a resource named by a locator string together with a format
//! descriptor, and receive a shared, type-checked handle to the parsed result.
//! Repeated requests for the same (locator, format) pair return the cached
//! result instead of parsing again; unreferenced results are reclaimed through
//! non-owning references and reloaded lazily on the next request.

pub mod asset;
pub mod error;
pub mod formats;
pub mod mgr;
pub mod path;
pub mod strutil;

pub use asset::{AssetTag, AssetValue};
pub use error::{Error, Status};
pub use formats::{Asset, Format};
pub use mgr::{derive_key, load, AssetCache, Handle, LocalCache};
pub use path::{open_byte_source, select_chunk, ContainerChunk, Path, Source};
