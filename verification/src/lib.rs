//! A read-only filesystem adapter over a remote WebDAV directory tree.
//!
//! The crate holds the verified core of the mount: a registry that maps
//! filesystem paths to stable inode numbers, a time-bounded cache of
//! directory listings, a depth-bounded prefetch walker, the kernel-facing
//! adapter logic (lookup, getattr, readdir, open, read, extended
//! attributes), and the parser for PROPFIND listing responses. Network
//! transport, credential storage and the mount loop live outside the
//! library and hand it plain values.

pub mod attr;
pub mod cache;
pub mod config;
pub mod filesystem;
pub mod listing;
pub mod paths;
pub mod prefetch;
pub mod propfind;
pub mod registry;

pub use cache::CacheStats;
pub use cache::DirectoryCache;
pub use config::MountConfig;
pub use filesystem::DavFs;
pub use listing::DavEntry;
pub use prefetch::Prefetcher;
pub use registry::InodeRegistry;
