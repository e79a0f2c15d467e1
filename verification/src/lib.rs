//! A file-system backend for a WebDAV server: the path rules, the error
//! mapping and the decisions of every operation.
//! The host file-system calls themselves are made by the caller, which hands
//! the library what it observed and carries out the plans it gets back.
pub mod text;
pub mod error;
pub mod path;
pub mod metadata;
pub mod fs_backend;
pub mod copy_walk;
pub mod cli;
pub mod guest;
pub mod laws;
pub mod path_laws;

pub use error::{BackendError, Result};
pub use fs_backend::FileSystemBackend;
pub use metadata::{DirEntry, Metadata};
pub use path::normalize_path;
