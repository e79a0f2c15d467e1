//! Errors of the backend, and how a failed host I/O call maps onto them.
use vstd::prelude::*;

verus! {

/// An error of a backend operation.
#[derive(Debug, Clone, PartialEq, Eq)]
pub enum BackendError {
    NotFound { path: String },
    PermissionDenied { path: String },
    AlreadyExists { path: String },
    DirectoryNotEmpty { path: String },
    IsDirectory { path: String },
    NotDirectory { path: String },
    InvalidPath { path: String },
    NoSpace,
    FileTooLarge,
    ReadOnly,
    NotSupported { operation: String },
    Other { message: String },
}

/// The mathematical value of a [`BackendError`]: its variant, with each
/// string taken as its characters.
pub enum ErrorView {
    NotFound { path: Seq<char> },
    PermissionDenied { path: Seq<char> },
    AlreadyExists { path: Seq<char> },
    DirectoryNotEmpty { path: Seq<char> },
    IsDirectory { path: Seq<char> },
    NotDirectory { path: Seq<char> },
    InvalidPath { path: Seq<char> },
    NoSpace,
    FileTooLarge,
    ReadOnly,
    NotSupported { operation: Seq<char> },
    Other { message: Seq<char> },
}

impl View for BackendError {
    type V = ErrorView;

    open spec fn view(&self) -> ErrorView {
        match self {
            BackendError::NotFound { path } => ErrorView::NotFound { path: path@ },
            BackendError::PermissionDenied { path } => ErrorView::PermissionDenied { path: path@ },
            BackendError::AlreadyExists { path } => ErrorView::AlreadyExists { path: path@ },
            BackendError::DirectoryNotEmpty { path } => ErrorView::DirectoryNotEmpty {
                path: path@,
            },
            BackendError::IsDirectory { path } => ErrorView::IsDirectory { path: path@ },
            BackendError::NotDirectory { path } => ErrorView::NotDirectory { path: path@ },
            BackendError::InvalidPath { path } => ErrorView::InvalidPath { path: path@ },
            BackendError::NoSpace => ErrorView::NoSpace,
            BackendError::FileTooLarge => ErrorView::FileTooLarge,
            BackendError::ReadOnly => ErrorView::ReadOnly,
            BackendError::NotSupported { operation } => ErrorView::NotSupported {
                operation: operation@,
            },
            BackendError::Other { message } => ErrorView::Other { message: message@ },
        }
    }
}

/// The result type of the backend.
pub type Result<T> = std::result::Result<T, BackendError>;

/// The kinds of host I/O failure that the backend tells apart (those of
/// `std::io::ErrorKind` that it maps; every other kind is `Other`).
#[derive(Debug, Clone, Copy, PartialEq, Eq)]
pub enum IoErrorKind {
    NotFound,
    PermissionDenied,
    AlreadyExists,
    DirectoryNotEmpty,
    IsADirectory,
    NotADirectory,
    StorageFull,
    FileTooLarge,
    ReadOnlyFilesystem,
    Unsupported,
    Other,
}

/// A failed host I/O call: its kind and the text the host gave for it.
#[derive(Debug, Clone, PartialEq, Eq)]
pub struct IoFailure {
    pub kind: IoErrorKind,
    pub message: String,
}

/// The backend error for a host failure of kind `kind` with text `message`
/// on `path`.
pub open spec fn io_error_view(kind: IoErrorKind, message: Seq<char>, path: Seq<char>) -> ErrorView {
    match kind {
        IoErrorKind::NotFound => ErrorView::NotFound { path },
        IoErrorKind::PermissionDenied => ErrorView::PermissionDenied { path },
        IoErrorKind::AlreadyExists => ErrorView::AlreadyExists { path },
        IoErrorKind::DirectoryNotEmpty => ErrorView::DirectoryNotEmpty { path },
        IoErrorKind::IsADirectory => ErrorView::IsDirectory { path },
        IoErrorKind::NotADirectory => ErrorView::NotDirectory { path },
        IoErrorKind::StorageFull => ErrorView::NoSpace,
        IoErrorKind::FileTooLarge => ErrorView::FileTooLarge,
        IoErrorKind::ReadOnlyFilesystem => ErrorView::ReadOnly,
        IoErrorKind::Unsupported => ErrorView::NotSupported { operation: path },
        IoErrorKind::Other => ErrorView::Other { message },
    }
}

/// The backend error for a failed host call `error` on `path`.
pub open spec fn io_failure_view(error: IoFailure, path: Seq<char>) -> ErrorView {
    io_error_view(error.kind, error.message@, path)
}

/// Maps a failed host I/O call on `path` to the backend's error.
pub fn map_io_error(error: IoFailure, path: String) -> (r: BackendError)
    ensures
        r@ == io_failure_view(error, path@),
{
    match error.kind {
        IoErrorKind::NotFound => BackendError::NotFound { path },
        IoErrorKind::PermissionDenied => BackendError::PermissionDenied { path },
        IoErrorKind::AlreadyExists => BackendError::AlreadyExists { path },
        IoErrorKind::DirectoryNotEmpty => BackendError::DirectoryNotEmpty { path },
        IoErrorKind::IsADirectory => BackendError::IsDirectory { path },
        IoErrorKind::NotADirectory => BackendError::NotDirectory { path },
        IoErrorKind::StorageFull => BackendError::NoSpace,
        IoErrorKind::FileTooLarge => BackendError::FileTooLarge,
        IoErrorKind::ReadOnlyFilesystem => BackendError::ReadOnly,
        IoErrorKind::Unsupported => BackendError::NotSupported { operation: path },
        IoErrorKind::Other => BackendError::Other { message: error.message },
    }
}

} // verus!
