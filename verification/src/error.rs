//! What can go wrong while a theme is found and loaded.

use crate::meta::{MetaError, MetaFault};
use resvg::usvg::Error as UsvgError;
use vstd::prelude::*;
use zip::result::ZipError;

verus! {

/// A text that should have been an unsigned integer and is none.
#[derive(Debug)]
pub struct InvalidInt {
    /// The text as it stood in the file, trimmed.
    pub number: String,
}

/// A text that should have been a floating-point literal and is none.
#[derive(Debug)]
pub struct InvalidFloat {
    /// The text as it stood in the file, trimmed.
    pub number: String,
}

/// Why a theme could not be found or loaded.
#[derive(Debug)]
#[allow(inconsistent_fields)]
pub enum Error {
    /// No theme of the requested name is among the candidates.
    ThemeNotFound,
    /// The theme's manifest names no cursors directory.
    CursorsDirectoryNotSet,
    /// The cursors directory that the manifest names is no directory.
    CursorsDirectoryDoesntExist(String),
    /// The metadata of a container is wrong; `path` is that of its
    /// metadata entry.
    MetaError { err: MetaError, path: String },
    /// A container holds no metadata entry.
    MetaNotFound(String),
    /// An entry of a container could not be read to its end.
    Io(std::io::Error),
    /// A container is no archive, or an entry of it could not be opened.
    ZipError { err: ZipError, path: String },
    /// An SVG image is no SVG document; `file` is the name of its entry.
    UsvgErr { err: UsvgError, file: String },
    /// A manifest or metadata is written in TOML, which is not read;
    /// `path` is that of the theme directory or of the container.
    Unsupported(String),
}

/// An `Error` with its texts as sequences of characters and without the
/// contents of the errors that come from elsewhere.
pub enum Failure {
    ThemeNotFound,
    CursorsDirectoryNotSet,
    CursorsDirectoryDoesntExist(Seq<char>),
    MetaError { err: MetaFault, path: Seq<char> },
    MetaNotFound(Seq<char>),
    Io,
    ZipError { path: Seq<char> },
    UsvgErr { file: Seq<char> },
    Unsupported(Seq<char>),
}

impl View for Error {
    type V = Failure;

    open spec fn view(&self) -> Failure {
        match *self {
            Error::ThemeNotFound => Failure::ThemeNotFound,
            Error::CursorsDirectoryNotSet => Failure::CursorsDirectoryNotSet,
            Error::CursorsDirectoryDoesntExist(dir) => Failure::CursorsDirectoryDoesntExist(dir@),
            Error::MetaError { err, path } => Failure::MetaError { err: err@, path: path@ },
            Error::MetaNotFound(path) => Failure::MetaNotFound(path@),
            Error::Io(_) => Failure::Io,
            Error::ZipError { err, path } => Failure::ZipError { path: path@ },
            Error::UsvgErr { err, file } => Failure::UsvgErr { file: file@ },
            Error::Unsupported(path) => Failure::Unsupported(path@),
        }
    }
}

} // verus!
