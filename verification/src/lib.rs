//! Hyprcursor themes: the manifest and metadata formats, cursor containers,
//! and the choice of frames for a requested size.
//!
//! The library works on values in memory. A caller reads directories and
//! files and hands over their contents; the library finds the theme among
//! candidates, loads cursors from the bytes of their containers, finds a
//! cursor by name and renders its frames. Vector images are drawn by a
//! rasterizer that the caller passes in.

pub mod archive;
pub mod cursor;
pub mod error;
pub mod image;
pub mod manifest;
pub mod meta;
pub mod number;
pub mod path;
pub mod text;
pub mod theme;

pub use cursor::{Frame, Hyprcursor};
pub use error::Error;
pub use theme::HyprcursorTheme;
