//! The images of a cursor: raster images as PNG data, vector images as
//! parsed SVG documents.
//!
//! Decoding PNG data is the `png` crate's business and parsing SVG data is
//! `usvg`'s. What this module states of them is believed, not proved.

use resvg::usvg::Error as UsvgError;
use resvg::usvg::Options;
use resvg::usvg::Tree;
use std::io::Cursor;
use vstd::prelude::*;

verus! {

/// `usvg::Tree`, a parsed SVG document, carried through as it is.
#[verifier::external_type_specification]
#[verifier::external_body]
pub struct ExTree(Tree);

/// `usvg::Error`, carried through as it is.
#[verifier::external_type_specification]
#[verifier::external_body]
pub struct ExUsvgError(UsvgError);

/// The PNG colour type of pixels with red, green, blue and alpha samples.
pub const RGBA: u8 = 6;

/// What the `png` crate decodes from PNG data: the bytes of the first
/// frame and the number of its colour type, or nothing where the data
/// cannot be decoded.
pub uninterp spec fn png_frame(data: Seq<u8>) -> Option<(Seq<u8>, u8)>;

/// Whether `usvg::Tree::from_data` reads SVG data as a document, with the
/// options that `usvg` starts with.
pub uninterp spec fn is_svg_document(data: Seq<u8>) -> bool;

/// A decoded frame with its bytes as a sequence.
pub open spec fn frame_view(frame: Option<(Vec<u8>, u8)>) -> Option<(Seq<u8>, u8)> {
    match frame {
        Some((pixels, colour)) => Some((pixels@, colour)),
        None => None,
    }
}

/// The bytes that an optional buffer holds.
pub open spec fn bytes_of(buffer: Option<Vec<u8>>) -> Option<Seq<u8>> {
    match buffer {
        Some(b) => Some(b@),
        None => None,
    }
}

/// The pixels of a decoded frame, where it has red, green, blue and alpha
/// samples.
pub open spec fn rgba_of(frame: Option<(Seq<u8>, u8)>) -> Option<Seq<u8>> {
    match frame {
        Some((pixels, colour)) => if colour == RGBA {
            Some(pixels)
        } else {
            None
        },
        None => None,
    }
}

/// The RGBA pixels that PNG data holds, if it can be decoded and holds
/// such pixels.
pub open spec fn rgba_pixels(data: Seq<u8>) -> Option<Seq<u8>> {
    rgba_of(png_frame(data))
}

/// Decodes the first frame of PNG data with `png::Decoder::read_info` and
/// `png::Reader::next_frame`, into a buffer of the size that the reader
/// asks for. Believed: what is decoded depends on the data alone.
#[verifier::external_body]
fn decode_png(data: &[u8]) -> (frame: Option<(Vec<u8>, u8)>)
    ensures
        frame_view(frame) == png_frame(data@),
{
    let mut reader = png::Decoder::new(Cursor::new(data)).read_info().ok()?;
    let mut pixels = vec![0; reader.output_buffer_size()];
    let info = reader.next_frame(&mut pixels).ok()?;
    Some((pixels, info.color_type as u8))
}

/// Calls `usvg::Tree::from_data` with `usvg::Options::default()`.
/// Believed: whether the data is read as a document depends on the data
/// alone.
#[verifier::external_body]
fn parse_svg(data: &[u8]) -> (tree: Result<Tree, UsvgError>)
    ensures
        tree is Ok <==> is_svg_document(data@),
{
    Tree::from_data(data, &Options::default())
}

/// The pixels of a decoded frame, where its colour type is RGBA.
pub fn rgba_frame(frame: Option<(Vec<u8>, u8)>) -> (pixels: Option<Vec<u8>>)
    ensures
        bytes_of(pixels) == rgba_of(frame_view(frame)),
{
    match frame {
        Some((pixels, colour)) => {
            if colour == RGBA {
                Some(pixels)
            } else {
                None
            }
        },
        None => None,
    }
}

/// Decodes PNG data into RGBA pixels, at the dimensions that the data
/// has. Data that cannot be decoded, or that holds other than RGBA
/// pixels, gives nothing.
pub fn decode_rgba(data: &[u8]) -> (pixels: Option<Vec<u8>>)
    ensures
        bytes_of(pixels) == rgba_pixels(data@),
{
    rgba_frame(decode_png(data))
}

/// What an image holds.
#[derive(Debug)]
pub enum Data {
    /// PNG data, not yet decoded.
    Png(Vec<u8>),
    /// A parsed SVG document.
    Svg(Tree),
}

impl Data {
    /// Parses the data of an SVG image. Data that is no SVG document
    /// gives the parser's error.
    pub fn svg(bytes: &[u8]) -> (data: Result<Data, UsvgError>)
        ensures
            data is Ok <==> is_svg_document(bytes@),
            data matches Ok(d) ==> d is Svg,
    {
        match parse_svg(bytes) {
            Ok(tree) => Ok(Data::Svg(tree)),
            Err(e) => Err(e),
        }
    }
}

/// One image of a cursor.
#[derive(Debug)]
pub struct Image {
    pub data: Data,
    /// The nominal size in pixels.
    pub size: u32,
    /// The time in milliseconds for which an animation shows the image.
    pub delay: Option<u32>,
}

} // verus!
