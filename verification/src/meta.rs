//! Cursor metadata: the `meta.hl` entry of a cursor container.
//!
//! The metadata names the resize algorithm, the hotspot, the aliases under
//! which the cursor is found, and the images of the cursor, each with its
//! nominal size, the entry that holds it and, for animations, a delay.

use crate::error::{InvalidFloat, InvalidInt};
use crate::number::{is_float, is_float_literal, parse_u32, parse_unsigned};
use crate::path::{extension, path_extension};
use crate::text::{
    entries, entry_views, find_char, lemma_split, parse_entries, same_text, split, text_of,
    to_chars, trim, trimmed_piece, Entry,
};
use vstd::prelude::*;
use vstd::string::*;

verus! {

/// What an image is stored as.
#[derive(Debug, Clone, Copy, PartialEq, Eq, Structural)]
pub enum Kind {
    /// A raster image.
    Png,
    /// A vector document.
    Svg,
}

/// How a raster image is to be resized.
#[derive(Debug, Clone, Copy, PartialEq, Eq, Structural)]
pub enum ResizeAlgorithm {
    /// Images are shown as they are stored; the token `none`.
    NoResize,
    /// The token `bilinear`.
    Bilinear,
    /// The token `nearest`.
    Nearest,
}

/// What can be wrong with cursor metadata.
#[derive(Debug)]
pub enum MetaError {
    /// The metadata defines no size.
    NoSizeDefined,
    /// The resize algorithm is none of `none`, `bilinear`, `nearest`.
    InvalidResizeAlgorithm(String),
    /// `hotspot_x` is not set.
    MissingHotspotX,
    /// `hotspot_x` is no floating-point literal.
    InvalidHotspotX(InvalidFloat),
    /// `hotspot_y` is not set.
    MissingHotspotY,
    /// `hotspot_y` is no floating-point literal.
    InvalidHotspotY(InvalidFloat),
    /// A size definition is empty.
    EmptyDefinition,
    /// The size of a size definition is no unsigned integer.
    InvalidSize(InvalidInt),
    /// A size definition names no file.
    FileMissing,
    /// The file of a size definition has no extension.
    MissingExtension,
    /// The file of a size definition is neither `png` nor `svg`.
    InvalidExtension(String),
    /// The delay of a size definition is no unsigned integer.
    InvalidDelay(InvalidInt),
    /// The delay of a size definition is zero.
    DelayIsZero,
    /// The metadata defines both raster and vector images.
    MoreThanOneFormat,
}

/// A `MetaError` with its texts as sequences of characters.
pub enum MetaFault {
    NoSizeDefined,
    InvalidResizeAlgorithm(Seq<char>),
    MissingHotspotX,
    InvalidHotspotX(Seq<char>),
    MissingHotspotY,
    InvalidHotspotY(Seq<char>),
    EmptyDefinition,
    InvalidSize(Seq<char>),
    FileMissing,
    MissingExtension,
    InvalidExtension(Seq<char>),
    InvalidDelay(Seq<char>),
    DelayIsZero,
    MoreThanOneFormat,
}

impl View for MetaError {
    type V = MetaFault;

    open spec fn view(&self) -> MetaFault {
        match *self {
            MetaError::NoSizeDefined => MetaFault::NoSizeDefined,
            MetaError::InvalidResizeAlgorithm(s) => MetaFault::InvalidResizeAlgorithm(s@),
            MetaError::MissingHotspotX => MetaFault::MissingHotspotX,
            MetaError::InvalidHotspotX(e) => MetaFault::InvalidHotspotX(e.number@),
            MetaError::MissingHotspotY => MetaFault::MissingHotspotY,
            MetaError::InvalidHotspotY(e) => MetaFault::InvalidHotspotY(e.number@),
            MetaError::EmptyDefinition => MetaFault::EmptyDefinition,
            MetaError::InvalidSize(e) => MetaFault::InvalidSize(e.number@),
            MetaError::FileMissing => MetaFault::FileMissing,
            MetaError::MissingExtension => MetaFault::MissingExtension,
            MetaError::InvalidExtension(s) => MetaFault::InvalidExtension(s@),
            MetaError::InvalidDelay(e) => MetaFault::InvalidDelay(e.number@),
            MetaError::DelayIsZero => MetaFault::DelayIsZero,
            MetaError::MoreThanOneFormat => MetaFault::MoreThanOneFormat,
        }
    }
}

/// One image of a cursor, as the metadata defines it.
#[derive(Debug)]
pub struct Size {
    /// The nominal size in pixels.
    pub size: u32,
    /// The name of the entry that holds the image.
    pub file: String,
    /// The time in milliseconds for which an animation shows the image;
    /// never zero.
    pub delay: Option<u32>,
    /// What the image is stored as, by the extension of `file`.
    pub kind: Kind,
}

/// A `Size` with its file name as a sequence of characters.
pub struct SizeView {
    pub size: u32,
    pub file: Seq<char>,
    pub delay: Option<u32>,
    pub kind: Kind,
}

impl View for Size {
    type V = SizeView;

    open spec fn view(&self) -> SizeView {
        SizeView { size: self.size, file: self.file@, delay: self.delay, kind: self.kind }
    }
}

/// The image kind that a file extension stands for.
pub open spec fn kind_of_extension(ext: Option<Seq<char>>) -> Result<Kind, MetaFault> {
    match ext {
        None => Err(MetaFault::MissingExtension),
        Some(e) => if e == "png"@ {
            Ok(Kind::Png)
        } else if e == "svg"@ {
            Ok(Kind::Svg)
        } else {
            Err(MetaFault::InvalidExtension(e))
        },
    }
}

/// The delay that the third part of a size definition writes.
pub open spec fn delay_of(token: Seq<char>) -> Result<u32, MetaFault> {
    match parse_u32(token) {
        None => Err(MetaFault::InvalidDelay(token)),
        Some(d) => if d == 0 {
            Err(MetaFault::DelayIsZero)
        } else {
            Ok(d)
        },
    }
}

/// What a size definition `size, file[, delay]` says. The definition is cut
/// at its commas and each part is trimmed; parts after the third are not
/// looked at. The parts are checked in order, and the first that is wrong
/// decides the error.
pub open spec fn size_of(value: Seq<char>) -> Result<SizeView, MetaFault> {
    let parts = split(value, ',');
    let first = trim(parts[0]);
    if parts.len() == 1 && first.len() == 0 {
        Err(MetaFault::EmptyDefinition)
    } else {
        match parse_u32(first) {
            None => Err(MetaFault::InvalidSize(first)),
            Some(size) => if parts.len() < 2 {
                Err(MetaFault::FileMissing)
            } else {
                let file = trim(parts[1]);
                match kind_of_extension(path_extension(file)) {
                    Err(e) => Err(e),
                    Ok(kind) => if parts.len() < 3 {
                        Ok(SizeView { size, file, delay: None, kind })
                    } else {
                        match delay_of(trim(parts[2])) {
                            Err(e) => Err(e),
                            Ok(d) => Ok(SizeView { size, file, delay: Some(d), kind }),
                        }
                    },
                }
            },
        }
    }
}

/// A size, or the error in its place, with texts as sequences of characters.
pub open spec fn size_result(r: Result<Size, MetaError>) -> Result<SizeView, MetaFault> {
    match r {
        Ok(s) => Ok(s@),
        Err(e) => Err(e@),
    }
}

impl Kind {
    /// The kind of an image by the extension of its file: `png` or `svg`.
    pub fn from_extension(ext: Option<String>) -> (kind: Result<Kind, MetaError>)
        ensures
            match kind {
                Ok(k) => kind_of_extension(text_of(ext)) == Ok::<Kind, MetaFault>(k),
                Err(e) => kind_of_extension(text_of(ext)) == Err::<Kind, MetaFault>(e@),
            },
    {
        match ext {
            None => Err(MetaError::MissingExtension),
            Some(e) => {
                if same_text(e.as_str(), "png") {
                    Ok(Kind::Png)
                } else if same_text(e.as_str(), "svg") {
                    Ok(Kind::Svg)
                } else {
                    Err(MetaError::InvalidExtension(e))
                }
            },
        }
    }
}

/// Reads the delay of a size definition: an unsigned integer that is not
/// zero.
pub fn parse_delay(token: String) -> (delay: Result<u32, MetaError>)
    ensures
        match delay {
            Ok(d) => delay_of(token@) == Ok::<u32, MetaFault>(d),
            Err(e) => delay_of(token@) == Err::<u32, MetaFault>(e@),
        },
{
    match parse_unsigned(token.as_str()) {
        None => Err(MetaError::InvalidDelay(InvalidInt { number: token })),
        Some(d) => {
            if d == 0 {
                Err(MetaError::DelayIsZero)
            } else {
                Ok(d)
            }
        },
    }
}

impl Size {
    /// Reads a size definition `size, file[, delay]`.
    pub fn from_str(value: &str) -> (size: Result<Size, MetaError>)
        ensures
            size_result(size) == size_of(value@),
    {
        let chars = to_chars(value);
        let n: usize = chars.len();
        let ghost parts = split(value@, ',');
        assert(chars@.subrange(0, n as int) =~= value@);
        let c1: usize = find_char(&chars, 0, n, ',');
        proof {
            lemma_split(value@, ',');
            assert(value@.take(c1 as int) =~= value@.subrange(0, c1 as int));
        }
        let first = trimmed_piece(value, &chars, 0, c1);
        if c1 == n && first.as_str().is_empty() {
            return Err(MetaError::EmptyDefinition);
        }
        let size: u32 = match parse_unsigned(first.as_str()) {
            Some(size) => size,
            None => {
                return Err(MetaError::InvalidSize(InvalidInt { number: first }));
            },
        };
        if c1 == n {
            return Err(MetaError::FileMissing);
        }
        let ghost rest1 = value@.skip(c1 + 1);
        let c2: usize = find_char(&chars, c1 + 1, n, ',');
        proof {
            assert(rest1 =~= chars@.subrange(c1 + 1, n as int));
            lemma_split(rest1, ',');
            assert(parts[1] == parts.drop_first()[0]);
            assert(rest1.take(c2 - (c1 + 1)) =~= value@.subrange(c1 + 1, c2 as int));
        }
        let file = trimmed_piece(value, &chars, c1 + 1, c2);
        let kind = match Kind::from_extension(extension(file.as_str())) {
            Ok(kind) => kind,
            Err(e) => {
                return Err(e);
            },
        };
        if c2 == n {
            assert(parts.len() == 2) by {
                assert(parts.drop_first().len() == 1);
            }
            return Ok(Size { size, file, delay: None, kind });
        }
        let ghost rest2 = rest1.skip(c2 - (c1 + 1) + 1);
        let c3: usize = find_char(&chars, c2 + 1, n, ',');
        proof {
            assert(rest2 =~= chars@.subrange(c2 + 1, n as int));
            lemma_split(rest2, ',');
            assert(parts.drop_first().len() >= 2);
            assert(parts[2] == parts.drop_first().drop_first()[0]);
            assert(rest2.take(c3 - (c2 + 1)) =~= value@.subrange(c2 + 1, c3 as int));
        }
        let token = trimmed_piece(value, &chars, c2 + 1, c3);
        match parse_delay(token) {
            Ok(d) => Ok(Size { size, file, delay: Some(d), kind }),
            Err(e) => Err(e),
        }
    }
}

/// The cursor metadata of one container.
#[derive(Debug)]
pub struct Meta {
    /// The name of the cursor: the stem of its container's file name.
    pub name: String,
    /// How raster images are to be resized; `NoResize` where the metadata
    /// does not say.
    pub resize_algorithm: ResizeAlgorithm,
    /// The horizontal hotspot: a floating-point literal, as written.
    pub hotspot_x: String,
    /// The vertical hotspot: a floating-point literal, as written.
    pub hotspot_y: String,
    /// The names under which the cursor is found: its own name first, then
    /// one alias for each `define_override`.
    pub overrides: Vec<String>,
    /// The images of the cursor, one for each `define_size`; never empty,
    /// and all of one kind.
    pub sizes: Vec<Size>,
}

/// A `Meta` with its texts as sequences of characters.
pub struct MetaView {
    pub name: Seq<char>,
    pub resize_algorithm: ResizeAlgorithm,
    pub hotspot_x: Seq<char>,
    pub hotspot_y: Seq<char>,
    pub overrides: Seq<Seq<char>>,
    pub sizes: Seq<SizeView>,
}

/// The texts that a vector of strings holds.
pub open spec fn texts(v: Seq<String>) -> Seq<Seq<char>> {
    Seq::new(v.len(), |i: int| v[i]@)
}

/// The sizes that a vector holds, with texts as sequences of characters.
pub open spec fn size_views(v: Seq<Size>) -> Seq<SizeView> {
    Seq::new(v.len(), |i: int| v[i]@)
}

impl View for Meta {
    type V = MetaView;

    open spec fn view(&self) -> MetaView {
        MetaView {
            name: self.name@,
            resize_algorithm: self.resize_algorithm,
            hotspot_x: self.hotspot_x@,
            hotspot_y: self.hotspot_y@,
            overrides: texts(self.overrides@),
            sizes: size_views(self.sizes@),
        }
    }
}

/// What has been read of a metadata text so far.
pub struct MetaDraft {
    pub resize_algorithm: Option<ResizeAlgorithm>,
    pub hotspot_x: Option<Seq<char>>,
    pub hotspot_y: Option<Seq<char>>,
    pub overrides: Seq<Seq<char>>,
    pub sizes: Seq<SizeView>,
}

/// The draft before the first line: nothing is set, and the cursor's own
/// name is its first override.
pub open spec fn empty_draft(name: Seq<char>) -> MetaDraft {
    MetaDraft {
        resize_algorithm: None,
        hotspot_x: None,
        hotspot_y: None,
        overrides: seq![name],
        sizes: Seq::empty(),
    }
}

/// The resize algorithm that a token names.
pub open spec fn resize_of(token: Seq<char>) -> Result<ResizeAlgorithm, MetaFault> {
    if token == "none"@ {
        Ok(ResizeAlgorithm::NoResize)
    } else if token == "bilinear"@ {
        Ok(ResizeAlgorithm::Bilinear)
    } else if token == "nearest"@ {
        Ok(ResizeAlgorithm::Nearest)
    } else {
        Err(MetaFault::InvalidResizeAlgorithm(token))
    }
}

/// What one entry does to the draft. An entry with an identifier that the
/// format does not know changes nothing. A later `resize_algorithm`,
/// `hotspot_x` or `hotspot_y` replaces an earlier one; `define_override`
/// and `define_size` add to their lists. A size of another kind than the
/// first size is an error.
pub open spec fn draft_step(draft: MetaDraft, entry: (Seq<char>, Seq<char>)) -> Result<
    MetaDraft,
    MetaFault,
> {
    let (ident, value) = entry;
    if ident == "resize_algorithm"@ {
        match resize_of(value) {
            Ok(a) => Ok(MetaDraft { resize_algorithm: Some(a), ..draft }),
            Err(e) => Err(e),
        }
    } else if ident == "hotspot_x"@ {
        if is_float_literal(value) {
            Ok(MetaDraft { hotspot_x: Some(value), ..draft })
        } else {
            Err(MetaFault::InvalidHotspotX(value))
        }
    } else if ident == "hotspot_y"@ {
        if is_float_literal(value) {
            Ok(MetaDraft { hotspot_y: Some(value), ..draft })
        } else {
            Err(MetaFault::InvalidHotspotY(value))
        }
    } else if ident == "define_override"@ {
        Ok(MetaDraft { overrides: draft.overrides.push(value), ..draft })
    } else if ident == "define_size"@ {
        match size_of(value) {
            Err(e) => Err(e),
            Ok(size) => if draft.sizes.len() > 0 && draft.sizes[0].kind != size.kind {
                Err(MetaFault::MoreThanOneFormat)
            } else {
                Ok(MetaDraft { sizes: draft.sizes.push(size), ..draft })
            },
        }
    } else {
        Ok(draft)
    }
}

/// The draft after all entries, taken in order, or the error of the first
/// entry that has one.
pub open spec fn draft_after(draft: MetaDraft, es: Seq<(Seq<char>, Seq<char>)>) -> Result<
    MetaDraft,
    MetaFault,
>
    decreases es.len(),
{
    if es.len() == 0 {
        Ok(draft)
    } else {
        match draft_step(draft, es[0]) {
            Err(e) => Err(e),
            Ok(next) => draft_after(next, es.drop_first()),
        }
    }
}

/// The metadata that a finished draft gives: it needs a size and both
/// hotspots, and the resize algorithm defaults to `NoResize`.
pub open spec fn finish_draft(name: Seq<char>, draft: MetaDraft) -> Result<MetaView, MetaFault> {
    if draft.sizes.len() == 0 {
        Err(MetaFault::NoSizeDefined)
    } else if draft.hotspot_x is None {
        Err(MetaFault::MissingHotspotX)
    } else if draft.hotspot_y is None {
        Err(MetaFault::MissingHotspotY)
    } else {
        Ok(
            MetaView {
                name,
                resize_algorithm: match draft.resize_algorithm {
                    Some(a) => a,
                    None => ResizeAlgorithm::NoResize,
                },
                hotspot_x: draft.hotspot_x->0,
                hotspot_y: draft.hotspot_y->0,
                overrides: draft.overrides,
                sizes: draft.sizes,
            },
        )
    }
}

/// What the entries of a metadata text say of the cursor `name`.
pub open spec fn meta_of_entries(name: Seq<char>, es: Seq<(Seq<char>, Seq<char>)>) -> Result<
    MetaView,
    MetaFault,
> {
    match draft_after(empty_draft(name), es) {
        Err(e) => Err(e),
        Ok(draft) => finish_draft(name, draft),
    }
}

/// What a metadata text says of the cursor `name`.
pub open spec fn meta_of(name: Seq<char>, text: Seq<char>) -> Result<MetaView, MetaFault> {
    meta_of_entries(name, entries(text))
}

/// Metadata, or the error in its place, with texts as sequences of
/// characters.
pub open spec fn meta_result(r: Result<Meta, MetaError>) -> Result<MetaView, MetaFault> {
    match r {
        Ok(m) => Ok(m@),
        Err(e) => Err(e@),
    }
}

/// Whether metadata is as the format asks: it has a size, all sizes are of
/// one kind, no delay is zero, both hotspots are floating-point literals,
/// and the cursor's own name is its first override.
pub open spec fn meta_is_sound(m: MetaView) -> bool {
    &&& m.sizes.len() > 0
    &&& forall|i: int| 0 <= i < m.sizes.len() ==> (#[trigger] m.sizes[i]).kind == m.sizes[0].kind
    &&& forall|i: int| 0 <= i < m.sizes.len() ==> (#[trigger] m.sizes[i]).delay != Some(0u32)
    &&& is_float_literal(m.hotspot_x)
    &&& is_float_literal(m.hotspot_y)
    &&& m.overrides.len() > 0
    &&& m.overrides[0] == m.name
}

/// Whether a draft can still become sound metadata of the cursor `name`.
pub open spec fn draft_is_sound(name: Seq<char>, d: MetaDraft) -> bool {
    &&& forall|i: int| 0 <= i < d.sizes.len() ==> (#[trigger] d.sizes[i]).kind == d.sizes[0].kind
    &&& forall|i: int| 0 <= i < d.sizes.len() ==> (#[trigger] d.sizes[i]).delay != Some(0u32)
    &&& d.hotspot_x matches Some(x) ==> is_float_literal(x)
    &&& d.hotspot_y matches Some(y) ==> is_float_literal(y)
    &&& d.overrides.len() > 0
    &&& d.overrides[0] == name
}

/// A size that was read has no zero delay.
pub proof fn lemma_size_of_delay(value: Seq<char>)
    ensures
        size_of(value) matches Ok(s) ==> s.delay != Some(0u32),
{
}

/// Entries keep a sound draft sound.
pub proof fn lemma_draft_after_sound(
    name: Seq<char>,
    draft: MetaDraft,
    es: Seq<(Seq<char>, Seq<char>)>,
)
    requires
        draft_is_sound(name, draft),
    ensures
        draft_after(draft, es) matches Ok(d) ==> draft_is_sound(name, d),
    decreases es.len(),
{
    if es.len() > 0 {
        match draft_step(draft, es[0]) {
            Err(_) => {},
            Ok(next) => {
                lemma_size_of_delay(es[0].1);
                lemma_draft_after_sound(name, next, es.drop_first());
            },
        }
    }
}

/// Metadata that was read is sound.
pub proof fn lemma_meta_of_sound(name: Seq<char>, text: Seq<char>)
    ensures
        meta_of(name, text) matches Ok(m) ==> meta_is_sound(m) && m.name == name,
{
    lemma_draft_after_sound(name, empty_draft(name), entries(text));
}

/// Whether an entry, taken alone, is right: its resize algorithm is one of
/// the three, its hotspot is a floating-point literal, its size definition
/// can be read. Any other entry is right.
pub open spec fn entry_is_sound(e: (Seq<char>, Seq<char>)) -> bool {
    if e.0 == "resize_algorithm"@ {
        resize_of(e.1) is Ok
    } else if e.0 == "hotspot_x"@ || e.0 == "hotspot_y"@ {
        is_float_literal(e.1)
    } else if e.0 == "define_size"@ {
        size_of(e.1) is Ok
    } else {
        true
    }
}

/// Whether an entry is a `define_size` line.
pub open spec fn defines_size(e: (Seq<char>, Seq<char>)) -> bool {
    e.0 == "define_size"@
}

/// The kind of image that a `define_size` line declares.
pub open spec fn declared_kind(e: (Seq<char>, Seq<char>)) -> Kind {
    size_of(e.1)->Ok_0.kind
}

/// The number of `define_size` lines.
pub open spec fn count_sizes(es: Seq<(Seq<char>, Seq<char>)>) -> nat
    decreases es.len(),
{
    if es.len() == 0 {
        0
    } else if defines_size(es[0]) {
        1 + count_sizes(es.drop_first())
    } else {
        count_sizes(es.drop_first())
    }
}

/// Whether some entry has the identifier `ident`.
pub open spec fn sets(es: Seq<(Seq<char>, Seq<char>)>, ident: Seq<char>) -> bool {
    exists|i: int| 0 <= i < es.len() && (#[trigger] es[i]).0 == ident
}

/// Whether all `define_size` lines declare one kind.
pub open spec fn kinds_agree(es: Seq<(Seq<char>, Seq<char>)>) -> bool {
    forall|i: int, j: int|
        0 <= i < es.len() && 0 <= j < es.len() && defines_size(#[trigger] es[i]) && defines_size(
            #[trigger] es[j],
        ) ==> declared_kind(es[i]) == declared_kind(es[j])
}

/// The identifiers of the format are five different texts.
pub proof fn lemma_identifiers_differ()
    ensures
        "resize_algorithm"@ != "hotspot_x"@,
        "resize_algorithm"@ != "hotspot_y"@,
        "resize_algorithm"@ != "define_override"@,
        "resize_algorithm"@ != "define_size"@,
        "hotspot_x"@ != "hotspot_y"@,
        "hotspot_x"@ != "define_override"@,
        "hotspot_x"@ != "define_size"@,
        "hotspot_y"@ != "define_override"@,
        "hotspot_y"@ != "define_size"@,
        "define_override"@ != "define_size"@,
{
    reveal_strlit("resize_algorithm");
    reveal_strlit("hotspot_x");
    reveal_strlit("hotspot_y");
    reveal_strlit("define_override");
    reveal_strlit("define_size");
    assert("resize_algorithm"@.len() == 16);
    assert("define_override"@.len() == 15);
    assert("define_size"@.len() == 11);
    assert("hotspot_x"@.len() == 9);
    assert("hotspot_x"@[8] == 'x');
    assert("hotspot_y"@[8] == 'y');
}

/// Entries that are right and agree in kind, with each other and with the
/// sizes read before them, are all taken up: each `define_size` adds a
/// size, and a hotspot that is set stays set.
pub proof fn lemma_sound_entries_are_read(draft: MetaDraft, es: Seq<(Seq<char>, Seq<char>)>)
    requires
        forall|i: int| 0 <= i < es.len() ==> entry_is_sound(#[trigger] es[i]),
        kinds_agree(es),
        draft.sizes.len() > 0 ==> forall|i: int|
            0 <= i < es.len() && defines_size(#[trigger] es[i]) ==> declared_kind(es[i])
                == draft.sizes[0].kind,
    ensures
        draft_after(draft, es) is Ok,
        draft_after(draft, es)->Ok_0.sizes.len() == draft.sizes.len() + count_sizes(es),
        draft_after(draft, es)->Ok_0.hotspot_x is Some <==> draft.hotspot_x is Some || sets(
            es,
            "hotspot_x"@,
        ),
        draft_after(draft, es)->Ok_0.hotspot_y is Some <==> draft.hotspot_y is Some || sets(
            es,
            "hotspot_y"@,
        ),
    decreases es.len(),
{
    lemma_identifiers_differ();
    if es.len() > 0 {
        let e = es[0];
        let rest = es.drop_first();
        assert(entry_is_sound(e));
        let next = draft_step(draft, e)->Ok_0;
        assert(draft_step(draft, e) is Ok);
        assert forall|i: int| 0 <= i < rest.len() implies entry_is_sound(#[trigger] rest[i]) by {
            assert(rest[i] == es[i + 1]);
        }
        assert(kinds_agree(rest)) by {
            assert forall|i: int, j: int|
                0 <= i < rest.len() && 0 <= j < rest.len() && defines_size(#[trigger] rest[i])
                    && defines_size(#[trigger] rest[j]) implies declared_kind(rest[i])
                == declared_kind(rest[j]) by {
                assert(rest[i] == es[i + 1]);
                assert(rest[j] == es[j + 1]);
            }
        }
        assert(next.sizes.len() > 0 ==> forall|i: int|
            0 <= i < rest.len() && defines_size(#[trigger] rest[i]) ==> declared_kind(rest[i])
                == next.sizes[0].kind) by {
            assert forall|i: int|
                next.sizes.len() > 0 && 0 <= i < rest.len() && defines_size(
                    #[trigger] rest[i],
                ) implies declared_kind(rest[i]) == next.sizes[0].kind by {
                assert(rest[i] == es[i + 1]);
                if draft.sizes.len() == 0 {
                    assert(defines_size(e));
                }
            }
        }
        lemma_sound_entries_are_read(next, rest);
        assert(sets(es, "hotspot_x"@) <==> e.0 == "hotspot_x"@ || sets(rest, "hotspot_x"@)) by {
            lemma_sets_unfold(es, "hotspot_x"@);
        }
        assert(sets(es, "hotspot_y"@) <==> e.0 == "hotspot_y"@ || sets(rest, "hotspot_y"@)) by {
            lemma_sets_unfold(es, "hotspot_y"@);
        }
    } else {
        assert(!sets(es, "hotspot_x"@));
        assert(!sets(es, "hotspot_y"@));
    }
}

/// An identifier is set by the first entry or by one of the others.
pub proof fn lemma_sets_unfold(es: Seq<(Seq<char>, Seq<char>)>, ident: Seq<char>)
    requires
        es.len() > 0,
    ensures
        sets(es, ident) <==> es[0].0 == ident || sets(es.drop_first(), ident),
{
    let rest = es.drop_first();
    if sets(es, ident) {
        let i = choose|i: int| 0 <= i < es.len() && (#[trigger] es[i]).0 == ident;
        if i > 0 {
            assert(rest[i - 1] == es[i]);
        }
    }
    if sets(rest, ident) {
        let i = choose|i: int| 0 <= i < rest.len() && (#[trigger] rest[i]).0 == ident;
        assert(es[i + 1] == rest[i]);
    }
}

/// Entries that were all taken up were each right taken alone, and their
/// `define_size` lines agree in kind, with each other and with the sizes
/// read before them.
pub proof fn lemma_read_entries_are_sound(draft: MetaDraft, es: Seq<(Seq<char>, Seq<char>)>)
    requires
        draft_after(draft, es) is Ok,
    ensures
        forall|i: int| 0 <= i < es.len() ==> entry_is_sound(#[trigger] es[i]),
        kinds_agree(es),
        draft.sizes.len() > 0 ==> forall|i: int|
            0 <= i < es.len() && defines_size(#[trigger] es[i]) ==> declared_kind(es[i])
                == draft.sizes[0].kind,
    decreases es.len(),
{
    lemma_identifiers_differ();
    if es.len() > 0 {
        let e = es[0];
        let rest = es.drop_first();
        let next = draft_step(draft, e)->Ok_0;
        lemma_read_entries_are_sound(next, rest);
        assert forall|i: int| 0 <= i < es.len() implies entry_is_sound(#[trigger] es[i]) by {
            if i > 0 {
                assert(es[i] == rest[i - 1]);
            }
        }
        assert(draft_step(draft, e) is Ok);
        if defines_size(e) {
            assert(next.sizes.len() > 0);
            assert(next.sizes[0].kind == declared_kind(e));
            assert(draft.sizes.len() > 0 ==> next.sizes[0] == draft.sizes[0]);
        } else {
            assert(next.sizes == draft.sizes);
        }
        assert forall|i: int, j: int|
            0 <= i < es.len() && 0 <= j < es.len() && defines_size(#[trigger] es[i])
                && defines_size(#[trigger] es[j]) implies declared_kind(es[i]) == declared_kind(
            es[j],
        ) by {
            if i > 0 {
                assert(es[i] == rest[i - 1]);
            }
            if j > 0 {
                assert(es[j] == rest[j - 1]);
            }
        }
        assert forall|i: int|
            draft.sizes.len() > 0 && 0 <= i < es.len() && defines_size(
                #[trigger] es[i],
            ) implies declared_kind(es[i]) == draft.sizes[0].kind by {
            if i > 0 {
                assert(es[i] == rest[i - 1]);
            }
        }
    }
}

/// A metadata text is read exactly where each of its lines is right taken
/// alone, it has a `define_size` line, its `define_size` lines declare one
/// kind, and it sets both hotspots. It then gives one size for each of its
/// `define_size` lines.
pub proof fn law_sound_text_is_read(name: Seq<char>, text: Seq<char>)
    ensures
        meta_of(name, text) is Ok <==> {
            &&& forall|i: int|
                0 <= i < entries(text).len() ==> entry_is_sound(#[trigger] entries(text)[i])
            &&& kinds_agree(entries(text))
            &&& count_sizes(entries(text)) >= 1
            &&& sets(entries(text), "hotspot_x"@)
            &&& sets(entries(text), "hotspot_y"@)
        },
        meta_of(name, text) matches Ok(meta) ==> meta.sizes.len() == count_sizes(entries(text)),
{
    let es = entries(text);
    if draft_after(empty_draft(name), es) is Ok {
        lemma_read_entries_are_sound(empty_draft(name), es);
    }
    if (forall|i: int| 0 <= i < es.len() ==> entry_is_sound(#[trigger] es[i])) && kinds_agree(es) {
        lemma_sound_entries_are_read(empty_draft(name), es);
    }
}

/// Two `define_size` lines of different kinds make the later one an error,
/// where nothing before it was one. `first` is the index of the earlier
/// line, or `-1` for the first size that the draft already holds.
pub proof fn lemma_mixed_kinds_are_refused(
    draft: MetaDraft,
    es: Seq<(Seq<char>, Seq<char>)>,
    first: int,
    second: int,
)
    requires
        -1 <= first < second < es.len(),
        forall|k: int| 0 <= k <= second ==> entry_is_sound(#[trigger] es[k]),
        defines_size(es[second]),
        first >= 0 ==> defines_size(es[first]) && declared_kind(es[first]) != declared_kind(
            es[second],
        ),
        first == -1 ==> draft.sizes.len() > 0 && draft.sizes[0].kind != declared_kind(es[second]),
    ensures
        draft_after(draft, es) == Err::<MetaDraft, MetaFault>(MetaFault::MoreThanOneFormat),
    decreases es.len(),
{
    lemma_identifiers_differ();
    let e = es[0];
    let rest = es.drop_first();
    assert(entry_is_sound(e));
    if second == 0 {
    } else {
        match draft_step(draft, e) {
            Err(_) => {},
            Ok(next) => {
                assert forall|k: int| 0 <= k <= second - 1 implies entry_is_sound(
                    #[trigger] rest[k],
                ) by {
                    assert(rest[k] == es[k + 1]);
                }
                assert(rest[second - 1] == es[second]);
                if first > 0 {
                    assert(rest[first - 1] == es[first]);
                    lemma_mixed_kinds_are_refused(next, rest, first - 1, second - 1);
                } else {
                    lemma_mixed_kinds_are_refused(next, rest, -1, second - 1);
                }
            },
        }
    }
}

/// A metadata text in which two `define_size` lines declare different
/// kinds is refused for holding more than one format, where each line up
/// to the later of the two is right taken alone.
pub proof fn law_mixed_kinds_are_refused(name: Seq<char>, text: Seq<char>, first: int, second: int)
    requires
        0 <= first < second < entries(text).len(),
        forall|k: int| 0 <= k <= second ==> entry_is_sound(#[trigger] entries(text)[k]),
        defines_size(entries(text)[first]),
        defines_size(entries(text)[second]),
        declared_kind(entries(text)[first]) != declared_kind(entries(text)[second]),
    ensures
        meta_of(name, text) == Err::<MetaView, MetaFault>(MetaFault::MoreThanOneFormat),
{
    lemma_mixed_kinds_are_refused(empty_draft(name), entries(text), first, second);
}

impl ResizeAlgorithm {
    /// The resize algorithm that a token names: `none`, `bilinear` or
    /// `nearest`.
    pub fn from_token(token: String) -> (algorithm: Result<ResizeAlgorithm, MetaError>)
        ensures
            match algorithm {
                Ok(a) => resize_of(token@) == Ok::<ResizeAlgorithm, MetaFault>(a),
                Err(e) => resize_of(token@) == Err::<ResizeAlgorithm, MetaFault>(e@),
            },
    {
        if same_text(token.as_str(), "none") {
            Ok(ResizeAlgorithm::NoResize)
        } else if same_text(token.as_str(), "bilinear") {
            Ok(ResizeAlgorithm::Bilinear)
        } else if same_text(token.as_str(), "nearest") {
            Ok(ResizeAlgorithm::Nearest)
        } else {
            Err(MetaError::InvalidResizeAlgorithm(token))
        }
    }
}

impl Meta {
    /// Whether the metadata is as the format asks.
    pub open spec fn is_sound(&self) -> bool {
        meta_is_sound(self@)
    }

    /// Reads the metadata of the cursor `name` from the text of its
    /// `meta.hl` entry. The lines are read in order; the first that is wrong
    /// decides the error, and what the whole text lacks is reported after
    /// that.
    pub fn from_hyprlang(name: &str, file: &str) -> (meta: Result<Meta, MetaError>)
        ensures
            meta_result(meta) == meta_of(name@, file@),
            meta matches Ok(m) ==> m.is_sound(),
    {
        let found = parse_entries(file);
        let ghost es = entries(file@);
        let mut resize_algorithm: Option<ResizeAlgorithm> = None;
        let mut hotspot_x: Option<String> = None;
        let mut hotspot_y: Option<String> = None;
        let mut overrides: Vec<String> = Vec::new();
        overrides.push(name.to_owned());
        let mut sizes: Vec<Size> = Vec::new();
        let mut i: usize = 0;
        proof {
            assert(texts(overrides@) =~= seq![name@]);
            assert(size_views(sizes@) =~= Seq::<SizeView>::empty());
            assert(es.skip(0) =~= es);
            lemma_meta_of_sound(name@, file@);
        }
        while i < found.len()
            invariant
                i <= found.len(),
                es == entries(file@),
                entry_views(found@) == es,
                draft_after(empty_draft(name@), es) == draft_after(
                    MetaDraft {
                        resize_algorithm,
                        hotspot_x: text_of(hotspot_x),
                        hotspot_y: text_of(hotspot_y),
                        overrides: texts(overrides@),
                        sizes: size_views(sizes@),
                    },
                    es.skip(i as int),
                ),
            decreases found.len() - i,
        {
            let ghost draft = MetaDraft {
                resize_algorithm,
                hotspot_x: text_of(hotspot_x),
                hotspot_y: text_of(hotspot_y),
                overrides: texts(overrides@),
                sizes: size_views(sizes@),
            };
            let entry: &Entry = &found[i];
            proof {
                assert(es.skip(i as int)[0] == entry@);
                assert(es.skip(i as int).drop_first() =~= es.skip(i + 1));
            }
            let ident: &str = entry.ident.as_str();
            if same_text(ident, "resize_algorithm") {
                match ResizeAlgorithm::from_token(entry.value.clone()) {
                    Ok(a) => {
                        resize_algorithm = Some(a);
                    },
                    Err(e) => {
                        return Err(e);
                    },
                }
            } else if same_text(ident, "hotspot_x") {
                if is_float(entry.value.as_str()) {
                    hotspot_x = Some(entry.value.clone());
                } else {
                    return Err(
                        MetaError::InvalidHotspotX(InvalidFloat { number: entry.value.clone() }),
                    );
                }
            } else if same_text(ident, "hotspot_y") {
                if is_float(entry.value.as_str()) {
                    hotspot_y = Some(entry.value.clone());
                } else {
                    return Err(
                        MetaError::InvalidHotspotY(InvalidFloat { number: entry.value.clone() }),
                    );
                }
            } else if same_text(ident, "define_override") {
                let ghost before = texts(overrides@);
                overrides.push(entry.value.clone());
                assert(texts(overrides@) =~= before.push(entry.value@));
            } else if same_text(ident, "define_size") {
                match Size::from_str(entry.value.as_str()) {
                    Err(e) => {
                        return Err(e);
                    },
                    Ok(size) => {
                        if sizes.len() > 0 && sizes[0].kind != size.kind {
                            assert(size_views(sizes@)[0] == sizes@[0]@);
                            return Err(MetaError::MoreThanOneFormat);
                        }
                        let ghost before = size_views(sizes@);
                        proof {
                            if sizes.len() > 0 {
                                assert(before[0] == sizes@[0]@);
                            }
                        }
                        sizes.push(size);
                        assert(size_views(sizes@) =~= before.push(size@));
                    },
                }
            }
            i += 1;
        }
        assert(es.skip(i as int) =~= Seq::<(Seq<char>, Seq<char>)>::empty());
        if sizes.len() == 0 {
            return Err(MetaError::NoSizeDefined);
        }
        let hotspot_x = match hotspot_x {
            Some(x) => x,
            None => {
                return Err(MetaError::MissingHotspotX);
            },
        };
        let hotspot_y = match hotspot_y {
            Some(y) => y,
            None => {
                return Err(MetaError::MissingHotspotY);
            },
        };
        let resize_algorithm = match resize_algorithm {
            Some(a) => a,
            None => ResizeAlgorithm::NoResize,
        };
        Ok(Meta { name: name.to_owned(), resize_algorithm, hotspot_x, hotspot_y, overrides, sizes })
    }

    /// The kind that all images of the cursor share.
    pub fn kind(&self) -> (kind: Kind)
        requires
            self.sizes.len() > 0,
        ensures
            kind == self.sizes[0].kind,
    {
        self.sizes[0].kind
    }
}

} // verus!
