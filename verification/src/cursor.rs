//! Cursors: what a container holds, and the frames it gives for a
//! requested size.

use crate::archive::{
    archive_source, entry_bytes, entry_index, entry_text, index_for_path, is_archive,
    open_archive, read_bytes, read_text,
};
use crate::error::{Error, Failure};
use crate::image::{decode_rgba, is_svg_document, rgba_pixels, Data, Image};
use crate::meta::{meta_of, size_views, Kind, Meta, MetaView, Size, SizeView};
use crate::path::{
    extension, file_stem, join, lemma_extension_has_stem, path_extension, path_join, path_stem,
};
use crate::text::same_text;
use resvg::usvg::Tree;
use std::io::Cursor;
use vstd::prelude::*;
use vstd::string::*;
use zip::ZipArchive;

verus! {

/// How far apart two sizes are.
pub open spec fn distance(a: u32, b: u32) -> int {
    if a >= b {
        a - b
    } else {
        b - a
    }
}

/// The index of the size that is nearest to the requested one; of sizes
/// equally near, the first.
pub open spec fn nearest_index(sizes: Seq<u32>, requested: u32) -> int
    decreases sizes.len(),
{
    if sizes.len() <= 1 {
        0
    } else {
        let best = nearest_index(sizes.drop_last(), requested);
        if distance(sizes.last(), requested) < distance(sizes[best], requested) {
            sizes.len() - 1
        } else {
            best
        }
    }
}

/// The indices at which `sizes` holds `size`, in order.
pub open spec fn positions(sizes: Seq<u32>, size: u32) -> Seq<int>
    decreases sizes.len(),
{
    if sizes.len() == 0 {
        Seq::empty()
    } else if sizes.last() == size {
        positions(sizes.drop_last(), size).push(sizes.len() - 1)
    } else {
        positions(sizes.drop_last(), size)
    }
}

/// The nominal sizes of images, in order.
pub open spec fn image_sizes(images: Seq<Image>) -> Seq<u32> {
    Seq::new(images.len(), |i: int| images[i].size)
}

/// Whether the images are those of a vector cursor. All images of a cursor
/// are of one kind, so the first decides.
pub open spec fn is_vector(images: Seq<Image>) -> bool {
    images.len() > 0 && images[0].data is Svg
}

/// The indices of the images that a request for a size shows, in order.
/// Of a vector cursor these are all images: each is a frame of the
/// animation, drawn at the requested size. Of a raster cursor they are the
/// images of the nominal size nearest to the requested one.
pub open spec fn selected(images: Seq<Image>, requested: u32) -> Seq<int> {
    if images.len() == 0 {
        Seq::empty()
    } else if is_vector(images) {
        Seq::new(images.len(), |i: int| i)
    } else {
        let sizes = image_sizes(images);
        positions(sizes, sizes[nearest_index(sizes, requested)])
    }
}

/// The nearest size is the first among those that none is nearer than.
pub proof fn lemma_nearest_index(sizes: Seq<u32>, requested: u32)
    requires
        sizes.len() > 0,
    ensures
        0 <= nearest_index(sizes, requested) < sizes.len(),
        forall|j: int|
            0 <= j < sizes.len() ==> distance(sizes[nearest_index(sizes, requested)], requested)
                <= distance(#[trigger] sizes[j], requested),
        forall|j: int|
            0 <= j < nearest_index(sizes, requested) ==> distance(
                sizes[nearest_index(sizes, requested)],
                requested,
            ) < distance(#[trigger] sizes[j], requested),
    decreases sizes.len(),
{
    if sizes.len() > 1 {
        let front = sizes.drop_last();
        lemma_nearest_index(front, requested);
        let best = nearest_index(front, requested);
        assert(front[best] == sizes[best]);
        assert forall|j: int| 0 <= j < sizes.len() implies distance(
            sizes[nearest_index(sizes, requested)],
            requested,
        ) <= distance(#[trigger] sizes[j], requested) by {
            if j < front.len() {
                assert(front[j] == sizes[j]);
            }
        }
        assert forall|j: int| 0 <= j < nearest_index(sizes, requested) implies distance(
            sizes[nearest_index(sizes, requested)],
            requested,
        ) < distance(#[trigger] sizes[j], requested) by {
            if j < front.len() {
                assert(front[j] == sizes[j]);
            }
        }
    }
}

/// The positions of a size are exactly the indices that hold it, in
/// rising order.
pub proof fn lemma_positions(sizes: Seq<u32>, size: u32)
    ensures
        forall|k: int|
            0 <= k < positions(sizes, size).len() ==> 0 <= #[trigger] positions(sizes, size)[k]
                < sizes.len() && sizes[positions(sizes, size)[k]] == size,
        forall|k: int, l: int|
            0 <= k < l < positions(sizes, size).len() ==> positions(sizes, size)[k] < positions(
                sizes,
                size,
            )[l],
        forall|i: int|
            0 <= i < sizes.len() && sizes[i] == size ==> positions(sizes, size).contains(i),
    decreases sizes.len(),
{
    if sizes.len() > 0 {
        let front = sizes.drop_last();
        lemma_positions(front, size);
        let p = positions(front, size);
        let q = positions(sizes, size);
        assert forall|i: int| 0 <= i < sizes.len() && sizes[i] == size implies q.contains(i) by {
            if i < front.len() {
                assert(front[i] == size);
                assert(p.contains(i));
                let k = choose|k: int| 0 <= k < p.len() && p[k] == i;
                assert(q[k] == i);
            } else {
                assert(q[q.len() - 1] == i);
            }
        }
        assert forall|k: int| 0 <= k < q.len() implies 0 <= #[trigger] q[k] < sizes.len()
            && sizes[q[k]] == size by {
            if k < p.len() {
                assert(q[k] == p[k]);
                assert(front[p[k]] == sizes[p[k]]);
            }
        }
    }
}

/// How far apart two sizes are.
pub fn gap(a: u32, b: u32) -> (d: u32)
    ensures
        d == distance(a, b),
{
    if a >= b {
        a - b
    } else {
        b - a
    }
}

/// The index of the size nearest to the requested one, or nothing where
/// there is no size.
pub fn nearest(sizes: &Vec<u32>, requested: u32) -> (index: Option<usize>)
    ensures
        match index {
            Some(i) => {
                &&& i < sizes.len()
                &&& i == nearest_index(sizes@, requested)
                &&& forall|j: int|
                    0 <= j < sizes.len() ==> distance(sizes[i as int], requested) <= distance(
                        #[trigger] sizes[j],
                        requested,
                    )
                &&& forall|j: int|
                    0 <= j < i ==> distance(sizes[i as int], requested) < distance(
                        #[trigger] sizes[j],
                        requested,
                    )
            },
            None => sizes.len() == 0,
        },
{
    if sizes.len() == 0 {
        return None;
    }
    let mut best: usize = 0;
    let mut i: usize = 1;
    assert(sizes@.take(1).len() == 1);
    while i < sizes.len()
        invariant
            1 <= i <= sizes.len(),
            best < i,
            best == nearest_index(sizes@.take(i as int), requested),
        decreases sizes.len() - i,
    {
        proof {
            assert(sizes@.take(i + 1).drop_last() =~= sizes@.take(i as int));
        }
        if gap(sizes[i], requested) < gap(sizes[best], requested) {
            best = i;
        }
        i += 1;
    }
    proof {
        assert(sizes@.take(i as int) =~= sizes@);
        lemma_nearest_index(sizes@, requested);
    }
    Some(best)
}

/// The indices at which `sizes` holds `size`, in order.
pub fn positions_of(sizes: &Vec<u32>, size: u32) -> (found: Vec<usize>)
    ensures
        found@.len() == positions(sizes@, size).len(),
        forall|k: int| 0 <= k < found@.len() ==> found@[k] == positions(sizes@, size)[k],
{
    let mut found: Vec<usize> = Vec::new();
    let mut i: usize = 0;
    assert(sizes@.take(0) =~= Seq::<u32>::empty());
    while i < sizes.len()
        invariant
            i <= sizes.len(),
            found@.len() == positions(sizes@.take(i as int), size).len(),
            forall|k: int|
                0 <= k < found@.len() ==> found@[k] == positions(sizes@.take(i as int), size)[k],
        decreases sizes.len() - i,
    {
        proof {
            assert(sizes@.take(i + 1).drop_last() =~= sizes@.take(i as int));
        }
        if sizes[i] == size {
            found.push(i);
        }
        i += 1;
    }
    assert(sizes@.take(i as int) =~= sizes@);
    found
}

/// The nominal sizes of images, in order.
pub fn sizes_of(images: &Vec<Image>) -> (sizes: Vec<u32>)
    ensures
        sizes@ == image_sizes(images@),
{
    let mut sizes: Vec<u32> = Vec::new();
    let mut i: usize = 0;
    while i < images.len()
        invariant
            i <= images.len(),
            sizes@.len() == i,
            forall|k: int| 0 <= k < i ==> sizes@[k] == images@[k].size,
        decreases images.len() - i,
    {
        sizes.push(images[i].size);
        i += 1;
    }
    assert(sizes@ =~= image_sizes(images@));
    sizes
}

/// The indices of the images that a request for a size shows, in order.
pub fn select(images: &Vec<Image>, requested: u32) -> (picks: Vec<usize>)
    ensures
        picks@.len() == selected(images@, requested).len(),
        forall|k: int| 0 <= k < picks@.len() ==> picks@[k] == selected(images@, requested)[k],
        forall|k: int| 0 <= k < picks@.len() ==> picks@[k] < images.len(),
{
    if images.len() == 0 {
        return Vec::new();
    }
    match images[0].data {
        Data::Svg(_) => {
            let mut picks: Vec<usize> = Vec::new();
            let mut i: usize = 0;
            while i < images.len()
                invariant
                    i <= images.len(),
                    picks@.len() == i,
                    forall|k: int| 0 <= k < i ==> picks@[k] == k,
                decreases images.len() - i,
            {
                picks.push(i);
                i += 1;
            }
            picks
        },
        Data::Png(_) => {
            let sizes = sizes_of(images);
            match nearest(&sizes, requested) {
                Some(best) => {
                    proof {
                        lemma_positions(sizes@, sizes@[best as int]);
                    }
                    positions_of(&sizes, sizes[best])
                },
                None => Vec::new(),
            }
        },
    }
}

/// The pixels of one cursor at one size, with the time for which an
/// animation shows them.
#[derive(Debug)]
pub struct Frame {
    /// The size that was requested.
    pub size: u32,
    /// The delay of the image that the frame was made from.
    pub delay: Option<u32>,
    /// RGBA pixels. A frame of a vector image holds what the rasterizer
    /// drew; a frame of a raster image holds the image as it is stored,
    /// at its own dimensions.
    pub pixels: Vec<u8>,
}

/// Whether a frame is what an image gives at a size: it has the size and
/// the image's delay, and its pixels are those of the decoded raster
/// image, or those that the rasterizer made of the vector image.
pub open spec fn is_frame_of<F: Fn(&Tree, u32) -> Vec<u8>>(
    frame: Frame,
    image: Image,
    size: u32,
    rasterize: F,
) -> bool {
    &&& frame.size == size
    &&& frame.delay == image.delay
    &&& match image.data {
        Data::Png(bytes) => rgba_pixels(bytes@) == Some(frame.pixels@),
        Data::Svg(tree) => rasterize.ensures((&tree, size), frame.pixels),
    }
}

/// Whether an image can be shown: a raster image whose data cannot be
/// decoded into RGBA pixels cannot.
pub open spec fn can_show(image: Image) -> bool {
    image.data matches Data::Png(bytes) ==> rgba_pixels(bytes@) is Some
}

impl Frame {
    /// Makes the frame of an image at a size. A vector image is handed to
    /// `rasterize`, a raster image is decoded; one that cannot be decoded
    /// gives nothing.
    pub fn new<F: Fn(&Tree, u32) -> Vec<u8>>(image: &Image, size: u32, rasterize: &F) -> (frame:
        Option<Frame>)
        requires
            image.data matches Data::Svg(tree) ==> rasterize.requires((&tree, size)),
        ensures
            frame is Some <==> can_show(*image),
            frame matches Some(f) ==> is_frame_of(f, *image, size, *rasterize),
    {
        let pixels = match &image.data {
            Data::Png(bytes) => match decode_rgba(bytes.as_slice()) {
                Some(pixels) => pixels,
                None => {
                    return None;
                },
            },
            Data::Svg(tree) => rasterize(tree, size),
        };
        Some(Frame { size, delay: image.delay, pixels })
    }
}

/// One cursor of a theme: its metadata and its images, one image for each
/// size of the metadata, in the same order.
#[derive(Debug)]
pub struct Hyprcursor {
    pub meta: Meta,
    pub images: Vec<Image>,
}

/// The name of the metadata entry of a container.
pub open spec fn meta_name() -> Seq<char> {
    "meta.hl"@
}

/// The name of a metadata entry in TOML, which is found and not read.
pub open spec fn toml_meta_name() -> Seq<char> {
    "meta.toml"@
}

/// The metadata entry of a container: its index, and whether it is the
/// one in TOML. `meta.hl` is looked for first.
pub open spec fn meta_entry(container: Seq<u8>) -> Option<(usize, bool)> {
    match entry_index(container, meta_name()) {
        Some(index) => Some((index, false)),
        None => match entry_index(container, toml_meta_name()) {
            Some(index) => Some((index, true)),
            None => None,
        },
    }
}

/// The path by which an error names the metadata entry of a container.
pub open spec fn meta_path(path: Seq<char>) -> Seq<char> {
    path_join(path, meta_name())
}

/// The metadata that the container at `path` holds for the cursor `name`,
/// or why it holds none.
pub open spec fn container_meta(name: Seq<char>, path: Seq<char>, container: Seq<u8>) -> Result<
    MetaView,
    Failure,
> {
    if !is_archive(container) {
        Err(Failure::ZipError { path })
    } else {
        match meta_entry(container) {
            None => Err(Failure::MetaNotFound(path)),
            Some((index, toml)) => match entry_text(container, index) {
                Err(_) => Err(Failure::ZipError { path }),
                Ok(Err(_)) => Err(Failure::Io),
                Ok(Ok(text)) => if toml {
                    Err(Failure::Unsupported(path))
                } else {
                    match meta_of(name, text) {
                        Err(err) => Err(Failure::MetaError { err, path: meta_path(path) }),
                        Ok(meta) => Ok(meta),
                    }
                },
            },
        }
    }
}

/// Why the image of one size cannot be had from the container at `path`,
/// if it cannot: its entry does not open, cannot be read, or should be an
/// SVG document and is none.
pub open spec fn image_fault(path: Seq<char>, container: Seq<u8>, size: SizeView) -> Option<
    Failure,
> {
    match entry_bytes(container, size.file) {
        Err(_) => Some(Failure::ZipError { path }),
        Ok(Err(_)) => Some(Failure::Io),
        Ok(Ok(bytes)) => if size.kind == Kind::Svg && !is_svg_document(bytes) {
            Some(Failure::UsvgErr { file: size.file })
        } else {
            None
        },
    }
}

/// The fault of the first size, in order, whose image cannot be had.
pub open spec fn first_fault(path: Seq<char>, container: Seq<u8>, sizes: Seq<SizeView>) -> Option<
    Failure,
>
    decreases sizes.len(),
{
    if sizes.len() == 0 {
        None
    } else {
        match image_fault(path, container, sizes[0]) {
            Some(fault) => Some(fault),
            None => first_fault(path, container, sizes.drop_first()),
        }
    }
}

/// What loading the container at `path` as the cursor `name` gives: the
/// metadata of the cursor, or the first thing that went wrong.
pub open spec fn load_of(name: Seq<char>, path: Seq<char>, container: Seq<u8>) -> Result<
    MetaView,
    Failure,
> {
    match container_meta(name, path, container) {
        Err(fault) => Err(fault),
        Ok(meta) => match first_fault(path, container, meta.sizes) {
            Some(fault) => Err(fault),
            None => Ok(meta),
        },
    }
}

/// Whether an image is the one that a size of the metadata defines, as
/// the container holds it.
pub open spec fn is_image_of(image: Image, size: SizeView, container: Seq<u8>) -> bool {
    &&& image.size == size.size
    &&& image.delay == size.delay
    &&& match image.data {
        Data::Png(bytes) => size.kind == Kind::Png && entry_bytes(container, size.file) == Ok::<
            Result<Seq<u8>, ()>,
            (),
        >(Ok(bytes@)),
        Data::Svg(_) => size.kind == Kind::Svg && (entry_bytes(container, size.file) matches Ok(
            Ok(bytes),
        ) && is_svg_document(bytes)),
    }
}

/// Whether an image goes with a size of the metadata: it has the size's
/// nominal size and delay, and holds the kind of data that the size
/// declares.
pub open spec fn fits(image: Image, size: SizeView) -> bool {
    &&& image.size == size.size
    &&& image.delay == size.delay
    &&& image.data is Svg <==> size.kind == Kind::Svg
}

/// Whether a cursor holds what its metadata defines: one image for each
/// size, in order, as the container holds it.
pub open spec fn holds_images(cursor: Hyprcursor, container: Seq<u8>) -> bool {
    &&& cursor.images.len() == cursor.meta.sizes.len()
    &&& forall|i: int|
        0 <= i < cursor.images.len() ==> is_image_of(
            #[trigger] cursor.images[i],
            cursor.meta.sizes[i]@,
            container,
        )
}

/// The cursor that was loaded, as its metadata, or the error in its place.
pub open spec fn load_result(r: Result<Hyprcursor, Error>) -> Result<MetaView, Failure> {
    match r {
        Ok(cursor) => Ok(cursor.meta@),
        Err(e) => Err(e@),
    }
}

/// Whether a path is that of a cursor container: whether its extension is
/// `hlc`.
pub open spec fn is_container_path(path: Seq<char>) -> bool {
    path_extension(path) == Some("hlc"@)
}

impl Hyprcursor {
    /// Whether the cursor is as a loaded cursor is: its metadata is sound,
    /// and it has one image for each size of the metadata, in the same
    /// order. Its images are then all of one kind.
    pub open spec fn is_sound(&self) -> bool {
        &&& self.meta.is_sound()
        &&& self.images.len() == self.meta.sizes.len()
        &&& forall|i: int|
            0 <= i < self.images.len() ==> fits(#[trigger] self.images[i], self.meta.sizes[i]@)
    }

    /// The frames that show the cursor at a size, in the order of its
    /// images. Vector images are handed to `rasterize`, each with the
    /// requested size. Where one of the raster images to show cannot be
    /// decoded into RGBA pixels, there are no frames.
    pub fn render_frames<F: Fn(&Tree, u32) -> Vec<u8>>(&self, size: u32, rasterize: F) -> (frames:
        Option<Vec<Frame>>)
        requires
            forall|i: int|
                0 <= i < self.images.len() ==> ((#[trigger] self.images[i]).data matches Data::Svg(
                    tree,
                ) ==> rasterize.requires((&tree, size))),
        ensures
            match frames {
                Some(frames) => {
                    &&& frames.len() == selected(self.images@, size).len()
                    &&& forall|k: int|
                        0 <= k < frames.len() ==> is_frame_of(
                            #[trigger] frames[k],
                            self.images[selected(self.images@, size)[k]],
                            size,
                            rasterize,
                        )
                },
                None => exists|k: int|
                    0 <= k < selected(self.images@, size).len() && !can_show(
                        self.images[#[trigger] selected(self.images@, size)[k]],
                    ),
            },
    {
        let picks = select(&self.images, size);
        let mut frames: Vec<Frame> = Vec::new();
        let mut k: usize = 0;
        while k < picks.len()
            invariant
                k <= picks.len(),
                frames.len() == k,
                picks@.len() == selected(self.images@, size).len(),
                forall|j: int|
                    0 <= j < picks@.len() ==> picks@[j] == selected(self.images@, size)[j],
                forall|j: int| 0 <= j < picks@.len() ==> picks@[j] < self.images.len(),
                forall|i: int|
                    0 <= i < self.images.len() ==> ((#[trigger] self.images[i]).data matches Data::Svg(
                        tree,
                    ) ==> rasterize.requires((&tree, size))),
                forall|j: int|
                    0 <= j < k ==> is_frame_of(
                        #[trigger] frames[j],
                        self.images[selected(self.images@, size)[j]],
                        size,
                        rasterize,
                    ),
            decreases picks.len() - k,
        {
            let image: &Image = &self.images[picks[k]];
            match Frame::new(image, size, &rasterize) {
                Some(frame) => {
                    frames.push(frame);
                },
                None => {
                    assert(!can_show(self.images[selected(self.images@, size)[k as int]]));
                    return None;
                },
            }
            k += 1;
        }
        Some(frames)
    }
}

/// Whether the file at `path` is a cursor container: whether its
/// extension is `hlc`.
pub fn is_container(path: &str) -> (b: bool)
    ensures
        b == is_container_path(path@),
{
    match extension(path) {
        Some(ext) => same_text(ext.as_str(), "hlc"),
        None => false,
    }
}

impl Hyprcursor {
    /// Reads the images that the metadata defines from an open container
    /// at `path`, in the order of the metadata's sizes. The first image
    /// that cannot be had ends the reading with its error.
    fn new(meta: Meta, path: &str, archive: &mut ZipArchive<Cursor<Vec<u8>>>) -> (cursor:
        Result<Hyprcursor, Error>)
        ensures
            archive_source(*final(archive)) == archive_source(*old(archive)),
            match cursor {
                Ok(c) => {
                    &&& c.meta == meta
                    &&& holds_images(c, archive_source(*old(archive)))
                    &&& first_fault(path@, archive_source(*old(archive)), size_views(meta.sizes@))
                        is None
                },
                Err(e) => first_fault(path@, archive_source(*old(archive)), size_views(meta.sizes@))
                    == Some(e@),
            },
    {
        let ghost container = archive_source(*archive);
        let ghost sizes = size_views(meta.sizes@);
        let mut images: Vec<Image> = Vec::new();
        let mut i: usize = 0;
        assert(sizes.skip(0) =~= sizes);
        while i < meta.sizes.len()
            invariant
                i <= meta.sizes.len(),
                images.len() == i,
                container == archive_source(*old(archive)),
                archive_source(*archive) == container,
                sizes == size_views(meta.sizes@),
                first_fault(path@, container, sizes) == first_fault(
                    path@,
                    container,
                    sizes.skip(i as int),
                ),
                forall|k: int|
                    0 <= k < i ==> is_image_of(#[trigger] images[k], meta.sizes[k]@, container),
            decreases meta.sizes.len() - i,
        {
            let size: &Size = &meta.sizes[i];
            proof {
                assert(sizes.skip(i as int)[0] == size@);
                assert(sizes.skip(i as int).drop_first() =~= sizes.skip(i + 1));
            }
            let bytes = match read_bytes(archive, size.file.as_str()) {
                Err(err) => {
                    return Err(Error::ZipError { err, path: path.to_owned() });
                },
                Ok(Err(err)) => {
                    return Err(Error::Io(err));
                },
                Ok(Ok(bytes)) => bytes,
            };
            let data = match size.kind {
                Kind::Png => Data::Png(bytes),
                Kind::Svg => match Data::svg(bytes.as_slice()) {
                    Ok(data) => data,
                    Err(err) => {
                        return Err(Error::UsvgErr { err, file: size.file.clone() });
                    },
                },
            };
            images.push(Image { data, size: size.size, delay: size.delay });
            i += 1;
        }
        assert(sizes.skip(i as int) =~= Seq::<SizeView>::empty());
        Ok(Hyprcursor { meta, images })
    }

    /// Loads the cursor `name` from the bytes of its container, which
    /// stands at `path`. The container's metadata entry is read first, then
    /// the image of each size in order; the first thing that goes wrong is
    /// the error, and no cursor is made then.
    pub fn load_named(name: &str, path: &str, container: Vec<u8>) -> (cursor: Result<
        Hyprcursor,
        Error,
    >)
        ensures
            load_result(cursor) == load_of(name@, path@, container@),
            cursor matches Ok(c) ==> holds_images(c, container@) && c.is_sound(),
    {
        let mut archive = match open_archive(container) {
            Ok(archive) => archive,
            Err(err) => {
                return Err(Error::ZipError { err, path: path.to_owned() });
            },
        };
        let (index, toml) = match index_for_path(&archive, "meta.hl") {
            Some(index) => (index, false),
            None => match index_for_path(&archive, "meta.toml") {
                Some(index) => (index, true),
                None => {
                    return Err(Error::MetaNotFound(path.to_owned()));
                },
            },
        };
        let text = match read_text(&mut archive, index) {
            Err(err) => {
                return Err(Error::ZipError { err, path: path.to_owned() });
            },
            Ok(Err(err)) => {
                return Err(Error::Io(err));
            },
            Ok(Ok(text)) => text,
        };
        if toml {
            return Err(Error::Unsupported(path.to_owned()));
        }
        let meta = match Meta::from_hyprlang(name, text.as_str()) {
            Ok(meta) => meta,
            Err(err) => {
                return Err(Error::MetaError { err, path: join(path, "meta.hl") });
            },
        };
        Hyprcursor::new(meta, path, &mut archive)
    }

    /// Loads the cursor of the file at `path` from the file's bytes, where
    /// the file is a cursor container: where its extension is `hlc`. Any
    /// other file is passed over and gives no cursor. The cursor is named
    /// by the stem of the file's name.
    pub fn load(path: &str, container: Vec<u8>) -> (cursor: Result<Option<Hyprcursor>, Error>)
        ensures
            !is_container_path(path@) ==> cursor matches Ok(None),
            is_container_path(path@) ==> path_stem(path@) is Some && match cursor {
                Ok(Some(c)) => load_of(path_stem(path@)->0, path@, container@) == Ok::<
                    MetaView,
                    Failure,
                >(c.meta@) && holds_images(c, container@) && c.is_sound(),
                Ok(None) => false,
                Err(e) => load_of(path_stem(path@)->0, path@, container@) == Err::<
                    MetaView,
                    Failure,
                >(e@),
            },
    {
        if !is_container(path) {
            return Ok(None);
        }
        proof {
            lemma_extension_has_stem(path@);
        }
        match file_stem(path) {
            Some(name) => match Hyprcursor::load_named(name.as_str(), path, container) {
                Ok(cursor) => Ok(Some(cursor)),
                Err(e) => Err(e),
            },
            None => Ok(None),
        }
    }
}

} // verus!
