use hyprcursor_rs::cursor::{gap, is_container, nearest, positions_of, select, sizes_of};
use hyprcursor_rs::image::{decode_rgba, rgba_frame, Data, Image};
use hyprcursor_rs::meta::{Kind, MetaError};
use hyprcursor_rs::{Error, Frame, Hyprcursor};
use resvg::tiny_skia::{Pixmap, Transform};
use resvg::usvg::Tree;
use std::io::{Cursor, Write};

const META: &str = "hotspot_x = 0\nhotspot_y = 0\n";

const SVG: &str = "<svg xmlns=\"http://www.w3.org/2000/svg\" width=\"10\" height=\"20\"><rect width=\"10\" height=\"20\" fill=\"#ff0000\"/></svg>";

fn zip_of(entries: &[(&str, &[u8])]) -> Vec<u8> {
    let mut writer = zip::ZipWriter::new(Cursor::new(Vec::new()));
    for (name, data) in entries {
        writer.start_file(*name, zip::write::SimpleFileOptions::default()).unwrap();
        writer.write_all(data).unwrap();
    }
    writer.finish().unwrap().into_inner()
}

fn png_of(width: u32, height: u32, colour: png::ColorType, samples: usize, fill: u8) -> Vec<u8> {
    let mut out = Vec::new();
    {
        let mut encoder = png::Encoder::new(&mut out, width, height);
        encoder.set_color(colour);
        encoder.set_depth(png::BitDepth::Eight);
        let mut writer = encoder.write_header().unwrap();
        let data = vec![fill; width as usize * height as usize * samples];
        writer.write_image_data(&data).unwrap();
    }
    out
}

fn rgba_png(side: u32, fill: u8) -> Vec<u8> {
    png_of(side, side, png::ColorType::Rgba, 4, fill)
}

fn rasterize(tree: &Tree, size: u32) -> Vec<u8> {
    let transform = Transform::from_scale(
        size as f32 / tree.size().width(),
        size as f32 / tree.size().height(),
    );
    let mut pixmap = Pixmap::new(size, size).unwrap();
    resvg::render(tree, transform, &mut pixmap.as_mut());
    pixmap.take()
}

fn no_vectors(_: &Tree, _: u32) -> Vec<u8> {
    panic!("a raster cursor has no vector image")
}

fn raster_image(size: u32, fill: u8, delay: Option<u32>) -> Image {
    Image { data: Data::Png(rgba_png(2, fill)), size, delay }
}

fn raster_cursor(declared: &[(u32, u8, Option<u32>)]) -> Hyprcursor {
    let mut text = String::from(META);
    let mut entries: Vec<(String, Vec<u8>)> = Vec::new();
    for (i, (size, fill, delay)) in declared.iter().enumerate() {
        let file = format!("image{}.png", i);
        match delay {
            Some(d) => text.push_str(&format!("define_size = {}, {}, {}\n", size, file, d)),
            None => text.push_str(&format!("define_size = {}, {}\n", size, file)),
        }
        entries.push((file, rgba_png(*size, *fill)));
    }
    let mut all: Vec<(&str, &[u8])> = vec![("meta.hl", text.as_bytes())];
    for (file, data) in &entries {
        all.push((file.as_str(), data.as_slice()));
    }
    Hyprcursor::load("/cursors/pointer.hlc", zip_of(&all)).unwrap().unwrap()
}

fn fills(frames: &[Frame]) -> Vec<u8> {
    frames.iter().map(|f| f.pixels[0]).collect()
}

#[test]
fn gap_is_the_absolute_difference() {
    assert_eq!(gap(20, 24), 4);
    assert_eq!(gap(24, 20), 4);
    assert_eq!(gap(7, 7), 0);
    assert_eq!(gap(0, u32::MAX), u32::MAX);
    assert_eq!(gap(u32::MAX, 0), u32::MAX);
}

#[test]
fn nearest_size_is_the_first_of_the_nearest() {
    assert_eq!(nearest(&vec![16, 24, 32], 20), Some(0));
    assert_eq!(nearest(&vec![24, 16, 32], 20), Some(0));
    assert_eq!(nearest(&vec![32, 24, 16], 20), Some(1));
    assert_eq!(nearest(&vec![16, 24, 32], 21), Some(1));
    assert_eq!(nearest(&vec![16, 24, 32], 1000), Some(2));
    assert_eq!(nearest(&vec![16, 24, 32], 0), Some(0));
    assert_eq!(nearest(&vec![24, 24, 24], 24), Some(0));
    assert_eq!(nearest(&vec![], 24), None);
}

#[test]
fn positions_of_a_size_are_in_order() {
    assert_eq!(positions_of(&vec![24, 16, 24, 32, 24], 24), vec![0, 2, 4]);
    assert_eq!(positions_of(&vec![24, 16, 24, 32, 24], 16), vec![1]);
    assert!(positions_of(&vec![24, 16], 20).is_empty());
    assert!(positions_of(&vec![], 20).is_empty());
}

#[test]
fn select_takes_the_nearest_bucket_of_raster_images() {
    let images = vec![
        raster_image(16, 1, None),
        raster_image(24, 2, Some(10)),
        raster_image(32, 3, None),
        raster_image(24, 4, Some(10)),
    ];
    assert_eq!(sizes_of(&images), vec![16, 24, 32, 24]);
    assert_eq!(select(&images, 25), vec![1, 3]);
    assert_eq!(select(&images, 20), vec![0]);
    assert_eq!(select(&images, 500), vec![2]);
    assert!(select(&Vec::new(), 24).is_empty());
}

#[test]
fn select_takes_all_vector_images() {
    let images = vec![
        Image { data: Data::svg(SVG.as_bytes()).unwrap(), size: 16, delay: Some(5) },
        Image { data: Data::svg(SVG.as_bytes()).unwrap(), size: 32, delay: Some(5) },
        Image { data: Data::svg(SVG.as_bytes()).unwrap(), size: 16, delay: None },
    ];
    assert_eq!(select(&images, 24), vec![0, 1, 2]);
    assert_eq!(select(&images, 16), vec![0, 1, 2]);
}

#[test]
fn raster_request_between_two_sizes_takes_the_first_declared() {
    // 16 and 24 are both 4 away from 20: the one declared first wins
    let cursor = raster_cursor(&[(24, 24, None), (16, 16, None), (32, 32, None)]);
    let frames = cursor.render_frames(20, no_vectors).unwrap();
    assert_eq!(fills(&frames), vec![24]);
    assert_eq!(frames[0].size, 20);
    assert_eq!(frames[0].pixels.len(), 24 * 24 * 4);

    let cursor = raster_cursor(&[(16, 16, None), (24, 24, None), (32, 32, None)]);
    let frames = cursor.render_frames(20, no_vectors).unwrap();
    assert_eq!(fills(&frames), vec![16]);
    assert_eq!(frames[0].pixels.len(), 16 * 16 * 4);
}

#[test]
fn raster_request_gives_every_frame_of_the_bucket() {
    let cursor = raster_cursor(&[
        (16, 1, Some(30)),
        (32, 2, Some(40)),
        (16, 3, Some(50)),
        (32, 4, None),
        (16, 5, Some(70)),
    ]);
    let frames = cursor.render_frames(17, no_vectors).unwrap();
    assert_eq!(fills(&frames), vec![1, 3, 5]);
    assert_eq!(frames.iter().map(|f| f.delay).collect::<Vec<_>>(), vec![Some(30), Some(50), Some(70)]);
    assert!(frames.iter().all(|f| f.size == 17));
    let frames = cursor.render_frames(4000, no_vectors).unwrap();
    assert_eq!(fills(&frames), vec![2, 4]);
    assert_eq!(frames.iter().map(|f| f.delay).collect::<Vec<_>>(), vec![Some(40), None]);
}

#[test]
fn raster_image_that_cannot_be_decoded_gives_no_frames() {
    let meta = format!("{}define_size = 16, good.png\ndefine_size = 32, bad.png\n", META);
    let good = rgba_png(16, 9);
    let container = zip_of(&[
        ("meta.hl", meta.as_bytes()),
        ("good.png", good.as_slice()),
        ("bad.png", b"this is no png"),
    ]);
    let cursor = Hyprcursor::load("wait.hlc", container).unwrap().unwrap();
    assert_eq!(cursor.render_frames(16, no_vectors).unwrap().len(), 1);
    assert!(cursor.render_frames(32, no_vectors).is_none());
}

#[test]
fn png_is_decoded_into_rgba_pixels() {
    let pixels = decode_rgba(&rgba_png(3, 200)).unwrap();
    assert_eq!(pixels, vec![200u8; 3 * 3 * 4]);
    assert_eq!(decode_rgba(&png_of(5, 2, png::ColorType::Rgba, 4, 7)).unwrap().len(), 5 * 2 * 4);
}

#[test]
fn png_of_another_colour_type_is_refused() {
    assert!(decode_rgba(&png_of(3, 3, png::ColorType::Rgb, 3, 200)).is_none());
    assert!(decode_rgba(&png_of(3, 3, png::ColorType::Grayscale, 1, 200)).is_none());
    assert!(decode_rgba(&png_of(3, 3, png::ColorType::GrayscaleAlpha, 2, 200)).is_none());
}

#[test]
fn what_is_no_png_is_refused() {
    assert!(decode_rgba(b"").is_none());
    assert!(decode_rgba(b"\x89PNG\r\n\x1a\n").is_none());
    assert!(decode_rgba(SVG.as_bytes()).is_none());
    let mut cut = rgba_png(8, 1);
    cut.truncate(40);
    assert!(decode_rgba(&cut).is_none());
}

#[test]
fn rgba_frame_keeps_rgba_pixels_only() {
    assert_eq!(rgba_frame(Some((vec![1, 2, 3, 4], 6))), Some(vec![1, 2, 3, 4]));
    assert_eq!(rgba_frame(Some((vec![1, 2, 3], 2))), None);
    assert_eq!(rgba_frame(Some((vec![1], 0))), None);
    assert_eq!(rgba_frame(None), None);
}

#[test]
fn svg_is_parsed_or_refused() {
    assert!(matches!(Data::svg(SVG.as_bytes()), Ok(Data::Svg(_))));
    assert!(Data::svg(b"<svg").is_err());
    assert!(Data::svg(b"").is_err());
    assert!(Data::svg(&rgba_png(2, 0)).is_err());
}

#[test]
fn vector_cursor_gives_one_frame_for_each_size() {
    let meta = format!("{}define_size = 16, small.svg, 100\ndefine_size = 32, large.svg, 200\n", META);
    let container = zip_of(&[
        ("meta.hl", meta.as_bytes()),
        ("small.svg", SVG.as_bytes()),
        ("large.svg", SVG.as_bytes()),
    ]);
    let cursor = Hyprcursor::load("/cursors/wait.hlc", container).unwrap().unwrap();
    let frames = cursor.render_frames(24, rasterize).unwrap();
    assert_eq!(frames.len(), 2);
    for frame in &frames {
        assert_eq!(frame.size, 24);
        assert_eq!(frame.pixels.len(), 24 * 24 * 4);
        // the document is red all over and is stretched to the square
        assert_eq!(&frame.pixels[0..4], &[255, 0, 0, 255]);
        assert_eq!(&frame.pixels[24 * 24 * 4 - 4..], &[255, 0, 0, 255]);
    }
    assert_eq!(frames[0].delay, Some(100));
    assert_eq!(frames[1].delay, Some(200));
}

#[test]
fn vector_frames_hold_what_the_rasterizer_gives() {
    let image = Image { data: Data::svg(SVG.as_bytes()).unwrap(), size: 16, delay: Some(3) };
    let frame = Frame::new(&image, 7, &|_: &Tree, size: u32| vec![size as u8; 5]).unwrap();
    assert_eq!(frame.size, 7);
    assert_eq!(frame.delay, Some(3));
    assert_eq!(frame.pixels, vec![7u8; 5]);
}

#[test]
fn container_is_loaded() {
    let meta = format!("{}resize_algorithm = nearest\ndefine_override = arrow\ndefine_size = 16, a.png, 30\ndefine_size = 24, sub/b.png\n", META);
    let a = rgba_png(16, 1);
    let b = rgba_png(24, 2);
    let container = zip_of(&[
        ("a.png", a.as_slice()),
        ("meta.hl", meta.as_bytes()),
        ("sub/b.png", b.as_slice()),
        ("unused.txt", b"hello"),
    ]);
    let cursor = Hyprcursor::load("/themes/x/cursors/left_ptr.hlc", container).unwrap().unwrap();
    assert_eq!(cursor.meta.name, "left_ptr");
    assert_eq!(cursor.meta.overrides, vec!["left_ptr", "arrow"]);
    assert_eq!(cursor.meta.kind(), Kind::Png);
    assert_eq!(cursor.images.len(), 2);
    assert_eq!(cursor.images[0].size, 16);
    assert_eq!(cursor.images[0].delay, Some(30));
    assert_eq!(cursor.images[1].size, 24);
    assert_eq!(cursor.images[1].delay, None);
    match &cursor.images[0].data {
        Data::Png(bytes) => assert_eq!(bytes, &a),
        other => panic!("{:?}", other),
    }
    match &cursor.images[1].data {
        Data::Png(bytes) => assert_eq!(bytes, &b),
        other => panic!("{:?}", other),
    }
}

#[test]
fn file_that_is_no_container_is_passed_over() {
    assert!(matches!(Hyprcursor::load("/cursors/readme.txt", b"hello".to_vec()), Ok(None)));
    assert!(matches!(Hyprcursor::load("/cursors/hlc", Vec::new()), Ok(None)));
    assert!(matches!(Hyprcursor::load("/cursors/.hlc", Vec::new()), Ok(None)));
    assert!(matches!(Hyprcursor::load("/cursors/a.HLC", Vec::new()), Ok(None)));
}

#[test]
fn container_is_known_by_its_extension() {
    assert!(is_container("/themes/t/cursors/left_ptr.hlc"));
    assert!(is_container("a.b.hlc"));
    assert!(!is_container("/themes/t/cursors.hlc/readme"));
    assert!(!is_container("left_ptr.hlc.bak"));
    assert!(!is_container("left_ptr"));
    assert!(!is_container(""));
}

#[test]
fn container_that_is_no_archive_is_refused() {
    match Hyprcursor::load("/cursors/a.hlc", b"this is no zip archive".to_vec()) {
        Err(Error::ZipError { path, .. }) => assert_eq!(path, "/cursors/a.hlc"),
        other => panic!("{:?}", other),
    }
}

#[test]
fn container_without_metadata_is_refused() {
    let container = zip_of(&[("a.png", rgba_png(1, 0).as_slice())]);
    match Hyprcursor::load("/cursors/a.hlc", container) {
        Err(Error::MetaNotFound(path)) => assert_eq!(path, "/cursors/a.hlc"),
        other => panic!("{:?}", other),
    }
}

#[test]
fn container_with_toml_metadata_is_unsupported() {
    let container = zip_of(&[("meta.toml", b"hotspot_x = 0".as_slice())]);
    match Hyprcursor::load("/cursors/a.hlc", container) {
        Err(Error::Unsupported(path)) => assert_eq!(path, "/cursors/a.hlc"),
        other => panic!("{:?}", other),
    }
}

#[test]
fn container_prefers_hyprlang_metadata() {
    let meta = format!("{}define_size = 16, a.png\n", META);
    let container = zip_of(&[
        ("meta.toml", b"whatever".as_slice()),
        ("meta.hl", meta.as_bytes()),
        ("a.png", rgba_png(16, 0).as_slice()),
    ]);
    assert!(Hyprcursor::load("a.hlc", container).unwrap().is_some());
}

#[test]
fn container_with_wrong_metadata_is_refused() {
    let container = zip_of(&[("meta.hl", b"hotspot_x = 0\nhotspot_y = 0\n".as_slice())]);
    match Hyprcursor::load("/cursors/a.hlc", container) {
        Err(Error::MetaError { err: MetaError::NoSizeDefined, path }) => {
            assert_eq!(path, "/cursors/a.hlc/meta.hl")
        }
        other => panic!("{:?}", other),
    }
}

#[test]
fn container_with_metadata_that_is_no_text_is_refused() {
    let container = zip_of(&[("meta.hl", b"hotspot_x = \xff\xfe\n".as_slice())]);
    assert!(matches!(Hyprcursor::load("/cursors/a.hlc", container), Err(Error::Io(_))));
}

#[test]
fn container_without_an_image_is_refused() {
    let meta = format!("{}define_size = 16, a.png\ndefine_size = 24, missing.png\n", META);
    let container = zip_of(&[("meta.hl", meta.as_bytes()), ("a.png", rgba_png(16, 0).as_slice())]);
    match Hyprcursor::load("/cursors/a.hlc", container) {
        Err(Error::ZipError { path, .. }) => assert_eq!(path, "/cursors/a.hlc"),
        other => panic!("{:?}", other),
    }
}

#[test]
fn container_with_a_broken_vector_image_is_refused() {
    let meta = format!("{}define_size = 16, a.svg\ndefine_size = 24, b.svg\n", META);
    let container = zip_of(&[
        ("meta.hl", meta.as_bytes()),
        ("a.svg", SVG.as_bytes()),
        ("b.svg", b"<svg><unclosed".as_slice()),
    ]);
    match Hyprcursor::load("/cursors/a.hlc", container) {
        Err(Error::UsvgErr { file, .. }) => assert_eq!(file, "b.svg"),
        other => panic!("{:?}", other),
    }
}

#[test]
fn container_is_loaded_under_a_given_name() {
    let meta = format!("{}define_size = 16, a.svg\n", META);
    let container = zip_of(&[("meta.hl", meta.as_bytes()), ("a.svg", SVG.as_bytes())]);
    let cursor = Hyprcursor::load_named("hand", "somewhere", container).unwrap();
    assert_eq!(cursor.meta.name, "hand");
    assert_eq!(cursor.meta.overrides, vec!["hand"]);
    assert!(matches!(cursor.images[0].data, Data::Svg(_)));
}
