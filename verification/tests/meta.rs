use hyprcursor_rs::manifest::Manifest;
use hyprcursor_rs::meta::{parse_delay, Kind, Meta, MetaError, ResizeAlgorithm, Size};

const HOTSPOTS: &str = "hotspot_x = 0.5\nhotspot_y = 0.25\n";

fn with_hotspots(rest: &str) -> String {
    format!("{}{}", HOTSPOTS, rest)
}

#[test]
fn manifest_fields_are_read() {
    let text = "name = Rose Pine\ndescription = Soho vibes\nversion = 1.2\nauthor = someone\ncursors_directory = hyprcursors\n";
    let manifest = Manifest::from_hyprlang("/usr/share/icons/rose-pine", text).unwrap();
    assert_eq!(manifest.name, "Rose Pine");
    assert_eq!(manifest.description.as_deref(), Some("Soho vibes"));
    assert_eq!(manifest.version.as_deref(), Some("1.2"));
    assert_eq!(manifest.author.as_deref(), Some("someone"));
    assert_eq!(manifest.cursors_directory.as_deref(), Some("hyprcursors"));
}

#[test]
fn manifest_name_line_wins_over_directory() {
    let manifest = Manifest::from_hyprlang("/themes/on-disk-name", "name = declared").unwrap();
    assert_eq!(manifest.name, "declared");
    let manifest = Manifest::from_hyprlang("/", "name = declared").unwrap();
    assert_eq!(manifest.name, "declared");
}

#[test]
fn manifest_name_falls_back_to_directory() {
    let manifest = Manifest::from_hyprlang("/themes/on-disk-name", "version = 3").unwrap();
    assert_eq!(manifest.name, "on-disk-name");
    assert_eq!(manifest.version.as_deref(), Some("3"));
    let manifest = Manifest::from_hyprlang("/themes/theme.d/", "").unwrap();
    assert_eq!(manifest.name, "theme");
}

#[test]
fn manifest_without_any_name_is_none() {
    assert!(Manifest::from_hyprlang("/", "version = 3").is_none());
    assert!(Manifest::from_hyprlang("/themes/..", "").is_none());
    assert!(Manifest::from_hyprlang("", "description = x").is_none());
    assert!(Manifest::parse(None, "description = x").is_none());
}

#[test]
fn manifest_last_occurrence_wins() {
    let text = "name = one\nauthor = a\nname = two\nauthor = b\n";
    let manifest = Manifest::from_hyprlang("/themes/dir", text).unwrap();
    assert_eq!(manifest.name, "two");
    assert_eq!(manifest.author.as_deref(), Some("b"));
}

#[test]
fn manifest_passes_over_what_it_does_not_know() {
    let text = "colour = red\nno equals sign here\nName = Upper\n name.x = y\n";
    let manifest = Manifest::parse(Some("fallback".to_string()), text).unwrap();
    assert_eq!(manifest.name, "fallback");
    assert_eq!(manifest.description, None);
    assert_eq!(manifest.version, None);
    assert_eq!(manifest.author, None);
    assert_eq!(manifest.cursors_directory, None);
}

#[test]
fn manifest_value_may_be_empty() {
    let manifest = Manifest::parse(Some("fallback".to_string()), "name =\ncursors_directory = ").unwrap();
    assert_eq!(manifest.name, "");
    assert_eq!(manifest.cursors_directory.as_deref(), Some(""));
}

#[test]
fn size_definition_without_extension_is_refused() {
    assert!(matches!(Size::from_str("0, foo"), Err(MetaError::MissingExtension)));
    assert!(matches!(Size::from_str("0, .foo"), Err(MetaError::MissingExtension)));
    assert!(matches!(Size::from_str("0, "), Err(MetaError::MissingExtension)));
}

#[test]
fn size_definition_with_other_extension_is_refused() {
    match Size::from_str("0, foo.bmp") {
        Err(MetaError::InvalidExtension(ext)) => assert_eq!(ext, "bmp"),
        other => panic!("{:?}", other),
    }
    match Size::from_str("0, foo.PNG") {
        Err(MetaError::InvalidExtension(ext)) => assert_eq!(ext, "PNG"),
        other => panic!("{:?}", other),
    }
    match Size::from_str("0, foo.") {
        Err(MetaError::InvalidExtension(ext)) => assert_eq!(ext, ""),
        other => panic!("{:?}", other),
    }
}

#[test]
fn size_definition_with_zero_delay_is_refused() {
    assert!(matches!(Size::from_str("0, foo.png, 0"), Err(MetaError::DelayIsZero)));
    assert!(matches!(Size::from_str("0, foo.png, 000"), Err(MetaError::DelayIsZero)));
}

#[test]
fn size_definition_with_delay_is_read() {
    let size = Size::from_str("0, foo.png, 5").unwrap();
    assert_eq!(size.size, 0);
    assert_eq!(size.file, "foo.png");
    assert_eq!(size.delay, Some(5));
    assert_eq!(size.kind, Kind::Png);
}

#[test]
fn size_definition_without_delay_is_read() {
    let size = Size::from_str("  32 ,  dir/arrow.svg  ").unwrap();
    assert_eq!(size.size, 32);
    assert_eq!(size.file, "dir/arrow.svg");
    assert_eq!(size.delay, None);
    assert_eq!(size.kind, Kind::Svg);
}

#[test]
fn size_definition_parts_after_the_third_are_not_read() {
    let size = Size::from_str("24, a.png, 100, whatever, 0").unwrap();
    assert_eq!(size.size, 24);
    assert_eq!(size.delay, Some(100));
}

#[test]
fn size_definition_that_is_empty_is_refused() {
    assert!(matches!(Size::from_str(""), Err(MetaError::EmptyDefinition)));
    assert!(matches!(Size::from_str("  \t"), Err(MetaError::EmptyDefinition)));
}

#[test]
fn size_definition_with_bad_size_is_refused() {
    match Size::from_str("big, a.png") {
        Err(MetaError::InvalidSize(e)) => assert_eq!(e.number, "big"),
        other => panic!("{:?}", other),
    }
    match Size::from_str(", a.png") {
        Err(MetaError::InvalidSize(e)) => assert_eq!(e.number, ""),
        other => panic!("{:?}", other),
    }
    match Size::from_str("-4, a.png") {
        Err(MetaError::InvalidSize(e)) => assert_eq!(e.number, "-4"),
        other => panic!("{:?}", other),
    }
    match Size::from_str("4294967296") {
        Err(MetaError::InvalidSize(e)) => assert_eq!(e.number, "4294967296"),
        other => panic!("{:?}", other),
    }
}

#[test]
fn size_definition_without_file_is_refused() {
    assert!(matches!(Size::from_str("24"), Err(MetaError::FileMissing)));
    assert!(matches!(Size::from_str(" 24 "), Err(MetaError::FileMissing)));
}

#[test]
fn size_definition_with_bad_delay_is_refused() {
    match Size::from_str("24, a.png, soon") {
        Err(MetaError::InvalidDelay(e)) => assert_eq!(e.number, "soon"),
        other => panic!("{:?}", other),
    }
    match Size::from_str("24, a.png,") {
        Err(MetaError::InvalidDelay(e)) => assert_eq!(e.number, ""),
        other => panic!("{:?}", other),
    }
}

#[test]
fn size_definition_errors_come_in_order() {
    // the size is looked at before the file, the file before the delay
    assert!(matches!(Size::from_str("x, foo, 0"), Err(MetaError::InvalidSize(_))));
    assert!(matches!(Size::from_str("1, foo, 0"), Err(MetaError::MissingExtension)));
    assert!(matches!(Size::from_str("1, foo.gif, 0"), Err(MetaError::InvalidExtension(_))));
}

#[test]
fn delay_is_read() {
    assert!(matches!(parse_delay("40".to_string()), Ok(40)));
    assert!(matches!(parse_delay("0".to_string()), Err(MetaError::DelayIsZero)));
    assert!(matches!(parse_delay("".to_string()), Err(MetaError::InvalidDelay(_))));
}

#[test]
fn kind_is_read_from_extension() {
    assert!(matches!(Kind::from_extension(Some("png".to_string())), Ok(Kind::Png)));
    assert!(matches!(Kind::from_extension(Some("svg".to_string())), Ok(Kind::Svg)));
    assert!(matches!(Kind::from_extension(None), Err(MetaError::MissingExtension)));
    assert!(matches!(
        Kind::from_extension(Some("jpeg".to_string())),
        Err(MetaError::InvalidExtension(_))
    ));
}

#[test]
fn resize_algorithm_is_read_from_token() {
    assert!(matches!(ResizeAlgorithm::from_token("none".to_string()), Ok(ResizeAlgorithm::NoResize)));
    assert!(matches!(ResizeAlgorithm::from_token("bilinear".to_string()), Ok(ResizeAlgorithm::Bilinear)));
    assert!(matches!(ResizeAlgorithm::from_token("nearest".to_string()), Ok(ResizeAlgorithm::Nearest)));
    match ResizeAlgorithm::from_token("None".to_string()) {
        Err(MetaError::InvalidResizeAlgorithm(token)) => assert_eq!(token, "None"),
        other => panic!("{:?}", other),
    }
}

#[test]
fn meta_is_read() {
    let text = "resize_algorithm = bilinear\nhotspot_x = 0.1\nhotspot_y = -2e-1\ndefine_override = arrow\ndefine_override = left_ptr;top_left_arrow\ndefine_size = 16, a16.png\ndefine_size = 32, a32.png, 50\nunknown = ignored\n";
    let meta = Meta::from_hyprlang("default", text).unwrap();
    assert_eq!(meta.name, "default");
    assert_eq!(meta.resize_algorithm, ResizeAlgorithm::Bilinear);
    assert_eq!(meta.hotspot_x, "0.1");
    assert_eq!(meta.hotspot_y, "-2e-1");
    assert_eq!(meta.hotspot_x.parse::<f32>().unwrap(), 0.1f32);
    assert_eq!(meta.hotspot_y.parse::<f32>().unwrap(), -0.2f32);
    assert_eq!(meta.overrides, vec!["default", "arrow", "left_ptr;top_left_arrow"]);
    assert_eq!(meta.sizes.len(), 2);
    assert_eq!(meta.sizes[0].size, 16);
    assert_eq!(meta.sizes[0].file, "a16.png");
    assert_eq!(meta.sizes[0].delay, None);
    assert_eq!(meta.sizes[1].size, 32);
    assert_eq!(meta.sizes[1].delay, Some(50));
    assert_eq!(meta.kind(), Kind::Png);
}

#[test]
fn meta_has_one_size_for_each_define_size_line() {
    let text = with_hotspots("define_size = 16, a.svg\ndefine_size = 24, b.svg\ndefine_size = 24, c.svg, 10\ndefine_size = 32, d.svg\n");
    let meta = Meta::from_hyprlang("wait", &text).unwrap();
    assert_eq!(meta.sizes.len(), 4);
    assert_eq!(meta.kind(), Kind::Svg);
}

#[test]
fn meta_defaults() {
    let text = with_hotspots("define_size = 16, a.png");
    let meta = Meta::from_hyprlang("pointer", &text).unwrap();
    assert_eq!(meta.resize_algorithm, ResizeAlgorithm::NoResize);
    assert_eq!(meta.overrides, vec!["pointer"]);
}

#[test]
fn meta_later_settings_replace_earlier_ones() {
    let text = "hotspot_x = 1\nhotspot_x = 2\nhotspot_y = 3\nresize_algorithm = nearest\nresize_algorithm = none\ndefine_size = 1, a.png";
    let meta = Meta::from_hyprlang("x", text).unwrap();
    assert_eq!(meta.hotspot_x, "2");
    assert_eq!(meta.resize_algorithm, ResizeAlgorithm::NoResize);
}

#[test]
fn meta_with_both_kinds_is_refused() {
    let text = with_hotspots("define_size = 16, a.png\ndefine_size = 32, a.svg\n");
    assert!(matches!(Meta::from_hyprlang("x", &text), Err(MetaError::MoreThanOneFormat)));
    let text = with_hotspots("define_size = 16, a.svg\ndefine_size = 16, b.svg\ndefine_size = 32, a.png\n");
    assert!(matches!(Meta::from_hyprlang("x", &text), Err(MetaError::MoreThanOneFormat)));
}

#[test]
fn meta_first_wrong_line_decides() {
    let text = "define_size = 16, a.png\nhotspot_x = left\ndefine_size = 32, a.svg\n";
    match Meta::from_hyprlang("x", text) {
        Err(MetaError::InvalidHotspotX(e)) => assert_eq!(e.number, "left"),
        other => panic!("{:?}", other),
    }
}

#[test]
fn meta_without_size_is_refused() {
    assert!(matches!(Meta::from_hyprlang("x", HOTSPOTS), Err(MetaError::NoSizeDefined)));
    assert!(matches!(Meta::from_hyprlang("x", ""), Err(MetaError::NoSizeDefined)));
}

#[test]
fn meta_without_hotspot_is_refused() {
    let text = "hotspot_y = 1\ndefine_size = 16, a.png";
    assert!(matches!(Meta::from_hyprlang("x", text), Err(MetaError::MissingHotspotX)));
    let text = "hotspot_x = 1\ndefine_size = 16, a.png";
    assert!(matches!(Meta::from_hyprlang("x", text), Err(MetaError::MissingHotspotY)));
    let text = "define_size = 16, a.png";
    assert!(matches!(Meta::from_hyprlang("x", text), Err(MetaError::MissingHotspotX)));
}

#[test]
fn meta_with_bad_hotspot_is_refused() {
    match Meta::from_hyprlang("x", "hotspot_x = 1,5") {
        Err(MetaError::InvalidHotspotX(e)) => assert_eq!(e.number, "1,5"),
        other => panic!("{:?}", other),
    }
    match Meta::from_hyprlang("x", "hotspot_x = 1\nhotspot_y = ") {
        Err(MetaError::InvalidHotspotY(e)) => assert_eq!(e.number, ""),
        other => panic!("{:?}", other),
    }
}

#[test]
fn meta_with_bad_resize_algorithm_is_refused() {
    match Meta::from_hyprlang("x", "resize_algorithm = bicubic") {
        Err(MetaError::InvalidResizeAlgorithm(token)) => assert_eq!(token, "bicubic"),
        other => panic!("{:?}", other),
    }
}

#[test]
fn meta_with_bad_size_definition_is_refused() {
    let text = with_hotspots("define_size = 16, a.png\ndefine_size = 16\n");
    assert!(matches!(Meta::from_hyprlang("x", &text), Err(MetaError::FileMissing)));
    let text = with_hotspots("define_size =\n");
    assert!(matches!(Meta::from_hyprlang("x", &text), Err(MetaError::EmptyDefinition)));
    let text = with_hotspots("define_size = 16, a.png, 1.5\n");
    assert!(matches!(Meta::from_hyprlang("x", &text), Err(MetaError::InvalidDelay(_))));
}

#[test]
fn meta_override_is_one_alias_per_line() {
    let text = with_hotspots("define_override = a, b; c\ndefine_override =\ndefine_size = 16, a.png");
    let meta = Meta::from_hyprlang("x", &text).unwrap();
    assert_eq!(meta.overrides, vec!["x", "a, b; c", ""]);
}
