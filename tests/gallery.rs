use pictura::common::paths::{
    compressed, config_file, file_name, file_stem, extension, html_file, medium, parent,
    pictura, pictures_file, wallpapers,
};
use pictura::common::{capitalize, decimal_text, rgb_to_hex};
use pictura::gallery::{
    category, describe_path, DecodedImage, Picture, PictureError, PixelLayout, ID_RANGE,
};
use pictura::scan::{is_hidden, is_image};

fn picture(category: Option<&str>) -> Picture {
    Picture {
        name: "sunset".to_string(),
        extension: "jpg".to_string(),
        category: category.map(|c| c.to_string()),
        width: 1920,
        height: 1080,
        color: "ab12cd".to_string(),
        id: 42,
        compressed: None,
        medium: None,
        original: None,
    }
}

#[test]
fn encoded_name_without_category() {
    assert_eq!(picture(None).to_string(), "w-1920_h-1080_c-ab12cd_i-42.jpg");
}

#[test]
fn encoded_name_with_category() {
    assert_eq!(
        picture(Some("nature")).to_string(),
        "w-1920_h-1080_c-ab12cd_i-42_k-nature.jpg"
    );
}

#[test]
fn encoded_name_of_zero_sized_picture() {
    let mut p = picture(None);
    p.width = 0;
    p.height = 7;
    p.id = 0;
    p.extension = "png".to_string();
    assert_eq!(p.to_string(), "w-0_h-7_c-ab12cd_i-0.png");
}

#[test]
fn category_of_file_in_source_tree_is_none() {
    assert_eq!(category("/g", "/g/wallpapers/sunset.jpg"), None);
}

#[test]
fn category_of_file_in_subdirectory() {
    assert_eq!(category("/g", "/g/wallpapers/nature/sunset.jpg"), Some("nature".to_string()));
}

#[test]
fn category_keeps_only_immediate_parent() {
    assert_eq!(
        category("/g", "/g/wallpapers/nature/beach/sunset.jpg"),
        Some("beach".to_string())
    );
}

#[test]
fn category_of_absolute_paths() {
    let root = "/home/u/gallery";
    assert_eq!(category(root, "/home/u/gallery/wallpapers/a.png"), None);
    assert_eq!(category(root, "/home/u/gallery/wallpapers/city/a.png"), Some("city".to_string()));
    assert_eq!(category(root, "a.png"), None);
    assert_eq!(category(root, "/a.png"), None);
}

#[test]
fn category_named_like_source_tree_is_kept() {
    assert_eq!(
        category("/g", "/g/wallpapers/wallpapers/x.jpg"),
        Some("wallpapers".to_string())
    );
    assert_eq!(category("/g", "/other/wallpapers/x.jpg"), Some("wallpapers".to_string()));
}

#[test]
fn layout_paths() {
    assert_eq!(pictura(), ".pictura");
    assert_eq!(wallpapers(), "wallpapers");
    assert_eq!(compressed(), ".pictura/compressed");
    assert_eq!(medium(), ".pictura/medium");
    assert_eq!(config_file(), ".pictura/config.toml");
    assert_eq!(pictures_file(), ".pictura/pictures.toml");
    assert_eq!(html_file(), "index.html");
}

#[test]
fn path_components() {
    assert_eq!(file_name("a/b/c.tar.gz"), "c.tar.gz");
    assert_eq!(file_stem("c.tar.gz"), "c.tar");
    assert_eq!(extension("c.tar.gz"), Some("gz".to_string()));
    assert_eq!(extension(".hidden"), None);
    assert_eq!(file_stem(".hidden"), ".hidden");
    assert_eq!(extension("noext"), None);
    assert_eq!(extension("dot."), Some("".to_string()));
    assert_eq!(parent("a/b/c.jpg"), Some("a/b".to_string()));
    assert_eq!(parent("c.jpg"), None);
    assert_eq!(file_name("dir/"), "");
}

#[test]
fn capitalize_first_character() {
    assert_eq!(capitalize("alice"), "Alice");
    assert_eq!(capitalize(""), "");
    assert_eq!(capitalize("éa"), "Éa");
    assert_eq!(capitalize("ß"), "SS");
}

#[test]
fn hex_and_decimal_text() {
    assert_eq!(rgb_to_hex(255, 0, 0), "ff0000");
    assert_eq!(rgb_to_hex(171, 18, 205), "ab12cd");
    assert_eq!(rgb_to_hex(0, 0, 0), "000000");
    assert_eq!(decimal_text(0), "0");
    assert_eq!(decimal_text(1920), "1920");
    assert_eq!(decimal_text(u32::MAX), "4294967295");
}

#[test]
fn scan_filters() {
    assert!(is_hidden(".git"));
    assert!(!is_hidden("photos"));
    assert!(!is_hidden(""));
    assert!(is_image("/g/wallpapers/a.jpg"));
    assert!(is_image("/g/wallpapers/a.jpeg"));
    assert!(is_image("/g/wallpapers/a.png"));
    assert!(!is_image("/g/wallpapers/a.gif"));
    assert!(!is_image("/g/wallpapers/a.JPG"));
    assert!(!is_image("/g/wallpapers/jpg"));
}

#[test]
fn describe_valid_path() {
    let (name, ext, cat) = describe_path("/g", "/g/wallpapers/nature/sunset.jpg").unwrap();
    assert_eq!(name, "sunset");
    assert_eq!(ext, "jpg");
    assert_eq!(cat, Some("nature".to_string()));
}

#[test]
fn path_without_file_name_is_invalid_path() {
    let r = Picture::from_parts("/g", "/g/wallpapers/", 1, 1, &vec![(1, 2, 3)], 5);
    assert_eq!(r.err(), Some(PictureError::InvalidPath));
}

#[test]
fn unsupported_extension_is_invalid_input() {
    let r = Picture::from_parts("/g", "/g/wallpapers/a.gif", 1, 1, &vec![(1, 2, 3)], 5);
    assert_eq!(r.err(), Some(PictureError::InvalidInput));
    let r = Picture::from_parts("/g", "/g/wallpapers/a", 1, 1, &vec![(1, 2, 3)], 5);
    assert_eq!(r.err(), Some(PictureError::InvalidInput));
}

#[test]
fn empty_palette_is_palette_error() {
    let r = Picture::from_parts("/g", "/g/wallpapers/a.png", 1, 1, &vec![], 5);
    assert_eq!(r.err(), Some(PictureError::Palette));
}

#[test]
fn from_parts_takes_first_palette_color() {
    let p = Picture::from_parts(
        "/g",
        "/g/wallpapers/nature/sunset.jpg",
        1920,
        1080,
        &vec![(171, 18, 205), (0, 0, 0)],
        42,
    )
    .unwrap();
    assert_eq!(p.name, "sunset");
    assert_eq!(p.extension, "jpg");
    assert_eq!(p.category, Some("nature".to_string()));
    assert_eq!((p.width, p.height, p.id), (1920, 1080, 42));
    assert_eq!(p.color, "ab12cd");
    assert!(p.compressed.is_none() && p.medium.is_none() && p.original.is_none());
    assert_eq!(p.to_string(), "w-1920_h-1080_c-ab12cd_i-42_k-nature.jpg");
}

fn hex_channel(s: &str, k: usize) -> i32 {
    i32::from_str_radix(&s[2 * k..2 * k + 2], 16).unwrap()
}

fn solid(width: u32, height: u32, layout: PixelLayout, px: &[u8]) -> DecodedImage {
    let mut pixels = Vec::new();
    for _ in 0..(width * height) {
        pixels.extend_from_slice(px);
    }
    DecodedImage { width, height, layout, pixels }
}

#[test]
fn solid_red_image_has_red_dominant_color() {
    for (w, h) in [(1u32, 1u32), (10, 10), (64, 17)] {
        let img = solid(w, h, PixelLayout::Rgb, &[255, 0, 0]);
        let p = Picture::new("/g", "/g/wallpapers/red.png", &img).unwrap();
        assert_eq!(p.color.len(), 6);
        assert!((hex_channel(&p.color, 0) - 255).abs() <= 8, "{}", p.color);
        assert!(hex_channel(&p.color, 1) <= 8, "{}", p.color);
        assert!(hex_channel(&p.color, 2) <= 8, "{}", p.color);
        assert_eq!((p.width, p.height), (w, h));
        assert!(p.id < ID_RANGE);
    }
}

#[test]
fn solid_red_rgba_image_has_red_dominant_color() {
    let img = solid(20, 20, PixelLayout::Rgba, &[255, 0, 0, 255]);
    let p = Picture::new("/g", "/g/wallpapers/red.png", &img).unwrap();
    assert!((hex_channel(&p.color, 0) - 255).abs() <= 8, "{}", p.color);
    assert!(hex_channel(&p.color, 1) <= 8 && hex_channel(&p.color, 2) <= 8, "{}", p.color);
}

#[test]
fn new_rejects_bad_path_before_reading_pixels() {
    let img = solid(2, 2, PixelLayout::Rgb, &[255, 0, 0]);
    assert_eq!(Picture::new("/g", "/g/wallpapers/x.bmp", &img).err(), Some(PictureError::InvalidInput));
}

#[test]
fn oversized_pixel_buffer_is_palette_error() {
    let img = DecodedImage {
        width: 1,
        height: 1,
        layout: PixelLayout::Rgb,
        pixels: vec![0u8; 5 * 67108864 + 1],
    };
    assert_eq!(Picture::new("/g", "/g/wallpapers/big.png", &img).err(), Some(PictureError::Palette));
}

#[test]
fn record_in_directory_named_like_tree_tracks_its_file() {
    let mut p = Picture::from_parts("/g", "/g/wallpapers/wallpapers/x.jpg", 4, 4, &vec![(1, 1, 1)], 3)
        .unwrap();
    assert_eq!(p.category, Some("wallpapers".to_string()));
    p.setup_paths("/g");
    assert_eq!(p.original, Some("/g/wallpapers/wallpapers/x.jpg".to_string()));
}

#[test]
fn setup_paths_fills_missing_paths_only() {
    let mut p = picture(Some("nature"));
    p.medium = Some("/elsewhere/m.jpg".to_string());
    p.setup_paths("/g");
    assert_eq!(
        p.compressed,
        Some("/g/.pictura/compressed/w-1920_h-1080_c-ab12cd_i-42_k-nature.jpg".to_string())
    );
    assert_eq!(p.medium, Some("/elsewhere/m.jpg".to_string()));
    assert_eq!(p.original, Some("/g/wallpapers/nature/sunset.jpg".to_string()));
    let before = p.clone();
    p.setup_paths("/other");
    assert_eq!(p.compressed, before.compressed);
    assert_eq!(p.medium, before.medium);
    assert_eq!(p.original, before.original);
}

#[test]
fn setup_paths_without_category() {
    let mut p = picture(None);
    p.setup_paths("/g");
    assert_eq!(p.original, Some("/g/wallpapers/sunset.jpg".to_string()));
    assert_eq!(
        p.medium,
        Some("/g/.pictura/medium/w-1920_h-1080_c-ab12cd_i-42.jpg".to_string())
    );
}

#[test]
fn pictures_equal_by_id() {
    let a = picture(None);
    let mut b = picture(Some("x"));
    assert!(a == b);
    b.id = 43;
    assert!(a != b);
}

