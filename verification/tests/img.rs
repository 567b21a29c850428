use mkwp::img::{
    check_build_inputs, copy_rows, heif_dimensions, load_rgb, xmp_metadata_size, BuildHeifError,
    HeifError, ImageFormat, ImageLoadError, Preset, RgbImage,
};
use mkwp::{CommonInput, Input, TimeInput};

use image::RgbaImage;

fn png_bytes(image: &RgbaImage) -> Vec<u8> {
    let mut bytes = Vec::new();
    image.write_to(&mut std::io::Cursor::new(&mut bytes), image::ImageFormat::Png).unwrap();
    bytes
}

fn entry(file_name: &str, is_primary: bool) -> Input {
    Input::Time(TimeInput {
        common: CommonInput {
            file_name: file_name.into(),
            is_primary,
            is_for_light: false,
            is_for_dark: false,
        },
        time: "08:00:00".into(),
    })
}

#[test]
fn loads_png_as_rgb_and_discards_alpha() {
    let source = RgbaImage::from_raw(1, 1, vec![1, 2, 3, 4]).unwrap();
    let bytes = png_bytes(&source);

    let decoded = load_rgb("load.png".into(), Some("png"), &bytes).unwrap();

    assert_eq!(decoded.as_raw(), &[1, 2, 3]);
    assert_eq!((decoded.width(), decoded.height()), (1, 1));
}

#[test]
fn copies_rgb_pixels_into_a_same_sized_heif_image() {
    let source = RgbImage::from_raw(
        2,
        2,
        vec![
            1, 2, 3, 4, 5, 6, // first row
            7, 8, 9, 10, 11, 12, // second row
        ],
    )
    .unwrap();
    let (width, height) = heif_dimensions(source.width(), source.height()).unwrap();
    assert_eq!((width, height), (2, 2));

    let stride = 8_usize;
    let mut pixels = vec![0_u8; stride * 2];
    copy_rows(source.as_raw(), source.width() as usize * 3, &mut pixels, stride);

    assert_eq!(&pixels[..6], &source.as_raw()[..6]);
    assert_eq!(&pixels[stride..stride + 6], &source.as_raw()[6..]);
    assert_eq!(&pixels[6..8], &[0, 0]);
    assert_eq!(&pixels[14..16], &[0, 0]);
}

#[test]
fn copies_only_whole_rows() {
    let source = [1, 2, 3, 4, 5, 6, 7];
    let mut destination = [9_u8; 10];
    copy_rows(&source, 3, &mut destination, 4);
    assert_eq!(destination, [1, 2, 3, 9, 4, 5, 6, 9, 9, 9]);
}

#[test]
fn loads_by_extension_when_the_content_is_unknown() {
    let source = RgbaImage::from_raw(2, 1, vec![1, 2, 3, 4, 5, 6, 7, 8]).unwrap();
    let bytes = png_bytes(&source);
    let decoded = load_rgb("a.png".into(), None, &bytes).unwrap();
    assert_eq!(decoded.as_raw(), &[1, 2, 3, 5, 6, 7]);

    match load_rgb("notes.txt".into(), Some("txt"), b"hello") {
        Err(ImageLoadError::UnknownFormat { path }) => assert_eq!(path, "notes.txt"),
        other => panic!("unexpected {other:?}"),
    }
    match load_rgb("notes".into(), None, b"hello") {
        Err(ImageLoadError::UnknownFormat { path }) => assert_eq!(path, "notes"),
        other => panic!("unexpected {other:?}"),
    }
    match load_rgb("picture.GIF".into(), Some("GIF"), b"hello") {
        Err(ImageLoadError::UnsupportedFormat { path, format }) => {
            assert_eq!(path, "picture.GIF");
            assert_eq!(format, ImageFormat::Gif);
        }
        other => panic!("unexpected {other:?}"),
    }
    match load_rgb("picture.png".into(), Some("png"), b"GIF89a......") {
        Err(ImageLoadError::UnsupportedFormat { format, .. }) => assert_eq!(format, ImageFormat::Gif),
        other => panic!("unexpected {other:?}"),
    }
    match load_rgb("broken.JPG".into(), Some("JPG"), b"not a jpeg") {
        Err(ImageLoadError::Read { path, .. }) => assert_eq!(path, "broken.JPG"),
        other => panic!("unexpected {other:?}"),
    }
}

#[test]
fn checks_dimensions_and_metadata_size() {
    assert_eq!(heif_dimensions(3, 4), Ok((3, 4)));
    assert_eq!(heif_dimensions(2_147_483_647, 1), Ok((2_147_483_647, 1)));
    assert_eq!(heif_dimensions(2_147_483_648, u32::MAX), Err(HeifError::ImageWidthOutOfRange));
    assert_eq!(heif_dimensions(1, 2_147_483_648), Err(HeifError::ImageHeightOutOfRange));
    assert_eq!(xmp_metadata_size(10), Ok(10));
    assert_eq!(xmp_metadata_size(2_147_483_648), Err(HeifError::MetadataTooLarge));
}

#[test]
fn requires_exactly_one_primary_image() {
    assert!(matches!(check_build_inputs(&[]), Err(BuildHeifError::NoImages)));
    assert!(matches!(
        check_build_inputs(&[entry("a.png", false)]),
        Err(BuildHeifError::InvalidPrimaryImageCount)
    ));
    assert!(matches!(
        check_build_inputs(&[entry("a.png", true), entry("b.png", true)]),
        Err(BuildHeifError::InvalidPrimaryImageCount)
    ));
    assert!(check_build_inputs(&[entry("a.png", false), entry("b.png", true)]).is_ok());
}

#[test]
fn rgb_images_hold_three_bytes_a_pixel() {
    assert!(RgbImage::from_raw(2, 1, vec![0; 6]).is_some());
    assert!(RgbImage::from_raw(2, 1, vec![0; 7]).is_none());
    assert!(RgbImage::from_raw(u32::MAX, u32::MAX, vec![]).is_none());
}

#[test]
fn presets_have_their_encoder_names() {
    assert_eq!(Preset::Ultrafast.as_str(), "ultrafast");
    assert_eq!(Preset::Veryslow.as_str(), "veryslow");
    assert_eq!(Preset::default(), Preset::Slow);
    for preset in [
        Preset::Ultrafast,
        Preset::Superfast,
        Preset::Veryfast,
        Preset::Faster,
        Preset::Fast,
        Preset::Medium,
        Preset::Slow,
        Preset::Slower,
        Preset::Veryslow,
        Preset::Placebo,
    ] {
        assert_eq!(Preset::from_name(preset.as_str()), Some(preset));
    }
    assert_eq!(Preset::from_name("Fast"), None);
    assert_eq!(Preset::from_name(""), None);
}

#[test]
fn input_accessors() {
    let input = entry("a.png", true);
    assert_eq!(input.file_name(), "a.png");
    assert!(input.is_primary());
    assert_eq!(input.time(), Some("08:00:00"));
    assert_eq!(input.solar_position(), None);
}

#[test]
fn reports_the_format_that_was_found() {
    let cases: [(&[u8], Option<&str>, ImageFormat); 12] = [
        (b"GIF87a", None, ImageFormat::Gif),
        (b"RIFF\x01\x02\x03\x04WEBPxxxx", None, ImageFormat::WebP),
        (b"II*\x00", None, ImageFormat::Tiff),
        (b"BMxx", None, ImageFormat::Bmp),
        (b"\x00\x00\x01\x00", None, ImageFormat::Ico),
        (b"\x00\x00\x12\x34ftypavif", None, ImageFormat::Avif),
        (b"P6 2 2", None, ImageFormat::Pnm),
        (b"farbfeld", None, ImageFormat::Farbfeld),
        (b"qoif", None, ImageFormat::Qoi),
        (b"nothing known", Some("TIFF"), ImageFormat::Tiff),
        (b"nothing known", Some("pgm"), ImageFormat::Pnm),
        (b"nothing known", Some("exr"), ImageFormat::OpenExr),
    ];
    for (contents, extension, expected) in cases {
        match load_rgb("f".into(), extension, contents) {
            Err(ImageLoadError::UnsupportedFormat { format, .. }) => assert_eq!(format, expected),
            other => panic!("unexpected {other:?}"),
        }
    }
    match load_rgb("f".into(), None, b"RIFF\x01\x02\x03\x04WEBQ") {
        Err(ImageLoadError::UnknownFormat { .. }) => {}
        other => panic!("unexpected {other:?}"),
    }
    match load_rgb("f".into(), None, b"P8") {
        Err(ImageLoadError::UnknownFormat { .. }) => {}
        other => panic!("unexpected {other:?}"),
    }
}
