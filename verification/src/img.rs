//! HEVC presets, image loading decisions and pixel copying.
use vstd::prelude::*;

use crate::input::Input;
use crate::metadata::MetadataError;
use crate::text::{eq_ignore_ascii_case, str_eq};
use vstd::arithmetic::div_mod::{lemma_fundamental_div_mod, lemma_fundamental_div_mod_converse};
use vstd::arithmetic::mul::lemma_mul_inequality;

use image::ImageFormat as F;
use ImageFormat::{
    Avif, Bmp, Dds, Farbfeld, Gif, Hdr, Ico, Jpeg, OpenExr, Png, Pnm, Qoi, Tga, Tiff, WebP,
};

verus! {

/// The x265 speed/compression tradeoff handed to libheif's HEVC encoder.
#[derive(Clone, Copy, Debug, PartialEq, Eq, Structural)]
pub enum Preset {
    Ultrafast,
    Superfast,
    Veryfast,
    Faster,
    Fast,
    Medium,
    Slow,
    Slower,
    Veryslow,
    Placebo,
}

/// The name under which a preset is known to the encoder and on the command line.
pub open spec fn preset_name(p: Preset) -> Seq<char> {
    match p {
        Preset::Ultrafast => "ultrafast"@,
        Preset::Superfast => "superfast"@,
        Preset::Veryfast => "veryfast"@,
        Preset::Faster => "faster"@,
        Preset::Fast => "fast"@,
        Preset::Medium => "medium"@,
        Preset::Slow => "slow"@,
        Preset::Slower => "slower"@,
        Preset::Veryslow => "veryslow"@,
        Preset::Placebo => "placebo"@,
    }
}

impl Preset {
    /// The encoder parameter value for this preset.
    pub fn as_str(self) -> (name: &'static str)
        ensures
            name@ == preset_name(self),
    {
        match self {
            Preset::Ultrafast => "ultrafast",
            Preset::Superfast => "superfast",
            Preset::Veryfast => "veryfast",
            Preset::Faster => "faster",
            Preset::Fast => "fast",
            Preset::Medium => "medium",
            Preset::Slow => "slow",
            Preset::Slower => "slower",
            Preset::Veryslow => "veryslow",
            Preset::Placebo => "placebo",
        }
    }
}

impl Default for Preset {
    /// The default preset trades encoding time for a smaller file.
    fn default() -> (p: Preset)
        ensures
            p == Preset::Slow,
    {
        Preset::Slow
    }
}

/// No two presets share a name, so a name read from the command line stands
/// for at most one preset, and `from_name` gives back the preset of every name
/// that `as_str` writes.
pub proof fn law_preset_names_distinct(p: Preset, q: Preset)
    ensures
        preset_name(p) == preset_name(q) ==> p == q,
{
    reveal_strlit("ultrafast");
    reveal_strlit("superfast");
    reveal_strlit("veryfast");
    reveal_strlit("faster");
    reveal_strlit("fast");
    reveal_strlit("medium");
    reveal_strlit("slow");
    reveal_strlit("slower");
    reveal_strlit("veryslow");
    reveal_strlit("placebo");
    if preset_name(p) == preset_name(q) && p != q {
        assert(preset_name(p).len() == preset_name(q).len());
        assert(preset_name(p)[0] == preset_name(q)[0]);
        assert(preset_name(p)[preset_name(p).len() - 1] == preset_name(q)[preset_name(q).len() - 1]);
        assert(preset_name(p)[1] == preset_name(q)[1]);
        assert(preset_name(p)[2] == preset_name(q)[2]);
    }
}

impl Preset {
    /// The preset whose name is `name`, as the command line spells it.
    pub fn from_name(name: &str) -> (r: Option<Preset>)
        ensures
            forall|p: Preset| r == Some(p) <==> preset_name(p) == name@,
    {
        let presets = [
            Preset::Ultrafast,
            Preset::Superfast,
            Preset::Veryfast,
            Preset::Faster,
            Preset::Fast,
            Preset::Medium,
            Preset::Slow,
            Preset::Slower,
            Preset::Veryslow,
            Preset::Placebo,
        ];
        let mut i: usize = 0;
        while i < 10
            invariant
                0 <= i <= 10,
                presets@ == seq![
                    Preset::Ultrafast,
                    Preset::Superfast,
                    Preset::Veryfast,
                    Preset::Faster,
                    Preset::Fast,
                    Preset::Medium,
                    Preset::Slow,
                    Preset::Slower,
                    Preset::Veryslow,
                    Preset::Placebo,
                ],
                forall|j: int| 0 <= j < i ==> preset_name(#[trigger] presets@[j]) != name@,
            decreases 10 - i,
        {
            let p = presets[i];
            if str_eq(name, p.as_str()) {
                proof {
                    assert forall|q: Preset| Some(p) == Some(q) <==> preset_name(q) == name@ by {
                        law_preset_names_distinct(p, q);
                    }
                }
                return Some(p);
            }
            i = i + 1;
        }
        proof {
            assert forall|q: Preset| preset_name(q) != name@ by {
                let k: int = match q {
                    Preset::Ultrafast => 0,
                    Preset::Superfast => 1,
                    Preset::Veryfast => 2,
                    Preset::Faster => 3,
                    Preset::Fast => 4,
                    Preset::Medium => 5,
                    Preset::Slow => 6,
                    Preset::Slower => 7,
                    Preset::Veryslow => 8,
                    Preset::Placebo => 9,
                };
                assert(presets@[k] == q);
            }
        }
        None
    }
}

// ---------------------------------------------------------------------------
// Errors

/// Why pixels could not be handed to libheif.
#[derive(Debug, PartialEq, Eq)]
pub enum HeifError {
    ImageWidthOutOfRange,
    ImageHeightOutOfRange,
    MetadataTooLarge,
    LibHeif(String),
}

/// Declares the image crate's `ImageError`, carried opaque in `ImageLoadError::Read`.
#[verifier::external_type_specification]
#[verifier::external_body]
pub struct ExImageError(image::ImageError);

/// Declares std's `PathBuf`, carried opaque in the output path errors.
#[verifier::external_type_specification]
#[verifier::external_body]
pub struct ExPathBuf(std::path::PathBuf);

/// Why an image file could not be read into RGB pixels.
#[derive(Debug)]
pub enum ImageLoadError {
    Read { path: String, source: image::ImageError },
    UnknownFormat { path: String },
    UnsupportedFormat { path: String, format: ImageFormat },
}

/// Why an image file could not be turned into a libheif image.
#[derive(Debug)]
pub enum ImageToHeifError {
    Load(ImageLoadError),
    Convert(HeifError),
}

/// Why a HEIF file could not be built from a manifest.
#[derive(Debug)]
pub enum BuildHeifError {
    NoImages,
    InvalidPrimaryImageCount,
    Image(ImageToHeifError),
    Heif(HeifError),
    Metadata(MetadataError),
    OutputPathNotUtf8 { path: std::path::PathBuf },
    OutputPathContainsNul { path: std::path::PathBuf },
}

// ---------------------------------------------------------------------------
// Checks before encoding

/// How many entries of the manifest are marked primary.
pub open spec fn primary_count(inputs: Seq<Input>) -> nat
    decreases inputs.len(),
{
    if inputs.len() == 0 {
        0
    } else {
        primary_count(inputs.drop_last()) + if inputs.last().spec_is_primary() {
            1nat
        } else {
            0nat
        }
    }
}

/// Checks that a manifest names images and exactly one primary image.
pub fn check_build_inputs(inputs: &[Input]) -> (r: Result<(), BuildHeifError>)
    ensures
        r is Ok <==> inputs@.len() > 0 && primary_count(inputs@) == 1,
        r matches Err(BuildHeifError::NoImages) <==> inputs@.len() == 0,
        r matches Err(BuildHeifError::InvalidPrimaryImageCount) <==> inputs@.len() > 0
            && primary_count(inputs@) != 1,
        r is Ok || r matches Err(BuildHeifError::NoImages) || r matches Err(
            BuildHeifError::InvalidPrimaryImageCount,
        ),
{
    if inputs.len() == 0 {
        return Err(BuildHeifError::NoImages);
    }
    let mut count: usize = 0;
    let mut i: usize = 0;
    while i < inputs.len()
        invariant
            i <= inputs@.len(),
            count == primary_count(inputs@.take(i as int)),
            count <= i,
        decreases inputs@.len() - i,
    {
        assert(inputs@.take(i + 1).drop_last() =~= inputs@.take(i as int));
        if inputs[i].is_primary() {
            count = count + 1;
        }
        i = i + 1;
    }
    assert(inputs@.take(inputs@.len() as int) =~= inputs@);
    if count != 1 {
        return Err(BuildHeifError::InvalidPrimaryImageCount);
    }
    Ok(())
}

/// The width and height as libheif takes them, which must fit in `i32`.
pub fn heif_dimensions(width: u32, height: u32) -> (r: Result<(i32, i32), HeifError>)
    ensures
        width > i32::MAX ==> r == Err::<(i32, i32), HeifError>(HeifError::ImageWidthOutOfRange),
        width <= i32::MAX && height > i32::MAX ==> r == Err::<(i32, i32), HeifError>(
            HeifError::ImageHeightOutOfRange,
        ),
        width <= i32::MAX && height <= i32::MAX ==> r == Ok::<(i32, i32), HeifError>(
            (width as i32, height as i32),
        ),
{
    if width > 2147483647u32 {
        return Err(HeifError::ImageWidthOutOfRange);
    }
    if height > 2147483647u32 {
        return Err(HeifError::ImageHeightOutOfRange);
    }
    Ok((width as i32, height as i32))
}

/// The size of an XMP packet as libheif takes it, which must fit in `i32`.
pub fn xmp_metadata_size(len: usize) -> (r: Result<i32, HeifError>)
    ensures
        len > i32::MAX ==> r == Err::<i32, HeifError>(HeifError::MetadataTooLarge),
        len <= i32::MAX ==> r == Ok::<i32, HeifError>(len as i32),
{
    if len > 2147483647usize {
        return Err(HeifError::MetadataTooLarge);
    }
    Ok(len as i32)
}

// ---------------------------------------------------------------------------
// Copying rows of pixels

/// How many rows are copied: as many as both buffers hold whole.
pub open spec fn row_count(
    source_len: int,
    source_stride: int,
    destination_len: int,
    destination_stride: int,
) -> int {
    let a = source_len / source_stride;
    let b = destination_len / destination_stride;
    if a < b {
        a
    } else {
        b
    }
}

/// Whether position `i` of the destination lies in the part of a row that
/// receives pixels, among the first `rows` rows.
pub open spec fn in_copied_rows(i: int, rows: int, source_stride: int, destination_stride: int) -> bool {
    i / destination_stride < rows && i % destination_stride < source_stride
}

/// Whether position `i` of the destination has been written once `row` rows
/// and `col` bytes of the next row are done.
spec fn written(i: int, row: int, col: int, source_stride: int, destination_stride: int) -> bool {
    in_copied_rows(i, row, source_stride, destination_stride) || (i / destination_stride == row && i
        % destination_stride < col)
}

proof fn lemma_row_in_bounds(row: int, rows: int, len: int, stride: int)
    requires
        0 <= row < rows,
        rows <= len / stride,
        stride > 0,
        len >= 0,
    ensures
        row * stride + stride <= len,
{
    lemma_fundamental_div_mod(len, stride);
    lemma_mul_inequality(row + 1, len / stride, stride);
    assert((row + 1) * stride == row * stride + stride) by (nonlinear_arith);
    assert((len / stride) * stride == stride * (len / stride)) by (nonlinear_arith);
}

/// Copies the rows of `source`, `source_stride` bytes each, to the rows of
/// `destination`, which are `destination_stride` bytes apart; the bytes of a
/// destination row past `source_stride` are left as they were.
pub fn copy_rows(source: &[u8], source_stride: usize, destination: &mut [u8], destination_stride: usize)
    requires
        source_stride > 0,
        destination_stride > 0,
        row_count(
            source@.len() as int,
            source_stride as int,
            old(destination)@.len() as int,
            destination_stride as int,
        ) > 0 ==> source_stride <= destination_stride,
    ensures
        final(destination)@.len() == old(destination)@.len(),
        forall|i: int|
            0 <= i < final(destination)@.len() ==> #[trigger] final(destination)@[i] == if in_copied_rows(
                i,
                row_count(
                    source@.len() as int,
                    source_stride as int,
                    old(destination)@.len() as int,
                    destination_stride as int,
                ),
                source_stride as int,
                destination_stride as int,
            ) {
                source@[(i / destination_stride as int) * source_stride + i % destination_stride as int]
            } else {
                old(destination)@[i]
            },
{
    let ghost original = destination@;
    let ss = source_stride;
    let ds = destination_stride;
    let source_rows = source.len() / ss;
    let destination_rows = destination.len() / ds;
    let rows = if source_rows < destination_rows { source_rows } else { destination_rows };
    let mut row: usize = 0;
    while row < rows
        invariant
            ss == source_stride,
            ds == destination_stride,
            ss > 0,
            ds > 0,
            rows > 0 ==> ss <= ds,
            rows as int == row_count(source@.len() as int, ss as int, original.len() as int, ds as int),
            rows <= (original.len() as int) / (ds as int),
            original.len() <= usize::MAX,
            source@.len() <= usize::MAX,
            rows <= (source@.len() as int) / (ss as int),
            row <= rows,
            destination@.len() == original.len(),
            forall|i: int|
                0 <= i < destination@.len() ==> #[trigger] destination@[i] == if written(
                    i,
                    row as int,
                    0,
                    ss as int,
                    ds as int,
                ) {
                    source@[(i / ds as int) * ss + i % ds as int]
                } else {
                    original[i]
                },
        decreases rows - row,
    {
        proof {
            lemma_row_in_bounds(row as int, rows as int, original.len() as int, ds as int);
            lemma_row_in_bounds(row as int, rows as int, source@.len() as int, ss as int);
        }
        let destination_start = row * ds;
        let source_start = row * ss;
        let mut col: usize = 0;
        while col < ss
            invariant
                ss == source_stride,
                ds == destination_stride,
                0 < ss <= ds,
                row < rows,
                rows as int == row_count(source@.len() as int, ss as int, original.len() as int, ds as int),
                destination_start == row * ds,
                source_start == row * ss,
                destination_start + ds <= original.len(),
                source_start + ss <= source@.len(),
                source@.len() <= usize::MAX,
                original.len() <= usize::MAX,
                col <= ss,
                destination@.len() == original.len(),
                forall|i: int|
                    0 <= i < destination@.len() ==> #[trigger] destination@[i] == if written(
                        i,
                        row as int,
                        col as int,
                        ss as int,
                        ds as int,
                    ) {
                        source@[(i / ds as int) * ss + i % ds as int]
                    } else {
                        original[i]
                    },
            decreases ss - col,
        {
            let j = destination_start + col;
            let ghost before = destination@;
            destination[j] = source[source_start + col];
            proof {
                lemma_fundamental_div_mod_converse(j as int, ds as int, row as int, col as int);
                assert forall|i: int| 0 <= i < destination@.len() implies #[trigger] destination@[i]
                    == if written(i, row as int, col + 1, ss as int, ds as int) {
                    source@[(i / ds as int) * ss + i % ds as int]
                } else {
                    original[i]
                } by {
                    if i != j {
                        lemma_fundamental_div_mod(i, ds as int);
                        assert(before[i] == destination@[i]);
                        if i / ds as int == row && i % ds as int == col {
                            assert(i == ds * row + col);
                            assert(ds * row == row * ds) by (nonlinear_arith);
                        }
                    }
                }
            }
            col = col + 1;
        }
        row = row + 1;
    }
}

// ---------------------------------------------------------------------------
// Decoded images

/// An image of 8-bit RGB pixels, row by row, three bytes a pixel.
#[derive(Debug)]
pub struct RgbImage {
    width: u32,
    height: u32,
    data: Vec<u8>,
}

impl RgbImage {
    #[verifier::type_invariant]
    spec fn well_formed(self) -> bool {
        self.data@.len() == 3 * self.width * self.height
    }

    pub closed spec fn spec_width(self) -> u32 {
        self.width
    }

    pub closed spec fn spec_height(self) -> u32 {
        self.height
    }

    pub closed spec fn spec_data(self) -> Seq<u8> {
        self.data@
    }

    /// The pixels `data` as an image of `width` by `height`, when `data` holds
    /// exactly that many pixels.
    pub fn from_raw(width: u32, height: u32, data: Vec<u8>) -> (r: Option<RgbImage>)
        ensures
            r is Some <==> data@.len() == 3 * width * height,
            r matches Some(image) ==> image.spec_width() == width && image.spec_height() == height
                && image.spec_data() == data@,
    {
        assert((width as int) * (height as int) <= 0xffff_ffffint * 0xffff_ffffint) by (nonlinear_arith)
            requires
                width <= 0xffff_ffffu32,
                height <= 0xffff_ffffu32,
        ;
        assert(3 * width * height == 3 * ((width as int) * (height as int))) by (nonlinear_arith);
        let len = data.len();
        let pixels: u64 = (width as u64) * (height as u64);
        if pixels > (usize::MAX / 3) as u64 {
            return None;
        }
        if len != 3 * (pixels as usize) {
            return None;
        }
        Some(RgbImage { width, height, data })
    }

    pub fn width(&self) -> (w: u32)
        ensures
            w == self.spec_width(),
    {
        self.width
    }

    pub fn height(&self) -> (h: u32)
        ensures
            h == self.spec_height(),
    {
        self.height
    }

    /// The pixel bytes, `3 * width` bytes a row.
    pub fn as_raw(&self) -> (data: &[u8])
        ensures
            data@ == self.spec_data(),
            data@.len() == 3 * self.spec_width() * self.spec_height(),
    {
        proof {
            use_type_invariant(self);
        }
        self.data.as_slice()
    }
}

/// The image formats that the image crate tells apart by magic bytes or by
/// file name extension.
#[derive(Clone, Copy, Debug, PartialEq, Eq, Structural)]
pub enum ImageFormat {
    Png,
    Jpeg,
    Gif,
    WebP,
    Pnm,
    Tiff,
    Tga,
    Dds,
    Bmp,
    Ico,
    Hdr,
    OpenExr,
    Farbfeld,
    Avif,
    Qoi,
}

/// The two formats that a wallpaper's images may have.
#[derive(Clone, Copy, Debug, PartialEq, Eq, Structural)]
pub enum AcceptedFormat {
    Jpeg,
    Png,
}

/// The accepted format that `format` is, if it is one.
pub open spec fn accepted(format: ImageFormat) -> Option<AcceptedFormat> {
    match format {
        ImageFormat::Jpeg => Some(AcceptedFormat::Jpeg),
        ImageFormat::Png => Some(AcceptedFormat::Png),
        _ => None,
    }
}

pub open spec fn starts_with(s: Seq<u8>, prefix: Seq<u8>) -> bool {
    prefix.len() <= s.len() && s.take(prefix.len() as int) == prefix
}

/// Whether `s` holds `part` from position `start` on.
pub open spec fn holds_at(s: Seq<u8>, start: int, part: Seq<u8>) -> bool {
    start + part.len() <= s.len() && s.subrange(start, start + part.len()) == part
}

/// The first bytes of a file, at most sixteen, from which its format is guessed.
pub open spec fn image_header(contents: Seq<u8>) -> Seq<u8> {
    if contents.len() < 16 {
        contents
    } else {
        contents.take(16)
    }
}

/// The format that the magic bytes at the start of `h` show, by the image
/// crate's table, whose rows are tried in this order.
pub open spec fn spec_guess_format(h: Seq<u8>) -> Option<ImageFormat> {
    if starts_with(h, seq![0x89u8, 0x50, 0x4e, 0x47, 0x0d, 0x0a, 0x1a, 0x0a]) {
        Some(ImageFormat::Png)
    } else if starts_with(h, seq![0xffu8, 0xd8, 0xff]) {
        Some(ImageFormat::Jpeg)
    } else if starts_with(h, seq![0x47u8, 0x49, 0x46, 0x38, 0x39, 0x61]) {
        // GIF89a
        Some(ImageFormat::Gif)
    } else if starts_with(h, seq![0x47u8, 0x49, 0x46, 0x38, 0x37, 0x61]) {
        // GIF87a
        Some(ImageFormat::Gif)
    } else if h.len() >= 12 && holds_at(h, 0, seq![0x52u8, 0x49, 0x46, 0x46]) && holds_at(
        h,
        8,
        seq![0x57u8, 0x45, 0x42, 0x50],
    ) {
        // RIFF, any four bytes, WEBP
        Some(ImageFormat::WebP)
    } else if starts_with(h, seq![0x4du8, 0x4d, 0x00, 0x2a]) {
        // MM\0*
        Some(ImageFormat::Tiff)
    } else if starts_with(h, seq![0x49u8, 0x49, 0x2a, 0x00]) {
        // II*\0
        Some(ImageFormat::Tiff)
    } else if starts_with(h, seq![0x44u8, 0x44, 0x53, 0x20]) {
        // "DDS "
        Some(ImageFormat::Dds)
    } else if starts_with(h, seq![0x42u8, 0x4d]) {
        // BM
        Some(ImageFormat::Bmp)
    } else if starts_with(h, seq![0x00u8, 0x00, 0x01, 0x00]) {
        Some(ImageFormat::Ico)
    } else if starts_with(h, seq![0x23u8, 0x3f, 0x52, 0x41, 0x44, 0x49, 0x41, 0x4e, 0x43, 0x45]) {
        // #?RADIANCE
        Some(ImageFormat::Hdr)
    } else if h.len() >= 12 && holds_at(h, 0, seq![0x00u8, 0x00]) && holds_at(
        h,
        4,
        seq![0x66u8, 0x74, 0x79, 0x70, 0x61, 0x76, 0x69, 0x66],
    ) {
        // two zero bytes, any two bytes, ftypavif
        Some(ImageFormat::Avif)
    } else if starts_with(h, seq![0x76u8, 0x2f, 0x31, 0x01]) {
        Some(ImageFormat::OpenExr)
    } else if starts_with(h, seq![0x71u8, 0x6f, 0x69, 0x66]) {
        // qoif
        Some(ImageFormat::Qoi)
    } else if h.len() >= 2 && h[0] == 0x50u8 && 0x31u8 <= h[1] && h[1] <= 0x37u8 {
        // P1 to P7
        Some(ImageFormat::Pnm)
    } else if starts_with(h, seq![0x66u8, 0x61, 0x72, 0x62, 0x66, 0x65, 0x6c, 0x64]) {
        // farbfeld
        Some(ImageFormat::Farbfeld)
    } else {
        None
    }
}

/// Calls the image crate's `guess_format` on the first bytes of a file and
/// names the format found in this crate's `ImageFormat`. The crate tries the
/// rows of its magic byte table in order; the contract claims that table as
/// `spec_guess_format` states it.
#[verifier::external_body]
fn guess_image_format(header: &[u8]) -> (r: Option<ImageFormat>)
    ensures
        r == spec_guess_format(header@),
{
    let format = image::guess_format(header).ok()?;
    Some(match format {
        F::Png => Png, F::Jpeg => Jpeg, F::Gif => Gif, F::WebP => WebP, F::Pnm => Pnm,
        F::Tiff => Tiff, F::Tga => Tga, F::Dds => Dds, F::Bmp => Bmp, F::Ico => Ico,
        F::Hdr => Hdr, F::OpenExr => OpenExr, F::Farbfeld => Farbfeld, F::Avif => Avif,
        F::Qoi => Qoi, _ => return None,
    })
}

pub open spec fn extension_is(ext: Seq<char>, name: &str) -> bool {
    eq_ignore_ascii_case(ext, name@)
}

/// The format a file name extension names, as the image crate reads it.
pub open spec fn extension_format(ext: Seq<char>) -> Option<ImageFormat> {
    if extension_is(ext, "avif") {
        Some(ImageFormat::Avif)
    } else if extension_is(ext, "jpg") || extension_is(ext, "jpeg") || extension_is(ext, "jfif") {
        Some(ImageFormat::Jpeg)
    } else if extension_is(ext, "png") || extension_is(ext, "apng") {
        Some(ImageFormat::Png)
    } else if extension_is(ext, "gif") {
        Some(ImageFormat::Gif)
    } else if extension_is(ext, "webp") {
        Some(ImageFormat::WebP)
    } else if extension_is(ext, "tif") || extension_is(ext, "tiff") {
        Some(ImageFormat::Tiff)
    } else if extension_is(ext, "tga") {
        Some(ImageFormat::Tga)
    } else if extension_is(ext, "dds") {
        Some(ImageFormat::Dds)
    } else if extension_is(ext, "bmp") {
        Some(ImageFormat::Bmp)
    } else if extension_is(ext, "ico") {
        Some(ImageFormat::Ico)
    } else if extension_is(ext, "hdr") {
        Some(ImageFormat::Hdr)
    } else if extension_is(ext, "exr") {
        Some(ImageFormat::OpenExr)
    } else if extension_is(ext, "pbm") || extension_is(ext, "pam") || extension_is(ext, "ppm")
        || extension_is(ext, "pgm") || extension_is(ext, "pnm") {
        Some(ImageFormat::Pnm)
    } else if extension_is(ext, "ff") {
        Some(ImageFormat::Farbfeld)
    } else if extension_is(ext, "qoi") {
        Some(ImageFormat::Qoi)
    } else {
        None
    }
}

/// Calls the image crate's `ImageFormat::from_extension` and names the format
/// in this crate's `ImageFormat`. The crate lowercases the ASCII letters of
/// the extension and matches it against its list of names; the contract
/// claims that list as `extension_format` states it.
#[verifier::external_body]
fn image_format_from_extension(extension: &str) -> (r: Option<ImageFormat>)
    ensures
        r == extension_format(extension@),
{
    let format = image::ImageFormat::from_extension(extension)?;
    Some(match format {
        F::Png => Png, F::Jpeg => Jpeg, F::Gif => Gif, F::WebP => WebP, F::Pnm => Pnm,
        F::Tiff => Tiff, F::Tga => Tga, F::Dds => Dds, F::Bmp => Bmp, F::Ico => Ico,
        F::Hdr => Hdr, F::OpenExr => OpenExr, F::Farbfeld => Farbfeld, F::Avif => Avif,
        F::Qoi => Qoi, _ => return None,
    })
}

/// The format an image file is read as: the one its first bytes show, else
/// the one its extension names.
pub open spec fn spec_image_format(contents: Seq<u8>, extension: Option<Seq<char>>) -> Option<
    ImageFormat,
> {
    match spec_guess_format(image_header(contents)) {
        Some(format) => Some(format),
        None => match extension {
            Some(ext) => extension_format(ext),
            None => None,
        },
    }
}

/// The width, height and RGB bytes that decoding `contents` in `format` and
/// converting the result to 8-bit RGB gives, or `None` when decoding fails.
pub uninterp spec fn decoded_rgb(contents: Seq<u8>, format: AcceptedFormat) -> Option<(u32, u32, Seq<u8>)>;

/// Calls the image crate's `load_from_memory_with_format`, which decodes with
/// the default limits, then `to_rgb8`, which drops any alpha channel, and
/// hands out the buffer. The contract names the result, a function of the
/// bytes and the format, and claims that the buffer holds exactly three
/// bytes for each pixel, as the image crate allocates it.
#[verifier::external_body]
fn decode_rgb(contents: &[u8], format: AcceptedFormat) -> (r: Result<RgbImage, image::ImageError>)
    ensures
        match r {
            Ok(image) => decoded_rgb(contents@, format) == Some(
                (image.spec_width(), image.spec_height(), image.spec_data()),
            ),
            Err(_) => decoded_rgb(contents@, format) is None,
        },
{
    let format = match format {
        AcceptedFormat::Jpeg => F::Jpeg,
        AcceptedFormat::Png => F::Png,
    };
    match image::load_from_memory_with_format(contents, format) {
        Ok(decoded) => {
            let rgb = decoded.to_rgb8();
            Ok(RgbImage { width: rgb.width(), height: rgb.height(), data: rgb.into_raw() })
        },
        Err(e) => Err(e),
    }
}

pub open spec fn extension_view(extension: Option<&str>) -> Option<Seq<char>> {
    match extension {
        Some(ext) => Some(ext@),
        None => None,
    }
}

/// Reads the contents of a JPEG or PNG file into RGB pixels, without resizing
/// or cropping, dropping any alpha channel. `path` is the file's name as
/// errors show it and `extension` its file name extension, if it has one.
pub fn load_rgb(path: String, extension: Option<&str>, contents: &[u8]) -> (r: Result<
    RgbImage,
    ImageLoadError,
>)
    ensures
        match spec_image_format(contents@, extension_view(extension)) {
            None => r matches Err(ImageLoadError::UnknownFormat { path: p }) && p == path,
            Some(format) => match accepted(format) {
                None => r matches Err(ImageLoadError::UnsupportedFormat { path: p, format: f })
                    && p == path && f == format,
                Some(a) => match decoded_rgb(contents@, a) {
                    Some((w, h, data)) => r matches Ok(image) && image.spec_width() == w
                        && image.spec_height() == h && image.spec_data() == data,
                    None => r matches Err(ImageLoadError::Read { path: p, .. }) && p == path,
                },
            },
        },
{
    let header_len = if contents.len() < 16 { contents.len() } else { 16 };
    let header = vstd::slice::slice_subrange(contents, 0, header_len);
    assert(header@ == image_header(contents@)) by {
        if contents@.len() < 16 {
            assert(contents@.subrange(0, contents@.len() as int) =~= contents@);
        }
    }
    let format = match guess_image_format(header) {
        Some(format) => Some(format),
        None => match extension {
            Some(ext) => image_format_from_extension(ext),
            None => None,
        },
    };
    let accepted_format = match format {
        None => return Err(ImageLoadError::UnknownFormat { path }),
        Some(ImageFormat::Jpeg) => AcceptedFormat::Jpeg,
        Some(ImageFormat::Png) => AcceptedFormat::Png,
        Some(format) => return Err(ImageLoadError::UnsupportedFormat { path, format }),
    };
    match decode_rgb(contents, accepted_format) {
        Ok(image) => Ok(image),
        Err(source) => Err(ImageLoadError::Read { path, source }),
    }
}

} // verus!
