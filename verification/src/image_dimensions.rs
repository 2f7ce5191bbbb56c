use vstd::prelude::*;

verus! {

/// A supported image encoding detected from its bytes.
#[derive(Clone, Copy, Debug, PartialEq, Eq, Structural)]
pub enum ImageFormat {
    Png,
    Jpeg,
}

/// Intrinsic raster image dimensions in pixels.
#[derive(Clone, Copy, Debug, PartialEq, Eq, Structural)]
pub struct ImageDimensions {
    pub width_px: u32,
    pub height_px: u32,
}

/// The detected image format and its intrinsic dimensions.
#[derive(Clone, Copy, Debug, PartialEq, Eq, Structural)]
pub struct ImageInfo {
    pub format: ImageFormat,
    pub dimensions: ImageDimensions,
}

#[derive(Clone, Copy, Debug, PartialEq, Eq, Structural)]
pub enum ImageDimensionError {
    UnsupportedFormat,
    InvalidPng,
    InvalidJpeg,
}

/// The human readable description of an image error.
pub open spec fn image_error_message(e: ImageDimensionError) -> Seq<char> {
    match e {
        ImageDimensionError::UnsupportedFormat => "unsupported image format"@,
        ImageDimensionError::InvalidPng => "invalid PNG dimensions"@,
        ImageDimensionError::InvalidJpeg => "invalid JPEG dimensions"@,
    }
}

impl ImageDimensionError {
    /// The human readable description of the error.
    pub fn message(&self) -> (r: &'static str)
        ensures
            r@ == image_error_message(*self),
    {
        match self {
            ImageDimensionError::UnsupportedFormat => "unsupported image format",
            ImageDimensionError::InvalidPng => "invalid PNG dimensions",
            ImageDimensionError::InvalidJpeg => "invalid JPEG dimensions",
        }
    }
}

/// The eight byte PNG file signature.
pub open spec fn png_signature() -> Seq<u8> {
    seq![0x89u8, 0x50u8, 0x4eu8, 0x47u8, 0x0du8, 0x0au8, 0x1au8, 0x0au8]
}

/// The JPEG start-of-image marker.
pub open spec fn jpeg_signature() -> Seq<u8> {
    seq![0xffu8, 0xd8u8]
}

pub open spec fn starts_with(bytes: Seq<u8>, prefix: Seq<u8>) -> bool {
    bytes.len() >= prefix.len() && bytes.subrange(0, prefix.len() as int) == prefix
}

/// Big-endian 16-bit value at `i`.
pub open spec fn be16(b: Seq<u8>, i: int) -> int {
    b[i] * 256 + b[i + 1]
}

/// Big-endian 32-bit value at `i`.
pub open spec fn be32(b: Seq<u8>, i: int) -> int {
    b[i] * 16777216 + b[i + 1] * 65536 + b[i + 2] * 256 + b[i + 3]
}

/// Positive dimensions, or the given error for a zero width or height.
pub open spec fn spec_dimensions(
    width: int,
    height: int,
    error: ImageDimensionError,
) -> Result<ImageDimensions, ImageDimensionError> {
    if width == 0 || height == 0 {
        Err(error)
    } else {
        Ok(ImageDimensions { width_px: width as u32, height_px: height as u32 })
    }
}

/// A PNG is read from the width and height of its leading IHDR chunk.
pub open spec fn spec_png(b: Seq<u8>) -> Result<ImageDimensions, ImageDimensionError> {
    if starts_with(b, png_signature()) && b.len() >= 33 && b[8] == 0 && b[9] == 0 && b[10] == 0
        && b[11] == 13 && b[12] == 0x49 && b[13] == 0x48 && b[14] == 0x44 && b[15] == 0x52 {
        spec_dimensions(be32(b, 16), be32(b, 20), ImageDimensionError::InvalidPng)
    } else {
        Err(ImageDimensionError::InvalidPng)
    }
}

/// The first index at or after `i` that does not hold a 0xff fill byte.
pub open spec fn skip_fill(b: Seq<u8>, i: int) -> int
    decreases b.len() - i,
{
    if 0 <= i < b.len() && b[i] == 0xff {
        skip_fill(b, i + 1)
    } else {
        i
    }
}

/// Markers that stand alone without a length field.
pub open spec fn standalone_marker(m: u8) -> bool {
    m == 0x01 || m == 0xd8 || m == 0xd9 || (0xd0 <= m <= 0xd7)
}

/// Start Of Frame markers whose segment holds the image dimensions.
pub open spec fn start_of_frame(m: u8) -> bool {
    (0xc0 <= m <= 0xc3) || (0xc5 <= m <= 0xc7) || (0xc9 <= m <= 0xcb) || (0xcd <= m <= 0xcf)
}

/// Walks the JPEG marker segments from index `i` to the first Start Of Frame segment.
pub open spec fn spec_jpeg_from(b: Seq<u8>, i: int) -> Result<ImageDimensions, ImageDimensionError>
    decreases b.len() - i,
{
    if i < 0 || i >= b.len() {
        Err(ImageDimensionError::InvalidJpeg)
    } else if b[i] != 0xff {
        Err(ImageDimensionError::InvalidJpeg)
    } else {
        let j = skip_fill(b, i);
        if j >= b.len() || j < i {
            Err(ImageDimensionError::InvalidJpeg)
        } else {
            let marker = b[j];
            let k = j + 1;
            if standalone_marker(marker) {
                spec_jpeg_from(b, k)
            } else if marker == 0 || marker == 0xda {
                Err(ImageDimensionError::InvalidJpeg)
            } else if k + 2 > b.len() {
                Err(ImageDimensionError::InvalidJpeg)
            } else {
                let length = be16(b, k);
                if length < 2 || k + length > b.len() {
                    Err(ImageDimensionError::InvalidJpeg)
                } else if start_of_frame(marker) {
                    if length < 8 || length != 8 + 3 * b[k + 7] {
                        Err(ImageDimensionError::InvalidJpeg)
                    } else {
                        spec_dimensions(
                            be16(b, k + 5),
                            be16(b, k + 3),
                            ImageDimensionError::InvalidJpeg,
                        )
                    }
                } else {
                    spec_jpeg_from(b, k + length)
                }
            }
        }
    }
}

pub open spec fn spec_jpeg(b: Seq<u8>) -> Result<ImageDimensions, ImageDimensionError> {
    if starts_with(b, jpeg_signature()) {
        spec_jpeg_from(b, 2)
    } else {
        Err(ImageDimensionError::InvalidJpeg)
    }
}

/// Format detection followed by the format's dimension reader.
pub open spec fn spec_image_info(b: Seq<u8>) -> Result<ImageInfo, ImageDimensionError> {
    if starts_with(b, png_signature()) {
        match spec_png(b) {
            Ok(d) => Ok(ImageInfo { format: ImageFormat::Png, dimensions: d }),
            Err(e) => Err(e),
        }
    } else if starts_with(b, jpeg_signature()) {
        match spec_jpeg(b) {
            Ok(d) => Ok(ImageInfo { format: ImageFormat::Jpeg, dimensions: d }),
            Err(e) => Err(e),
        }
    } else {
        Err(ImageDimensionError::UnsupportedFormat)
    }
}

fn has_png_signature(bytes: &[u8]) -> (r: bool)
    ensures
        r == starts_with(bytes@, png_signature()),
{
    if bytes.len() < 8 {
        return false;
    }
    let r = bytes[0] == 0x89 && bytes[1] == 0x50 && bytes[2] == 0x4e && bytes[3] == 0x47
        && bytes[4] == 0x0d && bytes[5] == 0x0a && bytes[6] == 0x1a && bytes[7] == 0x0a;
    assert(r == (bytes@.subrange(0, 8) =~= png_signature()));
    r
}

fn has_jpeg_signature(bytes: &[u8]) -> (r: bool)
    ensures
        r == starts_with(bytes@, jpeg_signature()),
{
    if bytes.len() < 2 {
        return false;
    }
    let r = bytes[0] == 0xff && bytes[1] == 0xd8;
    assert(r == (bytes@.subrange(0, 2) =~= jpeg_signature()));
    r
}

/// Detects a supported PNG or JPEG image and reads its intrinsic dimensions.
pub fn read_image_info(bytes: &[u8]) -> (r: Result<ImageInfo, ImageDimensionError>)
    ensures
        r == spec_image_info(bytes@),
{
    if has_png_signature(bytes) {
        return match read_png_dimensions(bytes) {
            Ok(dimensions) => Ok(ImageInfo { format: ImageFormat::Png, dimensions }),
            Err(e) => Err(e),
        };
    }
    if has_jpeg_signature(bytes) {
        return match read_jpeg_dimensions(bytes) {
            Ok(dimensions) => Ok(ImageInfo { format: ImageFormat::Jpeg, dimensions }),
            Err(e) => Err(e),
        };
    }
    Err(ImageDimensionError::UnsupportedFormat)
}

/// Reads PNG dimensions from its required IHDR chunk.
pub fn read_png_dimensions(bytes: &[u8]) -> (r: Result<ImageDimensions, ImageDimensionError>)
    ensures
        r == spec_png(bytes@),
{
    if !has_png_signature(bytes) || bytes.len() < 33 || bytes[8] != 0 || bytes[9] != 0
        || bytes[10] != 0 || bytes[11] != 13 || bytes[12] != 0x49 || bytes[13] != 0x48
        || bytes[14] != 0x44 || bytes[15] != 0x52 {
        return Err(ImageDimensionError::InvalidPng);
    }
    dimensions(u32_at(bytes, 16), u32_at(bytes, 20), ImageDimensionError::InvalidPng)
}

/// Reads JPEG dimensions from the first supported Start Of Frame marker.
pub fn read_jpeg_dimensions(bytes: &[u8]) -> (r: Result<ImageDimensions, ImageDimensionError>)
    ensures
        r == spec_jpeg(bytes@),
{
    if !has_jpeg_signature(bytes) {
        return Err(ImageDimensionError::InvalidJpeg);
    }
    let len = bytes.len();
    let mut index: usize = 2;
    while index < len
        invariant
            len == bytes@.len(),
            starts_with(bytes@, jpeg_signature()),
            2 <= index,
            spec_jpeg_from(bytes@, 2) == spec_jpeg_from(bytes@, index as int),
        decreases len - index,
    {
        let ghost start = index as int;
        if bytes[index] != 0xff {
            return Err(ImageDimensionError::InvalidJpeg);
        }
        while index < len && bytes[index] == 0xff
            invariant
                len == bytes@.len(),
                start <= index <= len,
                skip_fill(bytes@, start) == skip_fill(bytes@, index as int),
            decreases len - index,
        {
            index += 1;
        }
        if index >= len {
            return Err(ImageDimensionError::InvalidJpeg);
        }
        let marker = bytes[index];
        index += 1;
        if marker == 0x01 || marker == 0xd8 || marker == 0xd9 || (0xd0 <= marker && marker <= 0xd7) {
            continue;
        }
        if marker == 0x00 || marker == 0xda {
            return Err(ImageDimensionError::InvalidJpeg);
        }
        if len - index < 2 {
            return Err(ImageDimensionError::InvalidJpeg);
        }
        let length = u16_at(bytes, index) as usize;
        if length < 2 || length > len - index {
            return Err(ImageDimensionError::InvalidJpeg);
        }
        if is_start_of_frame(marker) {
            if length < 8 || length != 8 + 3 * (bytes[index + 7] as usize) {
                return Err(ImageDimensionError::InvalidJpeg);
            }
            let width = u16_at(bytes, index + 5) as u32;
            let height = u16_at(bytes, index + 3) as u32;
            assert(spec_jpeg_from(bytes@, start) == spec_dimensions(
                width as int,
                height as int,
                ImageDimensionError::InvalidJpeg,
            ));
            return dimensions(width, height, ImageDimensionError::InvalidJpeg);
        }
        index += length;
    }
    Err(ImageDimensionError::InvalidJpeg)
}

fn dimensions(width_px: u32, height_px: u32, error: ImageDimensionError) -> (r: Result<
    ImageDimensions,
    ImageDimensionError,
>)
    ensures
        r == spec_dimensions(width_px as int, height_px as int, error),
{
    if width_px == 0 || height_px == 0 {
        return Err(error);
    }
    Ok(ImageDimensions { width_px, height_px })
}

fn is_start_of_frame(marker: u8) -> (r: bool)
    ensures
        r == start_of_frame(marker),
{
    (0xc0 <= marker && marker <= 0xc3) || (0xc5 <= marker && marker <= 0xc7) || (0xc9 <= marker
        && marker <= 0xcb) || (0xcd <= marker && marker <= 0xcf)
}

fn u16_at(bytes: &[u8], index: usize) -> (r: u16)
    requires
        index + 1 < bytes@.len(),
    ensures
        r == be16(bytes@, index as int),
{
    (bytes[index] as u16) * 256 + (bytes[index + 1] as u16)
}

fn u32_at(bytes: &[u8], index: usize) -> (r: u32)
    requires
        index + 3 < bytes@.len(),
    ensures
        r == be32(bytes@, index as int),
{
    (bytes[index] as u32) * 16777216 + (bytes[index + 1] as u32) * 65536 + (bytes[index + 2]
        as u32) * 256 + (bytes[index + 3] as u32)
}

} // verus!
