use opensuite_docx::image_dimensions::{
    read_image_info, read_jpeg_dimensions, read_png_dimensions, ImageDimensionError, ImageDimensions,
    ImageFormat,
};

const PNG_SIGNATURE: &[u8] = b"\x89PNG\r\n\x1a\n";

fn png(width_px: u32, height_px: u32) -> Vec<u8> {
    let mut bytes = PNG_SIGNATURE.to_vec();
    bytes.extend_from_slice(&[0, 0, 0, 13]);
    bytes.extend_from_slice(b"IHDR");
    bytes.extend_from_slice(&width_px.to_be_bytes());
    bytes.extend_from_slice(&height_px.to_be_bytes());
    bytes.extend_from_slice(&[8, 2, 0, 0, 0]);
    bytes.extend_from_slice(&[0; 4]);
    bytes
}

fn segment(marker: u8, data: &[u8]) -> Vec<u8> {
    let mut bytes = vec![0xff, marker];
    bytes.extend_from_slice(&((data.len() + 2) as u16).to_be_bytes());
    bytes.extend_from_slice(data);
    bytes
}

#[test]
fn reads_png_dimensions_and_detects_format() {
    let info = read_image_info(&png(640, 480)).unwrap();
    assert_eq!(info.format, ImageFormat::Png);
    assert_eq!(
        info.dimensions,
        ImageDimensions {
            width_px: 640,
            height_px: 480
        }
    );
}

#[test]
fn rejects_truncated_or_zero_sized_pngs() {
    assert_eq!(
        read_png_dimensions(PNG_SIGNATURE),
        Err(ImageDimensionError::InvalidPng)
    );
    assert_eq!(
        read_png_dimensions(&png(0, 1)),
        Err(ImageDimensionError::InvalidPng)
    );
}

#[test]
fn reads_jpeg_dimensions_after_metadata_segments() {
    let mut bytes = vec![0xff, 0xd8];
    bytes.extend(segment(0xe0, b"JFIF\0"));
    bytes.extend(segment(0xfe, b"metadata"));
    bytes.extend(segment(
        0xc0,
        &[8, 1, 224, 2, 128, 3, 1, 17, 0, 2, 17, 1, 3, 17, 1],
    ));

    assert_eq!(
        read_jpeg_dimensions(&bytes),
        Ok(ImageDimensions {
            width_px: 640,
            height_px: 480
        })
    );
    assert_eq!(read_image_info(&bytes).unwrap().format, ImageFormat::Jpeg);
}

#[test]
fn rejects_malformed_or_zero_sized_jpegs() {
    assert_eq!(
        read_jpeg_dimensions(&[0xff, 0xd8, 0xff, 0xe0]),
        Err(ImageDimensionError::InvalidJpeg)
    );
    let mut zero_width = vec![0xff, 0xd8];
    zero_width.extend(segment(
        0xc0,
        &[8, 0, 1, 0, 0, 3, 1, 17, 0, 2, 17, 1, 3, 17, 1],
    ));
    assert_eq!(
        read_jpeg_dimensions(&zero_width),
        Err(ImageDimensionError::InvalidJpeg)
    );
}

#[test]
fn rejects_unsupported_bytes() {
    assert_eq!(
        read_image_info(b"not an image"),
        Err(ImageDimensionError::UnsupportedFormat)
    );
}

#[test]
fn reads_progressive_jpeg_frames_and_large_pngs() {
    let mut bytes = vec![0xff, 0xd8];
    bytes.extend(segment(0xc2, &[8, 0, 2, 0, 3, 1, 1, 17, 0]));
    assert_eq!(
        read_jpeg_dimensions(&bytes),
        Ok(ImageDimensions {
            width_px: 3,
            height_px: 2
        })
    );
    let info = read_image_info(&png(0x0102_0304, 7)).unwrap();
    assert_eq!(info.dimensions.width_px, 0x0102_0304);
    assert_eq!(info.dimensions.height_px, 7);
    assert_eq!(
        ImageDimensionError::InvalidJpeg.message(),
        "invalid JPEG dimensions"
    );
}
