use bmp_image::bmp::{padded_row_size, FileHeader, FormatError, Image, InfoHeader};
use bmp_image::color::Color;
use bmp_image::cursor::{take_array, Cursor};
use bmp_image::image::{ImageError, SimpleImage};
use bmp_image::point::{Axis, Point};

fn le32(v: &mut Vec<u8>, x: u32) {
    v.extend_from_slice(&x.to_le_bytes());
}

/// Headers for a `width` by `height` image of `bpp` bits followed by `data`,
/// with the file size set to the real length plus `size_delta`.
fn bmp(width: i32, height: i32, bpp: u16, data: &[u8], size_delta: i64) -> Vec<u8> {
    let total = (54 + data.len()) as i64 + size_delta;
    let mut v = Vec::new();
    v.extend_from_slice(b"BM");
    le32(&mut v, total as u32);
    le32(&mut v, 0);
    le32(&mut v, 54);
    le32(&mut v, 40);
    v.extend_from_slice(&width.to_le_bytes());
    v.extend_from_slice(&height.to_le_bytes());
    v.extend_from_slice(&1u16.to_le_bytes());
    v.extend_from_slice(&bpp.to_le_bytes());
    for _ in 0..6 {
        le32(&mut v, 0);
    }
    v.extend_from_slice(data);
    v
}

#[test]
fn color_round_trip() {
    for &(a, r, g, b) in &[(0u8, 0u8, 0u8, 0u8), (255, 255, 255, 255), (1, 2, 3, 4), (0xAB, 0x00, 0xFF, 0x10)] {
        let c = Color { alpha: a, red: r, green: g, blue: b };
        let back = Color::from(c.to());
        assert_eq!(back, c);
    }
}

#[test]
fn color_packing_order() {
    let c = Color { alpha: 0x11, red: 0x22, green: 0x33, blue: 0x44 };
    assert_eq!(c.to(), 0x11223344);
    let d = Color::from(0xFF00_80FF);
    assert_eq!((d.alpha, d.red, d.green, d.blue), (0xFF, 0x00, 0x80, 0xFF));
    assert_eq!(Color::new().to(), 0);
}

#[test]
fn cursor_reads_little_endian() {
    let bytes = [0x34u8, 0x12, 0x78, 0x56, 0x34, 0x12, 0xFF, 0xFF, 0xFF, 0xFF];
    let mut c = Cursor::new(0);
    assert_eq!(c.read_u16_le(&bytes), 0x1234);
    assert_eq!(c.read_u32_le(&bytes), 0x1234_5678);
    assert_eq!(c.read_i32_le(&bytes), -1);
    assert_eq!(c.pos, 10);
    let a: [u8; 3] = take_array(&bytes, 2);
    assert_eq!(a, [0x78, 0x56, 0x34]);
}

#[test]
fn file_header_fields() {
    let mut b = [0u8; 14];
    b[0] = b'B';
    b[1] = b'M';
    b[2..6].copy_from_slice(&1000u32.to_le_bytes());
    b[6..10].copy_from_slice(&7u32.to_le_bytes());
    b[10..14].copy_from_slice(&54u32.to_le_bytes());
    let h = FileHeader::from(&b);
    assert_eq!(&h.file_type, b"BM");
    assert_eq!(h.file_size, 1000);
    assert_eq!(h.reserved, 7);
    assert_eq!(h.data_offset, 54);
    assert_eq!(FileHeader::new().data_offset, 54);
}

#[test]
fn info_header_fields() {
    let full = bmp(-3, -2, 24, &[], 0);
    let b: [u8; 40] = full[14..54].try_into().unwrap();
    let h = InfoHeader::from(&b);
    assert_eq!(h.info_header_size, 40);
    assert_eq!(h.width, -3);
    assert_eq!(h.height, -2);
    assert_eq!(h.planes, 1);
    assert_eq!(h.bits_per_pixel, 24);
    assert_eq!(h.compression, 0);
    let d = InfoHeader::new();
    assert_eq!((d.info_header_size, d.planes, d.bits_per_pixel), (40, 1, 32));
}

#[test]
fn decoded_32_bit_size_matches_header_magnitudes() {
    let data: Vec<u8> = (0..24u8).collect();
    let bytes = bmp(3, -2, 32, &data, 0);
    let img = Image::decode(&bytes).unwrap();
    assert_eq!(img.pixels.len(), 6);
    let simple = img.to();
    assert_eq!(simple.size, Point { x: 3, y: 2 });
    assert_eq!(simple.pixels[0], 0x00010203);
    assert_eq!(simple.pixels[5], 0x14151617);
}

#[test]
fn padded_row_law() {
    assert_eq!(padded_row_size(0), 0);
    assert_eq!(padded_row_size(8), 8);
    assert_eq!(padded_row_size(9), 12);
    assert_eq!(padded_row_size(10), 12);
    assert_eq!(padded_row_size(11), 12);
    assert_eq!(padded_row_size(6), 8);
}

#[test]
fn flip_twice_restores() {
    let pixels: Vec<u32> = (0..6).collect();
    let mut img = SimpleImage::new(pixels.clone(), Point { x: 3, y: 2 }).unwrap();
    img.reverse(Axis::X);
    assert_eq!(img.pixels, vec![2, 1, 0, 5, 4, 3]);
    img.reverse(Axis::X);
    assert_eq!(img.pixels, pixels);
    img.reverse(Axis::Y);
    assert_eq!(img.pixels, vec![3, 4, 5, 0, 1, 2]);
    img.reverse(Axis::Y);
    assert_eq!(img.pixels, pixels);
}

#[test]
fn flip_odd_sizes() {
    let pixels: Vec<u32> = (0..9).collect();
    let mut img = SimpleImage::new(pixels, Point { x: 3, y: 3 }).unwrap();
    img.reverse(Axis::Y);
    assert_eq!(img.pixels, vec![6, 7, 8, 3, 4, 5, 0, 1, 2]);
    let mut empty = SimpleImage::new(Vec::new(), Point { x: 0, y: 5 }).unwrap();
    empty.reverse(Axis::X);
    assert!(empty.pixels.is_empty());
}

#[test]
fn simple_image_size_mismatch() {
    match SimpleImage::new(vec![1, 2, 3], Point { x: 2, y: 2 }) {
        Err(e) => assert_eq!(e, ImageError::ResolutionMismatch { width: 2, height: 2, len: 3 }),
        Ok(_) => panic!("accepted a short buffer"),
    }
    assert!(SimpleImage::new(vec![0], Point { x: usize::MAX, y: 2 }).is_err());
}

#[test]
fn file_size_off_by_one_is_size_mismatch() {
    let data = [0u8; 16];
    let bytes = bmp(2, 2, 32, &data, 1);
    match Image::decode(&bytes) {
        Err(e) => assert_eq!(e, FormatError::SizeMismatch { reported: 71, actual: 70 }),
        Ok(_) => panic!("decoded a buffer of the wrong size"),
    }
}

#[test]
fn depth_16_is_unsupported() {
    let bytes = bmp(2, 2, 16, &[0u8; 3], 0);
    match Image::decode(&bytes) {
        Err(e) => assert_eq!(e, FormatError::UnsupportedDepth { got: 16 }),
        Ok(_) => panic!("decoded a 16-bit image"),
    }
}

#[test]
fn padded_24_bit_row_decodes() {
    let data = [1u8, 2, 3, 4, 5, 6, 7, 8, 9, 0, 0, 0];
    let bytes = bmp(3, 1, 24, &data, 0);
    assert_eq!(bytes.len(), 66);
    let img = Image::decode(&bytes).unwrap();
    assert_eq!(img.pixels.len(), 3);
    for (i, &p) in img.pixels.iter().enumerate() {
        let c = Color::from(p);
        assert_eq!(c.alpha, 0xFF);
        assert_eq!((c.red, c.green, c.blue), (data[3 * i], data[3 * i + 1], data[3 * i + 2]));
    }
}

#[test]
fn truncated_header() {
    let bytes = bmp(3, 1, 24, &[0u8; 12], 0);
    for n in 0..54 {
        match Image::decode(&bytes[..n]) {
            Err(e) => assert_eq!(e, FormatError::TruncatedHeader { actual: n }),
            Ok(_) => panic!("decoded a truncated buffer"),
        }
    }
}

#[test]
fn geometry_mismatch() {
    // 3 pixels of 24 bits need a padded row of 12 bytes; 9 are given.
    let bytes = bmp(3, 1, 24, &[0u8; 9], 0);
    match Image::decode(&bytes) {
        Err(e) => assert_eq!(e, FormatError::GeometryMismatch { expected: 66, actual: 63 }),
        Ok(_) => panic!("decoded an image with missing padding"),
    }
}

#[test]
fn negative_dimensions_use_magnitudes() {
    let data: Vec<u8> = (0..8u8).collect();
    let bytes = bmp(-2, -1, 32, &data, 0);
    let img = Image::decode(&bytes).unwrap();
    assert_eq!(img.info_header.width, -2);
    let simple = img.to();
    assert_eq!(simple.size, Point { x: 2, y: 1 });
    assert_eq!(simple.pixels, vec![0x00010203, 0x04050607]);
}

#[test]
fn empty_image() {
    let img = Image::new();
    assert!(img.pixels.is_empty());
    let simple = img.to();
    assert_eq!(simple.size, Point { x: 0, y: 0 });
    let bytes = bmp(0, 0, 32, &[], 0);
    assert!(Image::decode(&bytes).unwrap().pixels.is_empty());
}

#[test]
fn pixel_access_by_point() {
    let mut img = SimpleImage::new((0..6).collect(), Point { x: 3, y: 2 }).unwrap();
    assert_eq!(img.at(Point { x: 2, y: 0 }), 2);
    assert_eq!(img.at(Point { x: 0, y: 1 }), 3);
    img.set_at(Point { x: 1, y: 1 }, 99);
    assert_eq!(img.pixels, vec![0, 1, 2, 3, 99, 5]);
}
