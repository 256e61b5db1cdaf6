use vstd::prelude::*;
use crate::color::{pack, Color};
use crate::cursor::{le_i32, le_u16, le_u32, take_array, Cursor};
use crate::image::SimpleImage;
use crate::point::Point;

verus! {

/// Length of the file header.
pub const FILE_HEADER_SIZE: usize = 14;

/// Length of the bitmap-info header that follows it.
pub const INFO_HEADER_SIZE: usize = 40;

/// Length of both headers together: the least a file can hold.
pub const HEADERS_SIZE: usize = FILE_HEADER_SIZE + INFO_HEADER_SIZE;

/// The first header of a file.
#[derive(Debug)]
pub struct FileHeader {
    pub file_type: [u8; 2],
    pub file_size: u32,
    pub reserved: u32,
    pub data_offset: u32,
}

/// The bitmap-info header.
#[derive(Debug)]
pub struct InfoHeader {
    pub info_header_size: u32,
    pub width: i32,
    pub height: i32,
    pub planes: u16,
    pub bits_per_pixel: u16,
    pub compression: u32,
    pub image_size: u32,
    pub x_pixels_per_meter: i32,
    pub y_pixels_per_meter: i32,
    pub used_colors: u32,
    pub important_colors: u32,
}

/// Why a byte buffer is not an image that can be decoded.
#[derive(Clone, Copy, Debug, PartialEq, Eq, Structural)]
pub enum FormatError {
    /// Shorter than the two headers.
    TruncatedHeader { actual: usize },
    /// The file header gives another length than the buffer has.
    SizeMismatch { reported: u32, actual: usize },
    /// A pixel depth other than 24 or 32 bits.
    UnsupportedDepth { got: u16 },
    /// Data offset, rows and padding add up to another length than the
    /// buffer has.
    GeometryMismatch { expected: u128, actual: usize },
}

/// A decoded file: its headers and its pixels, packed, in the order in which
/// the file stores them.
pub struct Image {
    pub file_header: FileHeader,
    pub info_header: InfoHeader,
    pub pixels: Vec<u32>,
}

impl FileHeader {
    /// The fields as the 14 bytes `b` hold them.
    pub open spec fn parsed_from(self, b: Seq<u8>) -> bool {
        &&& self.file_type@ == b.subrange(0, 2)
        &&& self.file_size as int == le_u32(b, 2)
        &&& self.reserved as int == le_u32(b, 6)
        &&& self.data_offset as int == le_u32(b, 10)
    }

    /// An empty header whose pixel data follows the two headers.
    pub fn new() -> (r: FileHeader)
        ensures
            r.file_type@ == seq![0u8, 0u8],
            r.file_size == 0,
            r.reserved == 0,
            r.data_offset == HEADERS_SIZE,
    {
        let r = FileHeader {
            file_type: [0u8; 2],
            file_size: 0,
            reserved: 0,
            data_offset: HEADERS_SIZE as u32,
        };
        assert(r.file_type@ =~= seq![0u8, 0u8]);
        r
    }

    /// Reads the header's fields in order: the two-byte type, then file size,
    /// reserved word and data offset, each a little-endian `u32`.
    pub fn from(bytes: &[u8; FILE_HEADER_SIZE]) -> (r: FileHeader)
        ensures
            r.parsed_from(bytes@),
    {
        let b = bytes.as_slice();
        let file_type: [u8; 2] = take_array(b, 0);
        let mut cursor = Cursor::new(2);
        let file_size = cursor.read_u32_le(b);
        let reserved = cursor.read_u32_le(b);
        let data_offset = cursor.read_u32_le(b);
        FileHeader { file_type, file_size, reserved, data_offset }
    }
}

impl InfoHeader {
    /// The fields as the 40 bytes `b` hold them.
    pub open spec fn parsed_from(self, b: Seq<u8>) -> bool {
        &&& self.info_header_size as int == le_u32(b, 0)
        &&& self.width as int == le_i32(b, 4)
        &&& self.height as int == le_i32(b, 8)
        &&& self.planes as int == le_u16(b, 12)
        &&& self.bits_per_pixel as int == le_u16(b, 14)
        &&& self.compression as int == le_u32(b, 16)
        &&& self.image_size as int == le_u32(b, 20)
        &&& self.x_pixels_per_meter as int == le_i32(b, 24)
        &&& self.y_pixels_per_meter as int == le_i32(b, 28)
        &&& self.used_colors as int == le_u32(b, 32)
        &&& self.important_colors as int == le_u32(b, 36)
    }

    /// The header of an empty, uncompressed, 32-bit image of one plane.
    pub fn new() -> (r: InfoHeader)
        ensures
            r.info_header_size == INFO_HEADER_SIZE,
            r.width == 0 && r.height == 0,
            r.planes == 1,
            r.bits_per_pixel == 32,
            r.compression == 0 && r.image_size == 0,
            r.x_pixels_per_meter == 0 && r.y_pixels_per_meter == 0,
            r.used_colors == 0 && r.important_colors == 0,
    {
        InfoHeader {
            info_header_size: INFO_HEADER_SIZE as u32,
            width: 0,
            height: 0,
            planes: 1,
            bits_per_pixel: 32,
            compression: 0,
            image_size: 0,
            x_pixels_per_meter: 0,
            y_pixels_per_meter: 0,
            used_colors: 0,
            important_colors: 0,
        }
    }

    /// Reads the header's fields in order, each little-endian: header size,
    /// width, height, planes, bits per pixel, compression, image size, the two
    /// resolutions, used and important colors.
    pub fn from(bytes: &[u8; INFO_HEADER_SIZE]) -> (r: InfoHeader)
        ensures
            r.parsed_from(bytes@),
    {
        let b = bytes.as_slice();
        let mut cursor = Cursor::new(0);
        let info_header_size = cursor.read_u32_le(b);
        let width = cursor.read_i32_le(b);
        let height = cursor.read_i32_le(b);
        let planes = cursor.read_u16_le(b);
        let bits_per_pixel = cursor.read_u16_le(b);
        let compression = cursor.read_u32_le(b);
        let image_size = cursor.read_u32_le(b);
        let x_pixels_per_meter = cursor.read_i32_le(b);
        let y_pixels_per_meter = cursor.read_i32_le(b);
        let used_colors = cursor.read_u32_le(b);
        let important_colors = cursor.read_u32_le(b);
        InfoHeader {
            info_header_size,
            width,
            height,
            planes,
            bits_per_pixel,
            compression,
            image_size,
            x_pixels_per_meter,
            y_pixels_per_meter,
            used_colors,
            important_colors,
        }
    }
}

/// The magnitude of `x`.
pub open spec fn abs(x: int) -> int {
    if x < 0 {
        -x
    } else {
        x
    }
}

/// A row of `row_size` bytes padded to the next multiple of four.
pub open spec fn padded_row(row_size: int) -> int {
    if row_size % 4 == 0 {
        row_size
    } else {
        row_size + (4 - row_size % 4)
    }
}

/// The file size that the file header of `b` reports.
pub open spec fn reported_size(b: Seq<u8>) -> int {
    le_u32(b, 2)
}

/// Where the pixel data of `b` starts, by its file header.
pub open spec fn data_offset_of(b: Seq<u8>) -> int {
    le_u32(b, 10)
}

/// The signed width in the info header of `b`.
pub open spec fn width_of(b: Seq<u8>) -> int {
    le_i32(b, 18)
}

/// The signed height in the info header of `b`.
pub open spec fn height_of(b: Seq<u8>) -> int {
    le_i32(b, 22)
}

/// The bits per pixel in the info header of `b`.
pub open spec fn depth_of(b: Seq<u8>) -> int {
    le_u16(b, 28)
}

/// Bytes per pixel.
pub open spec fn bytes_per_pixel(b: Seq<u8>) -> int {
    depth_of(b) / 8
}

/// The length that data offset, padded rows and height of `b` add up to.
pub open spec fn expected_len(b: Seq<u8>) -> int {
    data_offset_of(b) + padded_row(abs(width_of(b)) * bytes_per_pixel(b)) * abs(height_of(b))
}

/// The first check that `b` fails, in the order in which they are made; none
/// if it passes them all.
pub open spec fn format_error(b: Seq<u8>) -> Option<FormatError> {
    if b.len() < HEADERS_SIZE {
        Some(FormatError::TruncatedHeader { actual: b.len() as usize })
    } else if reported_size(b) != b.len() {
        Some(FormatError::SizeMismatch { reported: reported_size(b) as u32, actual: b.len() as usize })
    } else if depth_of(b) != 24 && depth_of(b) != 32 {
        Some(FormatError::UnsupportedDepth { got: depth_of(b) as u16 })
    } else if expected_len(b) != b.len() {
        Some(FormatError::GeometryMismatch { expected: expected_len(b) as u128, actual: b.len() as usize })
    } else {
        None
    }
}

/// The pixel with index `i`: its bytes follow the data offset without a gap;
/// at 24 bits they fill red, green and blue and alpha is opaque, at 32 bits
/// they fill alpha, red, green and blue.
pub open spec fn decoded_pixel(b: Seq<u8>, i: int) -> u32 {
    let at = data_offset_of(b) + i * bytes_per_pixel(b);
    if depth_of(b) == 24 {
        pack(0xffu8, b[at], b[at + 1], b[at + 2])
    } else {
        pack(b[at], b[at + 1], b[at + 2], b[at + 3])
    }
}

/// The pixels of `b`, one for each cell of its grid.
pub open spec fn decoded_pixels(b: Seq<u8>) -> Seq<u32> {
    Seq::new((abs(width_of(b)) * abs(height_of(b))) as nat, |i: int| decoded_pixel(b, i))
}

/// Rounds a row of `row_size` bytes up to the next multiple of four.
pub fn padded_row_size(row_size: u64) -> (r: u64)
    requires
        row_size <= 0xffff_ffff_ffff_fffc,
    ensures
        r == padded_row(row_size as int),
        row_size % 4 == 0 ==> r == row_size,
        row_size % 4 != 0 ==> r == row_size + (4 - row_size % 4),
{
    if row_size % 4 == 0 {
        row_size
    } else {
        row_size + (4 - row_size % 4)
    }
}

/// The magnitude of `x`.
fn magnitude(x: i32) -> (r: u64)
    ensures
        r as int == abs(x as int),
        r <= 0x8000_0000,
{
    if x < 0 {
        (0i64 - x as i64) as u64
    } else {
        x as u64
    }
}

impl Image {
    /// `self` is what decoding `b` gives.
    pub open spec fn decodes_from(&self, b: Seq<u8>) -> bool {
        &&& format_error(b) is None
        &&& self.file_header.parsed_from(b.subrange(0, FILE_HEADER_SIZE as int))
        &&& self.info_header.parsed_from(b.subrange(FILE_HEADER_SIZE as int, HEADERS_SIZE as int))
        &&& self.pixels@ == decoded_pixels(b)
    }

    /// Width and height, without the sign that tells the row order.
    pub open spec fn dimensions(&self) -> (int, int) {
        (abs(self.info_header.width as int), abs(self.info_header.height as int))
    }

    /// An image with default headers and no pixels.
    pub fn new() -> (r: Image)
        ensures
            r.pixels@.len() == 0,
            r.file_header.file_size == 0,
            r.file_header.data_offset == HEADERS_SIZE,
            r.info_header.width == 0 && r.info_header.height == 0,
            r.info_header.bits_per_pixel == 32,
    {
        Image { file_header: FileHeader::new(), info_header: InfoHeader::new(), pixels: Vec::new() }
    }

    /// Decodes an uncompressed 24- or 32-bit image. Checks, in order, that
    /// both headers are there, that the reported file size is the buffer's
    /// length, that the depth is supported, and that data offset plus padded
    /// rows is the buffer's length; fails with the first check that does not
    /// hold, before any pixel is read.
    pub fn decode(bytes: &[u8]) -> (r: Result<Image, FormatError>)
        ensures
            format_error(bytes@) is None <==> r is Ok,
            r matches Ok(img) ==> img.decodes_from(bytes@),
            r matches Err(e) ==> format_error(bytes@) == Some(e),
    {
        let len = bytes.len();
        if len < HEADERS_SIZE {
            return Err(FormatError::TruncatedHeader { actual: len });
        }
        let file_bytes: [u8; FILE_HEADER_SIZE] = take_array(bytes, 0);
        let info_bytes: [u8; INFO_HEADER_SIZE] = take_array(bytes, FILE_HEADER_SIZE);
        let file_header = FileHeader::from(&file_bytes);
        let info_header = InfoHeader::from(&info_bytes);
        let ghost b = bytes@;
        assert(file_header.file_size as int == reported_size(b));
        assert(file_header.data_offset as int == data_offset_of(b));
        assert(info_header.width as int == width_of(b));
        assert(info_header.height as int == height_of(b));
        assert(info_header.bits_per_pixel as int == depth_of(b));
        if file_header.file_size as u64 != len as u64 {
            return Err(FormatError::SizeMismatch { reported: file_header.file_size, actual: len });
        }
        let depth = info_header.bits_per_pixel;
        if depth != 24 && depth != 32 {
            return Err(FormatError::UnsupportedDepth { got: depth });
        }
        let width = magnitude(info_header.width);
        let height = magnitude(info_header.height);
        let bpp: u64 = (depth / 8) as u64;
        assert(bpp == 3 || bpp == 4);
        assert(width * bpp <= 0x2_0000_0000) by (nonlinear_arith)
            requires
                width <= 0x8000_0000,
                bpp <= 4,
        {
        }
        let row_size: u64 = width * bpp;
        let padded = padded_row_size(row_size);
        assert(padded as int * height as int <= 0x8000_0004u64 * 4 * 0x8000_0000u64) by (nonlinear_arith)
            requires
                padded <= row_size + 3,
                row_size == width * bpp,
                width <= 0x8000_0000,
                bpp <= 4,
                height <= 0x8000_0000,
        {
        }
        let expected: u128 = file_header.data_offset as u128 + padded as u128 * height as u128;
        if expected != len as u128 {
            return Err(FormatError::GeometryMismatch { expected, actual: len });
        }
        let offset = file_header.data_offset as usize;
        let ghost n = width * height;
        assert(width * height * bpp <= len - offset) by (nonlinear_arith)
            requires
                width * bpp <= padded,
                offset + padded * height == len,
                0 <= height,
        {
        }
        assert(width * height <= len) by (nonlinear_arith)
            requires
                width * height * bpp <= len,
                bpp >= 3,
        {
        }
        let count = (width * height) as usize;
        let step = bpp as usize;
        let mut pixels: Vec<u32> = Vec::new();
        let mut index: usize = 0;
        while index < count
            invariant
                b == bytes@,
                len == b.len(),
                index <= count,
                count == width * height,
                step == bytes_per_pixel(b),
                step == 3 <==> depth == 24,
                depth == 24 || depth == 32,
                step == 3 || step == 4,
                depth == depth_of(b),
                offset == data_offset_of(b),
                count * step <= len - offset,
                pixels@.len() == index,
                forall|k: int| 0 <= k < index ==> pixels@[k] == #[trigger] decoded_pixel(b, k),
            decreases count - index,
        {
            assert(index * step + step <= count * step) by (nonlinear_arith)
                requires
                    index < count,
                    0 <= step,
            {
            }
            let at = offset + index * step;
            assert(at + step <= len);
            let color = if step == 3 {
                Color { alpha: 0xFF, red: bytes[at], green: bytes[at + 1], blue: bytes[at + 2] }
            } else {
                Color {
                    alpha: bytes[at],
                    red: bytes[at + 1],
                    green: bytes[at + 2],
                    blue: bytes[at + 3],
                }
            };
            pixels.push(color.to());
            index = index + 1;
        }
        assert(pixels@ =~= decoded_pixels(b));
        Ok(Image { file_header, info_header, pixels })
    }

    /// Hands the pixels over as an image whose size is the magnitude of the
    /// header's width and height.
    pub fn to(self) -> (r: SimpleImage)
        ensures
            r.pixels@ == self.pixels@,
            (r.size.x as int, r.size.y as int) == self.dimensions(),
    {
        let x = magnitude(self.info_header.width) as usize;
        let y = magnitude(self.info_header.height) as usize;
        SimpleImage { pixels: self.pixels, size: Point { x, y } }
    }
}

/// A buffer that decodes has one pixel for each cell of its grid, and the
/// image it gives has the magnitudes of the header's width and height as its
/// size.
pub proof fn lemma_decoded_dimensions(b: Seq<u8>, img: Image)
    requires
        img.decodes_from(b),
        depth_of(b) == 32,
    ensures
        img.dimensions() == (abs(width_of(b)), abs(height_of(b))),
        img.pixels@.len() == img.dimensions().0 * img.dimensions().1,
{
    let f = b.subrange(FILE_HEADER_SIZE as int, HEADERS_SIZE as int);
    assert(le_i32(f, 4) == width_of(b));
    assert(le_i32(f, 8) == height_of(b));
    assert(abs(width_of(b)) * abs(height_of(b)) >= 0) by (nonlinear_arith);
}

} // verus!
