use vstd::prelude::*;
use image::ImageDecoder;

verus! {

use crate::SyncError;
use crate::scanner::FileEntry;

/// One scanned image: its stable ordinal id, original file name and size,
/// and the bounded truecolor thumbnail made from it.
#[derive(Debug)]
pub struct Image {
    pub id: u32,
    pub file_name: Vec<u8>,
    pub width: u32,
    pub height: u32,
    pub size: u64,
    pub thumbnail: Vec<u8>,
}

/// The mathematical value of an `Image`.
pub ghost struct ImageV {
    pub id: u32,
    pub file_name: Seq<u8>,
    pub width: u32,
    pub height: u32,
    pub size: u64,
    pub thumbnail: Seq<u8>,
}

impl View for Image {
    type V = ImageV;

    open spec fn view(&self) -> ImageV {
        ImageV {
            id: self.id,
            file_name: self.file_name@,
            width: self.width,
            height: self.height,
            size: self.size,
            thumbnail: self.thumbnail@,
        }
    }
}

/// The side length bound of a thumbnail: neither dimension exceeds it.
pub const THUMBNAIL_BOUND: u32 = 256;

impl ImageV {
    /// A well-formed image: positive bounded dimensions and a pixel buffer of
    /// exactly three bytes for each pixel.
    pub open spec fn wf(self) -> bool {
        &&& 1 <= self.width <= THUMBNAIL_BOUND
        &&& 1 <= self.height <= THUMBNAIL_BOUND
        &&& self.thumbnail.len() == 3 * self.width * self.height
    }
}

/// Whether the bytes decode at all: format guess, decoder construction,
/// orientation metadata and the pixel decode itself all succeed. A function
/// of the bytes alone.
pub uninterp spec fn decodes(data: Seq<u8>) -> bool;

/// What decoding `data`, correcting its embedded orientation, and scaling it
/// to the largest size that fits the thumbnail bound yields: width, height
/// and truecolor pixels — or nothing, when the bytes do not decode or the
/// decoded image is not truecolor. The outcome depends on the bytes alone.
pub uninterp spec fn thumb_of(data: Seq<u8>) -> Option<(u32, u32, Seq<u8>)>;

/// Relies on the image crate (`ImageReader`, `ImageDecoder::orientation`,
/// `DynamicImage::from_decoder`, `apply_orientation`, `thumbnail`): decoding
/// plus orientation correction plus bounded scaling is a function of the
/// bytes alone; `thumbnail` keeps both dimensions in `1..=256` and a
/// truecolor buffer holds exactly `3 * width * height` bytes. The error
/// kinds are disjoint: `DecodeError` exactly when the bytes do not decode,
/// `UnsupportedFormat` exactly when they decode but are not truecolor.
#[verifier::external_body]
fn decode_thumb(data: &Vec<u8>) -> (r: Result<(u32, u32, Vec<u8>), SyncError>)
    ensures
        (match r {
            Ok(t) => {
                &&& decodes(data@)
                &&& thumb_of(data@) == Some((t.0, t.1, t.2@))
                &&& 1 <= t.0 <= THUMBNAIL_BOUND
                &&& 1 <= t.1 <= THUMBNAIL_BOUND
                &&& t.2@.len() == 3 * t.0 * t.1
            },
            Err(e) => {
                &&& thumb_of(data@) is None
                &&& (e == SyncError::DecodeError <==> !decodes(data@))
                &&& (e == SyncError::UnsupportedFormat <==> decodes(data@))
            },
        }),
{
    let reader = image::ImageReader::new(std::io::Cursor::new(data.as_slice()))
        .with_guessed_format().map_err(|_| SyncError::DecodeError)?;
    let mut decoder = reader.into_decoder().map_err(|_| SyncError::DecodeError)?;
    let orientation = decoder.orientation().map_err(|_| SyncError::DecodeError)?;
    let mut img = image::DynamicImage::from_decoder(decoder).map_err(|_| SyncError::DecodeError)?;
    img.apply_orientation(orientation);
    match img.thumbnail(256, 256) {
        image::DynamicImage::ImageRgb8(t) => Ok((t.width(), t.height(), t.into_raw())),
        _ => Err(SyncError::UnsupportedFormat),
    }
}

/// What encoding a truecolor canvas of the given size as JPEG yields. The
/// bytes depend on the dimensions and pixels alone.
pub uninterp spec fn jpeg_of(width: u32, height: u32, pixels: Seq<u8>) -> Seq<u8>;

/// Relies on `RgbImage::from_raw` (yields an image whenever the buffer
/// holds exactly `3 * width * height` bytes) and `ImageBuffer::write_to`
/// with `ImageFormat::Jpeg`: the encoded bytes are a function of the
/// dimensions and pixels alone (fixed quality and tables, no timestamps, no
/// randomness). Encoding cannot fail here: the JPEG encoder's only error
/// exit is its dimension bound check, which the bounds below rule out, and
/// every write goes to an in-memory buffer.
#[verifier::external_body]
pub(crate) fn encode_jpeg(width: u32, height: u32, pixels: &Vec<u8>) -> (r: Vec<u8>)
    requires
        1 <= width <= 65535,
        1 <= height <= 65535,
        pixels@.len() == 3 * width * height,
    ensures
        r@ == jpeg_of(width, height, pixels@),
{
    let img = image::RgbImage::from_raw(width, height, pixels.clone())
        .expect("a buffer of exactly 3 * width * height bytes is enough");
    let mut cursor = std::io::Cursor::new(Vec::new());
    img.write_to(&mut cursor, image::ImageFormat::Jpeg)
        .expect("JPEG encoding of a bounded canvas into memory");
    cursor.into_inner()
}

impl Image {
    /// Decodes one image file's bytes into a bounded truecolor thumbnail,
    /// correcting the embedded orientation first: the dimensions and pixel
    /// buffer of `thumb_of(data)`, a `DecodeError` exactly when the bytes do
    /// not decode, an `UnsupportedFormat` exactly when they decode but do
    /// not normalize to the truecolor format.
    pub fn create_thumbnail(data: &Vec<u8>) -> (r: Result<(u32, u32, Vec<u8>), SyncError>)
        ensures
            (match r {
                Ok(t) => {
                    &&& decodes(data@)
                    &&& thumb_of(data@) == Some((t.0, t.1, t.2@))
                    &&& 1 <= t.0 <= THUMBNAIL_BOUND
                    &&& 1 <= t.1 <= THUMBNAIL_BOUND
                    &&& t.2@.len() == 3 * t.0 * t.1
                },
                Err(e) => {
                    &&& thumb_of(data@) is None
                    &&& (e == SyncError::DecodeError <==> !decodes(data@))
                    &&& (e == SyncError::UnsupportedFormat <==> decodes(data@))
                },
            }),
    {
        decode_thumb(data)
    }

    /// Builds the `Image` for one directory entry: thumbnail from the entry's
    /// bytes, name and byte size from the entry itself.
    pub fn from_path(entry: &FileEntry, id: u32) -> (r: Result<Image, SyncError>)
        ensures
            (match r {
                Ok(img) => {
                    &&& img@.wf()
                    &&& img@.id == id
                    &&& img@.file_name == entry.name@
                    &&& img@.size == entry.size
                    &&& thumb_of(entry.data@) == Some(
                        (img@.width, img@.height, img@.thumbnail),
                    )
                },
                Err(e) => {
                    &&& thumb_of(entry.data@) is None
                    &&& (e == SyncError::DecodeError <==> !decodes(entry.data@))
                    &&& (e == SyncError::UnsupportedFormat <==> decodes(entry.data@))
                },
            }),
    {
        let (width, height, pixels) = match Image::create_thumbnail(&entry.data) {
            Ok(t) => t,
            Err(e) => {
                return Err(e);
            },
        };
        Ok(Image {
            id,
            file_name: crate::bytes::clone_bytes(&entry.name),
            width,
            height,
            size: entry.size,
            thumbnail: pixels,
        })
    }
}

} // verus!
