//! Trusted boundary to the `image` crate: decoding an in-memory image,
//! downscaling it and re-encoding it are pure computation on its bytes.
use vstd::prelude::*;

verus! {

/// JPEG bytes of the bounded preview of an image: decoded from the given
/// bytes, scaled preserving aspect ratio to the largest size that fits within
/// 128 by 128 pixels, re-encoded at a fixed quality; nothing when decoding or
/// encoding fails.
pub uninterp spec fn thumbnail_jpeg_of(image: Seq<u8>) -> Option<Seq<u8>>;

/// Relies on `image::ImageReader` (format guessed from the bytes, then
/// decoded), `DynamicImage::thumbnail` (aspect-preserving downscale to fit
/// within the given bounds) and `JpegEncoder::new_with_quality`: together a
/// pure function of the image bytes.
#[verifier::external_body]
pub(crate) fn generate_thumbnail_blob(blob: &Vec<u8>) -> (r: Option<Vec<u8>>)
    ensures
        match r {
            Some(t) => thumbnail_jpeg_of(blob@) == Some(t@),
            None => thumbnail_jpeg_of(blob@) is None,
        },
{
    let reader = image::ImageReader::new(std::io::Cursor::new(blob.as_slice()))
        .with_guessed_format()
        .ok()?;
    let img = reader.decode().ok()?;
    let thumb = img.thumbnail(128, 128);
    let mut out: Vec<u8> = Vec::new();
    let enc = image::codecs::jpeg::JpegEncoder::new_with_quality(
        std::io::Cursor::new(&mut out),
        85,
    );
    thumb.write_with_encoder(enc).ok()?;
    Some(out)
}

} // verus!
