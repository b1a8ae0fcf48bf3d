//! Trusted boundary to `actix_files`: mapping a file extension to a MIME type
//! string is a pure table lookup on the extension.
use vstd::prelude::*;

verus! {

/// MIME type text for a file extension given as UTF-8 bytes; the lookup falls
/// back to the generic byte-stream type for unknown or non-UTF-8 extensions.
pub uninterp spec fn mime_of(ext: Seq<u8>) -> Seq<char>;

/// Relies on `actix_files::file_extension_to_mime`, a pure lookup from an
/// extension to a MIME type, returning the generic byte-stream type for
/// unknown extensions.
#[verifier::external_body]
pub(crate) fn mime_for_extension(ext: &Vec<u8>) -> (r: String)
    ensures
        r@ == mime_of(ext@),
{
    match core::str::from_utf8(ext.as_slice()) {
        Ok(e) => actix_files::file_extension_to_mime(e).to_string(),
        Err(_) => mime::APPLICATION_OCTET_STREAM.to_string(),
    }
}

} // verus!
