//! The thumbnail generator and the media serving paths.
//!
//! One generation attempt for a media row: when the backing archive file or
//! the entry inside it is gone, the row is soft-deleted and never retried
//! automatically; when decoding or encoding fails, the thumbnail is left
//! unset and stays eligible for retry; otherwise the bounded preview is
//! cached in the row.
use vstd::prelude::*;

use crate::bytes::{clone_bytes, path_extension, path_extension_exec};
use crate::imgio::{generate_thumbnail_blob, thumbnail_jpeg_of};
use crate::mimeio::{mime_for_extension, mime_of};
use crate::store::{FeedStore, MediaRow, StoreV};
use crate::zipio::{zip_entry_data, zip_entry_of};

verus! {

/// Effect of one generation attempt on the store. `archive` holds the bytes
/// of the backing archive file, or nothing when that file does not exist.
pub open spec fn spec_generate_thumbnail(
    s: StoreV,
    feed_id: i64,
    media_id: i64,
    archive: Option<Seq<u8>>,
    now: i64,
) -> StoreV {
    if !s.has_media(feed_id, media_id) {
        s
    } else {
        let m = s.media[s.media_idx(feed_id, media_id)];
        match archive {
            None => s.spec_soft_delete_media(feed_id, media_id, now),
            Some(zb) => match zip_entry_of(zb, m.media_path) {
                None => s.spec_soft_delete_media(feed_id, media_id, now),
                Some(data) => match thumbnail_jpeg_of(data) {
                    None => s,
                    Some(t) => s.spec_update_thumbnail(feed_id, media_id, t),
                },
            },
        }
    }
}

/// One thumbnail generation attempt for the media row with this ID pair,
/// given the backing archive's bytes (or nothing when its file is gone) and
/// the current time for the soft-delete marker.
pub fn generate_thumbnail(
    store: &mut FeedStore,
    feed_id: i64,
    media_id: i64,
    archive: Option<&Vec<u8>>,
    now: i64,
)
    requires
        old(store)@.wf(),
    ensures
        final(store)@.wf(),
        final(store)@ == spec_generate_thumbnail(
            old(store)@,
            feed_id,
            media_id,
            match archive {
                Some(a) => Some(a@),
                None => None,
            },
            now,
        ),
{
    let m = match store.get_media(feed_id, media_id) {
        Some(m) => m,
        None => {
            return ;
        },
    };
    match archive {
        None => {
            store.soft_delete_media(feed_id, media_id, now);
        },
        Some(zb) => {
            match zip_entry_data(zb, &m.media_path) {
                None => {
                    store.soft_delete_media(feed_id, media_id, now);
                },
                Some(data) => {
                    match generate_thumbnail_blob(&data) {
                        None => {},
                        Some(t) => {
                            store.update_media_thumbnail(feed_id, media_id, t);
                        },
                    }
                },
            }
        },
    }
}

/// What serving a preview needs next, read off the store.
pub enum PreviewStep {
    /// The row has a cached preview: serve these JPEG bytes.
    Cached(Vec<u8>),
    /// The row is an image without a cached preview: the caller must read the
    /// archive file of this name and hand its bytes to [`preview_generate`].
    NeedsArchive(Vec<u8>),
    /// No such row, not an image, or soft-deleted: serve not-found.
    Rejected,
}

/// First step of the on-demand preview path: a cached preview is served as
/// is; an image row without one names its backing archive; anything else is
/// rejected uniformly.
pub fn preview_lookup(store: &FeedStore, feed_id: i64, media_id: i64) -> (r: PreviewStep)
    requires
        store@.wf(),
    ensures
        ({
            let s = store@;
            match r {
                PreviewStep::Cached(b) => {
                    &&& s.has_media(feed_id, media_id)
                    &&& preview_eligible(s, feed_id, media_id)
                    &&& s.media[s.media_idx(feed_id, media_id)].thumbnail == Some(b@)
                },
                PreviewStep::NeedsArchive(p) => {
                    &&& s.has_media(feed_id, media_id)
                    &&& preview_eligible(s, feed_id, media_id)
                    &&& s.media[s.media_idx(feed_id, media_id)].thumbnail is None
                    &&& p@ == s.media[s.media_idx(feed_id, media_id)].file_path
                },
                PreviewStep::Rejected => !s.has_media(feed_id, media_id) || !preview_eligible(
                    s,
                    feed_id,
                    media_id,
                ),
            }
        }),
{
    let image_tag: Vec<u8> = vec![73u8, 109u8, 97u8, 103u8, 101u8];
    proof {
        assert(image_tag@ =~= crate::store::image_type());
    }
    match store.get_media(feed_id, media_id) {
        None => PreviewStep::Rejected,
        Some(m) => {
            if !crate::bytes::bytes_eq(&m.media_type, &image_tag) {
                return PreviewStep::Rejected;
            }
            if m.deleted_at.is_some() {
                return PreviewStep::Rejected;
            }
            match m.thumbnail {
                Some(b) => PreviewStep::Cached(b),
                None => PreviewStep::NeedsArchive(m.file_path),
            }
        },
    }
}

/// The media row is served as a preview: an image and not soft-deleted.
pub open spec fn preview_eligible(s: StoreV, feed_id: i64, media_id: i64) -> bool {
    let m = s.media[s.media_idx(feed_id, media_id)];
    m.media_type == crate::store::image_type() && m.deleted_at is None
}

/// Effect and result of generating a preview on demand: on success the
/// preview is cached in the row and served; every failure leaves the store
/// unchanged and serves not-found. Missing archives do not soft-delete here;
/// only the background generator does that.
pub open spec fn spec_preview_generate(
    s: StoreV,
    feed_id: i64,
    media_id: i64,
    zb: Seq<u8>,
) -> (StoreV, Option<Seq<u8>>) {
    if !s.has_media(feed_id, media_id) {
        (s, None)
    } else {
        let m = s.media[s.media_idx(feed_id, media_id)];
        match zip_entry_of(zb, m.media_path) {
            None => (s, None),
            Some(data) => match thumbnail_jpeg_of(data) {
                None => (s, None),
                Some(t) => (s.spec_update_thumbnail(feed_id, media_id, t), Some(t)),
            },
        }
    }
}

/// Second step of the on-demand preview path: generate from the archive's
/// bytes, cache on success, and return the JPEG bytes to serve.
pub fn preview_generate(store: &mut FeedStore, feed_id: i64, media_id: i64, zb: &Vec<u8>) -> (r:
    Option<Vec<u8>>)
    requires
        old(store)@.wf(),
    ensures
        final(store)@.wf(),
        ({
            let (s2, blob) = spec_preview_generate(old(store)@, feed_id, media_id, zb@);
            &&& final(store)@ == s2
            &&& match r {
                Some(b) => blob == Some(b@),
                None => blob is None,
            }
        }),
{
    let m = match store.get_media(feed_id, media_id) {
        Some(m) => m,
        None => {
            return None;
        },
    };
    match zip_entry_data(zb, &m.media_path) {
        None => None,
        Some(data) => {
            match generate_thumbnail_blob(&data) {
                None => None,
                Some(t) => {
                    let served = clone_bytes(&t);
                    store.update_media_thumbnail(feed_id, media_id, t);
                    Some(served)
                },
            }
        },
    }
}

/// Extract one entry of an in-memory archive, with the MIME type text its
/// file extension maps to.
pub fn extract_zip_file(zip_bytes: &Vec<u8>, file_path: &Vec<u8>) -> (r: Option<(Vec<u8>, String)>)
    ensures
        match r {
            Some(pair) => {
                &&& zip_entry_of(zip_bytes@, file_path@) == Some(pair.0@)
                &&& pair.1@ == mime_of(path_extension(file_path@))
            },
            None => zip_entry_of(zip_bytes@, file_path@) is None,
        },
{
    match zip_entry_data(zip_bytes, file_path) {
        None => None,
        Some(data) => {
            let ext = path_extension_exec(file_path);
            let mime_text = mime_for_extension(&ext);
            Some((data, mime_text))
        },
    }
}

/// Archive name and in-archive path of the media row with this ID pair, for
/// the raw media file endpoint. Missing rows and soft-deleted rows give
/// nothing, so the endpoint serves not-found uniformly for them; the rows
/// themselves stay queryable as metadata through the listing.
pub fn media_file_lookup(store: &FeedStore, feed_id: i64, media_id: i64) -> (r: Option<
    (Vec<u8>, Vec<u8>),
>)
    requires
        store@.wf(),
    ensures
        match r {
            Some(pair) => {
                &&& store@.has_media(feed_id, media_id)
                &&& store@.media[store@.media_idx(feed_id, media_id)].deleted_at is None
                &&& pair.0@ == store@.media[store@.media_idx(feed_id, media_id)].file_path
                &&& pair.1@ == store@.media[store@.media_idx(feed_id, media_id)].media_path
            },
            None => !store@.has_media(feed_id, media_id) || store@.media[store@.media_idx(
                feed_id,
                media_id,
            )].deleted_at is Some,
        },
{
    match store.get_media(feed_id, media_id) {
        None => None,
        Some(m) => {
            if m.deleted_at.is_some() {
                None
            } else {
                Some((m.file_path, m.media_path))
            }
        },
    }
}

} // verus!
