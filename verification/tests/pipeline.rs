use std::io::Write;

use tmd_viewer::scan::{process_csv, scan_archive};
use tmd_viewer::store::FeedStore;
use tmd_viewer::thumb::{
    extract_zip_file, generate_thumbnail, media_file_lookup, preview_generate, preview_lookup,
    PreviewStep,
};

fn bv(s: &str) -> Vec<u8> {
    s.as_bytes().to_vec()
}

/// A small JPEG, 300 by 200 pixels.
fn sample_jpeg() -> Vec<u8> {
    let img = image::DynamicImage::new_rgb8(300, 200);
    let mut out = std::io::Cursor::new(Vec::new());
    img.write_to(&mut out, image::ImageFormat::Jpeg).unwrap();
    out.into_inner()
}

/// The transcript of the end-to-end scenario: six header rows, then one data
/// row (row seven) with a status URL and an image attachment, then a retweet
/// row.
fn sample_csv() -> String {
    let headers = ",,,,,,,,,,,,\n";
    let row3 = ",BigOrigin,,,,,,,,,,,\n";
    let row7 = "2023/01/02 03:04:05,,Bob,Bob,https://twitter.com/bob/status/42,\
        Image,http://img/x.jpg,img/x.jpg,,hello world,0,0,0\n";
    let row8 = "2023/01/02 03:04:05,2023/02/02 00:00:00,Bob,Bob,\
        https://twitter.com/bob/status/43,,,,,reposted,0,0,0\n";
    format!("{h}{h}{r3}{h}{h}{h}{r7}{r8}", h = headers, r3 = row3, r7 = row7, r8 = row8)
}

/// One archive holding the transcript and the referenced image.
fn sample_zip() -> Vec<u8> {
    let mut zw = zip::ZipWriter::new(std::io::Cursor::new(Vec::new()));
    let opts = zip::write::SimpleFileOptions::default();
    zw.start_file("export.csv", opts).unwrap();
    zw.write_all(sample_csv().as_bytes()).unwrap();
    zw.start_file("img/x.jpg", opts).unwrap();
    zw.write_all(&sample_jpeg()).unwrap();
    let cursor = zw.finish().unwrap();
    cursor.into_inner()
}

#[test]
fn scan_pass_end_to_end() {
    let mut store = FeedStore::new();
    let zip_bytes = sample_zip();
    store.register_archive(bv("a.zip"));
    let name = store.next_unscanned().unwrap();
    assert_eq!(name, bv("a.zip"));
    store.set_scan_started(&name, 1000);
    scan_archive(&mut store, &name, &zip_bytes, 0);
    store.set_scan_ended(&name, 1002);

    // Scan markers are ordered.
    let arch = &store.archives[0];
    assert_eq!(arch.scan_started_at, Some(1000));
    assert_eq!(arch.scan_ended_at, Some(1002));
    assert!(arch.scan_started_at.unwrap() <= arch.scan_ended_at.unwrap());

    // Row seven became Feed 42 with one media row, thumbnail unset.
    let f42 = store.find_feed_index(42).map(|i| &store.feeds[i]).unwrap();
    assert_eq!(f42.user_name, bv("bob"));
    assert_eq!(f42.contents, bv("hello world"));
    assert_eq!(f42.retweet_id, 0);
    let media = store.media_for_feed(42);
    assert_eq!(media.len(), 1);
    assert_eq!(media[0].media_id, 1);
    assert_eq!(media[0].media_type, bv("Image"));
    assert_eq!(media[0].file_path, bv("a.zip"));
    assert_eq!(media[0].media_path, bv("img/x.jpg"));
    assert!(media[0].thumbnail.is_none());
    assert!(media[0].deleted_at.is_none());

    // Row eight's action date differs from its feed date: one row for the
    // original content and one repost row credited to the lower-cased origin.
    let f43 = store.find_feed_index(43).map(|i| &store.feeds[i]).unwrap();
    assert_eq!(f43.retweet_id, 0);
    let rt = store.find_feed_index(0).map(|i| &store.feeds[i]).unwrap();
    assert_eq!(rt.retweet_id, 43);
    assert_eq!(rt.user_name, bv("bigorigin"));
    assert_eq!(rt.retweet_user_name, bv("bob"));

    // Feed IDs are unique across all rows.
    for i in 0..store.feeds.len() {
        for j in (i + 1)..store.feeds.len() {
            assert_ne!(store.feeds[i].feed_id, store.feeds[j].feed_id);
        }
    }
}

#[test]
fn rescanning_changes_nothing() {
    let mut store = FeedStore::new();
    let zip_bytes = sample_zip();
    scan_archive(&mut store, &bv("a.zip"), &zip_bytes, 0);
    let feeds_once = store.feeds.len();
    let media_once = store.media.len();
    assert!(feeds_once > 0 && media_once > 0);
    scan_archive(&mut store, &bv("a.zip"), &zip_bytes, 0);
    scan_archive(&mut store, &bv("a.zip"), &zip_bytes, 0);
    assert_eq!(store.feeds.len(), feeds_once);
    assert_eq!(store.media.len(), media_once);
}

#[test]
fn scanning_garbage_bytes_changes_nothing() {
    let mut store = FeedStore::new();
    scan_archive(&mut store, &bv("junk.zip"), &bv("this is not an archive"), 0);
    assert_eq!(store.feeds.len(), 0);
    assert_eq!(store.media.len(), 0);
}

#[test]
fn unparseable_feed_date_skips_the_row_entirely() {
    let mut store = FeedStore::new();
    // Valid action date, broken feed date: the row must not be partially
    // applied — no feed row, no media row.
    let csv = format!(
        "{h}{h}{h}{h}{h}{h}{row}",
        h = ",,,,,,,,,,,,\n",
        row = "not a date,2023/02/02 00:00:00,Bob,Bob,https://twitter.com/bob/status/9,\
            Image,http://img/x.jpg,img/x.jpg,,text,0,0,0\n"
    );
    let n = process_csv(&mut store, &bv(&csv), &bv("a.zip"), 0);
    assert_eq!(n, 7);
    assert_eq!(store.feeds.len(), 0);
    assert_eq!(store.media.len(), 0);
}

#[test]
fn unmatched_url_drops_the_row() {
    let mut store = FeedStore::new();
    let csv = format!(
        "{h}{h}{h}{h}{h}{h}{row}",
        h = ",,,,,,,,,,,,\n",
        row = "2023/01/02 03:04:05,,Bob,Bob,https://example.com/bob/status/9,\
            Image,http://img/x.jpg,img/x.jpg,,text,0,0,0\n"
    );
    process_csv(&mut store, &bv(&csv), &bv("a.zip"), 0);
    assert_eq!(store.feeds.len(), 0);
    assert_eq!(store.media.len(), 0);
}

#[test]
fn equal_action_and_feed_dates_make_a_plain_feed() {
    let mut store = FeedStore::new();
    let csv = format!(
        "{h}{h}{r3}{h}{h}{h}{row}",
        h = ",,,,,,,,,,,,\n",
        r3 = ",Origin,,,,,,,,,,,\n",
        row = "2023/01/02 03:04:05,2023/01/02 03:04:05,Bob,Bob,\
            https://twitter.com/bob/status/9,,,,,text,0,0,0\n"
    );
    process_csv(&mut store, &bv(&csv), &bv("a.zip"), 0);
    assert_eq!(store.feeds.len(), 1);
    assert_eq!(store.feeds[0].feed_id, 9);
    assert_eq!(store.feeds[0].retweet_id, 0);
}

#[test]
fn malformed_third_row_leaves_origin_empty() {
    let mut store = FeedStore::new();
    // Row three has too few columns, so no origin is captured; the retweet
    // row is credited to the empty account.
    let csv = format!(
        "{h}{h}{r3}{h}{h}{h}{row}",
        h = ",,,,,,,,,,,,\n",
        r3 = "short,row\n",
        row = "2023/01/02 03:04:05,2023/02/02 00:00:00,Bob,Bob,\
            https://twitter.com/bob/status/9,,,,,text,0,0,0\n"
    );
    process_csv(&mut store, &bv(&csv), &bv("a.zip"), 0);
    let rt = store.find_feed_index(0).map(|i| &store.feeds[i]).unwrap();
    assert_eq!(rt.user_name, bv(""));
    assert_eq!(rt.retweet_id, 9);
}

#[test]
fn header_rows_are_never_processed() {
    let mut store = FeedStore::new();
    // A perfectly resolvable row sitting among the first six is skipped.
    let data_row = "2023/01/02 03:04:05,,Bob,Bob,https://twitter.com/bob/status/9,,,,,text,0,0,0\n";
    let csv = format!("{r}{r}{r}{r}{r}{r}", r = data_row);
    let n = process_csv(&mut store, &bv(&csv), &bv("a.zip"), 0);
    assert_eq!(n, 6);
    assert_eq!(store.feeds.len(), 0);
}

#[test]
fn transcripts_in_subdirectories_are_scanned() {
    let mut zw = zip::ZipWriter::new(std::io::Cursor::new(Vec::new()));
    let opts = zip::write::SimpleFileOptions::default();
    zw.start_file("nested/dir/export.csv", opts).unwrap();
    zw.write_all(sample_csv().as_bytes()).unwrap();
    // A non-transcript entry is ignored.
    zw.start_file("notes.txt", opts).unwrap();
    zw.write_all(b"not,a,transcript").unwrap();
    let zip_bytes = zw.finish().unwrap().into_inner();
    let mut store = FeedStore::new();
    scan_archive(&mut store, &bv("a.zip"), &zip_bytes, 0);
    assert!(store.find_feed_index(42).is_some());
}

#[test]
fn thumbnail_generation_end_to_end() {
    let mut store = FeedStore::new();
    let zip_bytes = sample_zip();
    scan_archive(&mut store, &bv("a.zip"), &zip_bytes, 0);

    // The pending worker picks the image row.
    let pending = store.next_pending_thumbnail().unwrap();
    assert_eq!(pending.feed_id, 42);
    assert_eq!(pending.media_id, 1);

    generate_thumbnail(&mut store, 42, 1, Some(&zip_bytes), 2000);
    let m = store.get_media(42, 1).unwrap();
    assert!(m.deleted_at.is_none());
    let thumb = m.thumbnail.expect("thumbnail cached");
    let img = image::load_from_memory(&thumb).expect("thumbnail decodes");
    assert!(img.width() <= 128 && img.height() <= 128);
    assert!(img.width().max(img.height()) <= 128);

    // Nothing is pending afterwards.
    assert!(store.next_pending_thumbnail().is_none());
}

#[test]
fn missing_archive_soft_deletes_without_thumbnail() {
    let mut store = FeedStore::new();
    let zip_bytes = sample_zip();
    scan_archive(&mut store, &bv("a.zip"), &zip_bytes, 0);
    generate_thumbnail(&mut store, 42, 1, None, 3000);
    let m = store.get_media(42, 1).unwrap();
    assert_eq!(m.deleted_at, Some(3000));
    assert!(m.thumbnail.is_none());
    // Soft-deleted rows are no longer pending.
    assert!(store.next_pending_thumbnail().is_none());
}

#[test]
fn missing_entry_soft_deletes() {
    let mut store = FeedStore::new();
    store.insert_media(5, bv("Image"), bv("u"), bv("a.zip"), bv("gone.jpg"));
    let zip_bytes = sample_zip();
    generate_thumbnail(&mut store, 5, 1, Some(&zip_bytes), 4000);
    let m = store.get_media(5, 1).unwrap();
    assert_eq!(m.deleted_at, Some(4000));
    assert!(m.thumbnail.is_none());
}

#[test]
fn undecodable_image_leaves_thumbnail_unset_for_retry() {
    let mut store = FeedStore::new();
    // The transcript entry itself is not an image; point a media row at it.
    store.insert_media(6, bv("Image"), bv("u"), bv("a.zip"), bv("export.csv"));
    let zip_bytes = sample_zip();
    generate_thumbnail(&mut store, 6, 1, Some(&zip_bytes), 5000);
    let m = store.get_media(6, 1).unwrap();
    assert!(m.deleted_at.is_none(), "decode failure must not soft-delete");
    assert!(m.thumbnail.is_none());
    // Still pending: eligible for retry.
    assert!(store.next_pending_thumbnail().is_some());
}

#[test]
fn preview_path_generates_caches_and_serves() {
    let mut store = FeedStore::new();
    let zip_bytes = sample_zip();
    scan_archive(&mut store, &bv("a.zip"), &zip_bytes, 0);

    let file_path = match preview_lookup(&store, 42, 1) {
        PreviewStep::NeedsArchive(p) => p,
        _ => panic!("expected the archive name"),
    };
    assert_eq!(file_path, bv("a.zip"));
    let served = preview_generate(&mut store, 42, 1, &zip_bytes).expect("preview served");
    let img = image::load_from_memory(&served).unwrap();
    assert!(img.width().max(img.height()) <= 128);

    // Now cached: the lookup serves the same bytes.
    match preview_lookup(&store, 42, 1) {
        PreviewStep::Cached(b) => assert_eq!(b, served),
        _ => panic!("expected the cached preview"),
    }

    // Unknown pairs, non-images and soft-deleted rows are rejected uniformly.
    assert!(matches!(preview_lookup(&store, 42, 2), PreviewStep::Rejected));
    assert!(matches!(preview_lookup(&store, 999, 1), PreviewStep::Rejected));
    store.insert_media(77, bv("Video"), bv("u"), bv("a.zip"), bv("img/x.jpg"));
    assert!(matches!(preview_lookup(&store, 77, 1), PreviewStep::Rejected));
    store.soft_delete_media(42, 1, 6000);
    assert!(matches!(preview_lookup(&store, 42, 1), PreviewStep::Rejected));
}

#[test]
fn media_file_endpoint_serves_bytes_and_mime() {
    let mut store = FeedStore::new();
    let zip_bytes = sample_zip();
    scan_archive(&mut store, &bv("a.zip"), &zip_bytes, 0);
    let (file_path, media_path) = media_file_lookup(&store, 42, 1).unwrap();
    assert_eq!(file_path, bv("a.zip"));
    assert_eq!(media_path, bv("img/x.jpg"));
    let (data, mime_text) = extract_zip_file(&zip_bytes, &media_path).unwrap();
    assert_eq!(data, sample_jpeg());
    assert_eq!(mime_text, "image/jpeg".to_string());
    // Missing entries, missing rows and soft-deleted rows give not-found
    // uniformly.
    assert!(extract_zip_file(&zip_bytes, &bv("nope.jpg")).is_none());
    assert!(media_file_lookup(&store, 42, 9).is_none());
    store.soft_delete_media(42, 1, 7000);
    assert!(media_file_lookup(&store, 42, 1).is_none());
}
