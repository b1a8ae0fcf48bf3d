//! Laws of the pipeline, proved from the operations' functional contracts:
//! scan passes leave ordered timestamps and unique feed IDs, rescanning an
//! archive changes nothing, user-name filtering ignores ASCII case, and a
//! `%` in a keyword matches only a literal `%`.
use vstd::prelude::*;

use crate::bytes::{contains_ci, lower_bytes, matches_at};
use crate::facade::{feed_matches, sorted_matched, sorted_upto};
use crate::query::fixed_user_name;
use crate::scan::{
    record_feed_row, record_retweet_row, spec_process_csv, spec_process_record, spec_process_upto,
    spec_scan_archive, spec_scan_entries, spec_timestamp,
};
use crate::store::{archives_unique, FeedRowV, StoreV, MAX_MEDIA_ROWS};
use crate::url::feed_id_of;
use crate::zipio::{zip_entry_of, zip_names_of};

verus! {

// ---------------------------------------------------------------------------
// Scanning only appends feed and media rows and never touches archive rows.
// ---------------------------------------------------------------------------
/// `s2` extends `s1`: scanning only appends feed and media rows.
pub open spec fn store_grows(s1: StoreV, s2: StoreV) -> bool {
    &&& s1.feeds.len() <= s2.feeds.len()
    &&& forall|i: int| 0 <= i < s1.feeds.len() ==> (#[trigger] s2.feeds[i]) == s1.feeds[i]
    &&& s1.media.len() <= s2.media.len()
    &&& forall|i: int| 0 <= i < s1.media.len() ==> (#[trigger] s2.media[i]) == s1.media[i]
}

/// Growth is transitive.
proof fn lemma_grows_trans(s1: StoreV, s2: StoreV, s3: StoreV)
    requires
        store_grows(s1, s2),
        store_grows(s2, s3),
    ensures
        store_grows(s1, s3),
{
}

/// One record's processing only appends rows and keeps the archive rows.
proof fn lemma_process_record_grows(
    s: StoreV,
    rec: Seq<Seq<u8>>,
    origin: Seq<u8>,
    zip_path: Seq<u8>,
    offset: int,
)
    ensures
        store_grows(s, spec_process_record(s, rec, origin, zip_path, offset)),
        spec_process_record(s, rec, origin, zip_path, offset).archives == s.archives,
{
}

/// A transcript prefix's processing only appends rows and keeps the archive
/// rows.
proof fn lemma_process_upto_grows(
    s: StoreV,
    recs: Seq<Seq<Seq<u8>>>,
    origin: Seq<u8>,
    zip_path: Seq<u8>,
    offset: int,
    upto: int,
)
    ensures
        store_grows(s, spec_process_upto(s, recs, origin, zip_path, offset, upto)),
        spec_process_upto(s, recs, origin, zip_path, offset, upto).archives == s.archives,
    decreases upto,
{
    if upto <= 0 || upto > recs.len() {
    } else {
        lemma_process_upto_grows(s, recs, origin, zip_path, offset, upto - 1);
        let prev = spec_process_upto(s, recs, origin, zip_path, offset, upto - 1);
        if upto >= 7 {
            lemma_process_record_grows(prev, recs[upto - 1], origin, zip_path, offset);
            lemma_grows_trans(s, prev, spec_process_record(prev, recs[upto - 1], origin, zip_path, offset));
        }
    }
}

/// A whole transcript's processing only appends rows and keeps the archive
/// rows.
proof fn lemma_process_csv_grows(s: StoreV, bytes: Seq<u8>, zip_path: Seq<u8>, offset: int)
    ensures
        store_grows(s, spec_process_csv(s, bytes, zip_path, offset)),
        spec_process_csv(s, bytes, zip_path, offset).archives == s.archives,
{
    let recs = crate::csvparse::csv_records(bytes);
    lemma_process_upto_grows(
        s,
        recs,
        crate::scan::csv_origin(recs),
        zip_path,
        offset,
        recs.len() as int,
    );
}

/// A prefix of the entry list's processing only appends rows and keeps the
/// archive rows.
proof fn lemma_scan_entries_grows(
    s: StoreV,
    zip_bytes: Seq<u8>,
    names: Seq<Seq<char>>,
    zip_path: Seq<u8>,
    offset: int,
    upto: int,
)
    ensures
        store_grows(s, spec_scan_entries(s, zip_bytes, names, zip_path, offset, upto)),
        spec_scan_entries(s, zip_bytes, names, zip_path, offset, upto).archives == s.archives,
    decreases upto,
{
    if upto <= 0 || upto > names.len() {
    } else {
        lemma_scan_entries_grows(s, zip_bytes, names, zip_path, offset, upto - 1);
        let prev = spec_scan_entries(s, zip_bytes, names, zip_path, offset, upto - 1);
        let name = names[upto - 1];
        if crate::bytes::path_extension(vstd::utf8::encode_utf8(name)) == crate::scan::csv_ext() {
            match zip_entry_of(zip_bytes, vstd::utf8::encode_utf8(name)) {
                Some(data) => {
                    lemma_process_csv_grows(prev, data, zip_path, offset);
                    lemma_grows_trans(s, prev, spec_process_csv(prev, data, zip_path, offset));
                },
                None => {},
            }
        }
    }
}

/// Scanning an archive only appends feed and media rows; the archive rows and
/// their scan markers are untouched by the row processing itself.
pub proof fn lemma_scan_archive_grows(s: StoreV, zip_path: Seq<u8>, zip_bytes: Seq<u8>, offset: int)
    ensures
        store_grows(s, spec_scan_archive(s, zip_path, zip_bytes, offset)),
        spec_scan_archive(s, zip_path, zip_bytes, offset).archives == s.archives,
{
    match zip_names_of(zip_bytes) {
        None => {},
        Some(names) => {
            lemma_scan_entries_grows(s, zip_bytes, names, zip_path, offset, names.len() as int);
        },
    }
}

// ---------------------------------------------------------------------------
// Every step of a scan pass preserves the store's well-formedness: archive
// names and feed IDs stay unique and media numbering stays gap-free.
// ---------------------------------------------------------------------------
/// A feed upsert preserves well-formedness.
proof fn lemma_insert_feed_wf(s: StoreV, row: FeedRowV)
    requires
        s.wf(),
    ensures
        s.spec_insert_feed(row).wf(),
{
    if !s.has_feed(row.feed_id) {
        let s2 = s.spec_insert_feed(row);
        assert(crate::store::feeds_unique(s2.feeds)) by {
            assert forall|i: int, j: int| 0 <= i < j < s2.feeds.len() implies (
            #[trigger] s2.feeds[i]).feed_id != (#[trigger] s2.feeds[j]).feed_id by {
                if j == s2.feeds.len() - 1 {
                    assert(s2.feeds[i] == s.feeds[i]);
                }
            }
        }
        assert(crate::store::media_numbered(s2.media));
    }
}

/// A media upsert preserves well-formedness: an appended row is numbered one
/// past its feed's count, and earlier rows keep their counts.
proof fn lemma_insert_media_wf(
    s: StoreV,
    feed_id: i64,
    media_type: Seq<u8>,
    media_url: Seq<u8>,
    file_path: Seq<u8>,
    media_path: Seq<u8>,
)
    requires
        s.wf(),
    ensures
        s.spec_insert_media(feed_id, media_type, media_url, file_path, media_path).wf(),
{
    let s2 = s.spec_insert_media(feed_id, media_type, media_url, file_path, media_path);
    if !s.has_same_media(feed_id, media_type, media_url, file_path, media_path) && s.media.len()
        < MAX_MEDIA_ROWS {
        crate::store::lemma_media_count_le(s.media, feed_id, s.media.len() as int);
        assert(crate::store::media_numbered(s2.media)) by {
            assert forall|i: int| 0 <= i < s2.media.len() implies (#[trigger] s2.media[i]).media_id
                == crate::store::media_count_upto(s2.media, s2.media[i].feed_id, i) + 1 by {
                crate::store::lemma_media_count_agree(s.media, s2.media, s2.media[i].feed_id, i);
                if i < s.media.len() {
                    assert(s.media[i].media_id == crate::store::media_count_upto(
                        s.media,
                        s.media[i].feed_id,
                        i,
                    ) + 1);
                }
            }
        }
    }
}

/// Processing one record preserves well-formedness.
proof fn lemma_process_record_wf(
    s: StoreV,
    rec: Seq<Seq<u8>>,
    origin: Seq<u8>,
    zip_path: Seq<u8>,
    offset: int,
)
    requires
        s.wf(),
    ensures
        spec_process_record(s, rec, origin, zip_path, offset).wf(),
{
    if record_resolved(rec, offset) {
        let id = feed_id_of(rec[4]).unwrap() as i64;
        let feed_at = spec_timestamp(rec[0], offset).unwrap();
        let fr = record_feed_row(rec, id, feed_at as i64);
        lemma_insert_feed_wf(s, fr);
        let s1 = s.spec_insert_feed(fr);
        let s2 = if record_retweet_case(rec, offset) {
            let rr = record_retweet_row(
                rec,
                id,
                origin,
                spec_timestamp(rec[1], offset).unwrap() as i64,
            );
            lemma_insert_feed_wf(s1, rr);
            s1.spec_insert_feed(rr)
        } else {
            s1
        };
        if record_media_case(rec) {
            lemma_insert_media_wf(s2, id, rec[5], rec[6], zip_path, rec[7]);
        }
    }
}

/// Processing a transcript prefix preserves well-formedness.
proof fn lemma_process_upto_wf(
    s: StoreV,
    recs: Seq<Seq<Seq<u8>>>,
    origin: Seq<u8>,
    zip_path: Seq<u8>,
    offset: int,
    upto: int,
)
    requires
        s.wf(),
    ensures
        spec_process_upto(s, recs, origin, zip_path, offset, upto).wf(),
    decreases upto,
{
    if upto <= 0 || upto > recs.len() {
    } else {
        lemma_process_upto_wf(s, recs, origin, zip_path, offset, upto - 1);
        if upto >= 7 {
            lemma_process_record_wf(
                spec_process_upto(s, recs, origin, zip_path, offset, upto - 1),
                recs[upto - 1],
                origin,
                zip_path,
                offset,
            );
        }
    }
}

/// Processing a transcript preserves well-formedness.
proof fn lemma_process_csv_wf(s: StoreV, bytes: Seq<u8>, zip_path: Seq<u8>, offset: int)
    requires
        s.wf(),
    ensures
        spec_process_csv(s, bytes, zip_path, offset).wf(),
{
    let recs = crate::csvparse::csv_records(bytes);
    lemma_process_upto_wf(
        s,
        recs,
        crate::scan::csv_origin(recs),
        zip_path,
        offset,
        recs.len() as int,
    );
}

/// Scanning a prefix of the entry list preserves well-formedness.
proof fn lemma_scan_entries_wf(
    s: StoreV,
    zip_bytes: Seq<u8>,
    names: Seq<Seq<char>>,
    zip_path: Seq<u8>,
    offset: int,
    upto: int,
)
    requires
        s.wf(),
    ensures
        spec_scan_entries(s, zip_bytes, names, zip_path, offset, upto).wf(),
    decreases upto,
{
    if upto <= 0 || upto > names.len() {
    } else {
        lemma_scan_entries_wf(s, zip_bytes, names, zip_path, offset, upto - 1);
        let prev = spec_scan_entries(s, zip_bytes, names, zip_path, offset, upto - 1);
        let name = names[upto - 1];
        if crate::bytes::path_extension(vstd::utf8::encode_utf8(name)) == crate::scan::csv_ext() {
            match zip_entry_of(zip_bytes, vstd::utf8::encode_utf8(name)) {
                Some(data) => {
                    lemma_process_csv_wf(prev, data, zip_path, offset);
                },
                None => {},
            }
        }
    }
}

/// Scanning an archive preserves well-formedness, so feed IDs stay unique
/// and media numbering stays gap-free across whole scan passes.
pub proof fn lemma_scan_archive_wf(s: StoreV, zip_path: Seq<u8>, zip_bytes: Seq<u8>, offset: int)
    requires
        s.wf(),
    ensures
        spec_scan_archive(s, zip_path, zip_bytes, offset).wf(),
{
    match zip_names_of(zip_bytes) {
        None => {},
        Some(names) => {
            lemma_scan_entries_wf(s, zip_bytes, names, zip_path, offset, names.len() as int);
        },
    }
}

// ---------------------------------------------------------------------------
// After one full scan pass of an archive, its scan markers are ordered:
// picked at `t1`, finished at `t2`, with `t1 <= t2` whenever the clock
// reads were ordered. Feed IDs stay unique throughout, as every operation
// preserves the store's well-formedness.
// ---------------------------------------------------------------------------
/// One scan pass of a registered archive — mark started at `t1`, reconcile
/// the readable transcripts, mark ended at `t2` — leaves that archive with
/// `scan_started_at = t1` and `scan_ended_at = t2`, so its start is no later
/// than its end.
pub proof fn lemma_scan_pass_timestamps(
    s0: StoreV,
    name: Seq<u8>,
    t1: i64,
    t2: i64,
    zip_bytes: Seq<u8>,
    offset: int,
)
    requires
        s0.wf(),
        s0.has_archive(name),
        t1 <= t2,
    ensures
        ({
            let s1 = s0.spec_set_scan_started(name, t1);
            let s2 = spec_scan_archive(s1, name, zip_bytes, offset);
            let s3 = s2.spec_set_scan_ended(name, t2);
            &&& s3.wf()
            &&& s3.has_archive(name)
            &&& s3.archives[s3.archive_idx(name)].scan_started_at == Some(t1)
            &&& s3.archives[s3.archive_idx(name)].scan_ended_at == Some(t2)
        }),
{
    let s1 = s0.spec_set_scan_started(name, t1);
    let s2 = spec_scan_archive(s1, name, zip_bytes, offset);
    let s3 = s2.spec_set_scan_ended(name, t2);
    let i0 = s0.archive_idx(name);
    assert(0 <= i0 < s0.archives.len() && s0.archives[i0].file_path == name);
    assert(s1.archives == s0.archives.update(
        i0,
        crate::store::ArchiveRowV { scan_started_at: Some(t1), ..s0.archives[i0] },
    ));
    assert(s1.wf()) by {
        assert forall|i: int, j: int| 0 <= i < j < s1.archives.len() implies (
        #[trigger] s1.archives[i]).file_path != (#[trigger] s1.archives[j]).file_path by {
            assert(s1.archives[i].file_path == s0.archives[i].file_path);
            assert(s1.archives[j].file_path == s0.archives[j].file_path);
        }
    }
    lemma_scan_archive_wf(s1, name, zip_bytes, offset);
    lemma_scan_archive_grows(s1, name, zip_bytes, offset);
    assert(s2.archives == s1.archives);
    assert(archives_unique(s2.archives)) by {
        assert forall|i: int, j: int| 0 <= i < j < s2.archives.len() implies (#[trigger] s2.archives[i]).file_path
            != (#[trigger] s2.archives[j]).file_path by {
            assert(s0.archives[i].file_path == s2.archives[i].file_path);
            assert(s0.archives[j].file_path == s2.archives[j].file_path);
        }
    }
    assert(s2.archives[i0].file_path == name);
    assert(s2.has_archive(name));
    let i2 = s2.archive_idx(name);
    if i2 != i0 {
        assert(s2.archives[i2].file_path == name);
        assert(s0.archives[i2].file_path == name || s2.archives[i2].file_path != name);
    }
    assert(i2 == i0);
    assert(s3.archives == s2.archives.update(
        i0,
        crate::store::ArchiveRowV { scan_ended_at: Some(t2), ..s2.archives[i0] },
    ));
    assert(s3.archives[i0].file_path == name);
    assert(s3.has_archive(name));
    let i3 = s3.archive_idx(name);
    if i3 != i0 {
        assert(s3.archives[i3].file_path == name);
        assert(s2.archives[i3].file_path == name);
    }
    assert(i3 == i0);
    assert(s3.archives[i0].scan_started_at == Some(t1));
    assert(s3.archives[i0].scan_ended_at == Some(t2));
    assert(s3.wf()) by {
        assert forall|i: int, j: int| 0 <= i < j < s3.archives.len() implies (
        #[trigger] s3.archives[i]).file_path != (#[trigger] s3.archives[j]).file_path by {
            assert(s3.archives[i].file_path == s2.archives[i].file_path);
            assert(s3.archives[j].file_path == s2.archives[j].file_path);
        }
    }
}

/// Feed IDs are unique in every well-formed store, which every operation of
/// the store preserves.
pub proof fn lemma_feed_ids_unique(s: StoreV)
    requires
        s.wf(),
    ensures
        forall|i: int, j: int|
            0 <= i < j < s.feeds.len() ==> (#[trigger] s.feeds[i]).feed_id != (
            #[trigger] s.feeds[j]).feed_id,
{
}

// ---------------------------------------------------------------------------
// Rescanning the same archive changes nothing: every upsert of the second
// pass finds its row already present and is a silent no-op.
// ---------------------------------------------------------------------------
/// A record can change the store at all.
spec fn record_resolved(rec: Seq<Seq<u8>>, offset: int) -> bool {
    &&& rec.len() == 13
    &&& feed_id_of(rec[4]) is Some
    &&& feed_id_of(rec[4]).unwrap() <= i64::MAX
    &&& spec_timestamp(rec[0], offset) is Some
}

/// The record is treated as a retweet.
spec fn record_retweet_case(rec: Seq<Seq<u8>>, offset: int) -> bool {
    &&& spec_timestamp(rec[1], offset) is Some
    &&& spec_timestamp(rec[1], offset).unwrap() != spec_timestamp(rec[0], offset).unwrap()
}

/// The record upserts a media row.
spec fn record_media_case(rec: Seq<Seq<u8>>) -> bool {
    rec[6].len() > 0 && rec[7].len() > 0
}

/// Every row the record would upsert is already present (or, for media, the
/// ID space is exhausted), so processing it again changes nothing.
spec fn record_absorbed(s: StoreV, rec: Seq<Seq<u8>>, zip_path: Seq<u8>, offset: int) -> bool {
    record_resolved(rec, offset) ==> {
        let id = feed_id_of(rec[4]).unwrap() as i64;
        &&& s.has_feed(id)
        &&& (record_retweet_case(rec, offset) ==> s.has_feed(0))
        &&& (record_media_case(rec) ==> (s.has_same_media(id, rec[5], rec[6], zip_path, rec[7])
            || s.media.len() >= MAX_MEDIA_ROWS))
    }
}

/// An absorbed record's processing is a no-op.
proof fn lemma_absorbed_record_noop(
    s: StoreV,
    rec: Seq<Seq<u8>>,
    origin: Seq<u8>,
    zip_path: Seq<u8>,
    offset: int,
)
    requires
        record_absorbed(s, rec, zip_path, offset),
    ensures
        spec_process_record(s, rec, origin, zip_path, offset) == s,
{
}

/// Presence facts survive growth: rows are only ever appended by scans.
proof fn lemma_absorbed_monotone(
    s1: StoreV,
    s2: StoreV,
    rec: Seq<Seq<u8>>,
    zip_path: Seq<u8>,
    offset: int,
)
    requires
        record_absorbed(s1, rec, zip_path, offset),
        store_grows(s1, s2),
    ensures
        record_absorbed(s2, rec, zip_path, offset),
{
    if record_resolved(rec, offset) {
        let id = feed_id_of(rec[4]).unwrap() as i64;
        let i = choose|i: int| 0 <= i < s1.feeds.len() && (#[trigger] s1.feeds[i]).feed_id == id;
        assert(s2.feeds[i].feed_id == id);
        if record_retweet_case(rec, offset) {
            let j = choose|j: int|
                0 <= j < s1.feeds.len() && (#[trigger] s1.feeds[j]).feed_id == 0;
            assert(s2.feeds[j].feed_id == 0);
        }
        if record_media_case(rec) && s1.media.len() < MAX_MEDIA_ROWS {
            let k = choose|k: int|
                {
                    &&& 0 <= k < s1.media.len()
                    &&& (#[trigger] s1.media[k]).feed_id == id
                    &&& s1.media[k].media_type == rec[5]
                    &&& s1.media[k].media_url == rec[6]
                    &&& s1.media[k].file_path == zip_path
                    &&& s1.media[k].media_path == rec[7]
                };
            assert(s2.media[k].feed_id == id);
        }
    }
}

/// Processing a record leaves that record absorbed.
proof fn lemma_process_establishes_absorbed(
    s: StoreV,
    rec: Seq<Seq<u8>>,
    origin: Seq<u8>,
    zip_path: Seq<u8>,
    offset: int,
)
    ensures
        record_absorbed(spec_process_record(s, rec, origin, zip_path, offset), rec, zip_path, offset),
{
    if record_resolved(rec, offset) {
        let id = feed_id_of(rec[4]).unwrap() as i64;
        let feed_at = spec_timestamp(rec[0], offset).unwrap();
        let fr = record_feed_row(rec, id, feed_at as i64);
        let s1 = s.spec_insert_feed(fr);
        assert(s1.has_feed(id)) by {
            if s.has_feed(id) {
            } else {
                assert(s1.feeds[s.feeds.len() as int].feed_id == id);
            }
        }
        let s2 = if record_retweet_case(rec, offset) {
            let rr = record_retweet_row(rec, id, origin, spec_timestamp(rec[1], offset).unwrap() as i64);
            let s2 = s1.spec_insert_feed(rr);
            assert(s2.has_feed(0)) by {
                if s1.has_feed(0) {
                    let j = choose|j: int|
                        0 <= j < s1.feeds.len() && (#[trigger] s1.feeds[j]).feed_id == 0;
                    assert(s2.feeds[j].feed_id == 0);
                } else {
                    assert(s2.feeds[s1.feeds.len() as int].feed_id == 0);
                }
            }
            assert(s2.has_feed(id)) by {
                let i = choose|i: int|
                    0 <= i < s1.feeds.len() && (#[trigger] s1.feeds[i]).feed_id == id;
                assert(s2.feeds[i].feed_id == id);
            }
            s2
        } else {
            s1
        };
        if record_media_case(rec) {
            let s3 = s2.spec_insert_media(id, rec[5], rec[6], zip_path, rec[7]);
            assert(s3.has_feed(id)) by {
                let i = choose|i: int|
                    0 <= i < s2.feeds.len() && (#[trigger] s2.feeds[i]).feed_id == id;
                assert(s3.feeds[i].feed_id == id);
            }
            if record_retweet_case(rec, offset) {
                assert(s3.has_feed(0)) by {
                    let j = choose|j: int|
                        0 <= j < s2.feeds.len() && (#[trigger] s2.feeds[j]).feed_id == 0;
                    assert(s3.feeds[j].feed_id == 0);
                }
            }
            assert(s3.has_same_media(id, rec[5], rec[6], zip_path, rec[7]) || s3.media.len()
                >= MAX_MEDIA_ROWS) by {
                if s2.has_same_media(id, rec[5], rec[6], zip_path, rec[7]) {
                } else if s2.media.len() >= MAX_MEDIA_ROWS {
                } else {
                    assert(s3.media[s2.media.len() as int].feed_id == id);
                }
            }
            assert(spec_process_record(s, rec, origin, zip_path, offset) == s3);
        } else {
            assert(spec_process_record(s, rec, origin, zip_path, offset) == s2);
        }
    }
}

/// Every data record of the transcript is absorbed in the store.
spec fn csv_absorbed(s: StoreV, bytes: Seq<u8>, zip_path: Seq<u8>, offset: int) -> bool {
    let recs = crate::csvparse::csv_records(bytes);
    forall|i: int|
        6 <= i < recs.len() ==> record_absorbed(s, #[trigger] recs[i], zip_path, offset)
}

/// After processing a transcript prefix, each of its data records is
/// absorbed.
proof fn lemma_process_upto_absorbs(
    s: StoreV,
    recs: Seq<Seq<Seq<u8>>>,
    origin: Seq<u8>,
    zip_path: Seq<u8>,
    offset: int,
    upto: int,
)
    requires
        upto <= recs.len(),
    ensures
        forall|i: int|
            6 <= i < upto ==> record_absorbed(
                spec_process_upto(s, recs, origin, zip_path, offset, upto),
                #[trigger] recs[i],
                zip_path,
                offset,
            ),
    decreases upto,
{
    if upto <= 0 {
    } else {
        lemma_process_upto_absorbs(s, recs, origin, zip_path, offset, upto - 1);
        let prev = spec_process_upto(s, recs, origin, zip_path, offset, upto - 1);
        let cur = spec_process_upto(s, recs, origin, zip_path, offset, upto);
        if upto >= 7 {
            lemma_process_record_grows(prev, recs[upto - 1], origin, zip_path, offset);
            assert forall|i: int| 6 <= i < upto implies record_absorbed(
                cur,
                #[trigger] recs[i],
                zip_path,
                offset,
            ) by {
                if i < upto - 1 {
                    lemma_absorbed_monotone(prev, cur, recs[i], zip_path, offset);
                } else {
                    lemma_process_establishes_absorbed(prev, recs[i], origin, zip_path, offset);
                }
            }
        } else {
            assert(cur == prev);
        }
    }
}

/// On a store where every data record is absorbed, reprocessing a transcript
/// prefix changes nothing.
proof fn lemma_absorbed_upto_noop(
    s: StoreV,
    recs: Seq<Seq<Seq<u8>>>,
    origin: Seq<u8>,
    zip_path: Seq<u8>,
    offset: int,
    upto: int,
)
    requires
        upto <= recs.len(),
        forall|i: int|
            6 <= i < recs.len() ==> record_absorbed(s, #[trigger] recs[i], zip_path, offset),
    ensures
        spec_process_upto(s, recs, origin, zip_path, offset, upto) == s,
    decreases upto,
{
    if upto <= 0 {
    } else {
        lemma_absorbed_upto_noop(s, recs, origin, zip_path, offset, upto - 1);
        if upto >= 7 {
            lemma_absorbed_record_noop(s, recs[upto - 1], origin, zip_path, offset);
        }
    }
}

/// Processing a transcript leaves it absorbed.
proof fn lemma_process_csv_absorbs(s: StoreV, bytes: Seq<u8>, zip_path: Seq<u8>, offset: int)
    ensures
        csv_absorbed(spec_process_csv(s, bytes, zip_path, offset), bytes, zip_path, offset),
{
    let recs = crate::csvparse::csv_records(bytes);
    lemma_process_upto_absorbs(
        s,
        recs,
        crate::scan::csv_origin(recs),
        zip_path,
        offset,
        recs.len() as int,
    );
}

/// Reprocessing an absorbed transcript changes nothing.
proof fn lemma_absorbed_csv_noop(s: StoreV, bytes: Seq<u8>, zip_path: Seq<u8>, offset: int)
    requires
        csv_absorbed(s, bytes, zip_path, offset),
    ensures
        spec_process_csv(s, bytes, zip_path, offset) == s,
{
    let recs = crate::csvparse::csv_records(bytes);
    lemma_absorbed_upto_noop(
        s,
        recs,
        crate::scan::csv_origin(recs),
        zip_path,
        offset,
        recs.len() as int,
    );
}

/// Absorption of a transcript survives growth.
proof fn lemma_csv_absorbed_monotone(
    s1: StoreV,
    s2: StoreV,
    bytes: Seq<u8>,
    zip_path: Seq<u8>,
    offset: int,
)
    requires
        csv_absorbed(s1, bytes, zip_path, offset),
        store_grows(s1, s2),
    ensures
        csv_absorbed(s2, bytes, zip_path, offset),
{
    let recs = crate::csvparse::csv_records(bytes);
    assert forall|i: int| 6 <= i < recs.len() implies record_absorbed(
        s2,
        #[trigger] recs[i],
        zip_path,
        offset,
    ) by {
        lemma_absorbed_monotone(s1, s2, recs[i], zip_path, offset);
    }
}

/// After scanning a prefix of the entry list, every transcript of that
/// prefix is absorbed.
proof fn lemma_scan_entries_absorbs(
    s: StoreV,
    zip_bytes: Seq<u8>,
    names: Seq<Seq<char>>,
    zip_path: Seq<u8>,
    offset: int,
    upto: int,
)
    requires
        upto <= names.len(),
    ensures
        forall|e: int|
            {
                0 <= e < upto && crate::bytes::path_extension(
                    vstd::utf8::encode_utf8(#[trigger] names[e]),
                ) == crate::scan::csv_ext() && zip_entry_of(
                    zip_bytes,
                    vstd::utf8::encode_utf8(names[e]),
                ) is Some ==> csv_absorbed(
                    spec_scan_entries(s, zip_bytes, names, zip_path, offset, upto),
                    zip_entry_of(zip_bytes, vstd::utf8::encode_utf8(names[e])).unwrap(),
                    zip_path,
                    offset,
                )
            },
    decreases upto,
{
    if upto <= 0 {
    } else {
        lemma_scan_entries_absorbs(s, zip_bytes, names, zip_path, offset, upto - 1);
        let prev = spec_scan_entries(s, zip_bytes, names, zip_path, offset, upto - 1);
        let cur = spec_scan_entries(s, zip_bytes, names, zip_path, offset, upto);
        let name = names[upto - 1];
        let is_csv = crate::bytes::path_extension(vstd::utf8::encode_utf8(name))
            == crate::scan::csv_ext();
        assert forall|e: int|
            0 <= e < upto && crate::bytes::path_extension(
                vstd::utf8::encode_utf8(#[trigger] names[e]),
            ) == crate::scan::csv_ext() && zip_entry_of(
                zip_bytes,
                vstd::utf8::encode_utf8(names[e]),
            ) is Some implies csv_absorbed(
            cur,
            zip_entry_of(zip_bytes, vstd::utf8::encode_utf8(names[e])).unwrap(),
            zip_path,
            offset,
        ) by {
            if is_csv && zip_entry_of(zip_bytes, vstd::utf8::encode_utf8(name)) is Some {
                let data = zip_entry_of(zip_bytes, vstd::utf8::encode_utf8(name)).unwrap();
                assert(cur == spec_process_csv(prev, data, zip_path, offset));
                if e < upto - 1 {
                    lemma_process_csv_grows(prev, data, zip_path, offset);
                    lemma_csv_absorbed_monotone(
                        prev,
                        cur,
                        zip_entry_of(zip_bytes, vstd::utf8::encode_utf8(names[e])).unwrap(),
                        zip_path,
                        offset,
                    );
                } else {
                    lemma_process_csv_absorbs(prev, data, zip_path, offset);
                }
            } else {
                assert(cur == prev);
                if e < upto - 1 {
                } else {
                    assert(false);
                }
            }
        }
    }
}

/// On a store where every transcript of the archive is absorbed, rescanning
/// a prefix of its entries changes nothing.
proof fn lemma_absorbed_entries_noop(
    s: StoreV,
    zip_bytes: Seq<u8>,
    names: Seq<Seq<char>>,
    zip_path: Seq<u8>,
    offset: int,
    upto: int,
)
    requires
        upto <= names.len(),
        forall|e: int|
            {
                0 <= e < names.len() && crate::bytes::path_extension(
                    vstd::utf8::encode_utf8(#[trigger] names[e]),
                ) == crate::scan::csv_ext() && zip_entry_of(
                    zip_bytes,
                    vstd::utf8::encode_utf8(names[e]),
                ) is Some ==> csv_absorbed(
                    s,
                    zip_entry_of(zip_bytes, vstd::utf8::encode_utf8(names[e])).unwrap(),
                    zip_path,
                    offset,
                )
            },
    ensures
        spec_scan_entries(s, zip_bytes, names, zip_path, offset, upto) == s,
    decreases upto,
{
    if upto <= 0 || upto > names.len() {
    } else {
        lemma_absorbed_entries_noop(s, zip_bytes, names, zip_path, offset, upto - 1);
        let name = names[upto - 1];
        if crate::bytes::path_extension(vstd::utf8::encode_utf8(name)) == crate::scan::csv_ext() {
            match zip_entry_of(zip_bytes, vstd::utf8::encode_utf8(name)) {
                Some(data) => {
                    lemma_absorbed_csv_noop(s, data, zip_path, offset);
                },
                None => {},
            }
        }
    }
}

/// Rescanning an archive is a no-op: scanning the same bytes twice leaves
/// exactly the feed and media rows of the first scan, with no duplicates.
pub proof fn lemma_scan_idempotent(s: StoreV, zip_path: Seq<u8>, zip_bytes: Seq<u8>, offset: int)
    ensures
        spec_scan_archive(
            spec_scan_archive(s, zip_path, zip_bytes, offset),
            zip_path,
            zip_bytes,
            offset,
        ) == spec_scan_archive(s, zip_path, zip_bytes, offset),
{
    match zip_names_of(zip_bytes) {
        None => {},
        Some(names) => {
            let s1 = spec_scan_entries(s, zip_bytes, names, zip_path, offset, names.len() as int);
            lemma_scan_entries_absorbs(s, zip_bytes, names, zip_path, offset, names.len() as int);
            lemma_absorbed_entries_noop(s1, zip_bytes, names, zip_path, offset, names.len() as int);
        },
    }
}

// ---------------------------------------------------------------------------
// A media row whose backing archive file does not exist: one generation
// attempt soft-deletes it and leaves the thumbnail untouched (null stays
// null).
// ---------------------------------------------------------------------------
/// One generation attempt with no backing archive file sets the soft-delete
/// marker and leaves the thumbnail column exactly as it was.
pub proof fn lemma_missing_archive_soft_deletes(s: StoreV, feed_id: i64, media_id: i64, now: i64)
    requires
        s.wf(),
        s.has_media(feed_id, media_id),
    ensures
        ({
            let s2 = crate::thumb::spec_generate_thumbnail(s, feed_id, media_id, None, now);
            &&& s2.has_media(feed_id, media_id)
            &&& s2.media[s2.media_idx(feed_id, media_id)].deleted_at == Some(now)
            &&& s2.media[s2.media_idx(feed_id, media_id)].thumbnail == s.media[s.media_idx(
                feed_id,
                media_id,
            )].thumbnail
        }),
{
    let s2 = crate::thumb::spec_generate_thumbnail(s, feed_id, media_id, None, now);
    let i = s.media_idx(feed_id, media_id);
    assert(0 <= i < s.media.len() && s.media[i].feed_id == feed_id && s.media[i].media_id
        == media_id);
    assert(s2.media == s.media.update(
        i,
        crate::store::MediaRowV { deleted_at: Some(now), ..s.media[i] },
    ));
    assert(crate::store::media_numbered(s2.media)) by {
        assert forall|k: int| 0 <= k < s2.media.len() implies (#[trigger] s2.media[k]).media_id
            == crate::store::media_count_upto(s2.media, s2.media[k].feed_id, k) + 1 by {
            crate::store::lemma_media_count_agree(s.media, s2.media, s2.media[k].feed_id, k);
            assert(s.media[k].media_id == crate::store::media_count_upto(
                s.media,
                s.media[k].feed_id,
                k,
            ) + 1);
        }
    }
    crate::store::lemma_media_pair_unique(s2.media);
    assert(s2.media[i].feed_id == feed_id && s2.media[i].media_id == media_id);
    assert(s2.has_media(feed_id, media_id));
    let j = s2.media_idx(feed_id, media_id);
    if i < j {
        assert(s2.media[i].feed_id == s2.media[j].feed_id);
    } else if j < i {
        assert(s2.media[j].feed_id == s2.media[i].feed_id);
    }
    assert(j == i);
}

// ---------------------------------------------------------------------------
// User-name filtering ignores ASCII case, and normalization makes a bare
// name and its `@`-prefixed form the same filter.
// ---------------------------------------------------------------------------
/// A bare user name and its `@`-prefixed form normalize to the same filter.
pub proof fn lemma_user_name_normalization(u: Seq<char>)
    requires
        u.len() > 0,
        u[0] != '@',
    ensures
        fixed_user_name(Some(u)) == fixed_user_name(Some(seq!['@'] + u)),
{
    let pre = seq!['@'] + u;
    assert(pre[0] == '@');
    assert(pre.len() > 0);
}

/// Two user-name filters that agree ASCII case aside select exactly the same
/// rows, whatever the other filters.
pub proof fn lemma_user_filter_case_insensitive(
    s: StoreV,
    u1: Seq<u8>,
    u2: Seq<u8>,
    keyword: Option<Seq<u8>>,
    has_media: bool,
)
    requires
        lower_bytes(u1) == lower_bytes(u2),
    ensures
        sorted_matched(s, Some(u1), keyword, has_media) == sorted_matched(
            s,
            Some(u2),
            keyword,
            has_media,
        ),
{
    lemma_sorted_upto_case(s, u1, u2, keyword, has_media, s.feeds.len() as int);
}

/// Case-agreeing user filters select alike on every prefix.
proof fn lemma_sorted_upto_case(
    s: StoreV,
    u1: Seq<u8>,
    u2: Seq<u8>,
    keyword: Option<Seq<u8>>,
    has_media: bool,
    upto: int,
)
    requires
        lower_bytes(u1) == lower_bytes(u2),
    ensures
        sorted_upto(s, Some(u1), keyword, has_media, upto) == sorted_upto(
            s,
            Some(u2),
            keyword,
            has_media,
            upto,
        ),
    decreases upto,
{
    if upto <= 0 || upto > s.feeds.len() {
    } else {
        lemma_sorted_upto_case(s, u1, u2, keyword, has_media, upto - 1);
        assert(feed_matches(s, s.feeds[upto - 1], Some(u1), keyword, has_media) == feed_matches(
            s,
            s.feeds[upto - 1],
            Some(u2),
            keyword,
            has_media,
        ));
    }
}

// ---------------------------------------------------------------------------
// A keyword's `%` is an ordinary byte: wherever the keyword matches, the
// contents carry a literal `%` at that position.
// ---------------------------------------------------------------------------
/// Lower-casing fixes no byte to `%` but `%` itself.
proof fn lemma_lower_percent(b: u8)
    ensures
        (crate::bytes::lower_byte(b) == 37) == (b == 37),
{
}

/// Wherever a keyword containing a literal `%` matches some contents, the
/// contents hold a literal `%` at the corresponding position: no byte of the
/// keyword acts as a wildcard.
pub proof fn lemma_percent_matches_literally(c: Seq<u8>, k: Seq<u8>, p: int)
    requires
        0 <= p < k.len(),
        k[p] == 37,
        contains_ci(c, k),
    ensures
        exists|i: int|
            {
                &&& 0 <= i
                &&& i + k.len() <= c.len()
                &&& matches_at(c, k, i)
                &&& #[trigger] c[i + p] == 37
            },
{
    let i = choose|i: int| matches_at(c, k, i);
    assert(lower_bytes(c.subrange(i, i + k.len()))[p] == lower_bytes(k)[p]);
    assert(crate::bytes::lower_byte(c[i + p]) == 37);
    lemma_lower_percent(c[i + p]);
    assert(c[i + p] == 37);
}

} // verus!
