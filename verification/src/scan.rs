//! The scanner and reconciler: walk one archive's CSV transcripts and upsert
//! feed, retweet and media rows into the store.
//!
//! Transcript layout: rows one to six are header rows and are skipped; row
//! three's second column, lower-cased, is the "origin" account (the retweet
//! source); data rows start at row seven. A data row needs thirteen columns,
//! a status URL that yields a feed ID, and a parseable `feed_date`, otherwise
//! it is skipped entirely. A row whose `action_date` parses to a timestamp
//! distinct from `feed_date` is a retweet: the original content is upserted,
//! and a second row for the repost event. A row with both a media URL and a
//! media file path also upserts one media row, numbered per feed.
use vstd::prelude::*;

use crate::bytes::{clone_bytes, lower_bytes, path_extension, path_extension_exec, to_ascii_lower};
use crate::csvparse::{csv_records, parse_csv};
use crate::store::{FeedRow, FeedRowV, FeedStore, StoreV};
use crate::time::{
    civil_to_unix, day_of, hour_of, minute_of, month_of, second_of, str_to_timestamp,
    valid_datetime, year_of,
};
use crate::url::{extract_feed_id, feed_id_of};
use crate::zipio::{zip_entry_data, zip_entry_names, zip_entry_of, zip_names_of};
use vstd::string::StrSliceExecFns;

verus! {

/// Timestamp a date field parses to at the given offset, if any.
pub open spec fn spec_timestamp(b: Seq<u8>, offset: int) -> Option<int> {
    if valid_datetime(b) {
        Some(
            civil_to_unix(
                year_of(b),
                month_of(b),
                day_of(b),
                hour_of(b),
                minute_of(b),
                second_of(b),
                offset,
            ),
        )
    } else {
        None
    }
}

/// The feed row a data row upserts for its original content.
pub open spec fn record_feed_row(rec: Seq<Seq<u8>>, id: i64, feed_at: i64) -> FeedRowV {
    FeedRowV {
        feed_id: id,
        user_name: lower_bytes(rec[3]),
        retweet_id: 0,
        retweet_user_name: Seq::empty(),
        feed_at,
        twitter_url: rec[4],
        contents: rec[9],
    }
}

/// The feed row a retweet-typed data row upserts for the repost event: keyed
/// zero, referencing the reposted feed through `retweet_id`, credited to the
/// origin account, and without contents.
pub open spec fn record_retweet_row(
    rec: Seq<Seq<u8>>,
    id: i64,
    origin: Seq<u8>,
    action_at: i64,
) -> FeedRowV {
    FeedRowV {
        feed_id: 0,
        user_name: origin,
        retweet_id: id,
        retweet_user_name: lower_bytes(rec[3]),
        feed_at: action_at,
        twitter_url: rec[4],
        contents: Seq::empty(),
    }
}

/// Effect of one data row on the store.
pub open spec fn spec_process_record(
    s: StoreV,
    rec: Seq<Seq<u8>>,
    origin: Seq<u8>,
    zip_path: Seq<u8>,
    offset: int,
) -> StoreV {
    if rec.len() != 13 {
        s
    } else {
        match feed_id_of(rec[4]) {
            None => s,
            Some(v) => {
                if v > i64::MAX {
                    s
                } else {
                    let id = v as i64;
                    match spec_timestamp(rec[0], offset) {
                        None => s,
                        Some(feed_at) => {
                            let action = spec_timestamp(rec[1], offset);
                            let s1 = if action is Some && action.unwrap() != feed_at {
                                s.spec_insert_feed(
                                    record_feed_row(rec, id, feed_at as i64),
                                ).spec_insert_feed(
                                    record_retweet_row(rec, id, origin, action.unwrap() as i64),
                                )
                            } else {
                                s.spec_insert_feed(record_feed_row(rec, id, feed_at as i64))
                            };
                            if rec[6].len() > 0 && rec[7].len() > 0 {
                                s1.spec_insert_media(id, rec[5], rec[6], zip_path, rec[7])
                            } else {
                                s1
                            }
                        },
                    }
                }
            },
        }
    }
}

/// Origin account of a transcript: row three's second column, lower-cased,
/// when that row has thirteen columns; empty otherwise.
pub open spec fn csv_origin(recs: Seq<Seq<Seq<u8>>>) -> Seq<u8> {
    if recs.len() >= 3 && recs[2].len() == 13 {
        lower_bytes(recs[2][1])
    } else {
        Seq::empty()
    }
}

/// Effect of the first `upto` transcript rows: rows one to six are skipped,
/// data rows are processed in order.
pub open spec fn spec_process_upto(
    s: StoreV,
    recs: Seq<Seq<Seq<u8>>>,
    origin: Seq<u8>,
    zip_path: Seq<u8>,
    offset: int,
    upto: int,
) -> StoreV
    decreases upto,
{
    if upto <= 0 || upto > recs.len() {
        s
    } else {
        let prev = spec_process_upto(s, recs, origin, zip_path, offset, upto - 1);
        if upto >= 7 {
            spec_process_record(prev, recs[upto - 1], origin, zip_path, offset)
        } else {
            prev
        }
    }
}

/// Effect of one whole transcript on the store.
pub open spec fn spec_process_csv(
    s: StoreV,
    bytes: Seq<u8>,
    zip_path: Seq<u8>,
    offset: int,
) -> StoreV {
    let recs = csv_records(bytes);
    spec_process_upto(s, recs, csv_origin(recs), zip_path, offset, recs.len() as int)
}

/// The extension that marks a transcript entry.
pub open spec fn csv_ext() -> Seq<u8> {
    seq![99u8, 115u8, 118u8]
}

/// Effect of the first `upto` archive entries: every entry whose name carries
/// the `csv` extension and whose data can be read is processed as one
/// transcript, in listing order.
pub open spec fn spec_scan_entries(
    s: StoreV,
    zip_bytes: Seq<u8>,
    names: Seq<Seq<char>>,
    zip_path: Seq<u8>,
    offset: int,
    upto: int,
) -> StoreV
    decreases upto,
{
    if upto <= 0 || upto > names.len() {
        s
    } else {
        let prev = spec_scan_entries(s, zip_bytes, names, zip_path, offset, upto - 1);
        let name = names[upto - 1];
        if path_extension(vstd::utf8::encode_utf8(name)) == csv_ext() {
            match zip_entry_of(zip_bytes, vstd::utf8::encode_utf8(name)) {
                Some(data) => spec_process_csv(prev, data, zip_path, offset),
                None => prev,
            }
        } else {
            prev
        }
    }
}

/// Effect of scanning one archive's bytes: nothing when the bytes are not a
/// readable archive, otherwise every CSV entry in listing order.
pub open spec fn spec_scan_archive(
    s: StoreV,
    zip_path: Seq<u8>,
    zip_bytes: Seq<u8>,
    offset: int,
) -> StoreV {
    match zip_names_of(zip_bytes) {
        None => s,
        Some(names) => spec_scan_entries(s, zip_bytes, names, zip_path, offset, names.len() as int),
    }
}

/// Upsert the rows of one data record; rows that cannot be resolved change
/// nothing.
pub fn process_csv_record(
    store: &mut FeedStore,
    rec: &Vec<Vec<u8>>,
    origin: &Vec<u8>,
    zip_path: &Vec<u8>,
    offset: i32,
)
    requires
        old(store)@.wf(),
    ensures
        final(store)@.wf(),
        final(store)@ == spec_process_record(
            old(store)@,
            rec.deep_view(),
            origin@,
            zip_path@,
            offset as int,
        ),
{
    proof {
        assert forall|i: int| 0 <= i < rec@.len() implies rec.deep_view()[i] == rec@[i]@ by {
            assert(rec@[i].deep_view() =~= rec@[i]@);
        }
    }
    if rec.len() != 13 {
        return ;
    }
    let id = match extract_feed_id(&rec[4]) {
        Some(v) => v,
        None => {
            return ;
        },
    };
    let feed_at = match str_to_timestamp(&rec[0], offset) {
        Some(t) => t,
        None => {
            return ;
        },
    };
    let action = str_to_timestamp(&rec[1], offset);
    let feed_row = FeedRow {
        feed_id: id,
        user_name: to_ascii_lower(&rec[3]),
        retweet_id: 0,
        retweet_user_name: Vec::new(),
        feed_at,
        twitter_url: clone_bytes(&rec[4]),
        contents: clone_bytes(&rec[9]),
    };
    proof {
        assert(feed_row@.retweet_user_name =~= Seq::<u8>::empty());
        assert(feed_row@ == record_feed_row(rec.deep_view(), id, feed_at));
    }
    store.insert_feed(feed_row);
    match action {
        Some(action_at) => {
            if action_at != feed_at {
                let retweet_row = FeedRow {
                    feed_id: 0,
                    user_name: clone_bytes(origin),
                    retweet_id: id,
                    retweet_user_name: to_ascii_lower(&rec[3]),
                    feed_at: action_at,
                    twitter_url: clone_bytes(&rec[4]),
                    contents: Vec::new(),
                };
                proof {
                    assert(retweet_row@.contents =~= Seq::<u8>::empty());
                    assert(retweet_row@ == record_retweet_row(
                        rec.deep_view(),
                        id,
                        origin@,
                        action_at,
                    ));
                }
                store.insert_feed(retweet_row);
            }
        },
        None => {},
    }
    if rec[6].len() > 0 && rec[7].len() > 0 {
        store.insert_media(
            id,
            clone_bytes(&rec[5]),
            clone_bytes(&rec[6]),
            clone_bytes(zip_path),
            clone_bytes(&rec[7]),
        );
    }
}

/// Feed one transcript's rows to the reconciler; returns how many records the
/// transcript held, resolvable or not.
pub fn process_csv(store: &mut FeedStore, bytes: &Vec<u8>, zip_path: &Vec<u8>, offset: i32) -> (count:
    usize)
    requires
        old(store)@.wf(),
    ensures
        final(store)@.wf(),
        final(store)@ == spec_process_csv(old(store)@, bytes@, zip_path@, offset as int),
        count == csv_records(bytes@).len(),
{
    let records = parse_csv(bytes);
    let ghost recs = records.deep_view();
    proof {
        assert forall|i: int| 0 <= i < records@.len() implies recs[i] == records@[i].deep_view() by {}
    }
    let mut origin: Vec<u8> = Vec::new();
    if records.len() >= 3 {
        let r3 = &records[2];
        if r3.len() == 13 {
            origin = to_ascii_lower(&r3[1]);
            proof {
                assert(records@[2].deep_view()[1] =~= records@[2]@[1]@);
            }
        }
    }
    proof {
        assert(origin@ == csv_origin(recs));
    }
    let ghost oldv = store@;
    let mut k: usize = 0;
    while k < records.len()
        invariant
            k <= records.len(),
            recs == records.deep_view(),
            recs.len() == records@.len(),
            origin@ == csv_origin(recs),
            store@.wf(),
            store@ == spec_process_upto(oldv, recs, origin@, zip_path@, offset as int, k as int),
        decreases records.len() - k,
    {
        if k >= 6 {
            process_csv_record(store, &records[k], &origin, zip_path, offset);
            proof {
                assert(records@[k as int].deep_view() == recs[k as int]);
            }
        }
        k = k + 1;
    }
    records.len()
}

/// Scan one archive's bytes: find every transcript entry by its extension and
/// reconcile each; unreadable archives and entries change nothing.
pub fn scan_archive(store: &mut FeedStore, zip_path: &Vec<u8>, zip_bytes: &Vec<u8>, offset: i32)
    requires
        old(store)@.wf(),
    ensures
        final(store)@.wf(),
        final(store)@ == spec_scan_archive(old(store)@, zip_path@, zip_bytes@, offset as int),
{
    let names = match zip_entry_names(zip_bytes) {
        Some(n) => n,
        None => {
            return ;
        },
    };
    let ghost namesv = names.deep_view();
    let csv_tag: Vec<u8> = vec![99u8, 115u8, 118u8];
    proof {
        assert(csv_tag@ =~= csv_ext());
    }
    let ghost oldv = store@;
    let mut k: usize = 0;
    while k < names.len()
        invariant
            k <= names.len(),
            namesv == names.deep_view(),
            namesv.len() == names@.len(),
            csv_tag@ == csv_ext(),
            zip_names_of(zip_bytes@) == Some(namesv),
            store@.wf(),
            store@ == spec_scan_entries(
                oldv,
                zip_bytes@,
                namesv,
                zip_path@,
                offset as int,
                k as int,
            ),
        decreases names.len() - k,
    {
        let name = &names[k];
        let name_bytes = name.as_str().as_bytes_vec();
        proof {
            assert(names@[k as int].deep_view() == namesv[k as int]);
            assert(name_bytes@ == vstd::utf8::encode_utf8(namesv[k as int]));
        }
        let ext = path_extension_exec(&name_bytes);
        if crate::bytes::bytes_eq(&ext, &csv_tag) {
            match zip_entry_data(zip_bytes, &name_bytes) {
                Some(data) => {
                    process_csv(store, &data, zip_path, offset);
                },
                None => {},
            }
        }
        k = k + 1;
    }
}

} // verus!
