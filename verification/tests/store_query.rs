use tmd_viewer::facade::{list_feeds, FeedType};
use tmd_viewer::governor::Governor;
use tmd_viewer::query::{escape_like_char, escape_like_str, fix_user_name, get_feeds_query, FeedsQuery};
use tmd_viewer::store::{FeedRow, FeedStore};

fn bv(s: &str) -> Vec<u8> {
    s.as_bytes().to_vec()
}

fn feed(feed_id: i64, user: &str, feed_at: i64, contents: &str) -> FeedRow {
    FeedRow {
        feed_id,
        user_name: bv(user),
        retweet_id: 0,
        retweet_user_name: Vec::new(),
        feed_at,
        twitter_url: bv(&format!("https://twitter.com/u/status/{}", feed_id)),
        contents: bv(contents),
    }
}

fn empty_query() -> FeedsQuery {
    FeedsQuery {
        user_name: None,
        keyword: None,
        since: None,
        until: None,
        has_media_only: None,
        page: None,
        count: None,
    }
}

fn listed_ids(store: &FeedStore, q: FeedsQuery) -> Vec<i64> {
    let feeds = list_feeds(store, q).feeds;
    feeds
        .iter()
        .map(|f| match f {
            FeedType::Feed { feed_id, .. } => *feed_id,
            FeedType::Retweet { retweet_id, .. } => -*retweet_id,
        })
        .collect()
}

#[test]
fn insert_feed_first_wins() {
    let mut store = FeedStore::new();
    store.insert_feed(feed(42, "@alice", 100, "first"));
    store.insert_feed(feed(42, "@bob", 200, "second"));
    assert_eq!(store.feeds.len(), 1);
    assert_eq!(store.feeds[0].contents, bv("first"));
    assert_eq!(store.feeds[0].user_name, bv("@alice"));
}

#[test]
fn media_numbering_one_to_n_in_order() {
    let mut store = FeedStore::new();
    store.insert_feed(feed(7, "@a", 1, "x"));
    for k in 0..5 {
        store.insert_media(7, bv("Image"), bv(&format!("http://img/{}", k)), bv("a.zip"), bv(
            &format!("img/{}.jpg", k),
        ));
    }
    // Another feed's media numbering is independent.
    store.insert_media(8, bv("Image"), bv("http://img/z"), bv("a.zip"), bv("img/z.jpg"));
    let rows = store.media_for_feed(7);
    assert_eq!(rows.len(), 5);
    for (k, m) in rows.iter().enumerate() {
        assert_eq!(m.media_id, k as i64 + 1);
        assert_eq!(m.media_url, bv(&format!("http://img/{}", k)));
    }
    let rows8 = store.media_for_feed(8);
    assert_eq!(rows8.len(), 1);
    assert_eq!(rows8[0].media_id, 1);
}

#[test]
fn media_insert_is_idempotent_on_same_content() {
    let mut store = FeedStore::new();
    store.insert_media(7, bv("Image"), bv("http://img/x"), bv("a.zip"), bv("img/x.jpg"));
    store.insert_media(7, bv("Image"), bv("http://img/x"), bv("a.zip"), bv("img/x.jpg"));
    assert_eq!(store.media.len(), 1);
    // Different content for the same feed gets the next number.
    store.insert_media(7, bv("Image"), bv("http://img/y"), bv("a.zip"), bv("img/y.jpg"));
    assert_eq!(store.media.len(), 2);
    assert_eq!(store.media[1].media_id, 2);
}

#[test]
fn register_archive_idempotent() {
    let mut store = FeedStore::new();
    store.register_archives(vec![bv("a.zip"), bv("b.zip"), bv("a.zip")]);
    assert_eq!(store.archives.len(), 2);
    store.register_archive(bv("a.zip"));
    assert_eq!(store.archives.len(), 2);
    assert_eq!(store.next_unscanned().unwrap(), bv("a.zip"));
    store.set_scan_started(&bv("a.zip"), 1000);
    assert_eq!(store.next_unscanned().unwrap(), bv("b.zip"));
    store.set_scan_started(&bv("b.zip"), 1001);
    assert!(store.next_unscanned().is_none());
}

#[test]
fn clean_wipes_everything() {
    let mut store = FeedStore::new();
    store.register_archive(bv("a.zip"));
    store.insert_feed(feed(1, "@a", 1, "x"));
    store.insert_media(1, bv("Image"), bv("u"), bv("a.zip"), bv("p"));
    store.clean();
    assert_eq!(store.archives.len(), 0);
    assert_eq!(store.feeds.len(), 0);
    assert_eq!(store.media.len(), 0);
}

#[test]
fn fix_user_name_normalizes() {
    assert_eq!(fix_user_name(&Some("alice".to_string())), Some("@alice".to_string()));
    assert_eq!(fix_user_name(&Some("@alice".to_string())), Some("@alice".to_string()));
    assert_eq!(fix_user_name(&Some("@ALICE".to_string())), Some("@ALICE".to_string()));
    assert_eq!(fix_user_name(&Some("".to_string())), None);
    assert_eq!(fix_user_name(&None), None);
}

#[test]
fn escape_like_escapes_percent_only() {
    assert_eq!(escape_like_str("100%"), "100\\%".to_string());
    assert_eq!(escape_like_str("%%"), "\\%\\%".to_string());
    assert_eq!(escape_like_str("plain"), "plain".to_string());
    assert_eq!(escape_like_str(""), "".to_string());
    assert_eq!(escape_like_char('%'), Some("\\%"));
    assert_eq!(escape_like_char('a'), None);
    assert_eq!(escape_like_char('_'), None);
}

#[test]
fn feeds_query_sql_exact() {
    let base = "SELECT f.feed_id, f.feed_at, f.user_name, f.retweet_id, f.retweet_user_name, \
        f.twitter_url, f.contents, r.feed_id, r.feed_at, r.user_name, r.retweet_id, \
        r.retweet_user_name, r.twitter_url, r.contents FROM feeds f LEFT JOIN feeds r ON \
        f.retweet_id = r.feed_id AND f.retweet_id != 0 ";
    let tail = " ORDER BY f.feed_at DESC LIMIT :limit OFFSET :offset";
    let mut q = empty_query();
    assert_eq!(get_feeds_query(&q), format!("{}{}{}", base, "", tail));
    q.user_name = Some("@alice".to_string());
    assert_eq!(
        get_feeds_query(&q),
        format!("{}WHERE f.user_name LIKE :user_name{}", base, tail)
    );
    q.keyword = Some("x".to_string());
    q.has_media_only = Some(true);
    assert_eq!(
        get_feeds_query(&q),
        format!(
            "{}WHERE f.user_name LIKE :user_name AND f.contents LIKE :keyword AND EXISTS \
            (SELECT m.feed_id FROM media m WHERE f.feed_id = m.feed_id LIMIT 1){}",
            base, tail
        )
    );
    // An empty or unset filter contributes no clause.
    q.user_name = Some("".to_string());
    q.has_media_only = Some(false);
    assert_eq!(get_feeds_query(&q), format!("{}WHERE f.contents LIKE :keyword{}", base, tail));
}

#[test]
fn list_feeds_orders_newest_first_and_paginates() {
    let mut store = FeedStore::new();
    store.insert_feed(feed(1, "@a", 10, "one"));
    store.insert_feed(feed(2, "@a", 30, "two"));
    store.insert_feed(feed(3, "@a", 20, "three"));
    assert_eq!(listed_ids(&store, empty_query()), vec![2, 3, 1]);

    let mut q = empty_query();
    q.count = Some(2);
    assert_eq!(listed_ids(&store, q), vec![2, 3]);

    let mut q = empty_query();
    q.count = Some(2);
    q.page = Some(1);
    assert_eq!(listed_ids(&store, q), vec![1]);

    let mut q = empty_query();
    q.count = Some(2);
    q.page = Some(5);
    assert_eq!(listed_ids(&store, q), Vec::<i64>::new());
}

#[test]
fn list_feeds_ties_keep_insertion_order() {
    let mut store = FeedStore::new();
    store.insert_feed(feed(1, "@a", 10, "x"));
    store.insert_feed(feed(2, "@a", 10, "y"));
    store.insert_feed(feed(3, "@a", 10, "z"));
    assert_eq!(listed_ids(&store, empty_query()), vec![1, 2, 3]);
}

#[test]
fn has_media_only_keeps_feeds_with_live_media() {
    let mut store = FeedStore::new();
    store.insert_feed(feed(1, "@a", 30, "with media"));
    store.insert_feed(feed(2, "@a", 20, "no media"));
    store.insert_feed(feed(3, "@a", 10, "deleted media"));
    store.insert_media(1, bv("Image"), bv("u1"), bv("a.zip"), bv("p1"));
    store.insert_media(3, bv("Image"), bv("u3"), bv("a.zip"), bv("p3"));
    store.soft_delete_media(3, 1, 999);
    let mut q = empty_query();
    q.has_media_only = Some(true);
    assert_eq!(listed_ids(&store, q), vec![1]);
    // Without the filter all three come back, and the soft-deleted media row
    // is still attached as metadata.
    let feeds = list_feeds(&store, empty_query()).feeds;
    assert_eq!(feeds.len(), 3);
    match &feeds[2] {
        FeedType::Feed { feed_id, media, .. } => {
            assert_eq!(*feed_id, 3);
            let media = media.as_ref().unwrap();
            assert_eq!(media.len(), 1);
            assert_eq!(media[0].deleted_at, Some(999));
        },
        _ => panic!("expected a plain feed"),
    }
}

#[test]
fn user_name_filter_normalizes_and_ignores_ascii_case() {
    let mut store = FeedStore::new();
    store.insert_feed(feed(1, "@alice", 10, "by alice"));
    store.insert_feed(feed(2, "@bob", 20, "by bob"));
    for u in ["alice", "@alice", "@ALICE"] {
        let mut q = empty_query();
        q.user_name = Some(u.to_string());
        assert_eq!(listed_ids(&store, q), vec![1], "query {:?}", u);
    }
    // The applied query preserves case and enforces the leading @.
    let mut q = empty_query();
    q.user_name = Some("ALICE".to_string());
    let applied = list_feeds(&store, q).query;
    assert_eq!(applied.user_name, Some("@ALICE".to_string()));
    assert_eq!(applied.page, Some(0));
    assert_eq!(applied.count, Some(100));
}

#[test]
fn keyword_percent_matches_only_literally() {
    let mut store = FeedStore::new();
    store.insert_feed(feed(1, "@a", 30, "sale 100% off"));
    store.insert_feed(feed(2, "@a", 20, "sale 100x off"));
    store.insert_feed(feed(3, "@a", 10, "no discount"));
    let mut q = empty_query();
    q.keyword = Some("100%".to_string());
    // A wildcard reading of % would match feed 2 as well.
    assert_eq!(listed_ids(&store, q), vec![1]);
    let mut q = empty_query();
    q.keyword = Some("SALE".to_string());
    assert_eq!(listed_ids(&store, q), vec![1, 2]);
}

#[test]
fn retweet_rows_embed_stored_originals() {
    let mut store = FeedStore::new();
    store.insert_feed(feed(42, "@bob", 10, "original"));
    store.insert_media(42, bv("Image"), bv("u"), bv("a.zip"), bv("p"));
    store.insert_feed(FeedRow {
        feed_id: 0,
        user_name: bv("@origin"),
        retweet_id: 42,
        retweet_user_name: bv("@bob"),
        feed_at: 50,
        twitter_url: bv("https://twitter.com/bob/status/42"),
        contents: Vec::new(),
    });
    store.insert_feed(FeedRow {
        feed_id: 1,
        user_name: bv("@x"),
        retweet_id: 7777,
        retweet_user_name: bv("@y"),
        feed_at: 40,
        twitter_url: bv("https://twitter.com/y/status/7777"),
        contents: Vec::new(),
    });
    let feeds = list_feeds(&store, empty_query()).feeds;
    assert_eq!(feeds.len(), 3);
    match &feeds[0] {
        FeedType::Retweet { retweet_at, user_name, retweet_id, retweet_user_name, retweet } => {
            assert_eq!(*retweet_at, 50);
            assert_eq!(user_name, &bv("@origin"));
            assert_eq!(*retweet_id, 42);
            assert_eq!(retweet_user_name, &bv("@bob"));
            match retweet.as_deref() {
                Some(FeedType::Feed { feed_id, contents, media, .. }) => {
                    assert_eq!(*feed_id, 42);
                    assert_eq!(contents, &bv("original"));
                    assert_eq!(media.as_ref().unwrap().len(), 1);
                },
                _ => panic!("expected the embedded original"),
            }
        },
        _ => panic!("expected a repost row first"),
    }
    // A repost whose referenced feed is not stored embeds nothing.
    match &feeds[1] {
        FeedType::Retweet { retweet_id, retweet, .. } => {
            assert_eq!(*retweet_id, 7777);
            assert!(retweet.is_none());
        },
        _ => panic!("expected a repost row"),
    }
}

#[test]
fn governor_accepts_up_to_limit() {
    let mut g = Governor::new(2);
    assert!(g.try_start());
    assert!(g.try_start());
    assert!(!g.try_start());
    assert_eq!(g.running(), 2);
    assert!(g.is_busy());
    g.complete();
    assert!(g.try_start());
    assert!(!g.try_start());
    g.complete();
    g.complete();
    assert!(!g.is_busy());
    assert_eq!(g.running(), 0);
    assert_eq!(g.limit(), 2);
}

#[test]
fn governor_zero_limit_rejects_everything() {
    let mut g = Governor::new(0);
    assert!(!g.try_start());
    assert!(!g.is_busy());
}
