//! The query facade: filtered, ordered, paginated reads over the feed store.
//!
//! Filters are conjunctive and only present, non-empty ones apply: user name
//! (exact match after normalization to a leading `@`, ASCII case aside),
//! keyword (literal, ASCII-case-insensitive substring of the contents — no
//! byte acts as a wildcard), and has-media (at least one non-deleted media
//! row). Rows come newest first, in insertion order among equal timestamps,
//! and are paginated by `offset = page * count, limit = count`. Each row is
//! classified as a plain feed or a repost event; a repost whose referenced
//! feed is stored embeds that original, and media lists are attached when
//! non-empty.
use vstd::prelude::*;

use crate::bytes::{bytes_eq_ci, clone_bytes, contains_ci, contains_ci_exec, lower_bytes};
use crate::query::{fix_user_name, fixed_user_name, FeedsQuery, FeedsQueryV};
use crate::store::{media_of_feed, FeedRowV, FeedStore, MediaRow, StoreV};
use vstd::string::StrSliceExecFns;

verus! {

/// One listed row: a plain feed, or a repost event with its original
/// embedded when the store holds it.
pub enum FeedType {
    /// A plain feed: one post and its media, when it has any.
    Feed {
        feed_id: i64,
        feed_at: i64,
        user_name: Vec<u8>,
        twitter_url: Vec<u8>,
        contents: Vec<u8>,
        media: Option<Vec<MediaRow>>,
    },
    /// A repost event referencing an original feed that may or may not be
    /// stored.
    Retweet {
        retweet_at: i64,
        user_name: Vec<u8>,
        retweet_id: i64,
        retweet_user_name: Vec<u8>,
        retweet: Option<Box<FeedType>>,
    },
}

/// A feeds listing: the applied (normalized) query and the rows.
pub struct FeedsResponse {
    pub query: FeedsQuery,
    pub feeds: Vec<FeedType>,
}

/// The user-name filter in byte form: the normalized name's UTF-8 bytes, or
/// nothing when absent or empty.
pub open spec fn user_filter_bytes(q: FeedsQueryV) -> Option<Seq<u8>> {
    match fixed_user_name(q.user_name) {
        Some(u) => Some(vstd::utf8::encode_utf8(u)),
        None => None,
    }
}

/// The keyword filter in byte form, or nothing when absent or empty.
pub open spec fn keyword_filter_bytes(q: FeedsQueryV) -> Option<Seq<u8>> {
    match q.keyword {
        Some(k) => if k.len() > 0 {
            Some(vstd::utf8::encode_utf8(k))
        } else {
            None
        },
        None => None,
    }
}

/// The conjunction of the active filters on one feed row: user name equal
/// ASCII case aside, keyword a literal case-insensitive substring of the
/// contents, and at least one non-deleted media row when asked for.
pub open spec fn feed_matches(
    s: StoreV,
    f: FeedRowV,
    user: Option<Seq<u8>>,
    keyword: Option<Seq<u8>>,
    has_media: bool,
) -> bool {
    &&& match user {
        Some(u) => lower_bytes(f.user_name) == lower_bytes(u),
        None => true,
    }
    &&& match keyword {
        Some(k) => contains_ci(f.contents, k),
        None => true,
    }
    &&& (has_media ==> s.has_live_media(f.feed_id))
}

/// Output order on feed row indices: newer first, insertion order among
/// equal timestamps. `a` comes no later than `b`.
pub open spec fn key_leq(s: StoreV, a: int, b: int) -> bool {
    s.feeds[a].feed_at > s.feeds[b].feed_at || (s.feeds[a].feed_at == s.feeds[b].feed_at && a <= b)
}

/// `a` comes strictly before `b`.
pub open spec fn key_lt(s: StoreV, a: int, b: int) -> bool {
    s.feeds[a].feed_at > s.feeds[b].feed_at || (s.feeds[a].feed_at == s.feeds[b].feed_at && a < b)
}

/// The index sequence is strictly ordered by the output order.
pub open spec fn sorted_strict(s: StoreV, v: Seq<int>) -> bool {
    forall|i: int, j: int| 0 <= i < j < v.len() ==> key_lt(s, #[trigger] v[i], #[trigger] v[j])
}

/// Insert an index into an ordered index sequence, after every entry that
/// comes no later than it.
pub open spec fn insert_one(s: StoreV, sorted: Seq<int>, x: int) -> Seq<int>
    decreases sorted.len(),
{
    if sorted.len() == 0 {
        seq![x]
    } else if key_leq(s, sorted.last(), x) {
        sorted.push(x)
    } else {
        insert_one(s, sorted.drop_last(), x).push(sorted.last())
    }
}

/// The ordered sequence of the matching feed row indices among the first
/// `upto` rows.
pub open spec fn sorted_upto(
    s: StoreV,
    user: Option<Seq<u8>>,
    keyword: Option<Seq<u8>>,
    has_media: bool,
    upto: int,
) -> Seq<int>
    decreases upto,
{
    if upto <= 0 || upto > s.feeds.len() {
        Seq::empty()
    } else {
        let prev = sorted_upto(s, user, keyword, has_media, upto - 1);
        if feed_matches(s, s.feeds[upto - 1], user, keyword, has_media) {
            insert_one(s, prev, upto - 1)
        } else {
            prev
        }
    }
}

/// The ordered sequence of all matching feed row indices.
pub open spec fn sorted_matched(
    s: StoreV,
    user: Option<Seq<u8>>,
    keyword: Option<Seq<u8>>,
    has_media: bool,
) -> Seq<int> {
    sorted_upto(s, user, keyword, has_media, s.feeds.len() as int)
}

/// Inserting keeps the strict order and adds exactly the new index.
pub proof fn lemma_insert_one(s: StoreV, v: Seq<int>, x: int)
    requires
        sorted_strict(s, v),
        !v.contains(x),
    ensures
        sorted_strict(s, insert_one(s, v, x)),
        insert_one(s, v, x).len() == v.len() + 1,
        forall|y: int| insert_one(s, v, x).contains(y) <==> v.contains(y) || y == x,
    decreases v.len(),
{
    let r = insert_one(s, v, x);
    if v.len() == 0 {
        assert(r =~= seq![x]);
        assert forall|y: int| r.contains(y) <==> v.contains(y) || y == x by {
            if y == x {
                assert(r[0] == x);
            }
        }
    } else if key_leq(s, v.last(), x) {
        assert(r =~= v.push(x));
        assert(v.contains(v.last())) by {
            assert(v[v.len() - 1] == v.last());
        }
        assert(x != v.last());
        assert forall|i: int, j: int| 0 <= i < j < r.len() implies key_lt(s, r[i], r[j]) by {
            if j == r.len() - 1 {
                if i < v.len() - 1 {
                    assert(key_lt(s, v[i], v[v.len() - 1]));
                }
            }
        }
        assert forall|y: int| r.contains(y) <==> v.contains(y) || y == x by {
            if v.contains(y) {
                let i = choose|i: int| 0 <= i < v.len() && v[i] == y;
                assert(r[i] == y);
            }
            if y == x {
                assert(r[v.len() as int] == x);
            }
            if r.contains(y) {
                let i = choose|i: int| 0 <= i < r.len() && r[i] == y;
                if i < v.len() {
                    assert(v[i] == y);
                }
            }
        }
    } else {
        let pre = v.drop_last();
        let last = v.last();
        assert(v.contains(last)) by {
            assert(v[v.len() - 1] == last);
        }
        assert(sorted_strict(s, pre)) by {
            assert forall|i: int, j: int| 0 <= i < j < pre.len() implies key_lt(
                s,
                pre[i],
                pre[j],
            ) by {
                assert(v[i] == pre[i] && v[j] == pre[j]);
            }
        }
        assert(!pre.contains(x)) by {
            if pre.contains(x) {
                let i = choose|i: int| 0 <= i < pre.len() && pre[i] == x;
                assert(v[i] == x);
            }
        }
        lemma_insert_one(s, pre, x);
        let r2 = insert_one(s, pre, x);
        assert(r =~= r2.push(last));
        // The displaced last entry comes strictly after everything inserted.
        assert(key_lt(s, x, last));
        assert forall|i: int, j: int| 0 <= i < j < r.len() implies key_lt(s, r[i], r[j]) by {
            if j == r.len() - 1 {
                assert(r2.contains(r2[i]));
                let y = r2[i];
                if y == x {
                } else {
                    assert(pre.contains(y));
                    let t = choose|t: int| 0 <= t < pre.len() && pre[t] == y;
                    assert(v[t] == y && v[v.len() - 1] == last);
                    assert(key_lt(s, y, last));
                }
            } else {
                assert(key_lt(s, r2[i], r2[j]));
            }
        }
        assert forall|y: int| r.contains(y) <==> v.contains(y) || y == x by {
            if r.contains(y) {
                let i = choose|i: int| 0 <= i < r.len() && r[i] == y;
                if i < r2.len() {
                    assert(r2.contains(y));
                    if y != x {
                        assert(pre.contains(y));
                        let t = choose|t: int| 0 <= t < pre.len() && pre[t] == y;
                        assert(v[t] == y);
                    }
                }
            }
            if v.contains(y) {
                let i = choose|i: int| 0 <= i < v.len() && v[i] == y;
                if i == v.len() - 1 {
                    assert(r[r.len() - 1] == y);
                } else {
                    assert(pre[i] == y);
                    assert(pre.contains(y));
                    assert(r2.contains(y));
                    let t = choose|t: int| 0 <= t < r2.len() && r2[t] == y;
                    assert(r[t] == y);
                }
            }
            if y == x {
                assert(r2.contains(x));
                let t = choose|t: int| 0 <= t < r2.len() && r2[t] == x;
                assert(r[t] == x);
            }
        }
    }
}

/// The ordered selection holds exactly the matching indices below `upto`,
/// each once, in strict output order.
pub proof fn lemma_sorted_upto_props(
    s: StoreV,
    user: Option<Seq<u8>>,
    keyword: Option<Seq<u8>>,
    has_media: bool,
    upto: int,
)
    requires
        0 <= upto <= s.feeds.len(),
    ensures
        sorted_strict(s, sorted_upto(s, user, keyword, has_media, upto)),
        forall|y: int|
            sorted_upto(s, user, keyword, has_media, upto).contains(y) <==> (0 <= y < upto
                && feed_matches(s, s.feeds[y], user, keyword, has_media)),
    decreases upto,
{
    let cur = sorted_upto(s, user, keyword, has_media, upto);
    if upto <= 0 {
        assert(cur =~= Seq::<int>::empty());
        assert forall|y: int| !cur.contains(y) by {}
    } else {
        lemma_sorted_upto_props(s, user, keyword, has_media, upto - 1);
        let prev = sorted_upto(s, user, keyword, has_media, upto - 1);
        if feed_matches(s, s.feeds[upto - 1], user, keyword, has_media) {
            assert(!prev.contains(upto - 1));
            lemma_insert_one(s, prev, upto - 1);
            assert(cur == insert_one(s, prev, upto - 1));
            assert forall|y: int|
                cur.contains(y) <==> (0 <= y < upto && feed_matches(
                    s,
                    s.feeds[y],
                    user,
                    keyword,
                    has_media,
                )) by {
                assert(cur.contains(y) <==> prev.contains(y) || y == upto - 1);
            }
        } else {
            assert(cur == prev);
            assert forall|y: int|
                cur.contains(y) <==> (0 <= y < upto && feed_matches(
                    s,
                    s.feeds[y],
                    user,
                    keyword,
                    has_media,
                )) by {}
        }
    }
}

/// Page index applied to a query: the given one, or the default.
pub open spec fn applied_page(q: FeedsQueryV) -> i32 {
    match q.page {
        Some(p) => p,
        None => crate::DEFAULT_PAGE,
    }
}

/// Page size applied to a query: the given one, or the default.
pub open spec fn applied_count(q: FeedsQueryV) -> i32 {
    match q.count {
        Some(c) => c,
        None => crate::DEFAULT_PAGE_COUNT,
    }
}

/// Pagination treats a negative page or count as zero.
pub open spec fn clamp_non_negative(v: i32) -> int {
    if v < 0 {
        0
    } else {
        v as int
    }
}

/// The window `offset = page * count, limit = count` of an index sequence.
pub open spec fn page_window(sel: Seq<int>, page: int, count: int) -> Seq<int> {
    let off = page * count;
    let start = if off > sel.len() {
        sel.len() as int
    } else {
        off
    };
    let end = if off + count > sel.len() {
        sel.len() as int
    } else {
        off + count
    };
    sel.subrange(start, end)
}

/// The node is the plain-feed rendering of row `f`: its fields, with media
/// attached exactly when the feed has any.
pub open spec fn is_feed_node(ft: FeedType, s: StoreV, f: FeedRowV) -> bool {
    match ft {
        FeedType::Feed { feed_id, feed_at, user_name, twitter_url, contents, media } => {
            &&& feed_id == f.feed_id
            &&& feed_at == f.feed_at
            &&& user_name@ == f.user_name
            &&& twitter_url@ == f.twitter_url
            &&& contents@ == f.contents
            &&& match media {
                Some(v) => v@.map_values(|m: MediaRow| m@) == media_of_feed(s.media, f.feed_id)
                    && media_of_feed(s.media, f.feed_id).len() > 0,
                None => media_of_feed(s.media, f.feed_id).len() == 0,
            }
        },
        _ => false,
    }
}

/// The node renders row `f`: a plain feed node when `retweet_id` is zero,
/// otherwise a repost node that embeds the referenced original exactly when
/// the store holds it.
pub open spec fn represents(ft: FeedType, s: StoreV, f: FeedRowV) -> bool {
    if f.retweet_id == 0 {
        is_feed_node(ft, s, f)
    } else {
        match ft {
            FeedType::Retweet { retweet_at, user_name, retweet_id, retweet_user_name, retweet } => {
                &&& retweet_at == f.feed_at
                &&& user_name@ == f.user_name
                &&& retweet_id == f.retweet_id
                &&& retweet_user_name@ == f.retweet_user_name
                &&& match retweet {
                    Some(inner) => s.has_feed(f.retweet_id) && is_feed_node(
                        *inner,
                        s,
                        s.feeds[s.feed_idx(f.retweet_id)],
                    ),
                    None => !s.has_feed(f.retweet_id),
                }
            },
            _ => false,
        }
    }
}

/// Wipe every archive, feed and media row and report success, unless some
/// worker loop is still running: a busy store is left untouched and the
/// caller surfaces the rejection.
pub fn try_clean(store: &mut FeedStore, governor: &crate::governor::Governor) -> (cleaned: bool)
    requires
        old(store)@.wf(),
        governor.wf(),
    ensures
        final(store)@.wf(),
        cleaned == (governor.spec_count() == 0),
        cleaned ==> final(store)@.archives.len() == 0,
        cleaned ==> final(store)@.feeds.len() == 0,
        cleaned ==> final(store)@.media.len() == 0,
        !cleaned ==> final(store)@ == old(store)@,
{
    if governor.is_busy() {
        false
    } else {
        store.clean();
        true
    }
}

/// Index sequence of a vector of indices.
pub open spec fn idxs(v: Seq<usize>) -> Seq<int> {
    v.map_values(|u: usize| u as int)
}

/// Whether row `a` comes no later than row `b` in the output order.
fn key_leq_exec(store: &FeedStore, a: usize, b: usize) -> (r: bool)
    requires
        a < store@.feeds.len(),
        b < store@.feeds.len(),
    ensures
        r == key_leq(store@, a as int, b as int),
{
    let fa = store.feeds[a].feed_at;
    let fb = store.feeds[b].feed_at;
    fa > fb || (fa == fb && a <= b)
}

/// Position at which a row index joins the ordered selection.
fn find_insert_pos(store: &FeedStore, v: &Vec<usize>, x: usize) -> (j: usize)
    requires
        x < store@.feeds.len(),
        forall|t: int| 0 <= t < v@.len() ==> (#[trigger] v@[t]) < store@.feeds.len(),
    ensures
        j <= v@.len(),
        insert_one(store@, idxs(v@), x as int) == idxs(v@).take(j as int).push(x as int) + idxs(
            v@,
        ).skip(j as int),
{
    let ghost s = store@;
    let ghost full = idxs(v@);
    let mut j: usize = v.len();
    proof {
        assert(full.take(j as int) =~= full);
        assert(full.skip(j as int) =~= Seq::<int>::empty());
        assert(insert_one(s, full, x as int) =~= insert_one(s, full.take(j as int), x as int)
            + full.skip(j as int));
    }
    loop
        invariant
            j <= v@.len(),
            full == idxs(v@),
            full.len() == v@.len(),
            x < s.feeds.len(),
            s == store@,
            forall|t: int| 0 <= t < v@.len() ==> (#[trigger] v@[t]) < s.feeds.len(),
            insert_one(s, full, x as int) == insert_one(s, full.take(j as int), x as int)
                + full.skip(j as int),
        decreases j,
    {
        if j == 0 {
            proof {
                assert(full.take(0) =~= Seq::<int>::empty());
                assert(insert_one(s, full.take(0), x as int) =~= full.take(0).push(x as int));
            }
            return 0;
        }
        let prev = v[j - 1];
        if key_leq_exec(store, prev, x) {
            proof {
                let tj = full.take(j as int);
                assert(tj.last() == full[j - 1]);
                assert(key_leq(s, tj.last(), x as int));
                assert(insert_one(s, tj, x as int) == tj.push(x as int));
            }
            return j;
        }
        proof {
            let tj = full.take(j as int);
            assert(tj.last() == full[j - 1]);
            assert(tj.drop_last() =~= full.take(j - 1));
            assert(insert_one(s, tj, x as int) == insert_one(s, full.take(j - 1), x as int).push(
                full[j - 1],
            ));
            assert(insert_one(s, full.take(j - 1), x as int).push(full[j - 1]) + full.skip(j as int)
                =~= insert_one(s, full.take(j - 1), x as int) + full.skip(j - 1));
        }
        j = j - 1;
    }
}

/// Insert a row index into the ordered selection.
fn insert_sorted_exec(store: &FeedStore, v: &mut Vec<usize>, x: usize)
    requires
        x < store@.feeds.len(),
        forall|t: int| 0 <= t < old(v)@.len() ==> (#[trigger] old(v)@[t]) < store@.feeds.len(),
    ensures
        idxs(final(v)@) == insert_one(store@, idxs(old(v)@), x as int),
        forall|t: int| 0 <= t < final(v)@.len() ==> (#[trigger] final(v)@[t]) < store@.feeds.len(),
{
    let j = find_insert_pos(store, v, x);
    v.insert(j, x);
    proof {
        assert(idxs(v@) =~= idxs(old(v)@).take(j as int).push(x as int) + idxs(old(v)@).skip(
            j as int,
        ));
    }
}

/// Whether the row at `i` passes the active filters.
fn feed_matches_exec(
    store: &FeedStore,
    i: usize,
    user: &Option<Vec<u8>>,
    keyword: &Option<Vec<u8>>,
    has_media: bool,
) -> (r: bool)
    requires
        i < store@.feeds.len(),
    ensures
        r == feed_matches(
            store@,
            store@.feeds[i as int],
            match user {
                Some(u) => Some(u@),
                None => None,
            },
            match keyword {
                Some(k) => Some(k@),
                None => None,
            },
            has_media,
        ),
{
    let row = &store.feeds[i];
    match user {
        Some(u) => {
            if !bytes_eq_ci(&row.user_name, u) {
                return false;
            }
        },
        None => {},
    }
    match keyword {
        Some(k) => {
            if !contains_ci_exec(&row.contents, k) {
                return false;
            }
        },
        None => {},
    }
    if has_media {
        if !store.has_live_media_exec(row.feed_id) {
            return false;
        }
    }
    true
}

/// The plain-feed rendering of the row at `i`, media attached when the feed
/// has any.
fn build_feed_node(store: &FeedStore, i: usize) -> (ft: FeedType)
    requires
        i < store@.feeds.len(),
    ensures
        is_feed_node(ft, store@, store@.feeds[i as int]),
{
    let row = &store.feeds[i];
    let media_rows = store.media_for_feed(row.feed_id);
    let media = if media_rows.len() == 0 {
        proof {
            assert(media_rows@.map_values(|m: MediaRow| m@).len() == 0);
        }
        None
    } else {
        Some(media_rows)
    };
    FeedType::Feed {
        feed_id: row.feed_id,
        feed_at: row.feed_at,
        user_name: clone_bytes(&row.user_name),
        twitter_url: clone_bytes(&row.twitter_url),
        contents: clone_bytes(&row.contents),
        media,
    }
}

/// List feeds: apply the present, non-empty filters conjunctively, order by
/// time newest first (insertion order among ties), paginate, classify each
/// row, embed stored originals of reposts, and attach non-empty media lists.
/// Returns the applied (normalized) query alongside the rows.
pub fn list_feeds(store: &FeedStore, query: FeedsQuery) -> (r: FeedsResponse)
    requires
        store@.wf(),
    ensures
        ({
            let s = store@;
            let ub = user_filter_bytes(query@);
            let kb = keyword_filter_bytes(query@);
            let hm = query@.has_media_only == Some(true);
            let sel = sorted_matched(s, ub, kb, hm);
            let win = page_window(
                sel,
                clamp_non_negative(applied_page(query@)),
                clamp_non_negative(applied_count(query@)),
            );
            &&& r.feeds@.len() == win.len()
            &&& forall|t: int|
                0 <= t < win.len() ==> {
                    &&& 0 <= #[trigger] win[t] < s.feeds.len()
                    &&& feed_matches(s, s.feeds[win[t]], ub, kb, hm)
                    &&& represents(r.feeds@[t], s, s.feeds[win[t]])
                }
            &&& forall|t1: int, t2: int|
                0 <= t1 < t2 < win.len() ==> s.feeds[#[trigger] win[t1]].feed_at >= s.feeds[
                    #[trigger] win[t2]
                ].feed_at
        }),
        r.query@.user_name == fixed_user_name(query@.user_name),
        r.query@.keyword == query@.keyword,
        r.query@.since == query@.since,
        r.query@.until == query@.until,
        r.query@.has_media_only == query@.has_media_only,
        r.query@.page == Some(applied_page(query@)),
        r.query@.count == Some(applied_count(query@)),
{
    let ghost s = store@;
    let fixed_user = fix_user_name(&query.user_name);
    let user_bytes: Option<Vec<u8>> = match &fixed_user {
        Some(u) => Some(u.as_str().as_bytes_vec()),
        None => None,
    };
    let keyword_bytes: Option<Vec<u8>> = match &query.keyword {
        Some(k) => {
            if k.as_str().unicode_len() > 0 {
                Some(k.as_str().as_bytes_vec())
            } else {
                None
            }
        },
        None => None,
    };
    let has_media = match query.has_media_only {
        Some(b) => b,
        None => false,
    };
    let ghost ub = user_filter_bytes(query@);
    let ghost kb = keyword_filter_bytes(query@);
    proof {
        assert(match user_bytes {
            Some(u) => ub == Some(u@),
            None => ub is None,
        });
        assert(match keyword_bytes {
            Some(k) => kb == Some(k@),
            None => kb is None,
        });
    }
    // Select and order the matching rows.
    let mut sel: Vec<usize> = Vec::new();
    proof {
        assert(idxs(sel@) =~= Seq::<int>::empty());
    }
    let mut i: usize = 0;
    while i < store.feeds.len()
        invariant
            i <= store@.feeds.len(),
            s == store@,
            store@.feeds.len() == store.feeds.len(),
            match user_bytes {
                Some(u) => ub == Some(u@),
                None => ub is None,
            },
            match keyword_bytes {
                Some(k) => kb == Some(k@),
                None => kb is None,
            },
            has_media == (query@.has_media_only == Some(true)),
            idxs(sel@) == sorted_upto(s, ub, kb, has_media, i as int),
            forall|t: int| 0 <= t < sel@.len() ==> (#[trigger] sel@[t]) < s.feeds.len(),
        decreases store.feeds.len() - i,
    {
        if feed_matches_exec(store, i, &user_bytes, &keyword_bytes, has_media) {
            proof {
                lemma_sorted_upto_props(s, ub, kb, has_media, i as int);
                assert(!idxs(sel@).contains(i as int));
            }
            insert_sorted_exec(store, &mut sel, i);
        }
        i = i + 1;
    }
    // Paginate.
    let page = match query.page {
        Some(p) => p,
        None => crate::DEFAULT_PAGE,
    };
    let count = match query.count {
        Some(c) => c,
        None => crate::DEFAULT_PAGE_COUNT,
    };
    let page_n: u64 = if page < 0 {
        0
    } else {
        page as u64
    };
    let count_n: u64 = if count < 0 {
        0
    } else {
        count as u64
    };
    proof {
        assert(page_n * count_n == clamp_non_negative(page) * clamp_non_negative(count))
            by (nonlinear_arith)
            requires
                page_n == clamp_non_negative(page),
                count_n == clamp_non_negative(count),
        ;
        assert(page_n * count_n <= 0x7fff_ffff_u64 * 0x7fff_ffff_u64) by (nonlinear_arith)
            requires
                page_n <= 0x7fff_ffff_u64,
                count_n <= 0x7fff_ffff_u64,
        ;
    }
    let off: u64 = page_n * count_n;
    let total: usize = sel.len();
    let start: usize = if off >= total as u64 {
        total
    } else {
        off as usize
    };
    let end: usize = if off + count_n >= total as u64 {
        total
    } else {
        (off + count_n) as usize
    };
    let ghost selv = idxs(sel@);
    let ghost win = page_window(
        selv,
        clamp_non_negative(applied_page(query@)),
        clamp_non_negative(applied_count(query@)),
    );
    proof {
        assert(win =~= selv.subrange(start as int, end as int));
    }
    // Render the page.
    let mut out: Vec<FeedType> = Vec::new();
    let mut j: usize = start;
    while j < end
        invariant
            start <= j <= end,
            end <= sel@.len(),
            s == store@,
            s.wf(),
            store@.feeds.len() == store.feeds.len(),
            selv == idxs(sel@),
            win == selv.subrange(start as int, end as int),
            forall|t: int| 0 <= t < sel@.len() ==> (#[trigger] sel@[t]) < s.feeds.len(),
            out@.len() == j - start,
            forall|t: int|
                0 <= t < out@.len() ==> represents(#[trigger] out@[t], s, s.feeds[win[t]]),
        decreases end - j,
    {
        let idx = sel[j];
        let row = &store.feeds[idx];
        let ft: FeedType = if row.retweet_id == 0 {
            build_feed_node(store, idx)
        } else {
            match store.find_feed_index(row.retweet_id) {
                Some(oi) => FeedType::Retweet {
                    retweet_at: row.feed_at,
                    user_name: clone_bytes(&row.user_name),
                    retweet_id: row.retweet_id,
                    retweet_user_name: clone_bytes(&row.retweet_user_name),
                    retweet: Some(Box::new(build_feed_node(store, oi))),
                },
                None => FeedType::Retweet {
                    retweet_at: row.feed_at,
                    user_name: clone_bytes(&row.user_name),
                    retweet_id: row.retweet_id,
                    retweet_user_name: clone_bytes(&row.retweet_user_name),
                    retweet: None,
                },
            }
        };
        proof {
            assert(win[j - start] == selv[j as int]);
            assert(represents(ft, s, s.feeds[win[j - start]]));
        }
        out.push(ft);
        j = j + 1;
    }
    // The window's rows all match the filters and come newest first.
    proof {
        lemma_sorted_upto_props(s, ub, kb, has_media, s.feeds.len() as int);
        assert forall|t: int| 0 <= t < win.len() implies {
            &&& 0 <= #[trigger] win[t] < s.feeds.len()
            &&& feed_matches(s, s.feeds[win[t]], ub, kb, has_media)
        } by {
            assert(selv[start + t] == win[t]);
            assert(selv.contains(win[t]));
        }
        assert forall|t1: int, t2: int|
            0 <= t1 < t2 < win.len() implies s.feeds[#[trigger] win[t1]].feed_at >= s.feeds[
            #[trigger] win[t2]
        ].feed_at by {
            assert(selv[start + t1] == win[t1] && selv[start + t2] == win[t2]);
            assert(key_lt(s, selv[start + t1], selv[start + t2]));
        }
    }
    let applied = FeedsQuery {
        user_name: fixed_user,
        keyword: query.keyword,
        since: query.since,
        until: query.until,
        has_media_only: query.has_media_only,
        page: Some(page),
        count: Some(count),
    };
    FeedsResponse { query: applied, feeds: out }
}

} // verus!
