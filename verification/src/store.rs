//! The feed store: the relational model of archives, feeds and media that the
//! scanner fills and the query facade reads.
//!
//! Every mutating operation is insert-or-ignore or a field update, stated as a
//! pure function from the old store value to the new one, so that laws about
//! whole passes (idempotent rescans, gap-free media numbering, scan
//! timestamps) can be proved from the operations' contracts alone.
use vstd::prelude::*;

use crate::bytes::clone_bytes;
use vstd::pervasive::VecAdditionalExecFns;

verus! {

/// The media-id column is a signed 64-bit number; numbering stops at its
/// maximum, so a store holding that many media rows accepts no more.
pub const MAX_MEDIA_ROWS: u64 = 0x7fff_ffff_ffff_ffff;

/// One registered archive file and its scan progress markers.
pub struct ArchiveRow {
    /// Archive file name, the key.
    pub file_path: Vec<u8>,
    /// When a scan of this archive last began, if one ever did.
    pub scan_started_at: Option<i64>,
    /// When a scan of this archive last finished, if one ever did.
    pub scan_ended_at: Option<i64>,
}

/// Mathematical value of an [`ArchiveRow`].
pub struct ArchiveRowV {
    pub file_path: Seq<u8>,
    pub scan_started_at: Option<i64>,
    pub scan_ended_at: Option<i64>,
}

impl View for ArchiveRow {
    type V = ArchiveRowV;

    open spec fn view(&self) -> ArchiveRowV {
        ArchiveRowV {
            file_path: self.file_path@,
            scan_started_at: self.scan_started_at,
            scan_ended_at: self.scan_ended_at,
        }
    }
}

/// One content unit: a post, or a repost event when `retweet_id` is not zero.
pub struct FeedRow {
    /// Numeric ID parsed from the post URL, the key; repost events use zero.
    pub feed_id: i64,
    /// Posting account, lower-cased at ingestion.
    pub user_name: Vec<u8>,
    /// Zero for a plain post; for a repost event, the reposted feed's ID.
    pub retweet_id: i64,
    /// For a repost event, the account whose transcript recorded it.
    pub retweet_user_name: Vec<u8>,
    /// Post (or repost) time as a unix timestamp.
    pub feed_at: i64,
    /// The post URL the ID was parsed from.
    pub twitter_url: Vec<u8>,
    /// Post text; empty for repost events.
    pub contents: Vec<u8>,
}

/// Mathematical value of a [`FeedRow`].
pub struct FeedRowV {
    pub feed_id: i64,
    pub user_name: Seq<u8>,
    pub retweet_id: i64,
    pub retweet_user_name: Seq<u8>,
    pub feed_at: i64,
    pub twitter_url: Seq<u8>,
    pub contents: Seq<u8>,
}

impl View for FeedRow {
    type V = FeedRowV;

    open spec fn view(&self) -> FeedRowV {
        FeedRowV {
            feed_id: self.feed_id,
            user_name: self.user_name@,
            retweet_id: self.retweet_id,
            retweet_user_name: self.retweet_user_name@,
            feed_at: self.feed_at,
            twitter_url: self.twitter_url@,
            contents: self.contents@,
        }
    }
}

/// One attached file of a feed, numbered per feed starting at one.
pub struct MediaRow {
    /// Feed the attachment belongs to.
    pub feed_id: i64,
    /// Position of this attachment among the feed's media, starting at one.
    pub media_id: i64,
    /// Kind of attachment; thumbnails are generated for `Image` only.
    pub media_type: Vec<u8>,
    /// Remote URL the attachment was exported from.
    pub media_url: Vec<u8>,
    /// Name of the archive file holding the attachment.
    pub file_path: Vec<u8>,
    /// Path of the attachment inside the archive.
    pub media_path: Vec<u8>,
    /// Cached downscaled preview, once one was generated.
    pub thumbnail: Option<Vec<u8>>,
    /// Soft-delete marker, set when the backing file turned out to be gone.
    pub deleted_at: Option<i64>,
}

/// Mathematical value of a [`MediaRow`].
pub struct MediaRowV {
    pub feed_id: i64,
    pub media_id: i64,
    pub media_type: Seq<u8>,
    pub media_url: Seq<u8>,
    pub file_path: Seq<u8>,
    pub media_path: Seq<u8>,
    pub thumbnail: Option<Seq<u8>>,
    pub deleted_at: Option<i64>,
}

impl View for MediaRow {
    type V = MediaRowV;

    open spec fn view(&self) -> MediaRowV {
        MediaRowV {
            feed_id: self.feed_id,
            media_id: self.media_id,
            media_type: self.media_type@,
            media_url: self.media_url@,
            file_path: self.file_path@,
            media_path: self.media_path@,
            thumbnail: match self.thumbnail {
                Some(v) => Some(v@),
                None => None,
            },
            deleted_at: self.deleted_at,
        }
    }
}

/// The store's state: registered archives, feeds and media.
pub struct FeedStore {
    pub archives: Vec<ArchiveRow>,
    pub feeds: Vec<FeedRow>,
    pub media: Vec<MediaRow>,
}

/// Mathematical value of the whole store.
pub struct StoreV {
    pub archives: Seq<ArchiveRowV>,
    pub feeds: Seq<FeedRowV>,
    pub media: Seq<MediaRowV>,
}

impl View for FeedStore {
    type V = StoreV;

    open spec fn view(&self) -> StoreV {
        StoreV {
            archives: self.archives@.map_values(|r: ArchiveRow| r@),
            feeds: self.feeds@.map_values(|r: FeedRow| r@),
            media: self.media@.map_values(|r: MediaRow| r@),
        }
    }
}

/// No two archive rows share a file name.
pub open spec fn archives_unique(rows: Seq<ArchiveRowV>) -> bool {
    forall|i: int, j: int|
        0 <= i < j < rows.len() ==> (#[trigger] rows[i]).file_path != (#[trigger] rows[j]).file_path
}

/// No two feed rows share a feed ID: the first insert for an ID wins and the
/// content is immutable afterwards.
pub open spec fn feeds_unique(rows: Seq<FeedRowV>) -> bool {
    forall|i: int, j: int|
        0 <= i < j < rows.len() ==> (#[trigger] rows[i]).feed_id != (#[trigger] rows[j]).feed_id
}

/// How many of the first `upto` media rows belong to the given feed.
pub open spec fn media_count_upto(rows: Seq<MediaRowV>, feed_id: i64, upto: int) -> int
    decreases upto,
{
    if upto <= 0 || upto > rows.len() {
        0
    } else {
        media_count_upto(rows, feed_id, upto - 1) + if rows[upto - 1].feed_id == feed_id {
            1int
        } else {
            0int
        }
    }
}

/// How many media rows belong to the given feed.
pub open spec fn media_count(rows: Seq<MediaRowV>, feed_id: i64) -> int {
    media_count_upto(rows, feed_id, rows.len() as int)
}

/// Every media row is numbered one past the count of earlier rows of its
/// feed: per feed, media IDs are exactly 1..n in insertion order.
pub open spec fn media_numbered(rows: Seq<MediaRowV>) -> bool {
    forall|i: int|
        0 <= i < rows.len() ==> (#[trigger] rows[i]).media_id == media_count_upto(
            rows,
            rows[i].feed_id,
            i,
        ) + 1
}

impl StoreV {
    /// The store's invariant: unique archive names, unique feed IDs, and
    /// gap-free per-feed media numbering.
    pub open spec fn wf(self) -> bool {
        &&& archives_unique(self.archives)
        &&& feeds_unique(self.feeds)
        &&& media_numbered(self.media)
    }

    /// Some archive row carries this file name.
    pub open spec fn has_archive(self, path: Seq<u8>) -> bool {
        exists|i: int| 0 <= i < self.archives.len() && (#[trigger] self.archives[i]).file_path == path
    }

    /// Index of the archive row with this file name (unique under `wf`).
    pub open spec fn archive_idx(self, path: Seq<u8>) -> int {
        choose|i: int| 0 <= i < self.archives.len() && (#[trigger] self.archives[i]).file_path == path
    }

    /// Some feed row carries this feed ID.
    pub open spec fn has_feed(self, feed_id: i64) -> bool {
        exists|i: int| 0 <= i < self.feeds.len() && (#[trigger] self.feeds[i]).feed_id == feed_id
    }

    /// Index of the feed row with this feed ID (unique under `wf`).
    pub open spec fn feed_idx(self, feed_id: i64) -> int {
        choose|i: int| 0 <= i < self.feeds.len() && (#[trigger] self.feeds[i]).feed_id == feed_id
    }

    /// Some media row carries this (feed, media) ID pair.
    pub open spec fn has_media(self, feed_id: i64, media_id: i64) -> bool {
        exists|i: int|
            0 <= i < self.media.len() && (#[trigger] self.media[i]).feed_id == feed_id
                && self.media[i].media_id == media_id
    }

    /// Index of the media row with this ID pair (unique under `wf`).
    pub open spec fn media_idx(self, feed_id: i64, media_id: i64) -> int {
        choose|i: int|
            0 <= i < self.media.len() && (#[trigger] self.media[i]).feed_id == feed_id
                && self.media[i].media_id == media_id
    }

    /// A media row with the same feed and the same content columns already
    /// exists, which makes a new insert a silent no-op.
    pub open spec fn has_same_media(
        self,
        feed_id: i64,
        media_type: Seq<u8>,
        media_url: Seq<u8>,
        file_path: Seq<u8>,
        media_path: Seq<u8>,
    ) -> bool {
        exists|i: int|
            {
                &&& 0 <= i < self.media.len()
                &&& (#[trigger] self.media[i]).feed_id == feed_id
                &&& self.media[i].media_type == media_type
                &&& self.media[i].media_url == media_url
                &&& self.media[i].file_path == file_path
                &&& self.media[i].media_path == media_path
            }
    }

    /// The feed has at least one media row that is not soft-deleted.
    pub open spec fn has_live_media(self, feed_id: i64) -> bool {
        exists|i: int|
            0 <= i < self.media.len() && (#[trigger] self.media[i]).feed_id == feed_id
                && self.media[i].deleted_at is None
    }

    /// Effect of registering an archive: insert-or-ignore by file name.
    pub open spec fn spec_register_archive(self, path: Seq<u8>) -> StoreV {
        if self.has_archive(path) {
            self
        } else {
            StoreV {
                archives: self.archives.push(
                    ArchiveRowV { file_path: path, scan_started_at: None, scan_ended_at: None },
                ),
                ..self
            }
        }
    }

    /// Effect of marking a scan as started.
    pub open spec fn spec_set_scan_started(self, path: Seq<u8>, now: i64) -> StoreV {
        if !self.has_archive(path) {
            self
        } else {
            let i = self.archive_idx(path);
            StoreV {
                archives: self.archives.update(
                    i,
                    ArchiveRowV { scan_started_at: Some(now), ..self.archives[i] },
                ),
                ..self
            }
        }
    }

    /// Effect of marking a scan as ended.
    pub open spec fn spec_set_scan_ended(self, path: Seq<u8>, now: i64) -> StoreV {
        if !self.has_archive(path) {
            self
        } else {
            let i = self.archive_idx(path);
            StoreV {
                archives: self.archives.update(
                    i,
                    ArchiveRowV { scan_ended_at: Some(now), ..self.archives[i] },
                ),
                ..self
            }
        }
    }

    /// Effect of a feed upsert: insert-or-ignore by feed ID, so the first
    /// insert wins and later ones change nothing.
    pub open spec fn spec_insert_feed(self, row: FeedRowV) -> StoreV {
        if self.has_feed(row.feed_id) {
            self
        } else {
            StoreV { feeds: self.feeds.push(row), ..self }
        }
    }
}

/// Byte string of the media type whose rows the thumbnail worker picks up.
pub open spec fn image_type() -> Seq<u8> {
    seq![73u8, 109u8, 97u8, 103u8, 101u8]
}

/// The media rows of one feed, in insertion order, among the first `upto`.
pub open spec fn media_of_feed_upto(rows: Seq<MediaRowV>, feed_id: i64, upto: int) -> Seq<
    MediaRowV,
>
    decreases upto,
{
    if upto <= 0 || upto > rows.len() {
        Seq::empty()
    } else {
        let prefix = media_of_feed_upto(rows, feed_id, upto - 1);
        if rows[upto - 1].feed_id == feed_id {
            prefix.push(rows[upto - 1])
        } else {
            prefix
        }
    }
}

/// The media rows of one feed, in insertion order.
pub open spec fn media_of_feed(rows: Seq<MediaRowV>, feed_id: i64) -> Seq<MediaRowV> {
    media_of_feed_upto(rows, feed_id, rows.len() as int)
}

/// A media row that still waits for a thumbnail: an image, not soft-deleted,
/// no preview cached yet.
pub open spec fn pending_thumbnail(m: MediaRowV) -> bool {
    &&& m.media_type == image_type()
    &&& m.deleted_at is None
    &&& m.thumbnail is None
}

/// Counting one feed's media reads only the feed IDs of the first `upto`
/// rows, so two row sequences that agree there count alike.
pub proof fn lemma_media_count_agree(a: Seq<MediaRowV>, b: Seq<MediaRowV>, feed_id: i64, upto: int)
    requires
        upto <= a.len(),
        upto <= b.len(),
        forall|j: int| 0 <= j < upto ==> (#[trigger] a[j]).feed_id == b[j].feed_id,
    ensures
        media_count_upto(a, feed_id, upto) == media_count_upto(b, feed_id, upto),
    decreases upto,
{
    if upto > 0 {
        lemma_media_count_agree(a, b, feed_id, upto - 1);
    }
}

/// The per-feed count is at most the number of rows counted.
pub proof fn lemma_media_count_le(rows: Seq<MediaRowV>, feed_id: i64, upto: int)
    requires
        0 <= upto <= rows.len(),
    ensures
        0 <= media_count_upto(rows, feed_id, upto) <= upto,
    decreases upto,
{
    if upto > 0 {
        lemma_media_count_le(rows, feed_id, upto - 1);
    }
}

/// A matching row at position `a` makes every count beyond `a` strictly
/// larger than the count up to `a`.
pub proof fn lemma_media_count_strict(rows: Seq<MediaRowV>, feed_id: i64, a: int, b: int)
    requires
        0 <= a < b <= rows.len(),
        rows[a].feed_id == feed_id,
    ensures
        media_count_upto(rows, feed_id, b) >= media_count_upto(rows, feed_id, a) + 1,
    decreases b,
{
    if b > a + 1 {
        lemma_media_count_strict(rows, feed_id, a, b - 1);
    }
}

/// Under gap-free numbering, no two media rows of one feed share a media ID:
/// the pair (feed ID, media ID) identifies at most one row.
pub proof fn lemma_media_pair_unique(rows: Seq<MediaRowV>)
    requires
        media_numbered(rows),
    ensures
        forall|i: int, j: int|
            0 <= i < j < rows.len() && (#[trigger] rows[i]).feed_id == (#[trigger] rows[j]).feed_id
                ==> rows[i].media_id != rows[j].media_id,
{
    assert forall|i: int, j: int|
        0 <= i < j < rows.len() && (#[trigger] rows[i]).feed_id
            == (#[trigger] rows[j]).feed_id implies rows[i].media_id != rows[j].media_id by {
        lemma_media_count_strict(rows, rows[i].feed_id, i, j);
    }
}

/// Gap-free numbering, stated per feed: the `k`-th media row of a feed (in
/// insertion order) carries media ID `k + 1`, so `n` media of one feed carry
/// IDs `1..n` with no gaps.
pub proof fn lemma_media_numbering_gap_free(rows: Seq<MediaRowV>, feed_id: i64, upto: int)
    requires
        media_numbered(rows),
        0 <= upto <= rows.len(),
    ensures
        media_of_feed_upto(rows, feed_id, upto).len() == media_count_upto(rows, feed_id, upto),
        forall|k: int|
            0 <= k < media_of_feed_upto(rows, feed_id, upto).len() ==> (#[trigger] media_of_feed_upto(
                rows,
                feed_id,
                upto,
            )[k]).media_id == k + 1 && media_of_feed_upto(rows, feed_id, upto)[k].feed_id == feed_id,
    decreases upto,
{
    if upto > 0 {
        lemma_media_numbering_gap_free(rows, feed_id, upto - 1);
    }
}

/// The media row at `i` matches the ID pair, and under gap-free numbering the
/// chosen index equals `i`.
proof fn lemma_media_idx_is(s: StoreV, feed_id: i64, media_id: i64, i: int)
    requires
        media_numbered(s.media),
        0 <= i < s.media.len(),
        s.media[i].feed_id == feed_id,
        s.media[i].media_id == media_id,
    ensures
        s.has_media(feed_id, media_id),
        s.media_idx(feed_id, media_id) == i,
{
    assert(s.has_media(feed_id, media_id));
    let j = s.media_idx(feed_id, media_id);
    lemma_media_pair_unique(s.media);
    if i < j {
        assert(s.media[i].feed_id == s.media[j].feed_id);
    } else if j < i {
        assert(s.media[j].feed_id == s.media[i].feed_id);
    }
}

impl StoreV {
    /// Effect of a media upsert: ignored when a row with the same feed and
    /// content columns exists (or when the ID space is exhausted), otherwise
    /// appended with the next per-feed media ID.
    pub open spec fn spec_insert_media(
        self,
        feed_id: i64,
        media_type: Seq<u8>,
        media_url: Seq<u8>,
        file_path: Seq<u8>,
        media_path: Seq<u8>,
    ) -> StoreV {
        if self.has_same_media(feed_id, media_type, media_url, file_path, media_path) {
            self
        } else if self.media.len() >= MAX_MEDIA_ROWS {
            self
        } else {
            StoreV {
                media: self.media.push(
                    MediaRowV {
                        feed_id,
                        media_id: (media_count(self.media, feed_id) + 1) as i64,
                        media_type,
                        media_url,
                        file_path,
                        media_path,
                        thumbnail: None,
                        deleted_at: None,
                    },
                ),
                ..self
            }
        }
    }

    /// Effect of caching a generated preview in a media row.
    pub open spec fn spec_update_thumbnail(self, feed_id: i64, media_id: i64, blob: Seq<u8>) -> StoreV {
        if !self.has_media(feed_id, media_id) {
            self
        } else {
            let i = self.media_idx(feed_id, media_id);
            StoreV {
                media: self.media.update(
                    i,
                    MediaRowV { thumbnail: Some(blob), ..self.media[i] },
                ),
                ..self
            }
        }
    }

    /// Effect of soft-deleting a media row whose backing file is gone.
    pub open spec fn spec_soft_delete_media(self, feed_id: i64, media_id: i64, now: i64) -> StoreV {
        if !self.has_media(feed_id, media_id) {
            self
        } else {
            let i = self.media_idx(feed_id, media_id);
            StoreV {
                media: self.media.update(
                    i,
                    MediaRowV { deleted_at: Some(now), ..self.media[i] },
                ),
                ..self
            }
        }
    }
}

/// Effect of registering the first `upto` of a list of discovered archive
/// file names, in order.
pub open spec fn spec_register_archives(s: StoreV, names: Seq<Seq<u8>>, upto: int) -> StoreV
    decreases upto,
{
    if upto <= 0 || upto > names.len() {
        s
    } else {
        spec_register_archives(s, names, upto - 1).spec_register_archive(names[upto - 1])
    }
}

/// The feed row at `i` matches the feed ID, and under unique IDs the chosen
/// index equals `i`.
pub proof fn lemma_feed_idx_is(s: StoreV, feed_id: i64, i: int)
    requires
        feeds_unique(s.feeds),
        0 <= i < s.feeds.len(),
        s.feeds[i].feed_id == feed_id,
    ensures
        s.has_feed(feed_id),
        s.feed_idx(feed_id) == i,
{
    assert(s.has_feed(feed_id));
    let j = s.feed_idx(feed_id);
    if i < j {
        assert(s.feeds[i].feed_id != s.feeds[j].feed_id);
    } else if j < i {
        assert(s.feeds[j].feed_id != s.feeds[i].feed_id);
    }
}

/// The archive row at `i` matches `path`, and under unique names the chosen
/// index equals `i`.
proof fn lemma_archive_idx_is(s: StoreV, path: Seq<u8>, i: int)
    requires
        archives_unique(s.archives),
        0 <= i < s.archives.len(),
        s.archives[i].file_path == path,
    ensures
        s.has_archive(path),
        s.archive_idx(path) == i,
{
    assert(s.has_archive(path));
    let j = s.archive_idx(path);
    assert(0 <= j < s.archives.len() && s.archives[j].file_path == path);
    if i < j {
        assert(s.archives[i].file_path != s.archives[j].file_path);
    } else if j < i {
        assert(s.archives[j].file_path != s.archives[i].file_path);
    }
}

impl FeedStore {
    /// An empty store.
    pub fn new() -> (s: FeedStore)
        ensures
            s@.wf(),
            s@.archives.len() == 0,
            s@.feeds.len() == 0,
            s@.media.len() == 0,
    {
        let s = FeedStore { archives: Vec::new(), feeds: Vec::new(), media: Vec::new() };
        proof {
            assert(s@.archives =~= Seq::<ArchiveRowV>::empty());
            assert(s@.feeds =~= Seq::<FeedRowV>::empty());
            assert(s@.media =~= Seq::<MediaRowV>::empty());
        }
        s
    }

    /// Wipe every archive, feed and media row.
    pub fn clean(&mut self)
        ensures
            final(self)@.wf(),
            final(self)@.archives.len() == 0,
            final(self)@.feeds.len() == 0,
            final(self)@.media.len() == 0,
    {
        self.archives.clear();
        self.feeds.clear();
        self.media.clear();
        proof {
            assert(self@.archives =~= Seq::<ArchiveRowV>::empty());
            assert(self@.feeds =~= Seq::<FeedRowV>::empty());
            assert(self@.media =~= Seq::<MediaRowV>::empty());
        }
    }

    /// Index of the archive row with this file name, if any; the first match
    /// is the only one under `wf`.
    fn find_archive(&self, path: &Vec<u8>) -> (r: Option<usize>)
        ensures
            match r {
                Some(i) => 0 <= i < self@.archives.len() && self@.archives[i as int].file_path
                    == path@,
                None => !self@.has_archive(path@),
            },
    {
        let mut i: usize = 0;
        while i < self.archives.len()
            invariant
                i <= self.archives.len(),
                self@.archives.len() == self.archives.len(),
                forall|j: int| 0 <= j < i ==> (#[trigger] self@.archives[j]).file_path != path@,
            decreases self.archives.len() - i,
        {
            if crate::bytes::bytes_eq(&self.archives[i].file_path, path) {
                return Some(i);
            }
            i = i + 1;
        }
        None
    }

    /// Register one discovered archive file: insert-or-ignore by file name,
    /// so repeated discovery passes change nothing.
    pub fn register_archive(&mut self, path: Vec<u8>)
        requires
            old(self)@.wf(),
        ensures
            final(self)@.wf(),
            final(self)@ == old(self)@.spec_register_archive(path@),
    {
        match self.find_archive(&path) {
            Some(_) => {},
            None => {
                let ghost oldv = self@;
                self.archives.push(
                    ArchiveRow { file_path: path, scan_started_at: None, scan_ended_at: None },
                );
                proof {
                    assert(self@.archives =~= oldv.archives.push(
                        ArchiveRowV {
                            file_path: path@,
                            scan_started_at: None,
                            scan_ended_at: None,
                        },
                    ));
                    assert(self@.feeds =~= oldv.feeds);
                    assert(self@.media =~= oldv.media);
                }
            },
        }
    }

    /// Register every discovered archive file in order: insert-or-ignore by
    /// file name, so repeated discovery passes change nothing and no ordering
    /// across files is promised beyond the order given.
    pub fn register_archives(&mut self, names: Vec<Vec<u8>>)
        requires
            old(self)@.wf(),
        ensures
            final(self)@.wf(),
            final(self)@ == spec_register_archives(old(self)@, names.deep_view(), names@.len() as int),
    {
        let ghost oldv = self@;
        let ghost namesv = names.deep_view();
        let mut k: usize = 0;
        while k < names.len()
            invariant
                k <= names@.len(),
                self@.wf(),
                namesv == names.deep_view(),
                namesv.len() == names@.len(),
                self@ == spec_register_archives(oldv, namesv, k as int),
            decreases names.len() - k,
        {
            let name = clone_bytes(&names[k]);
            proof {
                assert(name@ == namesv[k as int]);
            }
            self.register_archive(name);
            k = k + 1;
        }
    }

    /// Record that a scan of this archive began at `now`; unregistered names
    /// change nothing.
    pub fn set_scan_started(&mut self, path: &Vec<u8>, now: i64)
        requires
            old(self)@.wf(),
        ensures
            final(self)@.wf(),
            final(self)@ == old(self)@.spec_set_scan_started(path@, now),
    {
        let ghost oldv = self@;
        match self.find_archive(path) {
            Some(i) => {
                let row = &self.archives[i];
                let new_row = ArchiveRow {
                    file_path: clone_bytes(&row.file_path),
                    scan_started_at: Some(now),
                    scan_ended_at: row.scan_ended_at,
                };
                self.archives.set(i, new_row);
                proof {
                    lemma_archive_idx_is(oldv, path@, i as int);
                    assert(self@.archives =~= oldv.archives.update(
                        i as int,
                        ArchiveRowV { scan_started_at: Some(now), ..oldv.archives[i as int] },
                    ));
                    assert(self@.feeds =~= oldv.feeds);
                    assert(self@.media =~= oldv.media);
                }
            },
            None => {},
        }
    }

    /// Record that a scan of this archive ended at `now`; unregistered names
    /// change nothing.
    pub fn set_scan_ended(&mut self, path: &Vec<u8>, now: i64)
        requires
            old(self)@.wf(),
        ensures
            final(self)@.wf(),
            final(self)@ == old(self)@.spec_set_scan_ended(path@, now),
    {
        let ghost oldv = self@;
        match self.find_archive(path) {
            Some(i) => {
                let row = &self.archives[i];
                let new_row = ArchiveRow {
                    file_path: clone_bytes(&row.file_path),
                    scan_started_at: row.scan_started_at,
                    scan_ended_at: Some(now),
                };
                self.archives.set(i, new_row);
                proof {
                    lemma_archive_idx_is(oldv, path@, i as int);
                    assert(self@.archives =~= oldv.archives.update(
                        i as int,
                        ArchiveRowV { scan_ended_at: Some(now), ..oldv.archives[i as int] },
                    ));
                    assert(self@.feeds =~= oldv.feeds);
                    assert(self@.media =~= oldv.media);
                }
            },
            None => {},
        }
    }

    /// File name of the first registered archive whose scan has not started,
    /// or `None` when every archive has been picked up.
    pub fn next_unscanned(&self) -> (r: Option<Vec<u8>>)
        ensures
            match r {
                Some(p) => exists|i: int|
                    {
                        &&& 0 <= i < self@.archives.len()
                        &&& (#[trigger] self@.archives[i]).file_path == p@
                        &&& self@.archives[i].scan_started_at is None
                    },
                None => forall|i: int|
                    0 <= i < self@.archives.len() ==> (#[trigger] self@.archives[i]).scan_started_at
                        is Some,
            },
    {
        let mut i: usize = 0;
        while i < self.archives.len()
            invariant
                i <= self.archives.len(),
                self@.archives.len() == self.archives.len(),
                forall|j: int|
                    0 <= j < i ==> (#[trigger] self@.archives[j]).scan_started_at is Some,
            decreases self.archives.len() - i,
        {
            let row = &self.archives[i];
            match row.scan_started_at {
                None => {
                    proof {
                        assert(self@.archives[i as int].file_path == row.file_path@);
                        assert(self@.archives[i as int].scan_started_at is None);
                    }
                    return Some(clone_bytes(&row.file_path));
                },
                Some(_) => {},
            }
            i = i + 1;
        }
        None
    }

    /// Whether a feed row with this ID already exists.
    pub fn contains_feed(&self, feed_id: i64) -> (r: bool)
        ensures
            r == self@.has_feed(feed_id),
    {
        let mut i: usize = 0;
        while i < self.feeds.len()
            invariant
                i <= self.feeds.len(),
                self@.feeds.len() == self.feeds.len(),
                forall|j: int| 0 <= j < i ==> (#[trigger] self@.feeds[j]).feed_id != feed_id,
            decreases self.feeds.len() - i,
        {
            if self.feeds[i].feed_id == feed_id {
                proof {
                    assert(self@.feeds[i as int].feed_id == feed_id);
                }
                return true;
            }
            i = i + 1;
        }
        false
    }

    /// Upsert one feed row: insert-or-ignore by feed ID.
    pub fn insert_feed(&mut self, row: FeedRow)
        requires
            old(self)@.wf(),
        ensures
            final(self)@.wf(),
            final(self)@ == old(self)@.spec_insert_feed(row@),
    {
        if !self.contains_feed(row.feed_id) {
            let ghost oldv = self@;
            self.feeds.push(row);
            proof {
                assert(self@.feeds =~= oldv.feeds.push(row@));
                assert(self@.archives =~= oldv.archives);
                assert(self@.media =~= oldv.media);
            }
        }
    }

    /// Index of the feed row with this feed ID, if any; the first match is
    /// the only one under `wf`.
    pub fn find_feed_index(&self, feed_id: i64) -> (r: Option<usize>)
        requires
            self@.wf(),
        ensures
            match r {
                Some(i) => {
                    &&& 0 <= i < self@.feeds.len()
                    &&& self@.feeds[i as int].feed_id == feed_id
                    &&& self@.feed_idx(feed_id) == i as int
                    &&& self@.has_feed(feed_id)
                },
                None => !self@.has_feed(feed_id),
            },
    {
        let mut i: usize = 0;
        while i < self.feeds.len()
            invariant
                i <= self.feeds.len(),
                self@.wf(),
                self@.feeds.len() == self.feeds.len(),
                forall|j: int| 0 <= j < i ==> (#[trigger] self@.feeds[j]).feed_id != feed_id,
            decreases self.feeds.len() - i,
        {
            if self.feeds[i].feed_id == feed_id {
                proof {
                    lemma_feed_idx_is(self@, feed_id, i as int);
                }
                return Some(i);
            }
            i = i + 1;
        }
        None
    }

    /// Whether the feed has at least one media row that is not soft-deleted.
    pub fn has_live_media_exec(&self, feed_id: i64) -> (r: bool)
        ensures
            r == self@.has_live_media(feed_id),
    {
        let mut i: usize = 0;
        while i < self.media.len()
            invariant
                i <= self.media.len(),
                self@.media.len() == self.media.len(),
                forall|j: int|
                    0 <= j < i ==> !((#[trigger] self@.media[j]).feed_id == feed_id
                        && self@.media[j].deleted_at is None),
            decreases self.media.len() - i,
        {
            let m = &self.media[i];
            if m.feed_id == feed_id && m.deleted_at.is_none() {
                proof {
                    assert(self@.media[i as int].feed_id == feed_id);
                }
                return true;
            }
            i = i + 1;
        }
        false
    }

    /// Whether a media row with the same feed and content columns exists.
    fn contains_same_media(
        &self,
        feed_id: i64,
        media_type: &Vec<u8>,
        media_url: &Vec<u8>,
        file_path: &Vec<u8>,
        media_path: &Vec<u8>,
    ) -> (r: bool)
        ensures
            r == self@.has_same_media(feed_id, media_type@, media_url@, file_path@, media_path@),
    {
        let mut i: usize = 0;
        while i < self.media.len()
            invariant
                i <= self.media.len(),
                self@.media.len() == self.media.len(),
                forall|j: int|
                    0 <= j < i ==> !{
                        &&& (#[trigger] self@.media[j]).feed_id == feed_id
                        &&& self@.media[j].media_type == media_type@
                        &&& self@.media[j].media_url == media_url@
                        &&& self@.media[j].file_path == file_path@
                        &&& self@.media[j].media_path == media_path@
                    },
            decreases self.media.len() - i,
        {
            let m = &self.media[i];
            if m.feed_id == feed_id && crate::bytes::bytes_eq(&m.media_type, media_type)
                && crate::bytes::bytes_eq(&m.media_url, media_url) && crate::bytes::bytes_eq(
                &m.file_path,
                file_path,
            ) && crate::bytes::bytes_eq(&m.media_path, media_path) {
                proof {
                    assert(self@.media[i as int].feed_id == feed_id);
                }
                return true;
            }
            i = i + 1;
        }
        false
    }

    /// How many media rows belong to the given feed.
    fn count_media_of_feed(&self, feed_id: i64) -> (n: usize)
        ensures
            n as int == media_count(self@.media, feed_id),
    {
        let mut i: usize = 0;
        let mut n: usize = 0;
        while i < self.media.len()
            invariant
                i <= self.media.len(),
                self@.media.len() == self.media.len(),
                n <= i,
                n as int == media_count_upto(self@.media, feed_id, i as int),
            decreases self.media.len() - i,
        {
            if self.media[i].feed_id == feed_id {
                n = n + 1;
            }
            i = i + 1;
        }
        n
    }

    /// Upsert one media row: ignored when the same content is already present
    /// for the feed, otherwise appended with the next per-feed media ID.
    pub fn insert_media(
        &mut self,
        feed_id: i64,
        media_type: Vec<u8>,
        media_url: Vec<u8>,
        file_path: Vec<u8>,
        media_path: Vec<u8>,
    )
        requires
            old(self)@.wf(),
        ensures
            final(self)@.wf(),
            final(self)@ == old(self)@.spec_insert_media(
                feed_id,
                media_type@,
                media_url@,
                file_path@,
                media_path@,
            ),
    {
        if self.contains_same_media(feed_id, &media_type, &media_url, &file_path, &media_path) {
            return ;
        }
        if self.media.len() as u64 >= MAX_MEDIA_ROWS {
            return ;
        }
        let n = self.count_media_of_feed(feed_id);
        let ghost oldv = self@;
        proof {
            lemma_media_count_le(oldv.media, feed_id, oldv.media.len() as int);
        }
        let row = MediaRow {
            feed_id,
            media_id: (n as i64) + 1,
            media_type,
            media_url,
            file_path,
            media_path,
            thumbnail: None,
            deleted_at: None,
        };
        let ghost rv = row@;
        self.media.push(row);
        proof {
            assert(rv.media_id == media_count(oldv.media, feed_id) + 1);
            assert(self@.media =~= oldv.media.push(rv));
            assert(self@.archives =~= oldv.archives);
            assert(self@.feeds =~= oldv.feeds);
            assert forall|i: int| 0 <= i < self@.media.len() implies (#[trigger] self@.media[i]).media_id
                == media_count_upto(self@.media, self@.media[i].feed_id, i) + 1 by {
                lemma_media_count_agree(oldv.media, self@.media, self@.media[i].feed_id, i);
                if i < oldv.media.len() {
                    assert(oldv.media[i].media_id == media_count_upto(
                        oldv.media,
                        oldv.media[i].feed_id,
                        i,
                    ) + 1);
                }
            }
        }
    }

    /// Index of the media row with this ID pair, if any; the first match is
    /// the only one under `wf`.
    fn find_media(&self, feed_id: i64, media_id: i64) -> (r: Option<usize>)
        ensures
            match r {
                Some(i) => {
                    &&& 0 <= i < self@.media.len()
                    &&& self@.media[i as int].feed_id == feed_id
                    &&& self@.media[i as int].media_id == media_id
                },
                None => !self@.has_media(feed_id, media_id),
            },
    {
        let mut i: usize = 0;
        while i < self.media.len()
            invariant
                i <= self.media.len(),
                self@.media.len() == self.media.len(),
                forall|j: int|
                    0 <= j < i ==> !((#[trigger] self@.media[j]).feed_id == feed_id
                        && self@.media[j].media_id == media_id),
            decreases self.media.len() - i,
        {
            let m = &self.media[i];
            if m.feed_id == feed_id && m.media_id == media_id {
                proof {
                    assert(self@.media[i as int].feed_id == feed_id);
                }
                return Some(i);
            }
            i = i + 1;
        }
        None
    }

    /// Cache a generated preview in the media row with this ID pair; unknown
    /// pairs change nothing.
    pub fn update_media_thumbnail(&mut self, feed_id: i64, media_id: i64, blob: Vec<u8>)
        requires
            old(self)@.wf(),
        ensures
            final(self)@.wf(),
            final(self)@ == old(self)@.spec_update_thumbnail(feed_id, media_id, blob@),
    {
        let ghost oldv = self@;
        match self.find_media(feed_id, media_id) {
            Some(i) => {
                let m = &self.media[i];
                let new_row = MediaRow {
                    feed_id: m.feed_id,
                    media_id: m.media_id,
                    media_type: clone_bytes(&m.media_type),
                    media_url: clone_bytes(&m.media_url),
                    file_path: clone_bytes(&m.file_path),
                    media_path: clone_bytes(&m.media_path),
                    thumbnail: Some(blob),
                    deleted_at: m.deleted_at,
                };
                self.media.set(i, new_row);
                proof {
                    lemma_media_idx_is(oldv, feed_id, media_id, i as int);
                    assert(self@.media =~= oldv.media.update(
                        i as int,
                        MediaRowV { thumbnail: Some(blob@), ..oldv.media[i as int] },
                    ));
                    assert(self@.archives =~= oldv.archives);
                    assert(self@.feeds =~= oldv.feeds);
                    assert forall|k: int|
                        0 <= k < self@.media.len() implies (#[trigger] self@.media[k]).media_id
                        == media_count_upto(self@.media, self@.media[k].feed_id, k) + 1 by {
                        lemma_media_count_agree(oldv.media, self@.media, self@.media[k].feed_id, k);
                        assert(oldv.media[k].media_id == media_count_upto(
                            oldv.media,
                            oldv.media[k].feed_id,
                            k,
                        ) + 1);
                        assert(self@.media[k].feed_id == oldv.media[k].feed_id);
                        assert(self@.media[k].media_id == oldv.media[k].media_id);
                    }
                }
            },
            None => {},
        }
    }

    /// Soft-delete the media row with this ID pair because its backing file
    /// is gone; unknown pairs change nothing. The row stays queryable as
    /// metadata but is excluded from thumbnail generation and previews.
    pub fn soft_delete_media(&mut self, feed_id: i64, media_id: i64, now: i64)
        requires
            old(self)@.wf(),
        ensures
            final(self)@.wf(),
            final(self)@ == old(self)@.spec_soft_delete_media(feed_id, media_id, now),
    {
        let ghost oldv = self@;
        match self.find_media(feed_id, media_id) {
            Some(i) => {
                let m = &self.media[i];
                let new_row = MediaRow {
                    feed_id: m.feed_id,
                    media_id: m.media_id,
                    media_type: clone_bytes(&m.media_type),
                    media_url: clone_bytes(&m.media_url),
                    file_path: clone_bytes(&m.file_path),
                    media_path: clone_bytes(&m.media_path),
                    thumbnail: match &m.thumbnail {
                        Some(b) => Some(clone_bytes(b)),
                        None => None,
                    },
                    deleted_at: Some(now),
                };
                self.media.set(i, new_row);
                proof {
                    lemma_media_idx_is(oldv, feed_id, media_id, i as int);
                    assert(self@.media =~= oldv.media.update(
                        i as int,
                        MediaRowV { deleted_at: Some(now), ..oldv.media[i as int] },
                    ));
                    assert(self@.archives =~= oldv.archives);
                    assert(self@.feeds =~= oldv.feeds);
                    assert forall|k: int|
                        0 <= k < self@.media.len() implies (#[trigger] self@.media[k]).media_id
                        == media_count_upto(self@.media, self@.media[k].feed_id, k) + 1 by {
                        lemma_media_count_agree(oldv.media, self@.media, self@.media[k].feed_id, k);
                        assert(oldv.media[k].media_id == media_count_upto(
                            oldv.media,
                            oldv.media[k].feed_id,
                            k,
                        ) + 1);
                        assert(self@.media[k].feed_id == oldv.media[k].feed_id);
                        assert(self@.media[k].media_id == oldv.media[k].media_id);
                    }
                }
            },
            None => {},
        }
    }

    /// Copy of the media row with this ID pair, if any.
    pub fn get_media(&self, feed_id: i64, media_id: i64) -> (r: Option<MediaRow>)
        requires
            self@.wf(),
        ensures
            match r {
                Some(m) => self@.has_media(feed_id, media_id) && m@ == self@.media[self@.media_idx(
                    feed_id,
                    media_id,
                )],
                None => !self@.has_media(feed_id, media_id),
            },
    {
        match self.find_media(feed_id, media_id) {
            Some(i) => {
                proof {
                    lemma_media_idx_is(self@, feed_id, media_id, i as int);
                }
                Some(clone_media_row(&self.media[i]))
            },
            None => None,
        }
    }

    /// All media rows of one feed, in insertion order, soft-deleted ones
    /// included: they remain queryable as metadata.
    pub fn media_for_feed(&self, feed_id: i64) -> (r: Vec<MediaRow>)
        ensures
            r@.map_values(|m: MediaRow| m@) == media_of_feed(self@.media, feed_id),
    {
        let mut r: Vec<MediaRow> = Vec::new();
        let mut i: usize = 0;
        while i < self.media.len()
            invariant
                i <= self.media.len(),
                self@.media.len() == self.media.len(),
                r@.map_values(|m: MediaRow| m@) == media_of_feed_upto(
                    self@.media,
                    feed_id,
                    i as int,
                ),
            decreases self.media.len() - i,
        {
            let ghost prefix = r@.map_values(|m: MediaRow| m@);
            if self.media[i].feed_id == feed_id {
                r.push(clone_media_row(&self.media[i]));
                proof {
                    assert(r@.map_values(|m: MediaRow| m@) =~= prefix.push(
                        self@.media[i as int],
                    ));
                }
            }
            i = i + 1;
        }
        r
    }

    /// Copy of the first media row still waiting for a thumbnail: an image,
    /// not soft-deleted, no cached preview yet.
    pub fn next_pending_thumbnail(&self) -> (r: Option<MediaRow>)
        ensures
            match r {
                Some(m) => exists|i: int|
                    {
                        &&& 0 <= i < self@.media.len()
                        &&& (#[trigger] self@.media[i]) == m@
                        &&& pending_thumbnail(self@.media[i])
                    },
                None => forall|i: int|
                    0 <= i < self@.media.len() ==> !pending_thumbnail(#[trigger] self@.media[i]),
            },
    {
        let image_tag: Vec<u8> = vec![73u8, 109u8, 97u8, 103u8, 101u8];
        proof {
            assert(image_tag@ =~= image_type());
        }
        let mut i: usize = 0;
        while i < self.media.len()
            invariant
                i <= self.media.len(),
                self@.media.len() == self.media.len(),
                image_tag@ == image_type(),
                forall|j: int| 0 <= j < i ==> !pending_thumbnail(#[trigger] self@.media[j]),
            decreases self.media.len() - i,
        {
            let m = &self.media[i];
            if crate::bytes::bytes_eq(&m.media_type, &image_tag) && m.deleted_at.is_none()
                && m.thumbnail.is_none() {
                proof {
                    assert(pending_thumbnail(self@.media[i as int]));
                }
                return Some(clone_media_row(m));
            }
            i = i + 1;
        }
        None
    }
}

/// Field-by-field copy of a media row, so the copy's value is known exactly.
pub fn clone_media_row(m: &MediaRow) -> (r: MediaRow)
    ensures
        r@ == m@,
{
    MediaRow {
        feed_id: m.feed_id,
        media_id: m.media_id,
        media_type: clone_bytes(&m.media_type),
        media_url: clone_bytes(&m.media_url),
        file_path: clone_bytes(&m.file_path),
        media_path: clone_bytes(&m.media_path),
        thumbnail: match &m.thumbnail {
            Some(b) => Some(clone_bytes(b)),
            None => None,
        },
        deleted_at: m.deleted_at,
    }
}

} // verus!
