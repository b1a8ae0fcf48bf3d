//! The query facade's request type and the helpers that normalize and render
//! it: user-name normalization, keyword escaping for a `LIKE` pattern, and
//! the parameterized SQL text of the feeds query. User-supplied values are
//! always bound as parameters, never spliced into the text.
use vstd::prelude::*;

verus! {

/// Ephemeral filter and pagination request for listing feeds; not persisted.
pub struct FeedsQuery {
    /// Filter to one account, normalized to a leading `@`.
    pub user_name: Option<String>,
    /// Literal substring filter on contents.
    pub keyword: Option<String>,
    /// Accepted for interface compatibility; applied by no filter.
    pub since: Option<String>,
    /// Accepted for interface compatibility; applied by no filter.
    pub until: Option<String>,
    /// Keep only feeds with at least one non-deleted media row.
    pub has_media_only: Option<bool>,
    /// Page index, zero-based.
    pub page: Option<i32>,
    /// Page size.
    pub count: Option<i32>,
}

/// Mathematical value of a [`FeedsQuery`].
pub struct FeedsQueryV {
    pub user_name: Option<Seq<char>>,
    pub keyword: Option<Seq<char>>,
    pub since: Option<Seq<char>>,
    pub until: Option<Seq<char>>,
    pub has_media_only: Option<bool>,
    pub page: Option<i32>,
    pub count: Option<i32>,
}

impl View for FeedsQuery {
    type V = FeedsQueryV;

    open spec fn view(&self) -> FeedsQueryV {
        FeedsQueryV {
            user_name: match self.user_name {
                Some(ref s) => Some(s@),
                None => None,
            },
            keyword: match self.keyword {
                Some(ref s) => Some(s@),
                None => None,
            },
            since: match self.since {
                Some(ref s) => Some(s@),
                None => None,
            },
            until: match self.until {
                Some(ref s) => Some(s@),
                None => None,
            },
            has_media_only: self.has_media_only,
            page: self.page,
            count: self.count,
        }
    }
}

/// The user-name filter is present and non-empty.
pub open spec fn user_filter_active(q: FeedsQueryV) -> bool {
    match q.user_name {
        Some(u) => u.len() > 0,
        None => false,
    }
}

/// The keyword filter is present and non-empty.
pub open spec fn keyword_filter_active(q: FeedsQueryV) -> bool {
    match q.keyword {
        Some(k) => k.len() > 0,
        None => false,
    }
}

/// The has-media filter is present and set.
pub open spec fn media_filter_active(q: FeedsQueryV) -> bool {
    q.has_media_only == Some(true)
}

/// The `WHERE` clause of the feeds query: the active filters' predicates,
/// joined by `AND`; empty when no filter is active.
pub open spec fn where_sql(u: bool, k: bool, hm: bool) -> Seq<char> {
    let c1 = ("f.user_name LIKE :user_name")@;
    let c2 = ("f.contents LIKE :keyword")@;
    let c3 = ("EXISTS (SELECT m.feed_id FROM media m WHERE f.feed_id = m.feed_id LIMIT 1)")@;
    if !u && !k && !hm {
        ("")@
    } else {
        ("WHERE ")@ + (if u {
            c1 + (if k {
                (" AND ")@ + c2
            } else {
                ("")@
            }) + (if hm {
                (" AND ")@ + c3
            } else {
                ("")@
            })
        } else if k {
            c2 + (if hm {
                (" AND ")@ + c3
            } else {
                ("")@
            })
        } else {
            c3
        })
    }
}

/// The full parameterized SQL text of the feeds query: a self-join resolving
/// repost references, the active filters, newest first, and offset/limit
/// pagination, all values bound as parameters.
pub open spec fn feeds_query_sql(q: FeedsQueryV) -> Seq<char> {
    ("SELECT f.feed_id, f.feed_at, f.user_name, f.retweet_id, f.retweet_user_name, f.twitter_url, f.contents, r.feed_id, r.feed_at, r.user_name, r.retweet_id, r.retweet_user_name, r.twitter_url, r.contents FROM feeds f LEFT JOIN feeds r ON f.retweet_id = r.feed_id AND f.retweet_id != 0 ")@
        + where_sql(user_filter_active(q), keyword_filter_active(q), media_filter_active(q)) + (
    " ORDER BY f.feed_at DESC LIMIT :limit OFFSET :offset")@
}

/// Escape text for one character of a `LIKE` pattern: a literal `%` becomes
/// `\%` so it cannot act as a wildcard; every other character needs none.
pub fn escape_like_char(ch: char) -> (r: Option<&'static str>)
    ensures
        ch == '%' ==> (r matches Some(s) && s@ == ("\\%")@),
        ch != '%' ==> r is None,
{
    match ch {
        '%' => Some("\\%"),
        _ => None,
    }
}

/// A keyword with every `%` escaped to `\%`, so that it matches only
/// literally inside a `LIKE` pattern.
pub open spec fn escape_like(s: Seq<char>) -> Seq<char>
    decreases s.len(),
{
    if s.len() == 0 {
        Seq::empty()
    } else {
        escape_like(s.drop_last()) + (if s.last() == '%' {
            seq!['\\', '%']
        } else {
            seq![s.last()]
        })
    }
}

/// Escape a keyword for use inside a `LIKE` pattern: each literal `%` becomes
/// `\%`; everything else is unchanged.
pub fn escape_like_str(input: &str) -> (r: String)
    ensures
        r@ == escape_like(input@),
{
    let n = input.unicode_len();
    let mut out = String::new();
    let mut i: usize = 0;
    while i < n
        invariant
            i <= n,
            n == input@.len(),
            out@ == escape_like(input@.subrange(0, i as int)),
        decreases n - i,
    {
        let c = input.get_char(i);
        if c == '%' {
            out.append("\\%");
            proof {
                reveal_strlit("\\%");
                assert(("\\%")@ =~= seq!['\\', '%']);
            }
        } else {
            let piece = input.substring_char(i, i + 1);
            out.append(piece);
            proof {
                assert(piece@ =~= seq![input@[i as int]]);
            }
        }
        proof {
            assert(input@.subrange(0, i + 1 as int).drop_last() =~= input@.subrange(0, i as int));
            assert(input@.subrange(0, i + 1 as int).last() == input@[i as int]);
        }
        i = i + 1;
    }
    proof {
        assert(input@.subrange(0, input@.len() as int) =~= input@);
    }
    out
}

/// The normalized form of a user-name filter: nothing for an absent or empty
/// value; otherwise the value with a leading `@` enforced, case preserved.
pub open spec fn fixed_user_name(v: Option<Seq<char>>) -> Option<Seq<char>> {
    match v {
        None => None,
        Some(s) => {
            if s.len() == 0 {
                None
            } else if s[0] == '@' {
                Some(s)
            } else {
                Some(seq!['@'] + s)
            }
        },
    }
}

/// Normalize a user-name filter: empty and absent values filter nothing, and
/// a present value gets a leading `@` enforced, its case preserved.
pub fn fix_user_name(value: &Option<String>) -> (r: Option<String>)
    ensures
        match r {
            Some(s) => fixed_user_name(
                match value {
                    Some(v) => Some(v@),
                    None => None::<Seq<char>>,
                },
            ) == Some(s@),
            None => fixed_user_name(
                match value {
                    Some(v) => Some(v@),
                    None => None::<Seq<char>>,
                },
            ) is None,
        },
{
    match value {
        None => None,
        Some(s) => {
            let n = s.as_str().unicode_len();
            if n == 0 {
                None
            } else if s.as_str().get_char(0) == '@' {
                Some(String::from_str(s.as_str()))
            } else {
                let mut out = String::from_str("@");
                out.append(s.as_str());
                proof {
                    reveal_strlit("@");
                    assert(("@")@ =~= seq!['@']);
                }
                Some(out)
            }
        },
    }
}

/// Render the parameterized SQL text of the feeds query for the active
/// filters of this request.
pub fn get_feeds_query(query: &FeedsQuery) -> (r: String)
    ensures
        r@ == feeds_query_sql(query@),
{
    let user_active: bool = match &query.user_name {
        Some(u) => u.as_str().unicode_len() > 0,
        None => false,
    };
    let keyword_active: bool = match &query.keyword {
        Some(k) => k.as_str().unicode_len() > 0,
        None => false,
    };
    let media_active: bool = match &query.has_media_only {
        Some(b) => *b,
        None => false,
    };
    let mut w = String::new();
    proof {
        reveal_strlit("");
        assert(w@ =~= ("")@);
    }
    if user_active || keyword_active || media_active {
        w.append("WHERE ");
        if user_active {
            w.append("f.user_name LIKE :user_name");
            if keyword_active {
                w.append(" AND ");
                w.append("f.contents LIKE :keyword");
            }
            if media_active {
                w.append(" AND ");
                w.append(
                    "EXISTS (SELECT m.feed_id FROM media m WHERE f.feed_id = m.feed_id LIMIT 1)",
                );
            }
        } else if keyword_active {
            w.append("f.contents LIKE :keyword");
            if media_active {
                w.append(" AND ");
                w.append(
                    "EXISTS (SELECT m.feed_id FROM media m WHERE f.feed_id = m.feed_id LIMIT 1)",
                );
            }
        } else {
            w.append("EXISTS (SELECT m.feed_id FROM media m WHERE f.feed_id = m.feed_id LIMIT 1)");
        }
    }
    proof {
        assert(w@ =~= where_sql(user_active, keyword_active, media_active));
    }
    let mut sql = String::from_str(
        "SELECT f.feed_id, f.feed_at, f.user_name, f.retweet_id, f.retweet_user_name, f.twitter_url, f.contents, r.feed_id, r.feed_at, r.user_name, r.retweet_id, r.retweet_user_name, r.twitter_url, r.contents FROM feeds f LEFT JOIN feeds r ON f.retweet_id = r.feed_id AND f.retweet_id != 0 ",
    );
    sql.append(w.as_str());
    sql.append(" ORDER BY f.feed_at DESC LIMIT :limit OFFSET :offset");
    proof {
        assert(sql@ =~= feeds_query_sql(query@));
    }
    sql
}

} // verus!
