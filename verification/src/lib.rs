//! Verified core of a personal social-media archive viewer: a relational
//! feed/media store fed by zip archives of CSV transcripts, a filtered and
//! paginated query facade, a thumbnail pipeline, and a concurrency governor
//! bounding how many background worker loops may run at once.
use vstd::prelude::*;

pub mod bytes;
pub mod csvparse;
pub mod facade;
pub mod governor;
pub mod imgio;
pub mod laws;
pub mod mimeio;
pub mod query;
pub mod scan;
pub mod store;
pub mod thumb;
pub mod time;
pub mod url;
pub mod zipio;

verus! {

/// Number of seconds in one hour, used to turn a configured whole-hour
/// UTC offset into seconds.
pub const ONE_HOUR: i32 = 3600;

/// Default page index for feed queries.
pub const DEFAULT_PAGE: i32 = 0;

/// Default page size for feed queries.
pub const DEFAULT_PAGE_COUNT: i32 = 100;

} // verus!
