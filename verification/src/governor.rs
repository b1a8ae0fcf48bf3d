//! Concurrency governor: a shared counter with a fixed limit that bounds how
//! many background worker loops (archive scans, thumbnail generation) may run
//! at once. Triggers are rejected while the counter is at the limit; every
//! accepted trigger must be balanced by exactly one completion.
use vstd::prelude::*;

verus! {

/// Bounds the number of simultaneously running background worker loops.
///
/// The counter lives in memory only; it resets when the process restarts and
/// coordinates nothing across processes. Callers share one governor for all
/// worker kinds and must guard each read-modify-write with exclusive access.
pub struct Governor {
    count: i32,
    limit: i32,
}

impl Governor {
    /// Number of worker slots currently taken.
    pub closed spec fn spec_count(self) -> int {
        self.count as int
    }

    /// Maximum number of slots that may be taken at once.
    pub closed spec fn spec_limit(self) -> int {
        self.limit as int
    }

    /// The counter stays between zero and the limit (or zero when the
    /// configured limit is not positive, since nothing is ever admitted then).
    pub open spec fn wf(self) -> bool {
        &&& 0 <= self.spec_count()
        &&& self.spec_count() <= (if self.spec_limit() >= 0 {
            self.spec_limit()
        } else {
            0
        })
    }

    /// A fresh governor with no running workers.
    pub fn new(limit: i32) -> (g: Governor)
        ensures
            g.wf(),
            g.spec_count() == 0,
            g.spec_limit() == limit as int,
    {
        Governor { count: 0, limit }
    }

    /// Effect of `try_start` on the counter.
    pub closed spec fn spec_try_start(self) -> Governor {
        if self.spec_count() < self.spec_limit() {
            Governor { count: (self.count + 1) as i32, limit: self.limit }
        } else {
            self
        }
    }

    /// Effect of `complete` on the counter.
    pub closed spec fn spec_complete(self) -> Governor {
        Governor { count: (self.count - 1) as i32, limit: self.limit }
    }

    /// Try to take a worker slot: fails exactly when the counter has reached
    /// the limit, otherwise increments the counter.
    pub fn try_start(&mut self) -> (accepted: bool)
        requires
            old(self).wf(),
        ensures
            final(self).wf(),
            accepted == (old(self).spec_count() < old(self).spec_limit()),
            *final(self) == old(self).spec_try_start(),
            accepted ==> final(self).spec_count() == old(self).spec_count() + 1,
            !accepted ==> *final(self) == *old(self),
            final(self).spec_limit() == old(self).spec_limit(),
    {
        if self.count >= self.limit {
            false
        } else {
            self.count = self.count + 1;
            true
        }
    }

    /// Release a worker slot on completion; the caller owes exactly one call
    /// per accepted `try_start`, including when its work failed internally.
    pub fn complete(&mut self)
        requires
            old(self).wf(),
            old(self).spec_count() > 0,
        ensures
            final(self).wf(),
            *final(self) == old(self).spec_complete(),
            final(self).spec_count() == old(self).spec_count() - 1,
            final(self).spec_limit() == old(self).spec_limit(),
    {
        self.count = self.count - 1;
    }

    /// Number of running workers, for status reporting and busy checks.
    pub fn running(&self) -> (n: i32)
        ensures
            n as int == self.spec_count(),
    {
        self.count
    }

    /// The configured limit, for status reporting.
    pub fn limit(&self) -> (n: i32)
        ensures
            n as int == self.spec_limit(),
    {
        self.limit
    }

    /// Whether any worker loop is running; a wipe of the store is refused
    /// while this holds.
    pub fn is_busy(&self) -> (b: bool)
        ensures
            b == (self.spec_count() > 0),
    {
        self.count > 0
    }
}

/// A governor at its limit rejects a new trigger, and one completion frees
/// exactly one slot, so the next trigger is accepted again.
pub proof fn lemma_governor_saturation_and_release(g: Governor)
    requires
        g.wf(),
        g.spec_limit() > 0,
        g.spec_count() == g.spec_limit(),
    ensures
        g.spec_try_start() == g,
        g.spec_complete().spec_try_start().spec_count() == g.spec_count(),
        g.spec_complete().spec_try_start() != g.spec_complete(),
{
    assert(g.spec_complete().spec_count() < g.spec_complete().spec_limit());
}

} // verus!
