//! The streaming scheduler: turns decoded requests into load jobs, one
//! per unique tile address, retries failures with exponential backoff up
//! to a bounded attempt count, and commits completed loads into the
//! atlas under a per-frame budget.

use vstd::prelude::*;

use crate::feedback::FeedbackRequest;
use crate::page_table::{spec_slot_key, PageTableKey, PageTableManager};

verus! {

/// The lifecycle of one load job.
#[derive(Clone, Copy, PartialEq, Eq, Structural, Debug)]
pub enum JobState {
    /// Waiting to be handed to a worker (possibly after a backoff).
    Pending,
    /// A worker is fetching the tile.
    Loading,
    /// The fetch finished; the tile waits for its commit.
    Ready,
    /// The fetch failed; the job waits for its retry or is dropped.
    Failed,
}

/// One asynchronous tile load.
#[derive(Clone, Copy, PartialEq, Eq, Structural, Debug)]
pub struct StreamingJob {
    pub request: FeedbackRequest,
    pub state: JobState,
    pub attempts: u32,
    pub retry_at_frame: u64,
}

/// Owns the active jobs; at most one job exists per tile address.
pub struct StreamingScheduler {
    jobs: Vec<StreamingJob>,
    max_attempts: u32,
}

impl StreamingScheduler {
    /// The active jobs, for specification.
    pub closed spec fn spec_jobs(self) -> Seq<StreamingJob> {
        self.jobs@
    }

    /// The bound on fetch attempts per tile.
    pub closed spec fn spec_max_attempts(self) -> u32 {
        self.max_attempts
    }

    /// The de-duplication invariant: no two jobs share a tile address.
    pub open spec fn wf(self) -> bool {
        forall|i: int, j: int|
            0 <= i < j < self.spec_jobs().len() ==> (#[trigger] self.spec_jobs()[i]).request != (
            #[trigger] self.spec_jobs()[j]).request
    }

    /// Whether some job exists for a tile address.
    pub open spec fn spec_has_job(self, r: FeedbackRequest) -> bool {
        exists|i: int|
            0 <= i < self.spec_jobs().len() && (#[trigger] self.spec_jobs()[i]).request == r
    }

    /// Whether some job finished its fetch and waits for its commit.
    pub open spec fn spec_has_ready_job(self) -> bool {
        exists|i: int|
            0 <= i < self.spec_jobs().len() && (#[trigger] self.spec_jobs()[i]).state is Ready
    }

    /// A fresh scheduler with no jobs.
    pub fn new(max_attempts: u32) -> (r: StreamingScheduler)
        ensures
            r.wf(),
            r.spec_jobs().len() == 0,
            r.spec_max_attempts() == max_attempts,
    {
        StreamingScheduler { jobs: Vec::new(), max_attempts }
    }

    /// Number of active jobs.
    pub fn job_count(&self) -> (r: usize)
        ensures
            r == self.spec_jobs().len(),
    {
        self.jobs.len()
    }

    /// Whether some job exists for a tile address, by linear scan.
    pub fn has_job(&self, r: &FeedbackRequest) -> (found: bool)
        ensures
            found == self.spec_has_job(*r),
    {
        let n = self.jobs.len();
        let mut i: usize = 0;
        while i < n
            invariant
                n == self.spec_jobs().len(),
                0 <= i <= n,
                forall|j: int| 0 <= j < i ==> (#[trigger] self.spec_jobs()[j]).request != *r,
            decreases n - i,
        {
            if self.jobs[i].request.virtual_tex_id == r.virtual_tex_id && self.jobs[i].request.tile
                == r.tile {
                assert(self.spec_jobs()[i as int].request == *r);
                return true;
            }
            i = i + 1;
        }
        false
    }

    /// Adds a pending job for a tile address, unless one already exists:
    /// dispatching the same address any number of times in a frame
    /// leaves at most one job for it.
    pub fn enqueue(&mut self, r: FeedbackRequest)
        requires
            old(self).wf(),
        ensures
            final(self).wf(),
            final(self).spec_max_attempts() == old(self).spec_max_attempts(),
            final(self).spec_has_job(r),
            old(self).spec_has_job(r) ==> *final(self) == *old(self),
            !old(self).spec_has_job(r) ==> final(self).spec_jobs() == old(
                self,
            ).spec_jobs().push(
                StreamingJob { request: r, state: JobState::Pending, attempts: 0, retry_at_frame: 0 },
            ),
    {
        if self.has_job(&r) {
            return ;
        }
        let job = StreamingJob { request: r, state: JobState::Pending, attempts: 0, retry_at_frame: 0 };
        self.jobs.push(job);
        proof {
            assert(self.spec_jobs()[self.spec_jobs().len() - 1].request == r);
        }
    }

    /// Feeds one frame's decoded request set in: every request that is
    /// not already resident in the page table gets at most one job.
    pub fn enqueue_requests(&mut self, requests: &Vec<FeedbackRequest>, table: &PageTableManager)
        requires
            old(self).wf(),
        ensures
            final(self).wf(),
            final(self).spec_max_attempts() == old(self).spec_max_attempts(),
            forall|q: int|
                0 <= q < requests@.len() ==> {
                    let key = PageTableKey {
                        virtual_tex_id: (#[trigger] requests@[q]).virtual_tex_id,
                        tile: requests@[q].tile,
                    };
                    table.spec_is_resident(key) || final(self).spec_has_job(requests@[q])
                },
            forall|i: int|
                0 <= i < final(self).spec_jobs().len() ==> (old(self).spec_has_job(
                    (#[trigger] final(self).spec_jobs()[i]).request,
                ) || requests@.contains(final(self).spec_jobs()[i].request)),
    {
        let n = requests.len();
        let mut q: usize = 0;
        while q < n
            invariant
                n == requests@.len(),
                0 <= q <= n,
                self.wf(),
                self.spec_max_attempts() == old(self).spec_max_attempts(),
                forall|t: int|
                    0 <= t < q ==> {
                        let key = PageTableKey {
                            virtual_tex_id: (#[trigger] requests@[t]).virtual_tex_id,
                            tile: requests@[t].tile,
                        };
                        table.spec_is_resident(key) || self.spec_has_job(requests@[t])
                    },
                forall|i: int|
                    0 <= i < self.spec_jobs().len() ==> (old(self).spec_has_job(
                        (#[trigger] self.spec_jobs()[i]).request,
                    ) || requests@.contains(self.spec_jobs()[i].request)),
            decreases n - q,
        {
            let r = requests[q];
            let key = PageTableKey { virtual_tex_id: r.virtual_tex_id, tile: r.tile };
            let resident = match table.lookup(&key) {
                Some(_) => true,
                None => false,
            };
            if !resident {
                let ghost before = *self;
                self.enqueue(r);
                proof {
                    assert(requests@.contains(r)) by {
                        assert(requests@[q as int] == r);
                    }
                    assert forall|i: int|
                        0 <= i < self.spec_jobs().len() implies (old(self).spec_has_job(
                        (#[trigger] self.spec_jobs()[i]).request,
                    ) || requests@.contains(self.spec_jobs()[i].request)) by {
                        if i < before.spec_jobs().len() {
                            assert(self.spec_jobs()[i] == before.spec_jobs()[i]);
                        }
                    }
                    assert forall|t: int|
                        0 <= t < q + 1 implies {
                        let key2 = PageTableKey {
                            virtual_tex_id: (#[trigger] requests@[t]).virtual_tex_id,
                            tile: requests@[t].tile,
                        };
                        table.spec_is_resident(key2) || self.spec_has_job(requests@[t])
                    } by {
                        let key2 = PageTableKey {
                            virtual_tex_id: requests@[t].virtual_tex_id,
                            tile: requests@[t].tile,
                        };
                        if t < q && !table.spec_is_resident(key2) {
                            let w = choose|i: int|
                                0 <= i < before.spec_jobs().len() && (
                                #[trigger] before.spec_jobs()[i]).request == requests@[t];
                            assert(self.spec_jobs()[w] == before.spec_jobs()[w]);
                            assert(self.spec_has_job(requests@[t]));
                        }
                    }
                }
            }
            q = q + 1;
        }
    }

    /// Hands the next due pending job to a worker and marks it loading.
    /// Among the due jobs, a coarser level is always dispatched before a
    /// finer one, so a fallback for an address family is on its way
    /// before its finer tiles.
    pub fn dispatch_next(&mut self, frame: u64) -> (r: Option<(usize, FeedbackRequest)>)
        requires
            old(self).wf(),
        ensures
            final(self).wf(),
            final(self).spec_max_attempts() == old(self).spec_max_attempts(),
            match r {
                Some((i, req)) => {
                    &&& 0 <= i < old(self).spec_jobs().len()
                    &&& old(self).spec_jobs()[i as int].state is Pending
                    &&& old(self).spec_jobs()[i as int].retry_at_frame <= frame
                    &&& req == old(self).spec_jobs()[i as int].request
                    &&& final(self).spec_jobs() == old(self).spec_jobs().update(
                        i as int,
                        StreamingJob {
                            request: old(self).spec_jobs()[i as int].request,
                            state: JobState::Loading,
                            attempts: old(self).spec_jobs()[i as int].attempts,
                            retry_at_frame: old(self).spec_jobs()[i as int].retry_at_frame,
                        },
                    )
                    // No due job waits at a coarser level than the one
                    // dispatched.
                    &&& forall|j: int|
                        0 <= j < old(self).spec_jobs().len() && (#[trigger] old(
                            self,
                        ).spec_jobs()[j]).state is Pending && old(self).spec_jobs()[j].retry_at_frame
                            <= frame ==> old(self).spec_jobs()[j].request.tile.mip_level <= old(
                            self,
                        ).spec_jobs()[i as int].request.tile.mip_level
                },
                None => {
                    &&& *final(self) == *old(self)
                    &&& forall|i: int|
                        0 <= i < old(self).spec_jobs().len() ==> !((#[trigger] old(
                            self,
                        ).spec_jobs()[i]).state is Pending && old(self).spec_jobs()[i].retry_at_frame
                            <= frame)
                },
            },
    {
        let n = self.jobs.len();
        let mut best: Option<usize> = None;
        let mut i: usize = 0;
        while i < n
            invariant
                n == self.spec_jobs().len(),
                0 <= i <= n,
                *self == *old(self),
                old(self).wf(),
                match best {
                    Some(b) => {
                        &&& 0 <= b < n
                        &&& self.spec_jobs()[b as int].state is Pending
                        &&& self.spec_jobs()[b as int].retry_at_frame <= frame
                        &&& forall|j: int|
                            0 <= j < i && (#[trigger] self.spec_jobs()[j]).state is Pending
                                && self.spec_jobs()[j].retry_at_frame <= frame
                                ==> self.spec_jobs()[j].request.tile.mip_level
                                <= self.spec_jobs()[b as int].request.tile.mip_level
                    },
                    None => forall|j: int|
                        0 <= j < i ==> !((#[trigger] self.spec_jobs()[j]).state is Pending
                            && self.spec_jobs()[j].retry_at_frame <= frame),
                },
            decreases n - i,
        {
            let job = self.jobs[i];
            let is_pending = match job.state {
                JobState::Pending => true,
                _ => false,
            };
            if is_pending && job.retry_at_frame <= frame {
                let take = match best {
                    None => true,
                    Some(b) => self.jobs[b].request.tile.mip_level < job.request.tile.mip_level,
                };
                if take {
                    best = Some(i);
                }
            }
            i = i + 1;
        }
        match best {
            None => None,
            Some(b) => {
                let job = self.jobs[b];
                self.jobs.set(
                    b,
                    StreamingJob {
                        request: job.request,
                        state: JobState::Loading,
                        attempts: job.attempts,
                        retry_at_frame: job.retry_at_frame,
                    },
                );
                proof {
                    assert forall|x: int, y: int|
                        0 <= x < y < self.spec_jobs().len() implies (
                    #[trigger] self.spec_jobs()[x]).request != (
                    #[trigger] self.spec_jobs()[y]).request by {
                        assert(self.spec_jobs()[x].request == old(self).spec_jobs()[x].request);
                        assert(self.spec_jobs()[y].request == old(self).spec_jobs()[y].request);
                    }
                }
                Some((b, job.request))
            },
        }
    }

    /// Records a worker's result. Success makes the job ready for its
    /// commit; failure retries with exponential backoff, doubling the
    /// wait per attempt, until the attempt bound drops the job for good.
    pub fn on_fetch_result(&mut self, i: usize, success: bool, frame: u64)
        requires
            old(self).wf(),
            i < old(self).spec_jobs().len(),
            old(self).spec_jobs()[i as int].state is Loading,
            frame < 0xffff_ffff_0000_0000,
        ensures
            final(self).wf(),
            final(self).spec_max_attempts() == old(self).spec_max_attempts(),
            success ==> final(self).spec_jobs() == old(self).spec_jobs().update(
                i as int,
                StreamingJob {
                    request: old(self).spec_jobs()[i as int].request,
                    state: JobState::Ready,
                    attempts: old(self).spec_jobs()[i as int].attempts,
                    retry_at_frame: old(self).spec_jobs()[i as int].retry_at_frame,
                },
            ),
            !success && old(self).spec_jobs()[i as int].attempts + 1 < old(
                self,
            ).spec_max_attempts() ==> final(self).spec_jobs() == old(self).spec_jobs().update(
                i as int,
                StreamingJob {
                    request: old(self).spec_jobs()[i as int].request,
                    state: JobState::Pending,
                    attempts: (old(self).spec_jobs()[i as int].attempts + 1) as u32,
                    retry_at_frame: (frame + (1u64 << (if old(
                        self,
                    ).spec_jobs()[i as int].attempts < 16 {
                        old(self).spec_jobs()[i as int].attempts
                    } else {
                        16u32
                    }))) as u64,
                },
            ),
            !success && old(self).spec_jobs()[i as int].attempts + 1 >= old(
                self,
            ).spec_max_attempts() ==> final(self).spec_jobs() == old(self).spec_jobs().remove(
                i as int,
            ),
    {
        let job = self.jobs[i];
        if success {
            self.jobs.set(
                i,
                StreamingJob {
                    request: job.request,
                    state: JobState::Ready,
                    attempts: job.attempts,
                    retry_at_frame: job.retry_at_frame,
                },
            );
            proof {
                lemma_update_same_request_keeps_wf(old(self).spec_jobs(), self.spec_jobs());
            }
        } else if self.max_attempts > 0 && job.attempts < self.max_attempts - 1 {
            let shift: u32 = if job.attempts < 16 {
                job.attempts
            } else {
                16
            };
            assert(shift < 64);
            let backoff: u64 = 1u64 << shift;
            assert(backoff <= 0x1_0000) by (bit_vector)
                requires
                    backoff == 1u64 << shift,
                    shift <= 16,
            ;
            self.jobs.set(
                i,
                StreamingJob {
                    request: job.request,
                    state: JobState::Pending,
                    attempts: job.attempts + 1,
                    retry_at_frame: frame + backoff,
                },
            );
            proof {
                lemma_update_same_request_keeps_wf(old(self).spec_jobs(), self.spec_jobs());
            }
        } else {
            self.jobs.remove(i);
            proof {
                assert forall|a: int, b: int|
                    0 <= a < b < self.spec_jobs().len() implies (
                #[trigger] self.spec_jobs()[a]).request != (
                #[trigger] self.spec_jobs()[b]).request by {
                    let oa = if a < i as int {
                        a
                    } else {
                        a + 1
                    };
                    let ob = if b < i as int {
                        b
                    } else {
                        b + 1
                    };
                    assert(self.spec_jobs()[a] == old(self).spec_jobs()[oa]);
                    assert(self.spec_jobs()[b] == old(self).spec_jobs()[ob]);
                }
            }
        }
    }

    /// Removes one ready job and returns its address, for its commit.
    pub fn pop_ready(&mut self) -> (r: Option<FeedbackRequest>)
        requires
            old(self).wf(),
        ensures
            final(self).wf(),
            final(self).spec_max_attempts() == old(self).spec_max_attempts(),
            match r {
                Some(req) => {
                    &&& exists|i: int|
                        0 <= i < old(self).spec_jobs().len() && (#[trigger] old(
                            self,
                        ).spec_jobs()[i]).request == req && old(self).spec_jobs()[i].state
                            is Ready && final(self).spec_jobs() == old(self).spec_jobs().remove(i)
                },
                None => {
                    &&& *final(self) == *old(self)
                    &&& !old(self).spec_has_ready_job()
                },
            },
    {
        let n = self.jobs.len();
        let mut i: usize = 0;
        while i < n
            invariant
                n == self.spec_jobs().len(),
                0 <= i <= n,
                *self == *old(self),
                old(self).wf(),
                forall|j: int| 0 <= j < i ==> !((#[trigger] self.spec_jobs()[j]).state is Ready),
            decreases n - i,
        {
            let job = self.jobs[i];
            let is_ready = match job.state {
                JobState::Ready => true,
                _ => false,
            };
            if is_ready {
                self.jobs.remove(i);
                proof {
                    assert forall|a: int, b: int|
                        0 <= a < b < self.spec_jobs().len() implies (
                    #[trigger] self.spec_jobs()[a]).request != (
                    #[trigger] self.spec_jobs()[b]).request by {
                        let oa = if a < i as int {
                            a
                        } else {
                            a + 1
                        };
                        let ob = if b < i as int {
                            b
                        } else {
                            b + 1
                        };
                        assert(self.spec_jobs()[a] == old(self).spec_jobs()[oa]);
                        assert(self.spec_jobs()[b] == old(self).spec_jobs()[ob]);
                    }
                }
                return Some(job.request);
            }
            i = i + 1;
        }
        None
    }
}

/// Replacing one job with one for the same address keeps addresses
/// unique.
proof fn lemma_update_same_request_keeps_wf(a: Seq<StreamingJob>, b: Seq<StreamingJob>)
    requires
        a.len() == b.len(),
        forall|i: int| 0 <= i < a.len() ==> (#[trigger] b[i]).request == a[i].request,
        forall|i: int, j: int|
            0 <= i < j < a.len() ==> (#[trigger] a[i]).request != (#[trigger] a[j]).request,
    ensures
        forall|i: int, j: int|
            0 <= i < j < b.len() ==> (#[trigger] b[i]).request != (#[trigger] b[j]).request,
{
}

/// At most one job ever exists per tile address: two job indexes with
/// the same address are the same index.
pub proof fn lemma_job_dedup(s: StreamingScheduler, i: int, j: int)
    requires
        s.wf(),
        0 <= i < s.spec_jobs().len(),
        0 <= j < s.spec_jobs().len(),
        s.spec_jobs()[i].request == s.spec_jobs()[j].request,
    ensures
        i == j,
{
    if i < j {
        assert(s.spec_jobs()[i].request != s.spec_jobs()[j].request);
    } else if j < i {
        assert(s.spec_jobs()[j].request != s.spec_jobs()[i].request);
    }
}

/// What one commit step did with the ready job it took.
#[derive(Clone, Copy, PartialEq, Eq, Structural, Debug)]
pub enum CommitOutcome {
    /// No job was ready: nothing was taken and nothing changed.
    NoJobReady,
    /// The tile was bound to a slot and is resident now.
    Committed(PageTableKey),
    /// A slot already held the tile: the job was redundant and dropped
    /// without an upload.
    AlreadyBound(PageTableKey),
    /// Every slot was loading or pinned: the job was dropped, and the
    /// tile falls back to a coarser resident level.
    Dropped(PageTableKey),
}

/// Takes one ready job and commits it into the atlas: its tile is bound
/// to a slot (evicting an unpinned tile if need be) and marked resident.
/// A redundant or uncommittable job is dropped, never retried, and never
/// blocks the frame. Tiles pinned by the current frame's request set
/// keep their slots throughout.
pub fn commit_one(
    scheduler: &mut StreamingScheduler,
    table: &mut PageTableManager,
    pinned: &Vec<PageTableKey>,
) -> (r: CommitOutcome)
    requires
        old(scheduler).wf(),
        old(table).wf(),
    ensures
        final(scheduler).wf(),
        final(table).wf(),
        final(scheduler).spec_max_attempts() == old(scheduler).spec_max_attempts(),
        final(table).spec_frame() == old(table).spec_frame(),
        match r {
            CommitOutcome::NoJobReady => {
                &&& *final(scheduler) == *old(scheduler)
                &&& *final(table) == *old(table)
                &&& !old(scheduler).spec_has_ready_job()
            },
            CommitOutcome::Committed(key) => {
                &&& final(table).spec_is_resident(key)
                &&& final(scheduler).spec_jobs().len() == old(scheduler).spec_jobs().len() - 1
                &&& forall|j: int, k2: PageTableKey|
                    old(table).spec_resident_at(k2, j) && pinned@.contains(k2)
                        ==> final(table).spec_resident_at(k2, j)
            },
            CommitOutcome::AlreadyBound(key) => {
                &&& *final(table) == *old(table)
                &&& final(scheduler).spec_jobs().len() == old(scheduler).spec_jobs().len() - 1
                &&& exists|j: int|
                    0 <= j < final(table).spec_slots().len() && spec_slot_key(
                        #[trigger] final(table).spec_slots()[j],
                    ) == Some(key)
            },
            CommitOutcome::Dropped(key) => {
                &&& *final(table) == *old(table)
                &&& final(scheduler).spec_jobs().len() == old(scheduler).spec_jobs().len() - 1
                &&& old(table).spec_exhausted(pinned@)
            },
        },
{
    match scheduler.pop_ready() {
        None => CommitOutcome::NoJobReady,
        Some(req) => {
            let key = PageTableKey { virtual_tex_id: req.virtual_tex_id, tile: req.tile };
            if table.is_bound(&key) {
                return CommitOutcome::AlreadyBound(key);
            }
            match table.allocate(key, pinned) {
                Ok(slot) => {
                    let ghost mid = *table;
                    let ok = table.complete_load(slot);
                    proof {
                        assert(ok);
                        assert(table.spec_resident_at(key, slot as int));
                        assert forall|j: int, k2: PageTableKey|
                            old(table).spec_resident_at(k2, j) && pinned@.contains(k2) implies
                            table.spec_resident_at(k2, j) by {
                            assert(mid.spec_resident_at(k2, j));
                            assert(j != slot as int);
                        }
                    }
                    CommitOutcome::Committed(key)
                },
                Err(_) => CommitOutcome::Dropped(key),
            }
        },
    }
}

/// Commits completed loads into the atlas, at most `budget` per frame to
/// bound the per-frame upload cost. On return either the whole budget
/// was spent or no ready job remains: a redundant or uncommittable job
/// is dropped and the loop goes on, so one full slot pool never blocks
/// the rest of the frame's commits.
pub fn commit_ready_jobs(
    scheduler: &mut StreamingScheduler,
    table: &mut PageTableManager,
    pinned: &Vec<PageTableKey>,
    budget: u32,
) -> (committed: u32)
    requires
        old(scheduler).wf(),
        old(table).wf(),
    ensures
        final(scheduler).wf(),
        final(table).wf(),
        committed <= budget,
        final(table).spec_frame() == old(table).spec_frame(),
        committed == budget || !final(scheduler).spec_has_ready_job(),
{
    let mut committed: u32 = 0;
    while committed < budget
        invariant
            scheduler.wf(),
            table.wf(),
            0 <= committed <= budget,
            table.spec_frame() == old(table).spec_frame(),
        decreases scheduler.spec_jobs().len(),
    {
        match commit_one(scheduler, table, pinned) {
            CommitOutcome::NoJobReady => {
                return committed;
            },
            CommitOutcome::Committed(_) => {
                committed = committed + 1;
            },
            CommitOutcome::AlreadyBound(_) => {
            },
            CommitOutcome::Dropped(_) => {
            },
        }
    }
    committed
}

} // verus!
