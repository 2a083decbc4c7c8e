//! The hourly file-list compactor.
//!
//! A run resolves a starting instant, quantizes it to a UTC hour, verifies
//! that every per-stream compactor has passed that hour, and then drives the
//! merge-one-hour protocol: lock, list, fetch, merge, publish, clean,
//! unlock.  The protocol is a state machine here; the caller performs each
//! returned action against the object store and the lock service and feeds
//! the outcome back in.  The global offset advances only after a successful
//! publish and clean.

use crate::codec::bytes_views;
use crate::codec::merge_manifests;
use crate::codec::spec_decode_inputs;
use crate::codec::spec_merged_payload;
use crate::codec::zstd_accepts;
use crate::codec::zstd_frame_of;
use crate::codec::zstd_unframe_of;
use crate::codec::ZSTD_LEVEL;
use vstd::prelude::*;
use vstd::string::StringExecFns;

verus! {

/// One hour in microseconds.
pub const HOUR_MICROS: i64 = 3_600_000_000;

/// The last instant the calendar formatter accepts: the final microsecond
/// of year 9999.
pub const MAX_TS_MICROS: i64 = 253_402_300_799_999_999;

/// The instant a run starts from: the caller's offset, or, when that is
/// zero, the earliest stream creation instant (and never later than now).
pub open spec fn spec_min_created(now: i64, created: Seq<i64>) -> int
    decreases created.len(),
{
    if created.len() == 0 {
        now as int
    } else {
        let m = spec_min_created(now, created.drop_last());
        if created.last() < m {
            created.last() as int
        } else {
            m
        }
    }
}

/// See [`spec_min_created`]; a non-zero caller offset is used as is.
pub open spec fn spec_resolve_offset(offset: i64, now: i64, created: Seq<i64>) -> int {
    if offset != 0 {
        offset as int
    } else {
        spec_min_created(now, created)
    }
}

/// The start of the UTC hour containing `ts`.
pub open spec fn spec_hour_floor(ts: int) -> int {
    ts - (ts % (HOUR_MICROS as int))
}

/// Every per-stream compactor has passed `offset`: its own offset, kept one
/// hour ahead of its last finished hour, stands at least one hour beyond.
pub open spec fn spec_streams_ready(offset: int, so: Seq<i64>) -> bool {
    so.len() > 0 && forall|i: int| 0 <= i < so.len() ==> so[i] - HOUR_MICROS >= offset
}

proof fn lemma_min_created_bounds(now: i64, created: Seq<i64>)
    ensures
        spec_min_created(now, created) <= now,
        spec_min_created(now, created) == now || exists|i: int|
            0 <= i < created.len() && created[i] == spec_min_created(now, created),
    decreases created.len(),
{
    if created.len() > 0 {
        lemma_min_created_bounds(now, created.drop_last());
        let m = spec_min_created(now, created.drop_last());
        if !(created.last() < m) && m != now {
            let i = choose|i: int| 0 <= i < created.len() - 1 && created.drop_last()[i] == m;
            assert(created[i] == m);
        }
    }
}

/// The global offset never decreases: a run that advances writes the start
/// of the hour it merged plus one hour, which never falls below the offset
/// the run started from.
pub proof fn lemma_offset_monotonic(ts: int)
    requires
        0 <= ts,
    ensures
        0 <= spec_hour_floor(ts) <= ts < spec_hour_floor(ts) + HOUR_MICROS,
        spec_hour_floor(ts) % (HOUR_MICROS as int) == 0,
{
    let h = HOUR_MICROS as int;
    assert(0 <= ts % h < h);
    assert((ts - ts % h) % h == 0) by {
        vstd::arithmetic::div_mod::lemma_mod_multiples_vanish(ts / h, 0, h);
        assert(ts - ts % h == h * (ts / h));
    }
}

/// Progress gating: when a run merges hour `H`, every per-stream offset had
/// already passed `H`'s start by at least one hour.
pub proof fn lemma_progress_gating(res: int, so: Seq<i64>)
    requires
        0 <= res,
        spec_streams_ready(res, so),
    ensures
        forall|i: int| 0 <= i < so.len() ==> so[i] - HOUR_MICROS >= spec_hour_floor(res),
{
    lemma_offset_monotonic(res);
}

/// Resolve the instant a run starts from.
pub fn resolve_offset(offset: i64, now: i64, created: &Vec<i64>) -> (r: i64)
    ensures
        r as int == spec_resolve_offset(offset, now, created@),
{
    if offset != 0 {
        return offset;
    }
    let mut m = now;
    let mut i: usize = 0;
    proof {
        assert(created@.take(0) =~= Seq::<i64>::empty());
    }
    while i < created.len()
        invariant
            0 <= i <= created@.len(),
            m as int == spec_min_created(now, created@.take(i as int)),
        decreases created@.len() - i,
    {
        let c = created[i];
        if c < m {
            m = c;
        }
        i += 1;
        proof {
            assert(created@.take(i as int).drop_last() =~= created@.take(i as int - 1));
            assert(created@.take(i as int).last() == created@[i as int - 1]);
        }
    }
    proof {
        assert(created@.take(created@.len() as int) =~= created@);
    }
    m
}

/// Check that every per-stream offset has passed `offset` by an hour.
pub fn streams_ready(offset: i64, stream_offsets: &Vec<i64>) -> (r: bool)
    requires
        forall|i: int| 0 <= i < stream_offsets@.len() ==> 0 <= #[trigger] stream_offsets@[i],
    ensures
        r == spec_streams_ready(offset as int, stream_offsets@),
{
    if stream_offsets.len() == 0 {
        return false;
    }
    let mut i: usize = 0;
    while i < stream_offsets.len()
        invariant
            0 <= i <= stream_offsets@.len(),
            forall|j: int| 0 <= j < stream_offsets@.len() ==> 0 <= #[trigger] stream_offsets@[j],
            forall|j: int| 0 <= j < i ==> #[trigger] stream_offsets@[j] - HOUR_MICROS >= offset,
        decreases stream_offsets@.len() - i,
    {
        if stream_offsets[i] - HOUR_MICROS < offset {
            return false;
        }
        i += 1;
    }
    true
}

/// The start of the UTC hour containing `ts`.
pub fn hour_floor(ts: i64) -> (r: i64)
    requires
        0 <= ts,
    ensures
        r as int == spec_hour_floor(ts as int),
        0 <= r <= ts,
{
    proof {
        lemma_offset_monotonic(ts as int);
    }
    ts - ts % HOUR_MICROS
}

/// What one compactor run decides to do.
#[derive(Clone, Copy, Debug, PartialEq, Eq, Structural)]
pub enum RunPlan {
    /// Nothing to do: no stream, or some stream has not caught up.
    Skip,
    /// Merge the hour starting at this instant and, on success, advance the
    /// global offset to one hour past it.
    MergeHour { hour: i64 },
}

/// Decide one compactor run from the caller's offset, the clock, the
/// stream creation instants, and the per-stream compact offsets.
pub fn plan_run(offset: i64, now: i64, created: &Vec<i64>, stream_offsets: &Vec<i64>) -> (r:
    RunPlan)
    requires
        0 <= offset <= MAX_TS_MICROS,
        0 <= now <= MAX_TS_MICROS,
        forall|i: int| 0 <= i < created@.len() ==> 0 <= #[trigger] created@[i] <= MAX_TS_MICROS,
        forall|i: int| 0 <= i < stream_offsets@.len() ==> 0 <= #[trigger] stream_offsets@[i],
    ensures
        ({
            let res = spec_resolve_offset(offset, now, created@);
            match r {
                RunPlan::Skip => res == 0 || !spec_streams_ready(res, stream_offsets@),
                RunPlan::MergeHour { hour } => res != 0 && spec_streams_ready(
                    res,
                    stream_offsets@,
                ) && hour as int == spec_hour_floor(res) && 0 <= hour <= MAX_TS_MICROS,
            }
        }),
{
    proof {
        lemma_min_created_bounds(now, created@);
    }
    let resolved = resolve_offset(offset, now, created);
    proof {
        if offset == 0 && spec_min_created(now, created@) != now {
            let i = choose|i: int|
                0 <= i < created@.len() && created@[i] == spec_min_created(now, created@);
            assert(0 <= created@[i] <= MAX_TS_MICROS);
        }
        assert(0 <= resolved <= MAX_TS_MICROS);
    }
    if resolved == 0 {
        return RunPlan::Skip;
    }
    if !streams_ready(resolved, stream_offsets) {
        return RunPlan::Skip;
    }
    let hour = hour_floor(resolved);
    RunPlan::MergeHour { hour }
}

/// Whether the scheduler should drive the compactor at all.
pub fn should_compact(is_compactor: bool, enabled: bool) -> (r: bool)
    ensures
        r == (is_compactor && enabled),
{
    is_compactor && enabled
}

/// The `/YYYY/MM/DD/HH/` path fragment of the UTC hour containing `ts`.
pub uninterp spec fn hour_prefix_of(ts: int) -> Seq<char>;

/// Relies on chrono's `DateTime::from_timestamp_micros` and `format`: the
/// UTC calendar rendering of an in-range instant is a function of the
/// instant alone.
#[verifier::external_body]
fn format_hour_prefix(ts: i64) -> (r: String)
    requires
        0 <= ts <= MAX_TS_MICROS,
    ensures
        r@ == hour_prefix_of(ts as int),
{
    let dt = chrono::DateTime::<chrono::Utc>::from_timestamp_micros(ts).unwrap();
    dt.format("/%Y/%m/%d/%H/").to_string()
}

/// The object-store prefix that lists the manifests of the hour at `h`.
pub open spec fn spec_prefix(h: int) -> Seq<char> {
    "file_list"@ + hour_prefix_of(h)
}

/// The object name a merge of the hour at `h` publishes under id `id`.
pub open spec fn spec_object_name(h: int, id: Seq<char>) -> Seq<char> {
    spec_prefix(h) + id + ".json.zst"@
}

/// How one merge-one-hour pass ended.
#[derive(Clone, Copy, Debug, PartialEq, Eq, Structural)]
pub enum MergeOutcome {
    /// A merged manifest was published and the inputs were deleted.
    Published,
    /// Another node holds the lock; nothing was done.
    SkippedLock,
    /// One manifest at most sits under the prefix; nothing to merge.
    SkippedFew,
    /// The upload failed; the inputs were kept for the next run.
    SkippedUpload,
    /// Listing, fetching or decoding failed; the error propagates.
    Failed,
}

/// Where a merge-one-hour pass stands.
#[derive(Clone, Copy, Debug, PartialEq, Eq, Structural)]
pub enum MergeState {
    Start,
    Locking,
    Listing,
    Merging,
    Publishing,
    Cleaning,
    Unlocking,
    Done,
}

/// What the caller must do next against the lock service or object store.
#[derive(Clone, Copy, Debug, PartialEq, Eq, Structural)]
pub enum MergeAction {
    /// Acquire the cluster lock under [`MergeJob::lock_key`] with the
    /// configured timeout; report the outcome through `on_lock`.
    AcquireLock,
    /// List the objects under [`MergeJob::prefix`]; report through
    /// `on_listed`, or `fail` on a store error.
    List,
    /// Fetch the bytes of every name in `names`, in order; report through
    /// `on_fetched`, or `fail` on a store error.
    Fetch,
    /// Upload `output_data` under `output_name`; report through `on_put`.
    Put,
    /// Delete every name in `names`, logging failures; then `on_cleaned`.
    Delete,
    /// Release the cluster lock; then `on_unlocked`.
    Unlock,
    /// The pass is over; read the outcome and advance the offset when
    /// `next_offset` says so.
    Finish,
}

/// The merge-one-hour protocol of the compactor, one hour per job.
pub struct MergeJob {
    /// Cluster mode: serialize publishing through the distributed lock.
    pub cluster: bool,
    /// Start instant of the hour being merged.
    pub hour: i64,
    /// Unique id for the published object name.
    pub id: String,
    /// Protocol position.
    pub state: MergeState,
    /// Whether this job holds the cluster lock.
    pub lock_held: bool,
    /// Meaningful once the pass reaches `Unlocking` or `Done`.
    pub outcome: MergeOutcome,
    /// The listed input objects of the hour.
    pub names: Vec<String>,
    /// Name of the manifest to publish, set entering `Publishing`.
    pub output_name: String,
    /// Bytes of the manifest to publish, set entering `Publishing`.
    pub output_data: Vec<u8>,
}

impl MergeJob {
    /// The protocol invariant; lock safety lives here: past listing, a
    /// cluster-mode job holds the lock, so only a lock holder publishes.
    pub open spec fn inv(self) -> bool {
        &&& 0 <= self.hour <= MAX_TS_MICROS
        &&& (self.lock_held ==> self.cluster)
        &&& ((self.state is Listing || self.state is Merging || self.state is Publishing
            || self.state is Cleaning) && self.cluster ==> self.lock_held)
        &&& (self.state is Locking ==> self.cluster)
        &&& (self.state is Done ==> !self.lock_held)
        &&& (self.state is Unlocking ==> self.lock_held)
        &&& ((self.state is Start || self.state is Locking) ==> !self.lock_held)
    }

    /// The job's identity never changes across steps.
    pub open spec fn same_target(self, other: MergeJob) -> bool {
        &&& other.cluster == self.cluster
        &&& other.hour == self.hour
        &&& other.id == self.id
    }

    /// How a pass wraps up with `outcome`: release the lock if held, else
    /// finish at once.
    pub open spec fn wrapped_up(pre: MergeJob, post: MergeJob, a: MergeAction, o: MergeOutcome)
        -> bool {
        &&& post.outcome == o
        &&& post.names == pre.names
        &&& (pre.lock_held ==> post.state is Unlocking && post.lock_held && a
            == MergeAction::Unlock)
        &&& (!pre.lock_held ==> post.state is Done && !post.lock_held && a == MergeAction::Finish)
    }

    /// A fresh pass over the hour starting at `hour`.
    pub fn new(cluster: bool, hour: i64, id: String) -> (job: MergeJob)
        requires
            0 <= hour <= MAX_TS_MICROS,
        ensures
            job.inv(),
            job.state is Start,
            job.cluster == cluster,
            job.hour == hour,
            job.id == id,
            !job.lock_held,
    {
        MergeJob {
            cluster,
            hour,
            id,
            state: MergeState::Start,
            lock_held: false,
            outcome: MergeOutcome::Failed,
            names: Vec::new(),
            output_name: String::new(),
            output_data: Vec::new(),
        }
    }

    /// The fixed identity of the cluster lock.
    pub fn lock_key(&self) -> (r: String)
        ensures
            r@ == "compactor/file_list"@,
    {
        String::from_str("compactor/file_list")
    }

    /// The listing prefix of the hour being merged.
    pub fn prefix(&self) -> (r: String)
        requires
            self.inv(),
        ensures
            r@ == spec_prefix(self.hour as int),
    {
        let p = format_hour_prefix(self.hour);
        String::from_str("file_list").concat(p.as_str())
    }

    /// Start the pass: cluster mode acquires the lock first, single-node
    /// mode lists at once.
    pub fn begin(&mut self) -> (a: MergeAction)
        requires
            old(self).inv(),
            old(self).state is Start,
        ensures
            final(self).inv(),
            old(self).same_target(*final(self)),
            old(self).cluster ==> final(self).state is Locking && a == MergeAction::AcquireLock,
            !old(self).cluster ==> final(self).state is Listing && a == MergeAction::List,
            final(self).lock_held == old(self).lock_held,
    {
        if self.cluster {
            self.state = MergeState::Locking;
            MergeAction::AcquireLock
        } else {
            self.state = MergeState::Listing;
            MergeAction::List
        }
    }

    /// Report the lock attempt.  A failed or timed-out acquisition skips
    /// the pass: another node is handling the hour.
    pub fn on_lock(&mut self, acquired: bool) -> (a: MergeAction)
        requires
            old(self).inv(),
            old(self).state is Locking,
        ensures
            final(self).inv(),
            old(self).same_target(*final(self)),
            acquired ==> final(self).state is Listing && final(self).lock_held && a
                == MergeAction::List,
            !acquired ==> final(self).state is Done && !final(self).lock_held && a
                == MergeAction::Finish && final(self).outcome is SkippedLock,
    {
        if acquired {
            self.lock_held = true;
            self.state = MergeState::Listing;
            MergeAction::List
        } else {
            self.outcome = MergeOutcome::SkippedLock;
            self.state = MergeState::Done;
            MergeAction::Finish
        }
    }

    fn wrap_up(&mut self, o: MergeOutcome) -> (a: MergeAction)
        requires
            old(self).inv(),
            !(old(self).state is Done),
            !(old(self).state is Unlocking),
        ensures
            final(self).inv(),
            old(self).same_target(*final(self)),
            MergeJob::wrapped_up(*old(self), *final(self), a, o),
            final(self).output_name == old(self).output_name,
            final(self).output_data == old(self).output_data,
    {
        self.outcome = o;
        if self.lock_held {
            self.state = MergeState::Unlocking;
            MergeAction::Unlock
        } else {
            self.state = MergeState::Done;
            MergeAction::Finish
        }
    }

    /// Report the listing of the hour's prefix.  One object at most means
    /// there is nothing to merge.
    pub fn on_listed(&mut self, names: Vec<String>) -> (a: MergeAction)
        requires
            old(self).inv(),
            old(self).state is Listing,
        ensures
            final(self).inv(),
            old(self).same_target(*final(self)),
            names@.len() <= 1 ==> MergeJob::wrapped_up(
                MergeJob { names: names, ..*old(self) },
                *final(self),
                a,
                MergeOutcome::SkippedFew,
            ),
            names@.len() > 1 ==> final(self).state is Merging && a == MergeAction::Fetch && final(self).names == names && final(self).lock_held == old(self).lock_held,
    {
        self.names = names;
        if self.names.len() <= 1 {
            self.wrap_up(MergeOutcome::SkippedFew)
        } else {
            self.state = MergeState::Merging;
            MergeAction::Fetch
        }
    }

    /// Report the fetched bytes of every listed object, in listing order.
    /// A decode or compression failure fails the pass; otherwise the merged
    /// manifest is built and the pass moves to publishing.
    pub fn on_fetched(&mut self, contents: Vec<Vec<u8>>) -> (a: MergeAction)
        requires
            old(self).inv(),
            old(self).state is Merging,
        ensures
            final(self).inv(),
            old(self).same_target(*final(self)),
            a == MergeAction::Put ==> ({
                &&& final(self).state is Publishing
                &&& final(self).lock_held == old(self).lock_held
                &&& final(self).names == old(self).names
                &&& final(self).output_name@ == spec_object_name(old(self).hour as int, old(self).id@)
                &&& (spec_decode_inputs(bytes_views(contents@)) matches Some(recs) && final(self).output_data@ == zstd_frame_of(spec_merged_payload(recs), ZSTD_LEVEL as int)
                    && zstd_unframe_of(final(self).output_data@) == Some(
                    spec_merged_payload(recs),
                ))
            }),
            a != MergeAction::Put ==> MergeJob::wrapped_up(
                *old(self),
                *final(self),
                a,
                MergeOutcome::Failed,
            ),
            a == MergeAction::Put <==> (spec_decode_inputs(bytes_views(contents@)) matches Some(
                recs,
            ) && zstd_accepts(spec_merged_payload(recs), ZSTD_LEVEL as int)),
    {
        match merge_manifests(contents) {
            Ok(data) => {
                let p = format_hour_prefix(self.hour);
                let name = String::from_str("file_list").concat(p.as_str()).concat(
                    self.id.as_str(),
                ).concat(".json.zst");
                self.output_name = name;
                self.output_data = data;
                self.state = MergeState::Publishing;
                MergeAction::Put
            },
            Err(_) => self.wrap_up(MergeOutcome::Failed),
        }
    }

    /// Report the upload.  A failure keeps the inputs and skips: the next
    /// run will re-list and retry; a success moves on to deleting them.
    pub fn on_put(&mut self, ok: bool) -> (a: MergeAction)
        requires
            old(self).inv(),
            old(self).state is Publishing,
        ensures
            final(self).inv(),
            old(self).same_target(*final(self)),
            ok ==> final(self).state is Cleaning && a == MergeAction::Delete && final(self).names
                == old(self).names && final(self).lock_held == old(self).lock_held,
            !ok ==> MergeJob::wrapped_up(*old(self), *final(self), a, MergeOutcome::SkippedUpload),
    {
        if ok {
            self.state = MergeState::Cleaning;
            MergeAction::Delete
        } else {
            self.wrap_up(MergeOutcome::SkippedUpload)
        }
    }

    /// Report that the inputs were deleted (failures logged, not fatal).
    pub fn on_cleaned(&mut self) -> (a: MergeAction)
        requires
            old(self).inv(),
            old(self).state is Cleaning,
        ensures
            final(self).inv(),
            old(self).same_target(*final(self)),
            MergeJob::wrapped_up(*old(self), *final(self), a, MergeOutcome::Published),
    {
        self.wrap_up(MergeOutcome::Published)
    }

    /// Report a listing or fetching error: the pass fails, the lock is
    /// still released.
    pub fn fail(&mut self) -> (a: MergeAction)
        requires
            old(self).inv(),
            old(self).state is Listing || old(self).state is Merging || old(
                self,
            ).state is Publishing || old(self).state is Cleaning,
        ensures
            final(self).inv(),
            old(self).same_target(*final(self)),
            MergeJob::wrapped_up(*old(self), *final(self), a, MergeOutcome::Failed),
    {
        self.wrap_up(MergeOutcome::Failed)
    }

    /// Report that the lock was released.
    pub fn on_unlocked(&mut self) -> (a: MergeAction)
        requires
            old(self).inv(),
            old(self).state is Unlocking,
        ensures
            final(self).inv(),
            old(self).same_target(*final(self)),
            final(self).state is Done,
            !final(self).lock_held,
            final(self).outcome == old(self).outcome,
            a == MergeAction::Finish,
    {
        self.lock_held = false;
        self.state = MergeState::Done;
        MergeAction::Finish
    }

    /// The global offset to write after the pass: one hour past the merged
    /// hour, and only when the pass published.
    pub fn next_offset(&self) -> (r: Option<i64>)
        requires
            self.inv(),
            self.state is Done,
        ensures
            r is Some <==> self.outcome is Published,
            r matches Some(v) ==> v == self.hour + HOUR_MICROS,
    {
        match self.outcome {
            MergeOutcome::Published => Some(self.hour + HOUR_MICROS),
            _ => None,
        }
    }
}

/// Lock safety: in cluster mode a job stands in a publishing or cleaning
/// state only while it holds the lock, so concurrent passes over one hour
/// are serialized by the lock service.
pub proof fn lemma_publish_holds_lock(job: MergeJob)
    requires
        job.inv(),
        job.cluster,
        job.state is Publishing || job.state is Cleaning,
    ensures
        job.lock_held,
{
}

} // verus!
