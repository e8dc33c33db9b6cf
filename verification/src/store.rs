//! The persisted state: jobs, each owning the ordered scene set of one
//! source video, with the persistence contract of the pipeline — unique job
//! ids, atomic bulk replacement of a timeline, cascade deletion.
//!
//! The store is an in-memory value; the process around the library decides
//! where it lives. Every operation states exactly how it changes the store
//! and when each error is returned: bad input, a missing job, and internal
//! failures stay distinguishable.

use vstd::prelude::*;
use crate::probe::VideoInfo;
use crate::segment::Scene;

verus! {

/// The error taxonomy of the pipeline. Callers can always tell bad input
/// (`InvalidJobId`) from a missing job (`JobNotFound`) from processing
/// failures (everything else).
#[derive(Debug, Clone, Copy, PartialEq, Eq, Structural)]
pub enum Error {
    /// Job-id text that spells no UUID: bad input.
    InvalidJobId,
    /// No job under the given id.
    JobNotFound,
    /// An operation that needs at least one persisted scene found none.
    SceneSetEmpty,
    /// The probe tool could not be run or reported no usable metadata.
    ProbeFailure,
    /// Detector output that could not be understood at all; in practice
    /// unreachable, since malformed tokens are skipped one by one.
    DetectionParseFailure,
    /// The expected media asset is absent from its directory.
    SourceFileMissing,
    /// A per-scene extraction failed; non-fatal within a physical split.
    TranscodeFailure,
    /// The persistence layer refused an operation.
    PersistenceFailure,
}

impl Error {
    /// The HTTP class this error maps to: 400 for bad input, 404 for a
    /// missing job, 500 for every processing failure.
    pub fn status_code(&self) -> (r: u16)
        ensures
            r == match *self {
                Error::InvalidJobId => 400u16,
                Error::JobNotFound => 404u16,
                _ => 500u16,
            },
    {
        match *self {
            Error::InvalidJobId => 400,
            Error::JobNotFound => 404,
            _ => 500,
        }
    }
}

/// Lifecycle of a job: created before probing and detection finish, and
/// completed once its scenes are persisted.
#[derive(Debug, Clone, Copy, PartialEq, Eq, Structural)]
pub enum JobStatus {
    Processing,
    Completed,
}

/// One ingested source video and its timeline.
#[derive(Debug, Clone)]
pub struct JobRecord {
    /// Canonical UUID text, unique within the store.
    pub id: String,
    pub original_filename: String,
    pub file_size_bytes: u64,
    /// The source URL for URL-ingested jobs, nothing for uploads.
    pub source_url: Option<String>,
    /// Probed total duration; filled once probing completes.
    pub duration_ms: Option<u64>,
    pub status: JobStatus,
    pub created_at_ms: u64,
    pub updated_at_ms: u64,
    /// The job's timeline, ordered, replaced only in bulk.
    pub scenes: Vec<Scene>,
}

/// Index of the first job with this id, or `jobs.len()` when there is none.
pub open spec fn id_index(jobs: Seq<JobRecord>, id: Seq<char>) -> int
    decreases jobs.len(),
{
    if jobs.len() == 0 {
        0
    } else if jobs[0].id@ == id {
        0
    } else {
        1 + id_index(jobs.drop_first(), id)
    }
}

pub open spec fn has_job(jobs: Seq<JobRecord>, id: Seq<char>) -> bool {
    id_index(jobs, id) < jobs.len()
}

pub proof fn lemma_id_index(jobs: Seq<JobRecord>, id: Seq<char>)
    ensures
        0 <= id_index(jobs, id) <= jobs.len(),
        id_index(jobs, id) < jobs.len() ==> jobs[id_index(jobs, id)].id@ == id,
        forall|k: int| 0 <= k < id_index(jobs, id) ==> jobs[k].id@ != id,
    decreases jobs.len(),
{
    if jobs.len() == 0 {
    } else if jobs[0].id@ == id {
    } else {
        lemma_id_index(jobs.drop_first(), id);
        assert forall|k: int| 0 <= k < id_index(jobs, id) implies jobs[k].id@ != id by {
            if k > 0 {
                assert(jobs.drop_first()[k - 1] == jobs[k]);
            }
        }
    }
}

/// The first matching position is wherever a scan says it is.
pub proof fn lemma_id_index_of(jobs: Seq<JobRecord>, id: Seq<char>, j: int)
    requires
        0 <= j <= jobs.len(),
        forall|k: int| 0 <= k < j ==> jobs[k].id@ != id,
        j == jobs.len() || jobs[j].id@ == id,
    ensures
        id_index(jobs, id) == j,
    decreases jobs.len(),
{
    if jobs.len() == 0 {
    } else if jobs[0].id@ == id {
        assert(j == 0);
    } else {
        assert(j >= 1);
        let t = jobs.drop_first();
        assert forall|k: int| 0 <= k < j - 1 implies t[k].id@ != id by {
            assert(t[k] == jobs[k + 1]);
        }
        if j == jobs.len() {
            lemma_id_index_of(t, id, j - 1);
        } else {
            assert(t[j - 1] == jobs[j]);
            lemma_id_index_of(t, id, j - 1);
        }
    }
}

/// The store of all jobs.
#[derive(Debug)]
pub struct Store {
    pub jobs: Vec<JobRecord>,
}

impl Store {
    /// Job ids are unique, and every persisted timeline is laid out
    /// ascending by scene index — a readback never reorders.
    pub open spec fn wf(self) -> bool {
        jobs_wf(self.jobs@)
    }

    pub fn new() -> (r: Store)
        ensures
            r.wf(),
            r.jobs@.len() == 0,
    {
        Store { jobs: Vec::new() }
    }

    /// Index of the job with this id, if any.
    fn find_index(&self, id: &str) -> (r: Option<usize>)
        ensures
            match r {
                Some(k) => k == id_index(self.jobs@, id@) && k < self.jobs@.len()
                    && self.jobs@[k as int].id@ == id@,
                None => !has_job(self.jobs@, id@),
            },
    {
        let n: usize = self.jobs.len();
        let mut k: usize = 0;
        while k < n
            invariant
                0 <= k <= n == self.jobs@.len(),
                forall|t: int| 0 <= t < k ==> self.jobs@[t].id@ != id@,
            decreases n - k,
        {
            if str_eq(self.jobs[k].id.as_str(), id) {
                proof {
                    lemma_id_index_of(self.jobs@, id@, k as int);
                }
                return Some(k);
            }
            k = k + 1;
        }
        proof {
            lemma_id_index_of(self.jobs@, id@, n as int);
        }
        None
    }

    /// The job with this id, if any.
    pub fn find_job(&self, id: &str) -> (r: Option<&JobRecord>)
        ensures
            match r {
                Some(j) => has_job(self.jobs@, id@) && *j == self.jobs@[id_index(
                    self.jobs@,
                    id@,
                )],
                None => !has_job(self.jobs@, id@),
            },
    {
        match self.find_index(id) {
            Some(k) => Some(&self.jobs[k]),
            None => None,
        }
    }

    /// Creates a job in `Processing` state with an empty timeline. Fails
    /// without touching the store when the id is already taken, as the
    /// persistence layer's unique key would.
    pub fn create_job(
        &mut self,
        id: String,
        original_filename: String,
        file_size_bytes: u64,
        source_url: Option<String>,
        now_ms: u64,
    ) -> (r: Result<(), Error>)
        requires
            old(self).wf(),
        ensures
            final(self).wf(),
            match r {
                Ok(()) => {
                    &&& !has_job(old(self).jobs@, id@)
                    &&& final(self).jobs@.len() == old(self).jobs@.len() + 1
                    &&& final(self).jobs@.drop_last() == old(self).jobs@
                    &&& {
                        let j = final(self).jobs@.last();
                        &&& j.id == id
                        &&& j.original_filename == original_filename
                        &&& j.file_size_bytes == file_size_bytes
                        &&& j.source_url == source_url
                        &&& j.duration_ms is None
                        &&& j.status == JobStatus::Processing
                        &&& j.created_at_ms == now_ms
                        &&& j.updated_at_ms == now_ms
                        &&& j.scenes@.len() == 0
                    }
                },
                Err(e) => e == Error::PersistenceFailure && has_job(old(self).jobs@, id@)
                    && final(self).jobs@ == old(self).jobs@,
            },
    {
        match self.find_index(id.as_str()) {
            Some(_) => Err(Error::PersistenceFailure),
            None => {
                let j = JobRecord {
                    id,
                    original_filename,
                    file_size_bytes,
                    source_url,
                    duration_ms: None,
                    status: JobStatus::Processing,
                    created_at_ms: now_ms,
                    updated_at_ms: now_ms,
                    scenes: Vec::new(),
                };
                let ghost pre = self.jobs@;
                self.jobs.push(j);
                proof {
                    assert(self.jobs@.drop_last() =~= pre);
                    lemma_id_index(pre, self.jobs@.last().id@);
                    proof_wf_after_push(pre, self.jobs@);
                }
                Ok(())
            },
        }
    }

    /// Removes the job and, with it, its whole timeline. The rest of the
    /// store is untouched.
    pub fn delete_job(&mut self, id: &str) -> (r: Result<(), Error>)
        requires
            old(self).wf(),
        ensures
            final(self).wf(),
            match r {
                Ok(()) => has_job(old(self).jobs@, id@) && final(self).jobs@ == old(self).jobs@
                    .remove(id_index(old(self).jobs@, id@)),
                Err(e) => e == Error::JobNotFound && !has_job(old(self).jobs@, id@)
                    && final(self).jobs@ == old(self).jobs@,
            },
    {
        match self.find_index(id) {
            Some(k) => {
                let ghost pre = self.jobs@;
                self.jobs.remove(k);
                proof {
                    assert(self.jobs@ =~= pre.remove(k as int));
                    assert forall|a: int, b: int|
                        #![trigger self.jobs@[a].id@, self.jobs@[b].id@]
                        0 <= a < b < self.jobs@.len() implies self.jobs@[a].id@
                        != self.jobs@[b].id@ by {
                        let a0 = if a < k {
                            a
                        } else {
                            a + 1
                        };
                        let b0 = if b < k {
                            b
                        } else {
                            b + 1
                        };
                        assert(self.jobs@[a] == pre[a0]);
                        assert(self.jobs@[b] == pre[b0]);
                    }
                    assert forall|j: int| 0 <= j < self.jobs@.len() implies timeline_sorted(
                        (#[trigger] self.jobs@[j]).scenes@,
                    ) by {
                        let j0 = if j < k {
                            j
                        } else {
                            j + 1
                        };
                        assert(self.jobs@[j] == pre[j0]);
                    }
                }
                Ok(())
            },
            None => Err(Error::JobNotFound),
        }
    }

    /// Sets the job's status, overwrites its duration with the given value —
    /// also when that value is nothing — and refreshes its update
    /// timestamp. A missing job leaves the store untouched and is no error,
    /// as an update of zero rows would be.
    pub fn update_status(
        &mut self,
        id: &str,
        status: JobStatus,
        duration_ms: Option<u64>,
        now_ms: u64,
    ) -> (r: Result<(), Error>)
        requires
            old(self).wf(),
        ensures
            final(self).wf(),
            r is Ok,
            !has_job(old(self).jobs@, id@) ==> final(self).jobs@ == old(self).jobs@,
            has_job(old(self).jobs@, id@) ==> {
                let k = id_index(old(self).jobs@, id@);
                &&& final(self).jobs@ == old(self).jobs@.update(
                    k,
                    final(self).jobs@[k],
                )
                &&& job_updated(final(self).jobs@[k], old(self).jobs@[k], status, duration_ms,
                    now_ms)
            },
    {
        match self.find_index(id) {
            Some(k) => {
                let ghost pre = self.jobs@;
                let mut j = self.jobs.remove(k);
                j.status = status;
                j.duration_ms = duration_ms;
                j.updated_at_ms = now_ms;
                let ghost jj = j;
                self.jobs.insert(k, j);
                proof {
                    assert(self.jobs@ =~= pre.update(k as int, jj));
                    proof_wf_after_update(pre, self.jobs@, k as int);
                }
                Ok(())
            },
            None => Ok(()),
        }
    }
}

/// Is `j2` the record `j1` after a status update: status, duration and
/// update timestamp set, everything else untouched?
pub open spec fn job_updated(
    j2: JobRecord,
    j1: JobRecord,
    status: JobStatus,
    duration_ms: Option<u64>,
    now_ms: u64,
) -> bool {
    &&& j2.id == j1.id
    &&& j2.original_filename == j1.original_filename
    &&& j2.file_size_bytes == j1.file_size_bytes
    &&& j2.source_url == j1.source_url
    &&& j2.duration_ms == duration_ms
    &&& j2.status == status
    &&& j2.created_at_ms == j1.created_at_ms
    &&& j2.updated_at_ms == now_ms
    &&& j2.scenes == j1.scenes
}

/// Is a timeline laid out ascending (non-decreasing) by scene index?
pub open spec fn timeline_sorted(s: Seq<Scene>) -> bool {
    forall|a: int, b: int|
        #![trigger s[a].index, s[b].index]
        0 <= a < b < s.len() ==> s[a].index <= s[b].index
}

/// The store's invariant over a job sequence: ids pairwise distinct, every
/// timeline ascending by scene index.
pub open spec fn jobs_wf(jobs: Seq<JobRecord>) -> bool {
    &&& forall|a: int, b: int|
        #![trigger jobs[a].id@, jobs[b].id@]
        0 <= a < b < jobs.len() ==> jobs[a].id@ != jobs[b].id@
    &&& forall|j: int| 0 <= j < jobs.len() ==> timeline_sorted((#[trigger] jobs[j]).scenes@)
}

/// Pushing a job with a fresh id and a sorted timeline keeps the store
/// invariant.
proof fn proof_wf_after_push(pre: Seq<JobRecord>, post: Seq<JobRecord>)
    requires
        post == pre.push(post.last()),
        post.len() == pre.len() + 1,
        jobs_wf(pre),
        forall|k: int| 0 <= k < pre.len() ==> pre[k].id@ != post.last().id@,
        timeline_sorted(post.last().scenes@),
    ensures
        jobs_wf(post),
{
    assert forall|a: int, b: int|
        #![trigger post[a].id@, post[b].id@]
        0 <= a < b < post.len() implies post[a].id@ != post[b].id@ by {
        if b < post.len() - 1 {
            assert(post[a] == pre[a] && post[b] == pre[b]);
        } else {
            assert(post[a] == pre[a]);
            assert(post[b] == post.last());
        }
    }
    assert forall|j: int| 0 <= j < post.len() implies timeline_sorted(
        (#[trigger] post[j]).scenes@,
    ) by {
        if j < post.len() - 1 {
            assert(post[j] == pre[j]);
        } else {
            assert(post[j] == post.last());
        }
    }
}

/// Replacing a record, id kept and timeline sorted, keeps the store
/// invariant.
proof fn proof_wf_after_update(pre: Seq<JobRecord>, post: Seq<JobRecord>, k: int)
    requires
        0 <= k < pre.len(),
        post == pre.update(k, post[k]),
        post[k].id@ == pre[k].id@,
        jobs_wf(pre),
        timeline_sorted(post[k].scenes@),
    ensures
        jobs_wf(post),
{
    assert forall|a: int, b: int|
        #![trigger post[a].id@, post[b].id@]
        0 <= a < b < post.len() implies post[a].id@ != post[b].id@ by {
        assert(post[a].id@ == pre[a].id@);
        assert(post[b].id@ == pre[b].id@);
    }
    assert forall|j: int| 0 <= j < post.len() implies timeline_sorted(
        (#[trigger] post[j]).scenes@,
    ) by {
        if j != k {
            assert(post[j] == pre[j]);
        }
    }
}

/// Text equality, character by character.
pub(crate) fn str_eq(a: &str, b: &str) -> (r: bool)
    ensures
        r == (a@ == b@),
{
    let al: usize = a.unicode_len();
    let bl: usize = b.unicode_len();
    if al != bl {
        return false;
    }
    let mut i: usize = 0;
    while i < al
        invariant
            0 <= i <= al,
            al == a@.len(),
            bl == b@.len(),
            al == bl,
            forall|t: int| 0 <= t < i ==> a@[t] == b@[t],
        decreases al - i,
    {
        if a.get_char(i) != b.get_char(i) {
            proof {
                assert(a@[i as int] != b@[i as int]);
            }
            return false;
        }
        i = i + 1;
    }
    proof {
        assert(a@ =~= b@);
    }
    true
}

/// The character view of an optional text.
pub open spec fn opt_chars(o: Option<String>) -> Option<Seq<char>> {
    match o {
        Some(s) => Some(s@),
        None => None,
    }
}

/// One scene of a client-supplied replacement timeline. The client hands
/// index, times and formatted timestamps as they are to become; it supplies
/// no frame count.
#[derive(Debug, Clone, PartialEq)]
pub struct SceneUpdate {
    pub index: usize,
    pub start_ms: u64,
    pub end_ms: u64,
    pub duration_ms: u64,
    pub start_timestamp: String,
    pub end_timestamp: String,
}

/// Is `sc` the persisted form of the client-supplied scene `u`: every field
/// taken at face value, the frame count defaulted to 1?
pub open spec fn scene_from_update(sc: Scene, u: SceneUpdate) -> bool {
    &&& sc.index == u.index
    &&& sc.start_ms == u.start_ms
    &&& sc.end_ms == u.end_ms
    &&& sc.duration_ms == u.duration_ms
    &&& sc.start_timestamp == u.start_timestamp
    &&& sc.end_timestamp == u.end_timestamp
    &&& sc.frame_count == 1
}

/// An owned copy of a scene record.
fn copy_scene(sc: &Scene) -> (r: Scene)
    ensures
        r == *sc,
{
    Scene {
        index: sc.index,
        start_ms: sc.start_ms,
        end_ms: sc.end_ms,
        duration_ms: sc.duration_ms,
        start_timestamp: sc.start_timestamp.clone(),
        end_timestamp: sc.end_timestamp.clone(),
        frame_count: sc.frame_count,
    }
}

/// The readback order of a client scene list: the positions sorted
/// ascending by scene index, positions with equal indices kept in supplied
/// order.
fn stable_order_by_keys(keys: &Vec<usize>) -> (r: Vec<usize>)
    ensures
        r@.len() == keys@.len(),
        forall|a: int| 0 <= a < r@.len() ==> 0 <= #[trigger] r@[a] < keys@.len(),
        forall|a: int, b: int|
            #![trigger r@[a], r@[b]]
            0 <= a < b < r@.len() ==> r@[a] != r@[b],
        forall|a: int, b: int|
            #![trigger r@[a], r@[b]]
            0 <= a < b < r@.len() ==> (keys@[r@[a] as int] < keys@[r@[b] as int] || (keys@[r@[
            a] as int] == keys@[r@[b] as int] && r@[a] < r@[b])),
{
    let n: usize = keys.len();
    let mut r: Vec<usize> = Vec::new();
    let mut t: usize = 0;
    while t < n
        invariant
            0 <= t <= n == keys@.len(),
            r@.len() == t,
            forall|a: int| 0 <= a < t ==> 0 <= #[trigger] r@[a] < t,
            forall|a: int, b: int|
                #![trigger r@[a], r@[b]]
                0 <= a < b < t ==> r@[a] != r@[b],
            forall|a: int, b: int|
                #![trigger r@[a], r@[b]]
                0 <= a < b < t ==> (keys@[r@[a] as int] < keys@[r@[b] as int] || (keys@[r@[
                a] as int] == keys@[r@[b] as int] && r@[a] < r@[b])),
        decreases n - t,
    {
        let key: usize = keys[t];
        // The first already-placed position whose key is larger.
        let mut q: usize = 0;
        while q < t && keys[r[q]] <= key
            invariant
                0 <= q <= t == r@.len(),
                t < n == keys@.len(),
                forall|a: int| 0 <= a < t ==> 0 <= #[trigger] r@[a] < t,
                forall|a: int| 0 <= a < q ==> keys@[#[trigger] r@[a] as int] <= key,
            decreases t - q,
        {
            q = q + 1;
        }
        let ghost oldr = r@;
        r.insert(q, t);
        proof {
            assert(r@ =~= oldr.take(q as int) + seq![t] + oldr.skip(q as int));
            assert forall|a: int, b: int|
                #![trigger r@[a], r@[b]]
                0 <= a < b < r@.len() implies (r@[a] != r@[b] && (keys@[r@[a] as int] < keys@[r@[
            b] as int] || (keys@[r@[a] as int] == keys@[r@[b] as int] && r@[a] < r@[b]))) by {
                let av: int = if a < q {
                    a
                } else {
                    a - 1
                };
                let bv: int = if b < q {
                    b
                } else {
                    b - 1
                };
                if a != q {
                    assert(r@[a] == oldr[av]);
                }
                if b != q {
                    assert(r@[b] == oldr[bv]);
                }
                if a == q {
                    // The new entry against an older one placed after it:
                    // that one's key exceeds the new key.
                    assert(r@[a] == t);
                    assert(oldr[bv] < t);
                    if bv > q {
                        assert(keys@[oldr[q as int] as int] <= keys@[oldr[bv] as int]);
                    }
                    assert(keys@[r@[b] as int] > key);
                } else if b == q {
                    // An entry placed before the new one: its key is at
                    // most the new key, and its position is older.
                    assert(r@[b] == t);
                    assert(keys@[oldr[av] as int] <= key);
                    assert(oldr[av] < t);
                }
            }
        }
        t = t + 1;
    }
    r
}

/// Is `p` the order in which a timeline readback lays out the supplied
/// scenes: a permutation of the supplied positions, ascending by the
/// client's scene index, positions with equal indices kept in supplied
/// order? That lexicographic order is total, so exactly one `p` fits.
pub open spec fn stable_index_order(p: Seq<int>, upd: Seq<SceneUpdate>) -> bool {
    &&& p.len() == upd.len()
    &&& forall|t: int| 0 <= t < p.len() ==> 0 <= #[trigger] p[t] < upd.len()
    &&& forall|a: int, b: int|
        #![trigger p[a], p[b]]
        0 <= a < b < p.len() ==> p[a] != p[b]
    &&& forall|a: int, b: int|
        #![trigger p[a], p[b]]
        0 <= a < b < p.len() ==> (upd[p[a]].index < upd[p[b]].index || (upd[p[a]].index
            == upd[p[b]].index && p[a] < p[b]))
}

/// With the supplied indices strictly ascending, the stable index order is
/// the supplied order itself.
pub proof fn lemma_stable_index_order_identity(p: Seq<int>, upd: Seq<SceneUpdate>)
    requires
        stable_index_order(p, upd),
        forall|a: int, b: int|
            #![trigger upd[a].index, upd[b].index]
            0 <= a < b < upd.len() ==> upd[a].index < upd[b].index,
    ensures
        forall|t: int| 0 <= t < p.len() ==> #[trigger] p[t] == t,
{
    assert forall|a: int, b: int| #![trigger p[a], p[b]] 0 <= a < b < p.len() implies p[a]
        < p[b] by {
        if p[a] > p[b] {
            assert(upd[p[b]].index < upd[p[a]].index);
        }
    }
    assert forall|t: int| 0 <= t < p.len() implies #[trigger] p[t] == t by {
        lemma_increasing_below(p, t);
        lemma_increasing_above(p, t);
    }
}

/// A strictly increasing sequence over `[0, len)` sits at or above the
/// diagonal.
proof fn lemma_increasing_below(p: Seq<int>, t: int)
    requires
        0 <= t < p.len(),
        forall|a: int| 0 <= a < p.len() ==> 0 <= #[trigger] p[a],
        forall|a: int, b: int|
            #![trigger p[a], p[b]]
            0 <= a < b < p.len() ==> p[a] < p[b],
    ensures
        p[t] >= t,
    decreases t,
{
    if t > 0 {
        lemma_increasing_below(p, t - 1);
        assert(p[t - 1] < p[t]);
    }
}

/// ... and at or below it, so it is the diagonal.
proof fn lemma_increasing_above(p: Seq<int>, t: int)
    requires
        0 <= t < p.len(),
        forall|a: int| 0 <= a < p.len() ==> #[trigger] p[a] < p.len(),
        forall|a: int, b: int|
            #![trigger p[a], p[b]]
            0 <= a < b < p.len() ==> p[a] < p[b],
    ensures
        p[t] <= t,
    decreases p.len() - t,
{
    if t < p.len() - 1 {
        lemma_increasing_above(p, t + 1);
        assert(p[t] < p[t + 1]);
    }
}

/// Is `j2` the record `j1` after a full timeline replacement at `now_ms`:
/// the old scenes entirely gone, the supplied list in their place at face
/// value, laid out ascending by the client's scene index (ties in supplied
/// order), and the job completed with a fresh update timestamp. The probed
/// duration stays as it was.
pub open spec fn timeline_replaced(
    j2: JobRecord,
    j1: JobRecord,
    upd: Seq<SceneUpdate>,
    now_ms: u64,
) -> bool {
    &&& j2.id == j1.id
    &&& j2.original_filename == j1.original_filename
    &&& j2.file_size_bytes == j1.file_size_bytes
    &&& j2.source_url == j1.source_url
    &&& j2.duration_ms == j1.duration_ms
    &&& j2.status == JobStatus::Completed
    &&& j2.created_at_ms == j1.created_at_ms
    &&& j2.updated_at_ms == now_ms
    &&& j2.scenes@.len() == upd.len()
    &&& exists|p: Seq<int>|
        #[trigger] stable_index_order(p, upd) && (forall|t: int|
            0 <= t < upd.len() ==> scene_from_update(#[trigger] j2.scenes@[t], upd[p[t]]))
}

/// Is `p` the order in which a readback lays out the scene list `c`: a
/// permutation of its positions, ascending by scene index, positions with
/// equal indices kept in list order? That lexicographic order is total, so
/// exactly one `p` fits.
pub open spec fn stable_scene_order(p: Seq<int>, c: Seq<Scene>) -> bool {
    &&& p.len() == c.len()
    &&& forall|t: int| 0 <= t < p.len() ==> 0 <= #[trigger] p[t] < c.len()
    &&& forall|a: int, b: int|
        #![trigger p[a], p[b]]
        0 <= a < b < p.len() ==> p[a] != p[b]
    &&& forall|a: int, b: int|
        #![trigger p[a], p[b]]
        0 <= a < b < p.len() ==> (c[p[a]].index < c[p[b]].index || (c[p[a]].index
            == c[p[b]].index && p[a] < p[b]))
}

/// Is `out` the scene list `c` laid out in its stable index order?
pub open spec fn indexed_layout(c: Seq<Scene>, out: Seq<Scene>) -> bool {
    exists|p: Seq<int>|
        #[trigger] stable_scene_order(p, c) && out.len() == c.len() && (forall|t: int|
            0 <= t < out.len() ==> out[t] == c[p[t]])
}

/// Is `j2` the record `j1` after a detect-and-persist pass over `diag` with
/// probe metadata `info` at `now_ms`: the scenes materialized from a
/// normalized boundary list of `diag`, merged with any already persisted
/// ones — a repeated pass duplicates unless preceded by a replacement — the
/// whole timeline laid out ascending by scene index, the probed duration
/// stored, and the job completed with a fresh update timestamp?
pub open spec fn job_segmented(
    j2: JobRecord,
    j1: JobRecord,
    diag: Seq<u8>,
    info: VideoInfo,
    now_ms: u64,
) -> bool {
    &&& j2.id == j1.id
    &&& j2.original_filename == j1.original_filename
    &&& j2.file_size_bytes == j1.file_size_bytes
    &&& j2.source_url == j1.source_url
    &&& j2.duration_ms == Some(info.duration_ms)
    &&& j2.status == JobStatus::Completed
    &&& j2.created_at_ms == j1.created_at_ms
    &&& j2.updated_at_ms == now_ms
    &&& j2.scenes@.len() >= j1.scenes@.len()
    &&& exists|b: Seq<u64>, built: Seq<Scene>|
        #![trigger crate::segment::scenes_match(built, b, info.fps)]
        crate::detector::normalized_boundaries(b, crate::detector::pts_times(diag, 0), info.duration_ms)
            && crate::segment::scenes_match(built, b, info.fps) && indexed_layout(
            j1.scenes@ + built,
            j2.scenes@,
        )
}

/// A row of the job listing: everything of a job but its scene records.
#[derive(Debug, Clone, PartialEq)]
pub struct JobSummary {
    pub id: String,
    pub original_filename: String,
    pub file_size_bytes: u64,
    pub source_url: Option<String>,
    pub duration_ms: Option<u64>,
    pub status: JobStatus,
    pub created_at_ms: u64,
    pub updated_at_ms: u64,
    pub total_scenes: usize,
}

pub open spec fn summary_matches(s: JobSummary, j: JobRecord) -> bool {
    &&& s.id@ == j.id@
    &&& s.original_filename@ == j.original_filename@
    &&& s.file_size_bytes == j.file_size_bytes
    &&& opt_chars(s.source_url) == opt_chars(j.source_url)
    &&& s.duration_ms == j.duration_ms
    &&& s.status == j.status
    &&& s.created_at_ms == j.created_at_ms
    &&& s.updated_at_ms == j.updated_at_ms
    &&& s.total_scenes == j.scenes@.len()
}

impl Store {
    /// The persisted timeline of the job, for an operation that needs at
    /// least one scene: a missing job and an empty scene set are told
    /// apart.
    pub fn scenes_of(&self, id: &str) -> (r: Result<&Vec<Scene>, Error>)
        requires
            self.wf(),
        ensures
            match r {
                Ok(s) => has_job(self.jobs@, id@) && *s == self.jobs@[id_index(
                    self.jobs@,
                    id@,
                )].scenes && s@.len() > 0 && timeline_sorted(s@),
                Err(e) => (e == Error::JobNotFound && !has_job(self.jobs@, id@)) || (e
                    == Error::SceneSetEmpty && has_job(self.jobs@, id@) && self.jobs@[id_index(
                    self.jobs@,
                    id@,
                )].scenes@.len() == 0),
            },
    {
        match self.find_index(id) {
            Some(k) => {
                if self.jobs[k].scenes.len() == 0 {
                    Err(Error::SceneSetEmpty)
                } else {
                    Ok(&self.jobs[k].scenes)
                }
            },
            None => Err(Error::JobNotFound),
        }
    }

    /// Atomically replaces the job's whole timeline with the supplied scene
    /// list, taken at face value and laid out ascending by scene index, and
    /// completes the job. No reader ever sees a partial list. Yields the
    /// number of scenes written.
    pub fn replace_timeline(
        &mut self,
        id: &str,
        new_scenes: Vec<SceneUpdate>,
        now_ms: u64,
    ) -> (r: Result<u64, Error>)
        requires
            old(self).wf(),
        ensures
            final(self).wf(),
            match r {
                Ok(cnt) => has_job(old(self).jobs@, id@) && cnt == new_scenes@.len() && {
                    let k = id_index(old(self).jobs@, id@);
                    &&& final(self).jobs@ == old(self).jobs@.update(k, final(self).jobs@[k])
                    &&& timeline_replaced(final(self).jobs@[k], old(self).jobs@[k], new_scenes@,
                        now_ms)
                },
                Err(e) => e == Error::JobNotFound && !has_job(old(self).jobs@, id@)
                    && final(self).jobs@ == old(self).jobs@,
            },
    {
        match self.find_index(id) {
            Some(k) => {
                let n: usize = new_scenes.len();
                let mut scenes: Vec<Scene> = Vec::new();
                let mut keys: Vec<usize> = Vec::new();
                let mut t: usize = 0;
                while t < n
                    invariant
                        0 <= t <= n == new_scenes@.len(),
                        scenes@.len() == t,
                        keys@.len() == t,
                        forall|x: int| 0 <= x < t ==> scene_from_update(
                            #[trigger] scenes@[x],
                            new_scenes@[x],
                        ),
                        forall|x: int| 0 <= x < t ==> #[trigger] keys@[x] == new_scenes@[
                            x
                        ].index,
                    decreases n - t,
                {
                    let u = &new_scenes[t];
                    keys.push(u.index);
                    scenes.push(
                        Scene {
                            index: u.index,
                            start_ms: u.start_ms,
                            end_ms: u.end_ms,
                            duration_ms: u.duration_ms,
                            start_timestamp: u.start_timestamp.clone(),
                            end_timestamp: u.end_timestamp.clone(),
                            frame_count: 1,
                        },
                    );
                    t = t + 1;
                }
                // Lay the list out as a readback would: ascending by the
                // client's scene index, ties in supplied order.
                let order: Vec<usize> = stable_order_by_keys(&keys);
                let mut sorted: Vec<Scene> = Vec::new();
                let mut x: usize = 0;
                while x < n
                    invariant
                        0 <= x <= n == new_scenes@.len(),
                        scenes@.len() == n,
                        order@.len() == n,
                        forall|a: int| 0 <= a < n ==> 0 <= #[trigger] order@[a] < n,
                        sorted@.len() == x,
                        forall|a: int| 0 <= a < x ==> #[trigger] sorted@[a] == scenes@[order@[a]
                            as int],
                    decreases n - x,
                {
                    sorted.push(copy_scene(&scenes[order[x]]));
                    x = x + 1;
                }
                let ghost pre = self.jobs@;
                let mut j = self.jobs.remove(k);
                j.scenes = sorted;
                j.status = JobStatus::Completed;
                j.updated_at_ms = now_ms;
                let ghost jj = j;
                self.jobs.insert(k, j);
                proof {
                    assert(self.jobs@ =~= pre.update(k as int, jj));
                    let p = Seq::new(n as nat, |a: int| order@[a] as int);
                    assert forall|a: int, b: int|
                        #![trigger p[a], p[b]]
                        0 <= a < b < p.len() implies (p[a] != p[b] && (new_scenes@[p[a]].index
                        < new_scenes@[p[b]].index || (new_scenes@[p[a]].index == new_scenes@[p[
                    b]].index && p[a] < p[b]))) by {
                        assert(keys@[order@[a] as int] == new_scenes@[p[a]].index);
                        assert(keys@[order@[b] as int] == new_scenes@[p[b]].index);
                    }
                    assert(stable_index_order(p, new_scenes@));
                    assert forall|t: int| 0 <= t < new_scenes@.len() implies scene_from_update(
                        #[trigger] jj.scenes@[t],
                        new_scenes@[p[t]],
                    ) by {
                        assert(jj.scenes@[t] == scenes@[order@[t] as int]);
                        assert(scene_from_update(scenes@[order@[t] as int], new_scenes@[order@[
                            t
                        ] as int]));
                    }
                    assert forall|a: int, b: int|
                        #![trigger jj.scenes@[a].index, jj.scenes@[b].index]
                        0 <= a < b < jj.scenes@.len() implies jj.scenes@[a].index <= jj.scenes@[
                        b
                    ].index by {
                        assert(jj.scenes@[a] == scenes@[order@[a] as int]);
                        assert(jj.scenes@[b] == scenes@[order@[b] as int]);
                        assert(scenes@[order@[a] as int].index == keys@[order@[a] as int]);
                        assert(scenes@[order@[b] as int].index == keys@[order@[b] as int]);
                    }
                    proof_wf_after_update(pre, self.jobs@, k as int);
                }
                Ok(n as u64)
            },
            None => Err(Error::JobNotFound),
        }
    }

    /// Detect-and-persist: normalizes the boundaries the detector's
    /// diagnostic text spells under the probed duration, materializes them
    /// into scenes, merges those into the job's timeline — kept ascending
    /// by scene index, already-persisted scenes before new ones among
    /// equals — stores the probed duration and completes the job. Yields
    /// the number of scenes added. A repeated pass adds its scenes again;
    /// it does not replace.
    pub fn segment(
        &mut self,
        id: &str,
        info: VideoInfo,
        diagnostic: &[u8],
        now_ms: u64,
    ) -> (r: Result<usize, Error>)
        requires
            old(self).wf(),
            info.wf(),
        ensures
            final(self).wf(),
            match r {
                Ok(cnt) => has_job(old(self).jobs@, id@) && {
                    let k = id_index(old(self).jobs@, id@);
                    &&& final(self).jobs@ == old(self).jobs@.update(k, final(self).jobs@[k])
                    &&& job_segmented(final(self).jobs@[k], old(self).jobs@[k], diagnostic@,
                        info, now_ms)
                    &&& cnt == final(self).jobs@[k].scenes@.len() - old(self).jobs@[
                        k
                    ].scenes@.len()
                },
                Err(e) => e == Error::JobNotFound && !has_job(old(self).jobs@, id@)
                    && final(self).jobs@ == old(self).jobs@,
            },
    {
        match self.find_index(id) {
            Some(k) => {
                let boundaries = crate::detector::detect_boundaries(diagnostic, info.duration_ms);
                proof {
                    crate::detector::lemma_pts_times_bounded(diagnostic@, 0);
                    assert forall|x: int| 0 <= x < boundaries@.len() implies #[trigger] boundaries@[x]
                        <= crate::MAX_TIME_MS by {
                        if boundaries@[x] != 0 && boundaries@[x] != info.duration_ms {
                            assert(crate::detector::pts_times(diagnostic@, 0).contains(
                                boundaries@[x],
                            ));
                            let w = choose|w: int|
                                0 <= w < crate::detector::pts_times(diagnostic@, 0).len()
                                    && crate::detector::pts_times(diagnostic@, 0)[w]
                                    == boundaries@[x];
                            assert(crate::detector::pts_times(diagnostic@, 0)[w]
                                <= crate::MAX_TIME_MS);
                        }
                    }
                }
                let mut built = crate::segment::build_scenes(&boundaries, info.fps);
                let cnt: usize = built.len();
                let ghost builtv = built@;
                let ghost pre = self.jobs@;
                let mut j = self.jobs.remove(k);
                let ghost oldscenes = j.scenes@;
                j.scenes.append(&mut built);
                let ghost allv = j.scenes@;
                // Merge old and new scenes into index order, ties keeping
                // the persisted-then-built order.
                let m: usize = j.scenes.len();
                let mut keys: Vec<usize> = Vec::new();
                let mut x: usize = 0;
                while x < m
                    invariant
                        0 <= x <= m == j.scenes@.len(),
                        keys@.len() == x,
                        forall|a: int| 0 <= a < x ==> #[trigger] keys@[a] == j.scenes@[a].index,
                    decreases m - x,
                {
                    keys.push(j.scenes[x].index);
                    x = x + 1;
                }
                let order: Vec<usize> = stable_order_by_keys(&keys);
                let mut sorted: Vec<Scene> = Vec::new();
                let mut y: usize = 0;
                while y < m
                    invariant
                        0 <= y <= m == j.scenes@.len(),
                        order@.len() == m,
                        forall|a: int| 0 <= a < m ==> 0 <= #[trigger] order@[a] < m,
                        sorted@.len() == y,
                        forall|a: int| 0 <= a < y ==> #[trigger] sorted@[a] == j.scenes@[order@[
                            a
                        ] as int],
                    decreases m - y,
                {
                    sorted.push(copy_scene(&j.scenes[order[y]]));
                    y = y + 1;
                }
                j.scenes = sorted;
                j.status = JobStatus::Completed;
                j.duration_ms = Some(info.duration_ms);
                j.updated_at_ms = now_ms;
                let ghost jj = j;
                self.jobs.insert(k, j);
                proof {
                    assert(self.jobs@ =~= pre.update(k as int, jj));
                    assert(allv =~= oldscenes + builtv);
                    let p = Seq::new(m as nat, |a: int| order@[a] as int);
                    assert forall|a: int, b: int|
                        #![trigger p[a], p[b]]
                        0 <= a < b < p.len() implies (p[a] != p[b] && (allv[p[a]].index < allv[p[
                    b]].index || (allv[p[a]].index == allv[p[b]].index && p[a] < p[b]))) by {
                        assert(keys@[order@[a] as int] == allv[p[a]].index);
                        assert(keys@[order@[b] as int] == allv[p[b]].index);
                    }
                    assert(stable_scene_order(p, allv));
                    assert forall|t: int| 0 <= t < jj.scenes@.len() implies jj.scenes@[t]
                        == allv[p[t]] by {
                        assert(jj.scenes@[t] == allv[order@[t] as int]);
                    }
                    assert(indexed_layout(oldscenes + builtv, jj.scenes@));
                    assert(crate::detector::normalized_boundaries(
                        boundaries@,
                        crate::detector::pts_times(diagnostic@, 0),
                        info.duration_ms,
                    )
                        && crate::segment::scenes_match(builtv, boundaries@, info.fps)
                        && indexed_layout(oldscenes + builtv, jj.scenes@));
                    assert forall|a: int, b: int|
                        #![trigger jj.scenes@[a].index, jj.scenes@[b].index]
                        0 <= a < b < jj.scenes@.len() implies jj.scenes@[a].index <= jj.scenes@[
                        b
                    ].index by {
                        assert(jj.scenes@[a] == allv[order@[a] as int]);
                        assert(jj.scenes@[b] == allv[order@[b] as int]);
                        assert(allv[order@[a] as int].index == keys@[order@[a] as int]);
                        assert(allv[order@[b] as int].index == keys@[order@[b] as int]);
                    }
                    proof_wf_after_update(pre, self.jobs@, k as int);
                }
                Ok(cnt)
            },
            None => Err(Error::JobNotFound),
        }
    }

    /// The job listing, newest ingestion first — the insertion order
    /// reversed — windowed by `offset` and `limit`.
    pub fn list_jobs(&self, limit: usize, offset: usize) -> (r: Vec<JobSummary>)
        ensures
            r@.len() == if offset >= self.jobs@.len() {
                0int
            } else if self.jobs@.len() - offset < limit {
                self.jobs@.len() - offset
            } else {
                limit as int
            },
            forall|t: int| 0 <= t < r@.len() ==> summary_matches(
                #[trigger] r@[t],
                self.jobs@[self.jobs@.len() - 1 - offset - t],
            ),
    {
        let n: usize = self.jobs.len();
        let mut r: Vec<JobSummary> = Vec::new();
        let mut t: usize = 0;
        while t < limit && offset < n && t < n - offset
            invariant
                0 <= t,
                t <= limit,
                offset < n ==> offset + t <= n,
                offset >= n ==> t == 0,
                n == self.jobs@.len(),
                r@.len() == t,
                forall|x: int| 0 <= x < t ==> summary_matches(
                    #[trigger] r@[x],
                    self.jobs@[self.jobs@.len() - 1 - offset - x],
                ),
            decreases n - t,
        {
            let idx: usize = n - 1 - offset - t;
            let j = &self.jobs[idx];
            let url: Option<String> = match &j.source_url {
                Some(u) => Some(u.clone()),
                None => None,
            };
            r.push(
                JobSummary {
                    id: j.id.clone(),
                    original_filename: j.original_filename.clone(),
                    file_size_bytes: j.file_size_bytes,
                    source_url: url,
                    duration_ms: j.duration_ms,
                    status: j.status,
                    created_at_ms: j.created_at_ms,
                    updated_at_ms: j.updated_at_ms,
                    total_scenes: j.scenes.len(),
                },
            );
            t = t + 1;
        }
        r
    }
}

} // verus!
