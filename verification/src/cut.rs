//! The two cut strategies over one persisted timeline.
//!
//! The virtual cut returns scene descriptors that reference byte ranges of
//! the original file: pure metadata, no media transformation. The physical
//! cut is planned here — one stream-copy step per persisted scene, in index
//! order, with zero-padded numbered output names — and executed outside;
//! per-scene failures are tallied, never fatal for the batch. Both read the
//! same persisted timeline, so a manual edit changes both alike.

use vstd::prelude::*;
use crate::probe::Fps;
use crate::segment::Scene;
use crate::store::{
    has_job, id_index, opt_chars, timeline_replaced, timeline_sorted, Error, JobRecord,
    SceneUpdate, Store,
};
use crate::timecode::{format_seconds, pad3_chars, seconds_chars};

verus! {

/// One entry of a virtual cut response: a persisted scene plus the
/// reference to the original media file it addresses.
#[derive(Debug, Clone, PartialEq)]
pub struct SceneDescriptor {
    pub index: usize,
    pub start_ms: u64,
    pub end_ms: u64,
    pub duration_ms: u64,
    pub start_timestamp: String,
    pub end_timestamp: String,
    /// Always the original ingested file, never a derived one.
    pub video_url: String,
    pub frame_count: u64,
}

/// A full virtual cut response for one job.
#[derive(Debug, Clone, PartialEq)]
pub struct VirtualCut {
    pub job_id: String,
    pub duration_ms: u64,
    pub width: u32,
    pub height: u32,
    pub fps: Fps,
    pub total_scenes: usize,
    pub scenes: Vec<SceneDescriptor>,
    pub video_url: String,
    pub source_url: Option<String>,
    pub original_filename: String,
}

/// Where a job's original media file is served from.
pub open spec fn video_url_chars(id: Seq<char>, filename: Seq<char>) -> Seq<char> {
    "/data/analysis/"@ + id + "/videos/"@ + filename
}

/// Is `d` the descriptor of the persisted scene `sc` of a job with this id
/// and original filename?
pub open spec fn descriptor_matches(
    d: SceneDescriptor,
    sc: Scene,
    id: Seq<char>,
    filename: Seq<char>,
) -> bool {
    &&& d.index == sc.index
    &&& d.start_ms == sc.start_ms
    &&& d.end_ms == sc.end_ms
    &&& d.duration_ms == sc.duration_ms
    &&& d.start_timestamp@ == sc.start_timestamp@
    &&& d.end_timestamp@ == sc.end_timestamp@
    &&& d.video_url@ == video_url_chars(id, filename)
    &&& d.frame_count == sc.frame_count
}

/// Is `v` the virtual cut response of the job as persisted: one descriptor
/// per persisted scene in timeline order, all referencing the original
/// file, over the job's stored duration? (Dimensions and frame rate are the
/// fixed placeholders the result endpoint reports.)
pub open spec fn virtual_cut_matches(v: VirtualCut, job: JobRecord) -> bool {
    &&& v.job_id@ == job.id@
    &&& v.duration_ms == match job.duration_ms {
        Some(d) => d,
        None => 0u64,
    }
    &&& v.width == 1920
    &&& v.height == 1080
    &&& v.fps == (Fps { num: 30u32, den: 1u32 })
    &&& v.total_scenes == job.scenes@.len()
    &&& v.scenes@.len() == job.scenes@.len()
    &&& forall|t: int| 0 <= t < job.scenes@.len() ==> descriptor_matches(
        #[trigger] v.scenes@[t],
        job.scenes@[t],
        job.id@,
        job.original_filename@,
    )
    &&& v.video_url@ == video_url_chars(job.id@, job.original_filename@)
    &&& opt_chars(v.source_url) == opt_chars(job.source_url)
    &&& v.original_filename@ == job.original_filename@
}

fn build_video_url(id: &str, filename: &str) -> (r: String)
    ensures
        r@ == video_url_chars(id@, filename@),
{
    let mut r = "/data/analysis/".to_owned();
    r.append(id);
    r.append("/videos/");
    r.append(filename);
    proof {
        assert(r@ =~= video_url_chars(id@, filename@));
    }
    r
}

/// The virtual cut: the job's persisted timeline as a list of scene
/// descriptors over the original file, with no media transformation and no
/// change to the store.
pub fn virtual_view(store: &Store, id: &str) -> (r: Result<VirtualCut, Error>)
    requires
        store.wf(),
    ensures
        match r {
            Ok(v) => {
                &&& has_job(store.jobs@, id@)
                &&& virtual_cut_matches(v, store.jobs@[id_index(store.jobs@, id@)])
                &&& forall|a: int, b: int|
                    #![trigger v.scenes@[a].index, v.scenes@[b].index]
                    0 <= a < b < v.scenes@.len() ==> v.scenes@[a].index <= v.scenes@[b].index
            },
            Err(e) => e == Error::JobNotFound && !has_job(store.jobs@, id@),
        },
{
    let job: &JobRecord = match store.find_job(id) {
        Some(j) => j,
        None => {
            return Err(Error::JobNotFound);
        },
    };
    let n: usize = job.scenes.len();
    let mut descriptors: Vec<SceneDescriptor> = Vec::new();
    let mut t: usize = 0;
    while t < n
        invariant
            0 <= t <= n == job.scenes@.len(),
            descriptors@.len() == t,
            forall|x: int| 0 <= x < t ==> descriptor_matches(
                #[trigger] descriptors@[x],
                job.scenes@[x],
                job.id@,
                job.original_filename@,
            ),
        decreases n - t,
    {
        let sc = &job.scenes[t];
        descriptors.push(
            SceneDescriptor {
                index: sc.index,
                start_ms: sc.start_ms,
                end_ms: sc.end_ms,
                duration_ms: sc.duration_ms,
                start_timestamp: sc.start_timestamp.clone(),
                end_timestamp: sc.end_timestamp.clone(),
                video_url: build_video_url(job.id.as_str(), job.original_filename.as_str()),
                frame_count: sc.frame_count,
            },
        );
        t = t + 1;
    }
    proof {
        crate::store::lemma_id_index(store.jobs@, id@);
        let ki = id_index(store.jobs@, id@);
        assert(timeline_sorted(store.jobs@[ki].scenes@));
        assert forall|a: int, b: int|
            #![trigger descriptors@[a].index, descriptors@[b].index]
            0 <= a < b < descriptors@.len() implies descriptors@[a].index <= descriptors@[
        b].index by {
            assert(descriptor_matches(descriptors@[a], job.scenes@[a], job.id@,
                job.original_filename@));
            assert(descriptor_matches(descriptors@[b], job.scenes@[b], job.id@,
                job.original_filename@));
            assert(job.scenes@[a].index <= job.scenes@[b].index);
        }
    }
    let duration_ms: u64 = match job.duration_ms {
        Some(d) => d,
        None => 0,
    };
    let source_url: Option<String> = match &job.source_url {
        Some(u) => Some(u.clone()),
        None => None,
    };
    Ok(
        VirtualCut {
            job_id: job.id.clone(),
            duration_ms,
            width: 1920,
            height: 1080,
            fps: Fps { num: 30, den: 1 },
            total_scenes: n,
            scenes: descriptors,
            video_url: build_video_url(job.id.as_str(), job.original_filename.as_str()),
            source_url,
            original_filename: job.original_filename.clone(),
        },
    )
}

/// The virtual cut computes nothing it could compute differently twice:
/// two responses for one unmodified job agree in every field of every
/// descriptor.
pub proof fn lemma_virtual_cut_idempotent(job: JobRecord, v1: VirtualCut, v2: VirtualCut)
    requires
        virtual_cut_matches(v1, job),
        virtual_cut_matches(v2, job),
    ensures
        v1.job_id@ == v2.job_id@,
        v1.duration_ms == v2.duration_ms,
        v1.width == v2.width,
        v1.height == v2.height,
        v1.fps == v2.fps,
        v1.total_scenes == v2.total_scenes,
        v1.video_url@ == v2.video_url@,
        opt_chars(v1.source_url) == opt_chars(v2.source_url),
        v1.original_filename@ == v2.original_filename@,
        v1.scenes@.len() == v2.scenes@.len(),
        forall|t: int|
            #![trigger v1.scenes@[t], v2.scenes@[t]]
            0 <= t < v1.scenes@.len() ==> {
                &&& v1.scenes@[t].index == v2.scenes@[t].index
                &&& v1.scenes@[t].start_ms == v2.scenes@[t].start_ms
                &&& v1.scenes@[t].end_ms == v2.scenes@[t].end_ms
                &&& v1.scenes@[t].duration_ms == v2.scenes@[t].duration_ms
                &&& v1.scenes@[t].start_timestamp@ == v2.scenes@[t].start_timestamp@
                &&& v1.scenes@[t].end_timestamp@ == v2.scenes@[t].end_timestamp@
                &&& v1.scenes@[t].video_url@ == v2.scenes@[t].video_url@
                &&& v1.scenes@[t].frame_count == v2.scenes@[t].frame_count
            },
{
    assert forall|t: int|
        #![trigger v1.scenes@[t], v2.scenes@[t]]
        0 <= t < v1.scenes@.len() implies {
        &&& v1.scenes@[t].index == v2.scenes@[t].index
        &&& v1.scenes@[t].start_ms == v2.scenes@[t].start_ms
        &&& v1.scenes@[t].end_ms == v2.scenes@[t].end_ms
        &&& v1.scenes@[t].duration_ms == v2.scenes@[t].duration_ms
        &&& v1.scenes@[t].start_timestamp@ == v2.scenes@[t].start_timestamp@
        &&& v1.scenes@[t].end_timestamp@ == v2.scenes@[t].end_timestamp@
        &&& v1.scenes@[t].video_url@ == v2.scenes@[t].video_url@
        &&& v1.scenes@[t].frame_count == v2.scenes@[t].frame_count
    } by {
        assert(descriptor_matches(v1.scenes@[t], job.scenes@[t], job.id@,
            job.original_filename@));
        assert(descriptor_matches(v2.scenes@[t], job.scenes@[t], job.id@,
            job.original_filename@));
    }
}

/// After a full timeline replacement by a list whose scene indices ascend —
/// the shape a timeline is meant to have — the virtual cut reflects exactly
/// the replacement list: one descriptor per supplied scene, in supplied
/// order, at face value, with the defaulted frame count — and nothing of
/// the old timeline. (A list with out-of-order indices is also stored
/// whole, but laid out ascending by index.)
pub proof fn lemma_replace_reflected(
    j2: JobRecord,
    j1: JobRecord,
    upd: Seq<SceneUpdate>,
    now_ms: u64,
    v: VirtualCut,
)
    requires
        timeline_replaced(j2, j1, upd, now_ms),
        virtual_cut_matches(v, j2),
        forall|a: int, b: int|
            #![trigger upd[a].index, upd[b].index]
            0 <= a < b < upd.len() ==> upd[a].index < upd[b].index,
    ensures
        v.scenes@.len() == upd.len(),
        v.total_scenes == upd.len(),
        forall|t: int|
            #![trigger v.scenes@[t]]
            0 <= t < upd.len() ==> {
                &&& v.scenes@[t].index == upd[t].index
                &&& v.scenes@[t].start_ms == upd[t].start_ms
                &&& v.scenes@[t].end_ms == upd[t].end_ms
                &&& v.scenes@[t].duration_ms == upd[t].duration_ms
                &&& v.scenes@[t].start_timestamp@ == upd[t].start_timestamp@
                &&& v.scenes@[t].end_timestamp@ == upd[t].end_timestamp@
                &&& v.scenes@[t].frame_count == 1
            },
{
    assert forall|t: int|
        #![trigger v.scenes@[t]]
        0 <= t < upd.len() implies {
        &&& v.scenes@[t].index == upd[t].index
        &&& v.scenes@[t].start_ms == upd[t].start_ms
        &&& v.scenes@[t].end_ms == upd[t].end_ms
        &&& v.scenes@[t].duration_ms == upd[t].duration_ms
        &&& v.scenes@[t].start_timestamp@ == upd[t].start_timestamp@
        &&& v.scenes@[t].end_timestamp@ == upd[t].end_timestamp@
        &&& v.scenes@[t].frame_count == 1
    } by {
        let p = choose|p: Seq<int>|
            #[trigger] crate::store::stable_index_order(p, upd) && (forall|x: int|
                0 <= x < upd.len() ==> crate::store::scene_from_update(
                    #[trigger] j2.scenes@[x],
                    upd[p[x]],
                ));
        crate::store::lemma_stable_index_order_identity(p, upd);
        assert(p[t] == t);
        assert(descriptor_matches(v.scenes@[t], j2.scenes@[t], j2.id@, j2.original_filename@));
        assert(crate::store::scene_from_update(j2.scenes@[t], upd[t]));
    }
}

// ---------------------------------------------------------------------------
// Physical split
// ---------------------------------------------------------------------------

/// One planned invocation of the media tool: trim points as decimal-seconds
/// text and the numbered output file name.
#[derive(Debug, Clone, PartialEq)]
pub struct SplitStep {
    /// The scene's start, seconds with three decimals.
    pub start_arg: String,
    /// The scene's end, seconds with three decimals.
    pub end_arg: String,
    /// `001.ext`, `002.ext`, ... by position in the timeline, with the
    /// source file's extension.
    pub output_filename: String,
}

/// The outcome of a physical split: how many scenes were asked for and how
/// many standalone files were actually produced.
#[derive(Debug, Clone, Copy, PartialEq, Eq, Structural)]
pub struct SplitReport {
    pub requested_count: usize,
    pub succeeded_count: usize,
}

/// The name of the `k`-th (1-based) output file: three-digit zero-padded
/// position, dot, source extension.
pub open spec fn split_name_chars(k: nat, ext: Seq<char>) -> Seq<char> {
    pad3_chars(k) + seq!['.'] + ext
}

/// Is `step` the planned extraction of `sc` at 1-based position `k`?
pub open spec fn step_matches(step: SplitStep, sc: Scene, k: nat, ext: Seq<char>) -> bool {
    &&& step.start_arg@ == seconds_chars(sc.start_ms as nat)
    &&& step.end_arg@ == seconds_chars(sc.end_ms as nat)
    &&& step.output_filename@ == split_name_chars(k, ext)
}

fn build_split_name(k: u64, ext: &str) -> (r: String)
    ensures
        r@ == split_name_chars(k as nat, ext@),
{
    proof {
        reveal_strlit(".");
    }
    let mut r = crate::timecode::pad3_string(k);
    r.append(".");
    r.append(ext);
    proof {
        assert(r@ =~= split_name_chars(k as nat, ext@));
    }
    r
}

/// Plans the physical split of the job's persisted timeline: one
/// stream-copy step per scene, in timeline order, numbered from `001`, all
/// carrying the source file's extension. A job without scenes cannot be
/// split; a missing job is told apart.
pub fn plan_split(store: &Store, id: &str, ext: &str) -> (r: Result<Vec<SplitStep>, Error>)
    requires
        store.wf(),
    ensures
        match r {
            Ok(steps) => {
                let scenes = store.jobs@[id_index(store.jobs@, id@)].scenes@;
                &&& has_job(store.jobs@, id@)
                &&& scenes.len() > 0
                &&& timeline_sorted(scenes)
                &&& steps@.len() == scenes.len()
                &&& forall|t: int| 0 <= t < scenes.len() ==> step_matches(
                    #[trigger] steps@[t],
                    scenes[t],
                    (t + 1) as nat,
                    ext@,
                )
            },
            Err(e) => (e == Error::JobNotFound && !has_job(store.jobs@, id@)) || (e
                == Error::SceneSetEmpty && has_job(store.jobs@, id@) && store.jobs@[id_index(
                store.jobs@,
                id@,
            )].scenes@.len() == 0),
        },
{
    let scenes: &Vec<Scene> = match store.scenes_of(id) {
        Ok(s) => s,
        Err(e) => {
            return Err(e);
        },
    };
    let n: usize = scenes.len();
    let mut steps: Vec<SplitStep> = Vec::new();
    let mut t: usize = 0;
    while t < n
        invariant
            0 <= t <= n == scenes@.len(),
            n <= 0xFFFF_FFFF_FFFF_FFFFu64,
            steps@.len() == t,
            forall|x: int| 0 <= x < t ==> step_matches(
                #[trigger] steps@[x],
                scenes@[x],
                (x + 1) as nat,
                ext@,
            ),
        decreases n - t,
    {
        let sc = &scenes[t];
        steps.push(
            SplitStep {
                start_arg: format_seconds(sc.start_ms),
                end_arg: format_seconds(sc.end_ms),
                output_filename: build_split_name((t as u64) + 1, ext),
            },
        );
        t = t + 1;
    }
    Ok(steps)
}

/// How many of a run of planned steps succeeded.
pub open spec fn count_true(s: Seq<bool>) -> int
    decreases s.len(),
{
    if s.len() == 0 {
        0
    } else {
        count_true(s.drop_last()) + if s.last() {
            1int
        } else {
            0int
        }
    }
}

/// Tallies a physical split: one outcome per planned step, a failed step
/// skipped rather than fatal. Reports the number of scenes requested and
/// the number actually materialized.
pub fn tally_split(results: &Vec<bool>) -> (r: SplitReport)
    ensures
        r.requested_count == results@.len(),
        r.succeeded_count == count_true(results@),
{
    let n: usize = results.len();
    let mut ok: usize = 0;
    let mut t: usize = 0;
    while t < n
        invariant
            0 <= t <= n == results@.len(),
            ok == count_true(results@.take(t as int)),
            ok <= t,
        decreases n - t,
    {
        proof {
            assert(results@.take(t + 1).drop_last() =~= results@.take(t as int));
            assert(results@.take(t + 1).last() == results@[t as int]);
        }
        if results[t] {
            ok = ok + 1;
        }
        t = t + 1;
    }
    proof {
        assert(results@.take(n as int) =~= results@);
    }
    SplitReport { requested_count: n, succeeded_count: ok }
}

} // verus!
