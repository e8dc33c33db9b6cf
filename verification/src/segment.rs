//! Materializing a boundary list into scene records: filtering degenerate
//! pairs, dense 1-based indexing, frame counts, and formatted timestamps.

use vstd::prelude::*;
use vstd::arithmetic::div_mod::{lemma_div_is_ordered, lemma_div_is_ordered_by_denominator};
use crate::MAX_TIME_MS;
use crate::probe::Fps;
use crate::timecode::{format_timestamp, timestamp_chars};

verus! {

/// A boundary pair at most this long (in milliseconds) is detector noise and
/// yields no scene.
pub const MIN_SCENE_MS: u64 = 100;

/// One timeline entry of a job's segmentation. Times are milliseconds.
#[derive(Debug, Clone, PartialEq)]
pub struct Scene {
    /// 1-based position within the job's timeline, dense.
    pub index: usize,
    pub start_ms: u64,
    pub end_ms: u64,
    pub duration_ms: u64,
    /// `start_ms` as `HH:MM:SS.mmm`.
    pub start_timestamp: String,
    /// `end_ms` as `HH:MM:SS.mmm`.
    pub end_timestamp: String,
    /// `round(duration * fps)` of the probed frame rate.
    pub frame_count: u64,
}

pub open spec fn sorted_ascending(s: Seq<u64>) -> bool {
    forall|a: int, b: int| 0 <= a < b < s.len() ==> s[a] <= s[b]
}

/// `round(duration * fps)` computed exactly on the rational frame rate:
/// half-up rounding of `duration_ms * num / (1000 * den)`.
pub open spec fn frames_of(duration_ms: nat, fps: Fps) -> nat {
    (2 * duration_ms * (fps.num as nat) + 1000 * (fps.den as nat)) / (2000 * (fps.den as nat))
}

/// The boundary pairs that survive the noise filter, from position `i` on:
/// each adjacent pair further apart than `MIN_SCENE_MS`.
pub open spec fn kept_pairs(b: Seq<u64>, i: int) -> Seq<(u64, u64)>
    decreases b.len() - i,
{
    if i < 0 || i + 1 >= b.len() {
        Seq::empty()
    } else {
        let rest = kept_pairs(b, i + 1);
        if b[i + 1] - b[i] > MIN_SCENE_MS {
            seq![(b[i], b[i + 1])] + rest
        } else {
            rest
        }
    }
}

/// Is `sc` the scene record that a boundary pair `(start, end)` at 1-based
/// position `idx` materializes to, under frame rate `fps`?
pub open spec fn scene_matches(sc: Scene, idx: int, start: u64, end: u64, fps: Fps) -> bool {
    &&& sc.index == idx
    &&& sc.start_ms == start
    &&& sc.end_ms == end
    &&& sc.duration_ms == end - start
    &&& sc.start_timestamp@ == timestamp_chars(start as nat)
    &&& sc.end_timestamp@ == timestamp_chars(end as nat)
    &&& sc.frame_count == frames_of((end - start) as nat, fps)
}

/// Does `scenes` materialize exactly the surviving pairs of `b`, densely
/// indexed from 1?
pub open spec fn scenes_match(scenes: Seq<Scene>, b: Seq<u64>, fps: Fps) -> bool {
    &&& scenes.len() == kept_pairs(b, 0).len()
    &&& forall|k: int| 0 <= k < scenes.len() ==> scene_matches(
        #[trigger] scenes[k],
        k + 1,
        kept_pairs(b, 0)[k].0,
        kept_pairs(b, 0)[k].1,
        fps,
    )
}

/// `round(duration * fps)`, exactly, on the rational frame rate.
pub fn frame_count(duration_ms: u64, fps: Fps) -> (r: u64)
    requires
        duration_ms <= MAX_TIME_MS,
        fps.wf(),
    ensures
        r == frames_of(duration_ms as nat, fps),
{
    let num: u128 = fps.num as u128;
    let den: u128 = fps.den as u128;
    proof {
        let di = duration_ms as int;
        let ni = fps.num as int;
        let dei = fps.den as int;
        assert(2 * di * ni <= 2 * 1_000_000_000_000int * 4_294_967_295int) by (nonlinear_arith)
            requires
                0 <= di <= 1_000_000_000_000int,
                0 <= ni <= 4_294_967_295int,
        ;
        let ai = 2 * di * ni + 1000 * dei;
        assert(ai <= 9_000_000_000_000_000_000_000_000int);
        lemma_div_is_ordered_by_denominator(ai, 2000, 2000 * dei);
        lemma_div_is_ordered(ai, 9_000_000_000_000_000_000_000_000int, 2000);
        assert(ai / (2000 * dei) <= 9_000_000_000_000_000_000_000_000int / 2000);
    }
    let a: u128 = 2 * (duration_ms as u128) * num + 1000 * den;
    let b: u128 = 2000 * den;
    (a / b) as u64
}

/// Turns a boundary list into the ordered scene set of a job: each adjacent
/// pair further apart than `MIN_SCENE_MS` becomes one scene; surviving
/// scenes are indexed densely from 1; each carries its exact duration,
/// formatted timestamps and rounded frame count.
pub fn build_scenes(b: &Vec<u64>, fps: Fps) -> (r: Vec<Scene>)
    requires
        sorted_ascending(b@),
        forall|k: int| 0 <= k < b@.len() ==> #[trigger] b@[k] <= MAX_TIME_MS,
        fps.wf(),
    ensures
        scenes_match(r@, b@, fps),
{
    let ghost kept0 = kept_pairs(b@, 0);
    let n: usize = b.len();
    let m: usize = if n == 0 {
        0
    } else {
        n - 1
    };
    let mut r: Vec<Scene> = Vec::new();
    let mut i: usize = 0;
    while i < m
        invariant
            m == if n == 0 {
                0int
            } else {
                n - 1
            },
            0 <= i <= n == b@.len(),
            r@.len() <= i,
            sorted_ascending(b@),
            forall|k: int| 0 <= k < b@.len() ==> #[trigger] b@[k] <= MAX_TIME_MS,
            fps.wf(),
            kept0 == kept_pairs(b@, 0),
            r@.len() + kept_pairs(b@, i as int).len() == kept0.len(),
            kept0 =~= kept0.take(r@.len() as int) + kept_pairs(b@, i as int),
            forall|k: int| 0 <= k < r@.len() ==> scene_matches(
                #[trigger] r@[k],
                k + 1,
                kept0[k].0,
                kept0[k].1,
                fps,
            ),
        decreases m - i,
    {
        let start: u64 = b[i];
        let end: u64 = b[i + 1];
        proof {
            assert(b@[i as int] <= b@[i + 1]);
        }
        let duration: u64 = end - start;
        if duration > MIN_SCENE_MS {
            proof {
                let len = r@.len() as int;
                assert(kept_pairs(b@, i as int) == seq![(start, end)] + kept_pairs(b@, i + 1));
                assert((kept0.take(len) + kept_pairs(b@, i as int))[len] == kept_pairs(
                    b@,
                    i as int,
                )[0]);
                assert(kept_pairs(b@, i as int)[0] == (start, end));
                assert(kept0[len] == (start, end));
            }
            let idx: usize = r.len() + 1;
            let sc = Scene {
                index: idx,
                start_ms: start,
                end_ms: end,
                duration_ms: duration,
                start_timestamp: format_timestamp(start),
                end_timestamp: format_timestamp(end),
                frame_count: frame_count(duration, fps),
            };
            r.push(sc);
            proof {
                let len = r@.len() - 1;
                assert(kept0.take(len + 1) =~= kept0.take(len) + seq![(start, end)]);
                assert(kept0.take(len) + (seq![(start, end)] + kept_pairs(b@, i + 1)) =~= (
                kept0.take(len) + seq![(start, end)]) + kept_pairs(b@, i + 1));
                assert(kept0 =~= kept0.take(r@.len() as int) + kept_pairs(b@, i + 1));
            }
        } else {
            proof {
                assert(kept_pairs(b@, i as int) == kept_pairs(b@, i + 1));
            }
        }
        i = i + 1;
    }
    proof {
        assert(kept_pairs(b@, i as int) == Seq::<(u64, u64)>::empty());
        assert(r@.len() == kept0.len());
    }
    r
}

/// With every adjacent boundary gap above the noise floor, the surviving
/// pairs are all the pairs, in order.
proof fn lemma_kept_all(b: Seq<u64>, i: int)
    requires
        0 <= i,
        forall|k: int| 0 <= k < b.len() - 1 ==> #[trigger] b[k + 1] - b[k] > MIN_SCENE_MS,
    ensures
        kept_pairs(b, i).len() == if i + 1 >= b.len() {
            0int
        } else {
            b.len() - 1 - i
        },
        forall|k: int| 0 <= k < kept_pairs(b, i).len() ==> #[trigger] kept_pairs(b, i)[k] == (
        b[i + k], b[i + k + 1]),
    decreases b.len() - i,
{
    if i + 1 < b.len() {
        lemma_kept_all(b, i + 1);
        assert(b[i + 1] - b[i] > MIN_SCENE_MS);
    }
}

/// The timeline a segment build materializes tiles its boundary list without
/// gap or overlap, provided no pair fell to the noise filter: the first
/// scene starts at the first boundary, each scene ends where the next
/// begins, the last scene ends at the last boundary, and the indices are the
/// dense sequence 1, 2, ... .
pub proof fn lemma_timeline_contiguous(b: Seq<u64>, scenes: Seq<Scene>, fps: Fps)
    requires
        b.len() >= 2,
        forall|k: int| 0 <= k < b.len() - 1 ==> #[trigger] b[k + 1] - b[k] > MIN_SCENE_MS,
        scenes_match(scenes, b, fps),
    ensures
        scenes.len() == b.len() - 1,
        scenes[0].start_ms == b[0],
        scenes[scenes.len() - 1].end_ms == b[b.len() - 1],
        forall|k: int| 0 <= k < scenes.len() - 1 ==> #[trigger] scenes[k].end_ms == scenes[k
            + 1].start_ms,
        forall|k: int| 0 <= k < scenes.len() ==> #[trigger] scenes[k].index == k + 1,
{
    lemma_kept_all(b, 0);
    assert(scenes.len() == b.len() - 1);
    assert forall|k: int| 0 <= k < scenes.len() - 1 implies #[trigger] scenes[k].end_ms
        == scenes[k + 1].start_ms by {
        assert(kept_pairs(b, 0)[k] == (b[k], b[k + 1]));
        assert(kept_pairs(b, 0)[k + 1] == (b[k + 1], b[k + 2]));
        assert(scene_matches(scenes[k], k + 1, b[k], b[k + 1], fps));
        assert(scene_matches(scenes[k + 1], k + 2, b[k + 1], b[k + 2], fps));
    }
    assert(kept_pairs(b, 0)[0] == (b[0], b[1]));
    assert(scene_matches(scenes[0], 1, b[0], b[1], fps));
    let last = scenes.len() - 1;
    assert(kept_pairs(b, 0)[last] == (b[last], b[last + 1]));
    assert(scene_matches(scenes[last], last + 1, b[last], b[last + 1], fps));
}

} // verus!
