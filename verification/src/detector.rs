//! Boundary detection: turning the diagnostic text of the external media
//! filter into an ordered, deduplicated list of boundary timestamps.
//!
//! The filter tool writes one free-text line per detected visual
//! discontinuity; each carries a `pts_time:<seconds>` token. Only that token
//! shape is depended on: malformed tokens are skipped, never fatal. The
//! collected timestamps are framed by 0 and the probed duration, sorted,
//! deduplicated exactly, and capped at `MAX_BOUNDARIES` entries by dropping
//! the latest ones.

use vstd::prelude::*;
use vstd::slice::slice_subrange;
use crate::MAX_TIME_MS;
use crate::timecode::seconds_parse;

verus! {

/// The hard ceiling on boundary-list length: at most 50 scenes, so at most
/// 51 boundaries. More detected boundaries are truncated away, earliest
/// kept.
pub const MAX_BOUNDARIES: usize = 51;

/// ASCII whitespace, the token separator in the diagnostic text.
pub open spec fn ws_byte(b: u8) -> bool {
    b == 32 || b == 9 || b == 10 || b == 11 || b == 12 || b == 13
}

/// Does a token spelling `pts_time:` start at `i`: the nine marker bytes,
/// at the start of the text or right after whitespace?
pub open spec fn pts_marker_at(s: Seq<u8>, i: int) -> bool {
    &&& 0 <= i
    &&& i + 9 <= s.len()
    &&& s[i] == 112  // p
    &&& s[i + 1] == 116  // t
    &&& s[i + 2] == 115  // s
    &&& s[i + 3] == 95  // _
    &&& s[i + 4] == 116  // t
    &&& s[i + 5] == 105  // i
    &&& s[i + 6] == 109  // m
    &&& s[i + 7] == 101  // e
    &&& s[i + 8] == 58  // :
    &&& (i == 0 || ws_byte(s[i - 1]))
}

/// End of the value that follows a marker: the next whitespace, `:` or the
/// end of the text, scanning from `k`.
pub open spec fn value_end(s: Seq<u8>, k: int) -> int
    decreases s.len() - k,
{
    if k < 0 || k >= s.len() {
        s.len() as int
    } else if ws_byte(s[k]) || s[k] == 58 {
        k
    } else {
        value_end(s, k + 1)
    }
}

/// Every timestamp the diagnostic text spells from position `i` on: for each
/// `pts_time:` token whose value parses as plain decimal seconds, that value
/// in milliseconds, in text order.
pub open spec fn pts_times(s: Seq<u8>, i: int) -> Seq<u64>
    decreases s.len() - i,
{
    if i < 0 || i >= s.len() {
        Seq::empty()
    } else {
        let rest = pts_times(s, i + 1);
        if pts_marker_at(s, i) {
            match seconds_parse(s.subrange(i + 9, value_end(s, i + 9))) {
                Some(v) => seq![v] + rest,
                None => rest,
            }
        } else {
            rest
        }
    }
}

/// Every collected timestamp is within range, by construction.
pub proof fn lemma_pts_times_bounded(s: Seq<u8>, i: int)
    ensures
        forall|k: int| 0 <= k < pts_times(s, i).len() ==> #[trigger] pts_times(s, i)[k]
            <= MAX_TIME_MS,
    decreases s.len() - i,
{
    if 0 <= i < s.len() {
        lemma_pts_times_bounded(s, i + 1);
        let rest = pts_times(s, i + 1);
        assert forall|k: int| 0 <= k < pts_times(s, i).len() implies #[trigger] pts_times(s, i)[k]
            <= MAX_TIME_MS by {
            if pts_marker_at(s, i) {
                match seconds_parse(s.subrange(i + 9, value_end(s, i + 9))) {
                    Some(v) => {
                        if k > 0 {
                            assert(pts_times(s, i)[k] == rest[k - 1]);
                        }
                    },
                    None => {},
                }
            }
        }
    }
}

fn is_marker_at(s: &[u8], i: usize) -> (r: bool)
    requires
        i < s@.len(),
    ensures
        r == pts_marker_at(s@, i as int),
{
    let n: usize = s.len();
    if n - i < 9 {
        return false;
    }
    let head_ok: bool = i == 0 || {
        let p: u8 = s[i - 1];
        p == 32 || p == 9 || p == 10 || p == 11 || p == 12 || p == 13
    };
    head_ok && s[i] == 112 && s[i + 1] == 116 && s[i + 2] == 115 && s[i + 3] == 95 && s[i + 4]
        == 116 && s[i + 5] == 105 && s[i + 6] == 109 && s[i + 7] == 101 && s[i + 8] == 58
}

/// Collects every parsable `pts_time:` value of the diagnostic text, in
/// milliseconds, in text order.
pub fn collect_pts_times(s: &[u8]) -> (r: Vec<u64>)
    ensures
        r@ == pts_times(s@, 0),
        forall|k: int| 0 <= k < r@.len() ==> #[trigger] r@[k] <= MAX_TIME_MS,
{
    let n: usize = s.len();
    let mut r: Vec<u64> = Vec::new();
    let mut i: usize = 0;
    while i < n
        invariant
            0 <= i <= n == s@.len(),
            pts_times(s@, 0) =~= r@ + pts_times(s@, i as int),
            forall|k: int| 0 <= k < r@.len() ==> #[trigger] r@[k] <= MAX_TIME_MS,
        decreases n - i,
    {
        if is_marker_at(s, i) {
            // Scan to the end of the value.
            let mut j: usize = i + 9;
            while j < n && !(s[j] == 32 || s[j] == 9 || s[j] == 10 || s[j] == 11 || s[j] == 12
                || s[j] == 13 || s[j] == 58)
                invariant
                    i + 9 <= j <= n == s@.len(),
                    value_end(s@, i + 9) == value_end(s@, j as int),
                decreases n - j,
            {
                j = j + 1;
            }
            let seg = slice_subrange(s, i + 9, j);
            match crate::timecode::parse_seconds_ms(seg) {
                Some(v) => {
                    r.push(v);
                    proof {
                        assert(pts_times(s@, 0) =~= r@ + pts_times(s@, i + 1));
                    }
                },
                None => {
                    proof {
                        assert(pts_times(s@, 0) =~= r@ + pts_times(s@, i + 1));
                    }
                },
            }
        }
        i = i + 1;
    }
    r
}

// ---------------------------------------------------------------------------
// Normalization: frame, sort, deduplicate, cap
// ---------------------------------------------------------------------------

pub open spec fn strictly_sorted(s: Seq<u64>) -> bool {
    forall|a: int, b: int| 0 <= a < b < s.len() ==> s[a] < s[b]
}

/// Is `r` the normalized boundary list of the collected timestamps `times`
/// under the probed duration: strictly ascending (so duplicate-free),
/// starting at 0, at most `MAX_BOUNDARIES` long, made of nothing but framed
/// values, complete up to the cap — anything missing is larger than
/// everything kept — and ending at the duration whenever nothing was
/// truncated and no timestamp exceeds the duration.
pub open spec fn normalized_boundaries(r: Seq<u64>, times: Seq<u64>, duration_ms: u64) -> bool {
    &&& strictly_sorted(r)
    &&& 1 <= r.len() <= MAX_BOUNDARIES
    &&& r[0] == 0
    &&& forall|k: int| 0 <= k < r.len() ==> (r[k] == 0 || r[k] == duration_ms || times.contains(
        #[trigger] r[k],
    ))
    &&& forall|y: u64| (y == 0 || y == duration_ms || times.contains(y)) ==> (r.contains(y) || (
    r.len() == MAX_BOUNDARIES && y > r[MAX_BOUNDARIES - 1]))
    &&& (r.contains(duration_ms) && (forall|k: int|
        0 <= k < times.len() ==> #[trigger] times[k] <= duration_ms)) ==> r[r.len() - 1]
        == duration_ms
    &&& (r.len() < MAX_BOUNDARIES && (forall|k: int|
        0 <= k < times.len() ==> #[trigger] times[k] <= duration_ms)) ==> r[r.len() - 1]
        == duration_ms
}

/// `post` holds exactly the values of `pre` plus `x`.
pub open spec fn holds_with(pre: Seq<u64>, post: Seq<u64>, x: u64) -> bool {
    forall|y: u64| post.contains(y) <==> (pre.contains(y) || y == x)
}

/// Inserts `x` into a strictly sorted vector, keeping it strictly sorted;
/// a present value is left alone.
fn insert_sorted(v: &mut Vec<u64>, x: u64)
    requires
        strictly_sorted(old(v)@),
    ensures
        strictly_sorted(final(v)@),
        holds_with(old(v)@, final(v)@, x),
{
    let n: usize = v.len();
    let mut p: usize = 0;
    while p < n && v[p] < x
        invariant
            0 <= p <= n == v@.len(),
            forall|k: int| 0 <= k < p ==> v@[k] < x,
        decreases n - p,
    {
        p = p + 1;
    }
    if p < n && v[p] == x {
        proof {
            assert(v@.contains(v@[p as int]));
            assert(holds_with(v@, v@, x));
        }
        return;
    }
    let ghost oldv = v@;
    v.insert(p, x);
    proof {
        assert(v@ =~= oldv.take(p as int) + seq![x] + oldv.skip(p as int));
        assert forall|a: int, b: int| 0 <= a < b < v@.len() implies v@[a] < v@[b] by {
            if a < p {
                assert(v@[a] == oldv[a]);
            } else if a == p {
                assert(v@[a] == x);
            } else {
                assert(v@[a] == oldv[a - 1]);
            }
            if b < p {
                assert(v@[b] == oldv[b]);
            } else if b == p {
                assert(v@[b] == x);
            } else {
                assert(v@[b] == oldv[b - 1]);
            }
        }
        assert forall|y: u64| v@.contains(y) implies (oldv.contains(y) || y == x) by {
            let idx = choose|idx: int| 0 <= idx < v@.len() && v@[idx] == y;
            if idx < p {
                assert(oldv[idx] == y);
                assert(oldv.contains(y));
            } else if idx > p {
                assert(oldv[idx - 1] == y);
                assert(oldv.contains(y));
            } else {
                assert(v@[p as int] == x);
            }
        }
        assert forall|y: u64| (oldv.contains(y) || y == x) implies v@.contains(y) by {
            if oldv.contains(y) {
                let idx = choose|idx: int| 0 <= idx < oldv.len() && oldv[idx] == y;
                if idx < p {
                    assert(v@[idx] == y);
                } else {
                    assert(v@[idx + 1] == y);
                }
            } else {
                assert(v@[p as int] == x);
                assert(v@[p as int] == y);
            }
        }
        assert(holds_with(oldv, v@, x));
    }
}

/// Frames the collected timestamps with 0 and the probed duration, sorts
/// them ascending, removes exact duplicates, and keeps only the earliest
/// `MAX_BOUNDARIES` entries.
///
/// The result holds exactly the distinct framed values when they fit the
/// cap; otherwise the smallest `MAX_BOUNDARIES` of them, every dropped value
/// being larger than everything kept.
pub fn normalize_boundaries(times: &Vec<u64>, duration_ms: u64) -> (r: Vec<u64>)
    ensures
        normalized_boundaries(r@, times@, duration_ms),
{
    let mut full: Vec<u64> = Vec::new();
    insert_sorted(&mut full, 0);
    insert_sorted(&mut full, duration_ms);
    let mut i: usize = 0;
    while i < times.len()
        invariant
            0 <= i <= times@.len(),
            strictly_sorted(full@),
            forall|y: u64| full@.contains(y) <==> (y == 0 || y == duration_ms
                || times@.take(i as int).contains(y)),
        decreases times@.len() - i,
    {
        let ghost pre = full@;
        insert_sorted(&mut full, times[i]);
        proof {
            assert forall|y: u64| full@.contains(y) implies (y == 0 || y == duration_ms
                || times@.take(i + 1).contains(y)) by {
                if pre.contains(y) {
                    if times@.take(i as int).contains(y) {
                        let idx = choose|idx: int|
                            0 <= idx < i && times@.take(i as int)[idx] == y;
                        assert(times@.take(i + 1)[idx] == y);
                    }
                } else {
                    assert(times@.take(i + 1)[i as int] == y);
                }
            }
            assert forall|y: u64| (y == 0 || y == duration_ms || times@.take(i + 1).contains(y))
                implies full@.contains(y) by {
                if times@.take(i + 1).contains(y) && y != 0 && y != duration_ms {
                    let idx = choose|idx: int|
                        0 <= idx <= i && #[trigger] times@.take(i + 1)[idx] == y;
                    if idx < i {
                        assert(times@.take(i as int)[idx] == y);
                    }
                }
            }
        }
        i = i + 1;
    }
    proof {
        assert(times@.take(times@.len() as int) =~= times@);
    }
    let ghost fullv = full@;
    if full.len() > MAX_BOUNDARIES {
        full.truncate(MAX_BOUNDARIES);
    }
    proof {
        if fullv.len() > MAX_BOUNDARIES {
            assert(full@ =~= fullv.subrange(0, MAX_BOUNDARIES as int));
        }
        // Everything kept sits in the full list.
        assert forall|k: int| 0 <= k < full@.len() implies (full@[k] == 0 || full@[k]
            == duration_ms || times@.contains(full@[k])) by {
            assert(fullv.contains(fullv[k]));
        }
        // Everything framed either survived or is larger than the last kept.
        assert forall|y: u64| (y == 0 || y == duration_ms || times@.contains(y)) implies (
        full@.contains(y) || (full@.len() == MAX_BOUNDARIES && y > full@[
        MAX_BOUNDARIES - 1])) by {
            assert(fullv.contains(y));
            let idx = choose|idx: int| 0 <= idx < fullv.len() && fullv[idx] == y;
            if idx < MAX_BOUNDARIES {
                assert(full@[idx] == y);
                assert(full@.contains(y));
            } else {
                assert(fullv[MAX_BOUNDARIES - 1] < fullv[idx]);
            }
        }
        // 0 is framed and nothing is below it, so it survives in front.
        assert(full@.contains(0u64));
        let z = choose|z: int| 0 <= z < full@.len() && full@[z] == 0u64;
        if z != 0 {
            assert(full@[0] < full@[z]);
        }
        // Truncation keeps the order strict.
        assert forall|a: int, b: int| 0 <= a < b < full@.len() implies full@[a] < full@[b] by {
            assert(full@[a] == fullv[a] && full@[b] == fullv[b]);
        }
        // The maximum framed value sits at the back whenever it survives;
        // without truncation it always survives.
        if forall|k: int| 0 <= k < times@.len() ==> #[trigger] times@[k] <= duration_ms {
            if full@.len() < MAX_BOUNDARIES {
                assert(full@.contains(duration_ms));
            }
            if full@.contains(duration_ms) {
                let d = choose|d: int| 0 <= d < full@.len() && full@[d] == duration_ms;
                let lastv = full@[full@.len() - 1];
                assert(full@.contains(lastv));
                assert(lastv == 0 || lastv == duration_ms || times@.contains(lastv));
                if times@.contains(lastv) {
                    let t = choose|t: int| 0 <= t < times@.len() && times@[t] == lastv;
                    assert(times@[t] <= duration_ms);
                }
                assert(lastv <= duration_ms);
                if d != full@.len() - 1 {
                    assert(full@[d] < lastv);
                }
                assert(lastv == duration_ms);
            }
        }
    }
    full
}

/// Boundary detection on the diagnostic text of the media filter: every
/// parsable `pts_time:` value, framed by 0 and the probed duration, sorted
/// ascending, exact duplicates removed, capped at `MAX_BOUNDARIES` entries
/// by dropping the largest.
pub fn detect_boundaries(diagnostic: &[u8], duration_ms: u64) -> (r: Vec<u64>)
    ensures
        normalized_boundaries(r@, pts_times(diagnostic@, 0), duration_ms),
{
    let times = collect_pts_times(diagnostic);
    normalize_boundaries(&times, duration_ms)
}

} // verus!
