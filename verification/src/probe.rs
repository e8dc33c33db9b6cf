//! Container-level metadata of a source video, as reported by the external
//! media probe tool: duration, stream size, and frame rate.
//!
//! The probe tool itself runs outside this crate and hands over its JSON
//! report as text. Field extraction goes through `serde_json`; everything the
//! pipeline computes from the extracted fields is verified here.

use vstd::prelude::*;
use vstd::slice::slice_subrange;
use crate::MAX_TIME_MS;
use crate::timecode::{
    all_digit_bytes, digits_val, first_byte_index, lemma_first_byte_index_of, scan_digits,
    seconds_parse,
};

verus! {

/// A frame rate as an exact rational, as the probe tool reports it
/// (`num/den`).
#[derive(Debug, Clone, Copy, PartialEq, Eq, Structural)]
pub struct Fps {
    pub num: u32,
    pub den: u32,
}

impl Fps {
    /// A usable frame rate never divides by zero.
    pub open spec fn wf(self) -> bool {
        self.den >= 1
    }
}

/// Container-level metadata of one media file.
#[derive(Debug, Clone, Copy, PartialEq, Eq, Structural)]
pub struct VideoInfo {
    pub duration_ms: u64,
    pub width: u32,
    pub height: u32,
    pub fps: Fps,
}

impl VideoInfo {
    pub open spec fn wf(self) -> bool {
        self.fps.wf() && self.duration_ms <= MAX_TIME_MS
    }
}

// ---------------------------------------------------------------------------
// Frame-rate text
// ---------------------------------------------------------------------------

/// How many times `b` occurs in `s`.
pub open spec fn byte_count(s: Seq<u8>, b: u8) -> nat
    decreases s.len(),
{
    if s.len() == 0 {
        0
    } else {
        byte_count(s.drop_last(), b) + if s.last() == b {
            1nat
        } else {
            0nat
        }
    }
}

/// What parsing a plain decimal text as `u32` yields.
pub open spec fn u32_parse(s: Seq<u8>) -> Option<u32> {
    if s.len() > 0 && all_digit_bytes(s) && digits_val(s) <= 0xFFFF_FFFF {
        Some(digits_val(s) as u32)
    } else {
        None
    }
}

/// The frame rate spelled by a rational text `num/den`.
///
/// With exactly one `/`: each side parses as a plain decimal, the numerator
/// falling back to 30 and the denominator to 1 when unparsable; a zero
/// denominator falls back to the numerator alone. With no `/` (or more than
/// one), only the text before the first `/` counts, over a denominator of 1.
pub open spec fn fps_of_text(s: Seq<u8>) -> Fps {
    let i = first_byte_index(s, 47);
    let num = match u32_parse(s.take(i)) {
        Some(v) => v,
        None => 30u32,
    };
    if byte_count(s, 47) == 1 {
        let den = match u32_parse(s.skip(i + 1)) {
            Some(v) => v,
            None => 1u32,
        };
        Fps { num, den: if den == 0 { 1u32 } else { den } }
    } else {
        Fps { num, den: 1u32 }
    }
}

proof fn lemma_byte_count_zero(s: Seq<u8>, b: u8)
    requires
        forall|k: int| 0 <= k < s.len() ==> s[k] != b,
    ensures
        byte_count(s, b) == 0,
    decreases s.len(),
{
    if s.len() > 0 {
        assert(forall|k: int|
            0 <= k < s.drop_last().len() ==> #[trigger] s.drop_last()[k] == s[k]);
        lemma_byte_count_zero(s.drop_last(), b);
    }
}

proof fn lemma_byte_count_push(s: Seq<u8>, b: u8, x: u8)
    ensures
        byte_count(s.push(x), b) == byte_count(s, b) + if x == b {
            1nat
        } else {
            0nat
        },
{
    assert(s.push(x).drop_last() =~= s);
    assert(s.push(x).last() == x);
}

/// Parses a plain decimal text as `u32`.
pub fn parse_u32(s: &[u8]) -> (r: Option<u32>)
    ensures
        r == u32_parse(s@),
{
    if s.len() == 0 {
        return None;
    }
    let v: u64 = match scan_digits(s, 0, s.len()) {
        Some(v) => v,
        None => {
            proof {
                assert(s@.subrange(0, s@.len() as int) =~= s@);
            }
            return None;
        },
    };
    proof {
        assert(s@.subrange(0, s@.len() as int) =~= s@);
    }
    if v > 0xFFFF_FFFF {
        None
    } else {
        Some(v as u32)
    }
}

/// Parses the probe tool's rational frame-rate text.
pub fn parse_fps(s: &[u8]) -> (r: Fps)
    ensures
        r == fps_of_text(s@),
        r.wf(),
{
    let n: usize = s.len();
    // One pass: the index of the first `/` and the number of `/`.
    let mut j: usize = n;
    let mut slashes: u64 = 0;
    let mut k: usize = 0;
    while k < n
        invariant
            0 <= k <= n == s@.len(),
            j == n || (j < k && s@[j as int] == 47),
            forall|t: int| 0 <= t < k && t < j ==> s@[t] != 47,
            j == n ==> forall|t: int| 0 <= t < k ==> s@[t] != 47,
            slashes == byte_count(s@.take(k as int), 47),
            slashes <= k,
        decreases n - k,
    {
        proof {
            assert(s@.take(k as int + 1) =~= s@.take(k as int).push(s@[k as int]));
            lemma_byte_count_push(s@.take(k as int), 47, s@[k as int]);
        }
        if s[k] == 47 {
            if j == n {
                j = k;
            }
            slashes = slashes + 1;
        }
        k = k + 1;
    }
    proof {
        assert(s@.take(n as int) =~= s@);
        lemma_first_byte_index_of(s@, 47, j as int);
    }
    let num: u32 = match parse_u32(slice_subrange(s, 0, j)) {
        Some(v) => v,
        None => 30,
    };
    proof {
        assert(s@.subrange(0, j as int) =~= s@.take(j as int));
    }
    if slashes == 1 {
        proof {
            if j == n {
                lemma_byte_count_zero(s@, 47);
            }
        }
        let den0: u32 = match parse_u32(slice_subrange(s, j + 1, n)) {
            Some(v) => v,
            None => 1,
        };
        proof {
            assert(s@.subrange(j + 1, n as int) =~= s@.skip(j + 1));
        }
        let den: u32 = if den0 == 0 {
            1
        } else {
            den0
        };
        Fps { num, den }
    } else {
        Fps { num, den: 1 }
    }
}

// ---------------------------------------------------------------------------
// Assembling metadata from extracted report fields
// ---------------------------------------------------------------------------

/// A `u64` narrowed to `u32` by truncation, as a plain `as` cast would.
pub open spec fn trunc_u32(x: u64) -> u32 {
    (x % 0x1_0000_0000) as u32
}

pub open spec fn opt_bytes_view(o: Option<&Vec<u8>>) -> Option<Seq<u8>> {
    match o {
        Some(v) => Some(v@),
        None => None,
    }
}

/// The metadata determined by the probe report's raw fields: a missing or
/// unparsable duration counts as zero, a missing frame rate as 30, and
/// missing dimensions as zero.
pub open spec fn info_of_fields(
    duration: Option<Seq<u8>>,
    width: Option<u64>,
    height: Option<u64>,
    fps: Option<Seq<u8>>,
) -> VideoInfo {
    VideoInfo {
        duration_ms: match duration {
            Some(t) => match seconds_parse(t) {
                Some(v) => v,
                None => 0u64,
            },
            None => 0u64,
        },
        width: match width {
            Some(w) => trunc_u32(w),
            None => 0u32,
        },
        height: match height {
            Some(h) => trunc_u32(h),
            None => 0u32,
        },
        fps: match fps {
            Some(t) => fps_of_text(t),
            None => Fps { num: 30u32, den: 1u32 },
        },
    }
}

/// Builds the video metadata from the plain field values extracted out of a
/// probe report, applying every fallback of `info_of_fields`.
pub fn video_info_from_fields(
    duration: Option<&Vec<u8>>,
    width: Option<u64>,
    height: Option<u64>,
    fps: Option<&Vec<u8>>,
) -> (r: VideoInfo)
    ensures
        r == info_of_fields(opt_bytes_view(duration), width, height, opt_bytes_view(fps)),
        r.wf(),
{
    let duration_ms: u64 = match duration {
        Some(t) => match crate::timecode::parse_seconds_ms(t.as_slice()) {
            Some(v) => v,
            None => 0,
        },
        None => 0,
    };
    let w: u32 = match width {
        Some(x) => (x % 0x1_0000_0000) as u32,
        None => 0,
    };
    let h: u32 = match height {
        Some(x) => (x % 0x1_0000_0000) as u32,
        None => 0,
    };
    let f: Fps = match fps {
        Some(t) => parse_fps(t.as_slice()),
        None => Fps { num: 30, den: 1 },
    };
    VideoInfo { duration_ms, width: w, height: h, fps: f }
}

// ---------------------------------------------------------------------------
// Extraction out of the JSON report
// ---------------------------------------------------------------------------

/// Whether the probe report text parses as JSON at all. A function of the
/// text alone.
pub uninterp spec fn probe_json_wf(text: Seq<char>) -> bool;

/// The report's `format.duration` field, as the bytes of its JSON string
/// value; nothing when the report lacks it or it is no string. A function
/// of the text alone.
pub uninterp spec fn probe_duration_field(text: Seq<char>) -> Option<Seq<u8>>;

/// The report's `streams[0].width` field as `u64`; nothing when the report
/// lacks it or it is no such number. A function of the text alone.
pub uninterp spec fn probe_width_field(text: Seq<char>) -> Option<u64>;

/// The report's `streams[0].height` field as `u64`; nothing when the
/// report lacks it or it is no such number. A function of the text alone.
pub uninterp spec fn probe_height_field(text: Seq<char>) -> Option<u64>;

/// The report's `streams[0].r_frame_rate` field, as the bytes of its JSON
/// string value; nothing when the report lacks it or it is no string. A
/// function of the text alone.
pub uninterp spec fn probe_fps_field(text: Seq<char>) -> Option<Seq<u8>>;

pub open spec fn opt_vec_view(o: Option<Vec<u8>>) -> Option<Seq<u8>> {
    match o {
        Some(v) => Some(v@),
        None => None,
    }
}

/// Relies on `serde_json::from_str`, `Value::pointer`, `Value::as_str` and
/// `Value::as_u64`: parses the report text and pulls out the four fields
/// the pipeline reads, each by its RFC 6901 path. Parsing and every lookup
/// are deterministic in the text, so the outcomes carry the names above.
#[verifier::external_body]
fn extract_probe_fields(text: &str) -> (r: Option<
    (Option<Vec<u8>>, Option<u64>, Option<u64>, Option<Vec<u8>>),
>)
    ensures
        match r {
            Some(f) => {
                &&& probe_json_wf(text@)
                &&& opt_vec_view(f.0) == probe_duration_field(text@)
                &&& f.1 == probe_width_field(text@)
                &&& f.2 == probe_height_field(text@)
                &&& opt_vec_view(f.3) == probe_fps_field(text@)
            },
            None => !probe_json_wf(text@),
        },
{
    let doc: serde_json::Value = match serde_json::from_str(text) {
        Ok(d) => d,
        Err(_) => return None,
    };
    let duration = doc.pointer("/format/duration").and_then(|v| v.as_str()).map(|s| {
        s.as_bytes().to_vec()
    });
    let width = doc.pointer("/streams/0/width").and_then(|v| v.as_u64());
    let height = doc.pointer("/streams/0/height").and_then(|v| v.as_u64());
    let fps = doc.pointer("/streams/0/r_frame_rate").and_then(|v| v.as_str()).map(|s| {
        s.as_bytes().to_vec()
    });
    Some((duration, width, height, fps))
}

/// Reads a probe report: pulls the duration, stream dimensions and frame
/// rate out of the JSON text and assembles the metadata from them, every
/// missing field falling back as `info_of_fields` says. Yields nothing
/// exactly when the text is not JSON at all.
pub fn probe_from_json(text: &str) -> (r: Option<VideoInfo>)
    ensures
        match r {
            Some(info) => {
                &&& probe_json_wf(text@)
                &&& info == info_of_fields(
                    probe_duration_field(text@),
                    probe_width_field(text@),
                    probe_height_field(text@),
                    probe_fps_field(text@),
                )
                &&& info.wf()
            },
            None => !probe_json_wf(text@),
        },
{
    match extract_probe_fields(text) {
        Some(f) => Some(video_info_from_fields(f.0.as_ref(), f.1, f.2, f.3.as_ref())),
        None => None,
    }
}

} // verus!
