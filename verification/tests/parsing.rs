use scenecut::detector::{collect_pts_times, detect_boundaries};
use scenecut::ids::{canonicalize_job_id, fresh_job_id, parse_job_id};
use scenecut::store::Error;
use scenecut::ingest::is_youtube_url;
use scenecut::logging::{
    default_project_type, log_api_error, log_api_request, log_gemini_response,
    log_model_interaction,
};
use scenecut::probe::{parse_fps, parse_u32, probe_from_json, video_info_from_fields, Fps};
use scenecut::timecode::{dec_string, format_seconds, format_timestamp, parse_seconds_ms};

#[test]
fn format_timestamp_is_pure_and_exact() {
    assert_eq!(format_timestamp(3_661_234), "01:01:01.234");
    assert_eq!(format_timestamp(0), "00:00:00.000");
    assert_eq!(format_timestamp(3_661_234), format_timestamp(3_661_234));
}

#[test]
fn format_timestamp_widens_hours() {
    assert_eq!(format_timestamp(360_000_000), "100:00:00.000");
    assert_eq!(format_timestamp(59_999), "00:00:59.999");
    assert_eq!(format_timestamp(60_000), "00:01:00.000");
}

#[test]
fn format_seconds_three_decimals() {
    assert_eq!(format_seconds(3_500), "3.500");
    assert_eq!(format_seconds(0), "0.000");
    assert_eq!(format_seconds(10_050), "10.050");
}

#[test]
fn dec_string_renders_decimal() {
    assert_eq!(dec_string(0), "0");
    assert_eq!(dec_string(907), "907");
    assert_eq!(dec_string(18_446_744_073_709_551_615), "18446744073709551615");
}

#[test]
fn parse_seconds_plain_forms() {
    assert_eq!(parse_seconds_ms(b"7"), Some(7_000));
    assert_eq!(parse_seconds_ms(b"3.5"), Some(3_500));
    assert_eq!(parse_seconds_ms(b".25"), Some(250));
    assert_eq!(parse_seconds_ms(b"120."), Some(120_000));
    assert_eq!(parse_seconds_ms(b"1.23456"), Some(1_234));
}

#[test]
fn parse_seconds_rejects_malformed() {
    assert_eq!(parse_seconds_ms(b""), None);
    assert_eq!(parse_seconds_ms(b"."), None);
    assert_eq!(parse_seconds_ms(b"1.2.3"), None);
    assert_eq!(parse_seconds_ms(b"-1"), None);
    assert_eq!(parse_seconds_ms(b"3,5"), None);
    assert_eq!(parse_seconds_ms(b"abc"), None);
    assert_eq!(parse_seconds_ms(b"99999999999999999999999"), None);
}

#[test]
fn parse_u32_bounds() {
    assert_eq!(parse_u32(b"30"), Some(30));
    assert_eq!(parse_u32(b"4294967295"), Some(4_294_967_295));
    assert_eq!(parse_u32(b"4294967296"), None);
    assert_eq!(parse_u32(b""), None);
    assert_eq!(parse_u32(b"3.5"), None);
}

#[test]
fn parse_fps_rational_forms() {
    assert_eq!(parse_fps(b"30/1"), Fps { num: 30, den: 1 });
    assert_eq!(parse_fps(b"30000/1001"), Fps { num: 30000, den: 1001 });
    assert_eq!(parse_fps(b"25"), Fps { num: 25, den: 1 });
    // A zero or unparsable denominator falls back to the numerator alone.
    assert_eq!(parse_fps(b"24/0"), Fps { num: 24, den: 1 });
    assert_eq!(parse_fps(b"24/x"), Fps { num: 24, den: 1 });
    // An unparsable numerator falls back to 30.
    assert_eq!(parse_fps(b"abc"), Fps { num: 30, den: 1 });
    assert_eq!(parse_fps(b""), Fps { num: 30, den: 1 });
    assert_eq!(parse_fps(b"30/1/2"), Fps { num: 30, den: 1 });
}

#[test]
fn video_info_fallbacks() {
    let info = video_info_from_fields(None, None, None, None);
    assert_eq!(info.duration_ms, 0);
    assert_eq!(info.width, 0);
    assert_eq!(info.height, 0);
    assert_eq!(info.fps, Fps { num: 30, den: 1 });

    let d = b"12.345678".to_vec();
    let f = b"24/1".to_vec();
    let info = video_info_from_fields(Some(&d), Some(1920), Some(1080), Some(&f));
    assert_eq!(info.duration_ms, 12_345);
    assert_eq!(info.width, 1920);
    assert_eq!(info.height, 1080);
    assert_eq!(info.fps, Fps { num: 24, den: 1 });
}

#[test]
fn probe_reads_report_json() {
    let text = r#"{"format":{"duration":"10.000000"},"streams":[{"width":1280,"height":720,"r_frame_rate":"30000/1001"}]}"#;
    let info = probe_from_json(text).unwrap();
    assert_eq!(info.duration_ms, 10_000);
    assert_eq!(info.width, 1280);
    assert_eq!(info.height, 720);
    assert_eq!(info.fps, Fps { num: 30000, den: 1001 });
}

#[test]
fn probe_rejects_non_json() {
    assert!(probe_from_json("not json at all").is_none());
    let info = probe_from_json("{}").unwrap();
    assert_eq!(info.duration_ms, 0);
    assert_eq!(info.fps, Fps { num: 30, den: 1 });
}

#[test]
fn collect_pts_times_scans_tokens() {
    let text = b"[Parsed_showinfo] n:1 pts:89 pts_time:3.5 pos:100\nnoise pts_time:7.0 x\n";
    assert_eq!(collect_pts_times(text), vec![3_500, 7_000]);
    // A malformed value is skipped, not fatal; a mid-token marker is no token.
    let text = b"pts_time:abc xpts_time:2 pts_time:1.25:extra";
    assert_eq!(collect_pts_times(text), vec![1_250]);
    assert_eq!(collect_pts_times(b""), Vec::<u64>::new());
}

#[test]
fn detect_boundaries_frames_sorts_dedups() {
    let text = b"pts_time:7.0 pts_time:3.5 pts_time:3.5\n";
    let b = detect_boundaries(text, 10_000);
    assert_eq!(b, vec![0, 3_500, 7_000, 10_000]);
}

#[test]
fn detect_boundaries_empty_text() {
    assert_eq!(detect_boundaries(b"", 10_000), vec![0, 10_000]);
    // A degenerate zero-length source still yields a valid frame.
    assert_eq!(detect_boundaries(b"", 0), vec![0]);
}

#[test]
fn detect_boundaries_caps_at_51() {
    let mut text = String::new();
    for k in 1..=60 {
        text.push_str(&format!("pts_time:{k} "));
    }
    let b = detect_boundaries(text.as_bytes(), 100_000);
    assert_eq!(b.len(), 51);
    assert_eq!(b[0], 0);
    // The earliest values survive; the duration was truncated away.
    assert_eq!(b[50], 50_000);
    for w in b.windows(2) {
        assert!(w[0] < w[1]);
    }
}

#[test]
fn job_ids_canonicalize() {
    let id = fresh_job_id();
    assert_eq!(id.len(), 36);
    assert_eq!(canonicalize_job_id(&id).as_deref(), Some(id.as_str()));

    let upper = "67E55044-10B1-426F-9247-BB680E5FE0C8";
    let canon = canonicalize_job_id(upper).unwrap();
    assert_eq!(canon, "67e55044-10b1-426f-9247-bb680e5fe0c8");
    assert_eq!(canonicalize_job_id("not-a-uuid"), None);
    assert_eq!(canonicalize_job_id(""), None);
}

#[test]
fn bad_id_text_is_bad_input_not_a_miss() {
    let r = parse_job_id("definitely-not-a-uuid");
    assert_eq!(r, Err(Error::InvalidJobId));
    assert_eq!(r.unwrap_err().status_code(), 400);
    let ok = parse_job_id("67E55044-10B1-426F-9247-BB680E5FE0C8").unwrap();
    assert_eq!(ok, "67e55044-10b1-426f-9247-bb680e5fe0c8");
}

#[test]
fn youtube_url_check() {
    assert!(is_youtube_url("https://www.youtube.com/watch?v=abc"));
    assert!(is_youtube_url("https://youtu.be/abc"));
    assert!(!is_youtube_url("https://example.com/v.mp4"));
    assert!(!is_youtube_url(""));
}

#[test]
fn log_entries_have_fixed_shape() {
    assert_eq!(
        log_model_interaction("gemini", "ask", "answer"),
        "Model: gemini\n--- Request ---\nask\n--- Response ---\nanswer"
    );
    assert_eq!(
        log_gemini_response("/v1/generate", 200, "ok"),
        "RESPONSE from /v1/generate (Status: 200)\nBody: ok"
    );
    assert_eq!(default_project_type().as_deref(), Some("video"));
    assert_eq!(
        log_api_request("/api/jobs", "GET", "limit=20"),
        "GET /api/jobs\nParams: limit=20"
    );
    assert_eq!(
        log_api_error("/api/jobs", "boom", "while listing"),
        "Endpoint: /api/jobs\nContext: while listing\nError: boom"
    );
}

#[test]
fn parse_seconds_truncates_sub_millisecond() {
    assert_eq!(parse_seconds_ms(b"0.0005"), Some(0));
    assert_eq!(parse_seconds_ms(b"0.9999"), Some(999));
}
