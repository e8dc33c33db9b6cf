use scenecut::cut::{plan_split, tally_split, virtual_view};
use scenecut::probe::{Fps, VideoInfo};
use scenecut::segment::build_scenes;
use scenecut::store::{Error, JobStatus, SceneUpdate, Store};

fn sample_store() -> Store {
    let mut store = Store::new();
    store
        .create_job("job-1".to_string(), "clip.mp4".to_string(), 1_000, None, 50)
        .unwrap();
    store
}

fn sample_info() -> VideoInfo {
    VideoInfo { duration_ms: 10_000, width: 1280, height: 720, fps: Fps { num: 30, den: 1 } }
}

#[test]
fn segment_ten_second_source() {
    // A 10-second source with boundaries [0, 3.5, 7.0, 10] at 30 fps.
    let mut store = sample_store();
    let diag = b"pts_time:3.5 pts_time:7.0";
    let n = store.segment("job-1", sample_info(), diag, 60).unwrap();
    assert_eq!(n, 3);

    let job = store.find_job("job-1").unwrap();
    assert_eq!(job.status, JobStatus::Completed);
    assert_eq!(job.duration_ms, Some(10_000));
    assert_eq!(job.updated_at_ms, 60);
    let scenes = &job.scenes;
    assert_eq!(scenes.len(), 3);
    let durations: Vec<u64> = scenes.iter().map(|s| s.duration_ms).collect();
    assert_eq!(durations, vec![3_500, 3_500, 3_000]);
    let frames: Vec<u64> = scenes.iter().map(|s| s.frame_count).collect();
    assert_eq!(frames, vec![105, 105, 90]);
    let indices: Vec<usize> = scenes.iter().map(|s| s.index).collect();
    assert_eq!(indices, vec![1, 2, 3]);
    assert_eq!(scenes[0].start_ms, 0);
    assert_eq!(scenes[0].end_ms, scenes[1].start_ms);
    assert_eq!(scenes[1].end_ms, scenes[2].start_ms);
    assert_eq!(scenes[2].end_ms, 10_000);
    assert_eq!(scenes[0].start_timestamp, "00:00:00.000");
    assert_eq!(scenes[0].end_timestamp, "00:00:03.500");
}

#[test]
fn segment_ntsc_frame_rate_rounds() {
    let mut store = sample_store();
    let info = VideoInfo {
        duration_ms: 10_000,
        width: 1280,
        height: 720,
        fps: Fps { num: 30000, den: 1001 },
    };
    store.segment("job-1", info, b"pts_time:3.5", 60).unwrap();
    let job = store.find_job("job-1").unwrap();
    // round(3.5 * 30000/1001) = round(104.895...) = 105
    assert_eq!(job.scenes[0].frame_count, 105);
    // round(6.5 * 30000/1001) = round(194.805...) = 195
    assert_eq!(job.scenes[1].frame_count, 195);
}

#[test]
fn short_boundary_pair_is_dropped_and_indices_compact() {
    // A 0.05 s pair falls below the noise floor; the indices close the gap.
    let b: Vec<u64> = vec![0, 5_000, 5_050, 10_000];
    let scenes = build_scenes(&b, Fps { num: 30, den: 1 });
    assert_eq!(scenes.len(), 2);
    assert_eq!(scenes[0].start_ms, 0);
    assert_eq!(scenes[0].end_ms, 5_000);
    assert_eq!(scenes[1].start_ms, 5_050);
    assert_eq!(scenes[1].end_ms, 10_000);
    assert_eq!(scenes[0].index, 1);
    assert_eq!(scenes[1].index, 2);
    // No scene covers the dropped pair.
    assert!(scenes.iter().all(|s| !(s.start_ms == 5_000 && s.end_ms == 5_050)));
}

#[test]
fn segment_again_appends() {
    let mut store = sample_store();
    let diag = b"pts_time:3.5 pts_time:7.0";
    store.segment("job-1", sample_info(), diag, 60).unwrap();
    store.segment("job-1", sample_info(), diag, 70).unwrap();
    let job = store.find_job("job-1").unwrap();
    assert_eq!(job.scenes.len(), 6);
    // The duplicated timeline still reads back ascending by scene index,
    // first-pass scenes before second-pass ones among equals.
    let indices: Vec<usize> = job.scenes.iter().map(|s| s.index).collect();
    assert_eq!(indices, vec![1, 1, 2, 2, 3, 3]);
    assert_eq!(job.scenes[0].start_ms, job.scenes[1].start_ms);
}

#[test]
fn segment_after_edit_keeps_index_order() {
    // A manual edit with sparse indices followed by a fresh detect pass:
    // the merged timeline still reads back ascending by scene index.
    let mut store = sample_store();
    let edited = vec![
        SceneUpdate {
            index: 2,
            start_ms: 0,
            end_ms: 5_000,
            duration_ms: 5_000,
            start_timestamp: "00:00:00.000".to_string(),
            end_timestamp: "00:00:05.000".to_string(),
        },
        SceneUpdate {
            index: 9,
            start_ms: 5_000,
            end_ms: 10_000,
            duration_ms: 5_000,
            start_timestamp: "00:00:05.000".to_string(),
            end_timestamp: "00:00:10.000".to_string(),
        },
    ];
    store.replace_timeline("job-1", edited, 60).unwrap();
    // No detected boundaries: one scene covering the whole source, index 1.
    let n = store.segment("job-1", sample_info(), b"", 70).unwrap();
    assert_eq!(n, 1);
    let job = store.find_job("job-1").unwrap();
    let indices: Vec<usize> = job.scenes.iter().map(|s| s.index).collect();
    assert_eq!(indices, vec![1, 2, 9]);
    // The readers follow the same order.
    let v = virtual_view(&store, "job-1").unwrap();
    let view_indices: Vec<usize> = v.scenes.iter().map(|d| d.index).collect();
    assert_eq!(view_indices, vec![1, 2, 9]);
    let steps = plan_split(&store, "job-1", "mp4").unwrap();
    assert_eq!(steps[0].start_arg, "0.000");
    assert_eq!(steps[0].end_arg, "10.000");
    assert_eq!(steps[1].start_arg, "0.000");
    assert_eq!(steps[1].end_arg, "5.000");
    assert_eq!(steps[2].start_arg, "5.000");
}

#[test]
fn virtual_view_reflects_persisted_timeline() {
    let mut store = sample_store();
    store.segment("job-1", sample_info(), b"pts_time:3.5", 60).unwrap();
    let v = virtual_view(&store, "job-1").unwrap();
    assert_eq!(v.job_id, "job-1");
    assert_eq!(v.duration_ms, 10_000);
    assert_eq!(v.total_scenes, 2);
    assert_eq!(v.scenes.len(), 2);
    assert_eq!(v.video_url, "/data/analysis/job-1/videos/clip.mp4");
    assert_eq!(v.original_filename, "clip.mp4");
    assert_eq!(v.source_url, None);
    for (d, s) in v.scenes.iter().zip(store.find_job("job-1").unwrap().scenes.iter()) {
        assert_eq!(d.index, s.index);
        assert_eq!(d.start_ms, s.start_ms);
        assert_eq!(d.end_ms, s.end_ms);
        assert_eq!(d.duration_ms, s.duration_ms);
        assert_eq!(d.start_timestamp, s.start_timestamp);
        assert_eq!(d.end_timestamp, s.end_timestamp);
        assert_eq!(d.frame_count, s.frame_count);
        assert_eq!(d.video_url, "/data/analysis/job-1/videos/clip.mp4");
    }
}

#[test]
fn virtual_view_twice_is_identical() {
    let mut store = sample_store();
    store.segment("job-1", sample_info(), b"pts_time:3.5 pts_time:7.0", 60).unwrap();
    let v1 = virtual_view(&store, "job-1").unwrap();
    let v2 = virtual_view(&store, "job-1").unwrap();
    assert_eq!(v1, v2);
}

#[test]
fn replace_timeline_swaps_all_scenes() {
    let mut store = sample_store();
    store.segment("job-1", sample_info(), b"pts_time:3.5 pts_time:7.0", 60).unwrap();

    let new_scenes = vec![
        SceneUpdate {
            index: 1,
            start_ms: 0,
            end_ms: 4_000,
            duration_ms: 4_000,
            start_timestamp: "00:00:00.000".to_string(),
            end_timestamp: "00:00:04.000".to_string(),
        },
        SceneUpdate {
            index: 2,
            start_ms: 4_000,
            end_ms: 10_000,
            duration_ms: 6_000,
            start_timestamp: "00:00:04.000".to_string(),
            end_timestamp: "00:00:10.000".to_string(),
        },
    ];
    let count = store.replace_timeline("job-1", new_scenes, 90).unwrap();
    assert_eq!(count, 2);

    // The view reflects exactly the replacement: old scenes fully gone.
    let v = virtual_view(&store, "job-1").unwrap();
    assert_eq!(v.scenes.len(), 2);
    assert_eq!(v.scenes[0].start_ms, 0);
    assert_eq!(v.scenes[0].end_ms, 4_000);
    assert_eq!(v.scenes[1].start_ms, 4_000);
    assert_eq!(v.scenes[1].end_ms, 10_000);
    assert_eq!(v.scenes[0].frame_count, 1);
    assert_eq!(v.scenes[1].frame_count, 1);
    assert!(v.scenes.iter().all(|d| d.end_ms != 3_500));
    let job = store.find_job("job-1").unwrap();
    assert_eq!(job.status, JobStatus::Completed);
    assert_eq!(job.updated_at_ms, 90);
    // The probed duration survives a manual edit.
    assert_eq!(job.duration_ms, Some(10_000));
    assert_eq!(v.duration_ms, 10_000);
}

#[test]
fn replace_timeline_orders_by_scene_index() {
    let mut store = sample_store();
    let new_scenes = vec![
        SceneUpdate {
            index: 2,
            start_ms: 4_000,
            end_ms: 10_000,
            duration_ms: 6_000,
            start_timestamp: "00:00:04.000".to_string(),
            end_timestamp: "00:00:10.000".to_string(),
        },
        SceneUpdate {
            index: 1,
            start_ms: 0,
            end_ms: 4_000,
            duration_ms: 4_000,
            start_timestamp: "00:00:00.000".to_string(),
            end_timestamp: "00:00:04.000".to_string(),
        },
    ];
    store.replace_timeline("job-1", new_scenes, 90).unwrap();
    // Readback is ascending by scene index, whatever order the client sent.
    let job = store.find_job("job-1").unwrap();
    assert_eq!(job.scenes[0].index, 1);
    assert_eq!(job.scenes[0].start_ms, 0);
    assert_eq!(job.scenes[1].index, 2);
    assert_eq!(job.scenes[1].start_ms, 4_000);
    // The split numbering follows the same order.
    let steps = plan_split(&store, "job-1", "mp4").unwrap();
    assert_eq!(steps[0].start_arg, "0.000");
    assert_eq!(steps[1].start_arg, "4.000");
}

#[test]
fn replace_timeline_missing_job() {
    let mut store = Store::new();
    assert_eq!(store.replace_timeline("nope", vec![], 1), Err(Error::JobNotFound));
}

#[test]
fn physical_split_plan_and_tally() {
    let mut store = sample_store();
    store
        .segment("job-1", sample_info(), b"pts_time:3.5 pts_time:7.0", 60)
        .unwrap();
    let steps = plan_split(&store, "job-1", "mp4").unwrap();
    assert_eq!(steps.len(), 3);
    assert_eq!(steps[0].output_filename, "001.mp4");
    assert_eq!(steps[1].output_filename, "002.mp4");
    assert_eq!(steps[2].output_filename, "003.mp4");
    assert_eq!(steps[0].start_arg, "0.000");
    assert_eq!(steps[0].end_arg, "3.500");
    assert_eq!(steps[2].start_arg, "7.000");
    assert_eq!(steps[2].end_arg, "10.000");

    // Scene 2 of 3 fails: the batch goes on and only the tally says so.
    let results = vec![true, false, true];
    let report = tally_split(&results);
    assert_eq!(report.requested_count, 3);
    assert_eq!(report.succeeded_count, 2);
    let written: Vec<&str> = steps
        .iter()
        .zip(results.iter())
        .filter(|(_, ok)| **ok)
        .map(|(s, _)| s.output_filename.as_str())
        .collect();
    assert_eq!(written, vec!["001.mp4", "003.mp4"]);
    assert!(!written.contains(&"002.mp4"));
}

#[test]
fn physical_split_needs_scenes() {
    let store = sample_store();
    assert!(matches!(plan_split(&store, "job-1", "mp4"), Err(Error::SceneSetEmpty)));
    assert!(matches!(plan_split(&store, "missing", "mp4"), Err(Error::JobNotFound)));
}

#[test]
fn create_job_rejects_duplicate_id() {
    let mut store = sample_store();
    let r = store.create_job("job-1".to_string(), "b.mp4".to_string(), 5, None, 51);
    assert_eq!(r, Err(Error::PersistenceFailure));
    assert_eq!(store.jobs.len(), 1);
}

#[test]
fn delete_job_cascades() {
    let mut store = sample_store();
    store.segment("job-1", sample_info(), b"pts_time:3.5", 60).unwrap();
    store.delete_job("job-1").unwrap();
    assert!(store.find_job("job-1").is_none());
    assert!(matches!(virtual_view(&store, "job-1"), Err(Error::JobNotFound)));
    assert_eq!(store.delete_job("job-1"), Err(Error::JobNotFound));
}

#[test]
fn list_jobs_newest_first_with_window() {
    let mut store = Store::new();
    for k in 0..5 {
        store
            .create_job(format!("job-{k}"), format!("f{k}.mp4"), k, None, 100 + k)
            .unwrap();
    }
    let all = store.list_jobs(20, 0);
    assert_eq!(all.len(), 5);
    assert_eq!(all[0].id, "job-4");
    assert_eq!(all[4].id, "job-0");
    let page = store.list_jobs(2, 1);
    assert_eq!(page.len(), 2);
    assert_eq!(page[0].id, "job-3");
    assert_eq!(page[1].id, "job-2");
    assert_eq!(store.list_jobs(20, 7).len(), 0);
}

#[test]
fn update_status_overwrites_duration() {
    let mut store = sample_store();
    store.segment("job-1", sample_info(), b"pts_time:3.5", 60).unwrap();
    store.update_status("job-1", JobStatus::Completed, None, 70).unwrap();
    let job = store.find_job("job-1").unwrap();
    assert_eq!(job.duration_ms, None);
    assert_eq!(job.updated_at_ms, 70);
    // A missing job is no error, like an update touching zero rows.
    store.update_status("ghost", JobStatus::Processing, None, 71).unwrap();
}

#[test]
fn scenes_of_distinguishes_missing_and_empty() {
    let mut store = sample_store();
    assert!(matches!(store.scenes_of("ghost"), Err(Error::JobNotFound)));
    assert!(matches!(store.scenes_of("job-1"), Err(Error::SceneSetEmpty)));
    store.segment("job-1", sample_info(), b"pts_time:3.5", 60).unwrap();
    assert_eq!(store.scenes_of("job-1").unwrap().len(), 2);
}

#[test]
fn error_status_codes_distinguish_three_ways() {
    assert_eq!(Error::InvalidJobId.status_code(), 400);
    assert_eq!(Error::JobNotFound.status_code(), 404);
    assert_eq!(Error::SceneSetEmpty.status_code(), 500);
    assert_eq!(Error::ProbeFailure.status_code(), 500);
    assert_eq!(Error::DetectionParseFailure.status_code(), 500);
    assert_eq!(Error::SourceFileMissing.status_code(), 500);
    assert_eq!(Error::TranscodeFailure.status_code(), 500);
    assert_eq!(Error::PersistenceFailure.status_code(), 500);
}

#[test]
fn segment_zero_duration_source() {
    let mut store = sample_store();
    let info = VideoInfo { duration_ms: 0, width: 0, height: 0, fps: Fps { num: 30, den: 1 } };
    let n = store.segment("job-1", info, b"", 60).unwrap();
    assert_eq!(n, 0);
    let job = store.find_job("job-1").unwrap();
    assert_eq!(job.scenes.len(), 0);
    assert_eq!(job.status, JobStatus::Completed);
    assert_eq!(job.duration_ms, Some(0));
}
