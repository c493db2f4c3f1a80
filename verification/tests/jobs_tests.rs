use video_hls_api::errors::AppError;
use video_hls_api::handlers::finish_job;
use video_hls_api::jobs::{playlist_job_id, restored_job, JobStore};
use video_hls_api::models::{JobResult, JobStatus};

fn job(id: &str, playlist: &str) -> JobResult {
    JobResult {
        job_id: id.into(),
        status: JobStatus::Completed,
        playlist: playlist.into(),
        playlist_file: format!("./playlists/{}.m3u8", id),
        segments_count: 3,
        segments_uploaded: 2,
    }
}

#[test]
fn read_after_write() {
    let mut store = JobStore::new();
    assert_eq!(store.len(), 0);
    store.insert(job("a", "PA"));
    store.insert(job("b", "PB"));
    assert_eq!(store.get("a").unwrap().playlist, "PA");
    assert_eq!(store.get_playlist("b").unwrap(), "PB");
    store.insert(job("a", "PA2"));
    assert_eq!(store.len(), 2);
    assert_eq!(store.get_playlist("a").unwrap(), "PA2");
    assert_eq!(store.get_playlist("b").unwrap(), "PB");
}

#[test]
fn unknown_job_is_not_found() {
    let store = JobStore::new();
    match store.get_playlist("nope") {
        Err(AppError::NotFound(m)) => assert_eq!(m, "Job nope not found"),
        _ => panic!("expected NotFound"),
    }
    assert!(store.get("nope").is_none());
}

#[test]
fn delete_forgets_the_job() {
    let mut store = JobStore::new();
    store.insert(job("a", "PA"));
    store.insert(job("b", "PB"));
    assert!(store.delete_job("a").is_ok());
    assert!(store.get("a").is_none());
    assert_eq!(store.get_playlist("b").unwrap(), "PB");
    match store.delete_job("a") {
        Err(e) => {
            assert_eq!(e.status_code(), 404);
            assert_eq!(e.message(), "Job not found: Job a not found");
        }
        Ok(()) => panic!("second delete must fail"),
    }
    assert!(!store.remove("zzz"));
}

#[test]
fn listing_summarizes_every_job() {
    let mut store = JobStore::new();
    let list = store.list_jobs();
    assert_eq!(list.total, 0);
    store.insert(job("a", "PA"));
    store.insert(job("b", "PB"));
    let list = store.list_jobs();
    assert_eq!(list.total, 2);
    assert_eq!(list.jobs.len(), 2);
    assert_eq!(list.jobs[0].job_id, "a");
    assert_eq!(list.jobs[1].job_id, "b");
    assert_eq!(list.jobs[1].segments_count, 3);
    assert_eq!(list.jobs[1].segments_uploaded, 2);
    assert_eq!(list.jobs[1].status, JobStatus::Completed);
}

#[test]
fn saved_playlists_name_their_jobs() {
    assert_eq!(playlist_job_id("550e8400.m3u8"), Some("550e8400".to_string()));
    assert_eq!(playlist_job_id("a.b.m3u8"), Some("a.b".to_string()));
    assert_eq!(playlist_job_id("notes.txt"), None);
    assert_eq!(playlist_job_id(".m3u8"), None);
    assert_eq!(playlist_job_id("m3u8"), None);
}

#[test]
fn restored_job_counts_its_segments() {
    let p = "#EXTM3U\n#EXT-X-VERSION:4\n#EXTINF:5,\n#EXT-X-BYTERANGE:10@67\nu0\n#EXTINF:5,\n#EXT-X-BYTERANGE:11@67\nu1\n#EXTINF:1,\n#EXT-X-BYTERANGE:2@67\nu2\n";
    let j = restored_job("j1".into(), p.into(), "./playlists/j1.m3u8".into());
    assert_eq!(j.job_id, "j1");
    assert_eq!(j.status, JobStatus::Completed);
    assert_eq!(j.segments_count, 3);
    assert_eq!(j.segments_uploaded, 3);
    assert_eq!(j.playlist_file, "./playlists/j1.m3u8");
}

#[test]
fn finished_job_record_and_answer() {
    let (record, answer) = finish_job("j9".into(), "PL".into(), "./playlists/j9.m3u8".into(), 4, 3);
    assert_eq!(record.job_id, "j9");
    assert_eq!(record.segments_count, 4);
    assert_eq!(record.segments_uploaded, 3);
    assert_eq!(answer.playlist_url, "/api/v1/video/j9/playlist");
    assert_eq!(answer.playlist, "PL");
    assert_eq!(answer.status, JobStatus::Completed);
    assert_eq!(answer.playlist_file, "./playlists/j9.m3u8");
}
