use video_hls_api::config::{AppConfig, ConfigVars, MissingVar};
use video_hls_api::errors::{AppError, ErrorResponse};
use video_hls_api::ffmpeg::{
    ffmpeg_args, ffmpeg_launch_error, is_segment_file, lex_le_str, playlist_path, sort_segments,
};
use video_hls_api::models::{HlsSegment, JobStatus};

fn all_errors() -> Vec<(AppError, u16, &'static str, &'static str)> {
    vec![
        (AppError::FfmpegError("x".into()), 500, "FFMPEG_ERROR", "FFmpeg processing failed: x"),
        (AppError::IoError("x".into()), 500, "IO_ERROR", "File I/O error: x"),
        (AppError::UploadError("x".into()), 502, "UPLOAD_ERROR", "Upload to CDN failed: x"),
        (AppError::HttpClientError("x".into()), 502, "HTTP_CLIENT_ERROR", "HTTP client error: x"),
        (AppError::ValidationError("x".into()), 400, "VALIDATION_ERROR", "Invalid input: x"),
        (AppError::NotFound("x".into()), 404, "NOT_FOUND", "Job not found: x"),
        (AppError::InternalError("x".into()), 500, "INTERNAL_ERROR", "Internal server error: x"),
        (AppError::MultipartError("x".into()), 400, "MULTIPART_ERROR", "Multipart error: x"),
    ]
}

#[test]
fn every_error_has_its_status_category_and_message() {
    for (e, status, kind, message) in all_errors() {
        assert_eq!(e.status_code(), status);
        assert_eq!(e.error_type(), kind);
        assert_eq!(e.message(), message);
        let body = e.error_response();
        assert_eq!(body.status, status);
        assert_eq!(body.error, kind);
        assert_eq!(body.message, message);
    }
}

#[test]
fn error_body_display() {
    let body = ErrorResponse { status: 404, message: "Job not found: Job j not found".into(), error: "NOT_FOUND".into() };
    assert_eq!(body.display(), "[404] NOT_FOUND: Job not found: Job j not found");
}

fn required_vars() -> ConfigVars {
    ConfigVars {
        app_host: None,
        app_port: None,
        work_dir: None,
        playlists_dir: None,
        cdn_upload_endpoint: Some("\"https://cdn.example/upload\"".into()),
        cdn_csrf_token: Some("'tok'".into()),
        cdn_uuid: Some("uuid".into()),
        cdn_cookie: Some("\"'c=1'\"".into()),
        hls_segment_duration: None,
        max_upload_size_mb: None,
        max_image_upload_size_mb: None,
    }
}

#[test]
fn config_defaults_and_unquoting() {
    let c: AppConfig = AppConfig::from_vars(required_vars()).unwrap();
    assert_eq!(c.host, "0.0.0.0");
    assert_eq!(c.port, 8080);
    assert_eq!(c.work_dir, "./hls_work");
    assert_eq!(c.playlists_dir, "./playlists");
    assert_eq!(c.cdn_upload_endpoint, "https://cdn.example/upload");
    assert_eq!(c.cdn_csrf_token, "tok");
    assert_eq!(c.cdn_uuid, "uuid");
    assert_eq!(c.cdn_cookie, "c=1");
    assert_eq!(c.hls_segment_duration, 5);
    assert_eq!(c.max_upload_size_mb, 500);
    assert_eq!(c.max_image_upload_size_mb, 50);
}

#[test]
fn config_reads_set_values_and_ignores_bad_numbers() {
    let mut v = required_vars();
    v.app_host = Some("127.0.0.1".into());
    v.app_port = Some("9000".into());
    v.hls_segment_duration = Some("10".into());
    v.max_upload_size_mb = Some("abc".into());
    v.max_image_upload_size_mb = Some("+7".into());
    v.work_dir = Some("/tmp/w".into());
    let c = AppConfig::from_vars(v).unwrap();
    assert_eq!(c.host, "127.0.0.1");
    assert_eq!(c.port, 9000);
    assert_eq!(c.hls_segment_duration, 10);
    assert_eq!(c.max_upload_size_mb, 500);
    assert_eq!(c.max_image_upload_size_mb, 7);
    assert_eq!(c.work_dir, "/tmp/w");
    let mut v = required_vars();
    v.app_port = Some("70000".into());
    assert_eq!(AppConfig::from_vars(v).unwrap().port, 8080);
}

fn missing_key(r: Result<AppConfig, MissingVar>) -> String {
    match r {
        Err(m) => m.message(),
        Ok(_) => panic!("expected a missing variable"),
    }
}

#[test]
fn config_requires_cdn_variables_in_order() {
    let mut v = required_vars();
    v.cdn_cookie = None;
    v.cdn_uuid = None;
    assert_eq!(missing_key(AppConfig::from_vars(v)), "CDN_UUID must be set");
    let mut v = required_vars();
    v.cdn_upload_endpoint = None;
    v.cdn_cookie = None;
    assert_eq!(missing_key(AppConfig::from_vars(v)), "CDN_UPLOAD_ENDPOINT must be set");
    let mut v = required_vars();
    v.cdn_csrf_token = None;
    assert_eq!(missing_key(AppConfig::from_vars(v)), "CDN_CSRF_TOKEN must be set");
    let mut v = required_vars();
    v.cdn_cookie = None;
    assert_eq!(missing_key(AppConfig::from_vars(v)), "CDN_COOKIE must be set");
}

#[test]
fn ffmpeg_invocation() {
    let args = ffmpeg_args("/w/in.mp4", "/w/hls/index.m3u8", 5);
    let expected = [
        "-y", "-i", "/w/in.mp4", "-codec:", "copy", "-map_metadata", "-1", "-metadata",
        "service_provider=video-hls-api", "-metadata", "service_name=video-hls-api",
        "-start_number", "0", "-hls_time", "5", "-hls_list_size", "0", "-f", "hls",
        "/w/hls/index.m3u8",
    ];
    assert_eq!(args, expected);
    assert_eq!(ffmpeg_args("", "", 30)[14], "30");
}

#[test]
fn ffmpeg_paths_and_errors() {
    assert_eq!(playlist_path("/w/hls"), "/w/hls/index.m3u8");
    assert_eq!(playlist_path(""), "index.m3u8");
    match ffmpeg_launch_error("No such file or directory (os error 2)") {
        AppError::FfmpegError(m) => assert_eq!(
            m,
            "Failed to execute FFmpeg: No such file or directory (os error 2). Is FFmpeg installed?"
        ),
        _ => panic!("expected an FFmpeg error"),
    }
}

#[test]
fn segment_files_are_ts_files() {
    assert!(is_segment_file("index0.ts"));
    assert!(!is_segment_file("index.m3u8"));
    assert!(!is_segment_file(".ts"));
    assert!(!is_segment_file("index0.tss"));
    assert!(!is_segment_file("ts"));
}

fn seg(name: &str) -> HlsSegment {
    HlsSegment { filename: name.into(), path: format!("/w/{}", name), size: name.len() as u64 }
}

#[test]
fn segments_sorted_by_name() {
    let out = sort_segments(vec![seg("index10.ts"), seg("index2.ts"), seg("index0.ts"), seg("index1.ts")]);
    let names: Vec<&str> = out.iter().map(|s| s.filename.as_str()).collect();
    assert_eq!(names, vec!["index0.ts", "index1.ts", "index10.ts", "index2.ts"]);
    assert!(sort_segments(Vec::new()).is_empty());
    assert!(lex_le_str("a", "ab"));
    assert!(!lex_le_str("b", "ab"));
    assert!(lex_le_str("", ""));
}

#[test]
fn job_status_is_plain() {
    assert_eq!(JobStatus::Completed, JobStatus::Completed);
    assert_ne!(JobStatus::Completed, JobStatus::Failed);
}

#[test]
fn equal_names_keep_their_order() {
    let a = HlsSegment { filename: "same.ts".into(), path: "/first".into(), size: 1 };
    let b = HlsSegment { filename: "aaa.ts".into(), path: "/second".into(), size: 2 };
    let c = HlsSegment { filename: "same.ts".into(), path: "/third".into(), size: 3 };
    let out = sort_segments(vec![a, b, c]);
    let paths: Vec<&str> = out.iter().map(|s| s.path.as_str()).collect();
    assert_eq!(paths, vec!["/second", "/first", "/third"]);
}
