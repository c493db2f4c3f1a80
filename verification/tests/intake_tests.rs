use video_hls_api::errors::AppError;
use video_hls_api::handlers::{
    check_segment_uploads, health_response, image_result, is_allowed_image_type,
    read_segment_duration, resolve_segment_duration, summarize_images, video_file_name,
    require_video, start_job, ImageIntake, MAX_IMAGES_PER_REQUEST,
};

fn validation_text<T: std::fmt::Debug>(r: Result<T, AppError>) -> String {
    match r {
        Err(AppError::ValidationError(m)) => m,
        other => panic!("expected a validation error, got {:?}", other),
    }
}

#[test]
fn health_answer() {
    let h = health_response("0.1.0", true);
    assert_eq!(h.status, "ok");
    assert_eq!(h.version, "0.1.0");
    assert!(h.ffmpeg_available);
}

#[test]
fn segment_duration_field() {
    assert_eq!(read_segment_duration(b" 7\r\n".to_vec(), None), Some(7));
    assert_eq!(read_segment_duration(b"abc".to_vec(), Some(3)), None);
    assert_eq!(read_segment_duration(vec![0xff, 0xfe], Some(3)), Some(3));
    assert_eq!(read_segment_duration(b"".to_vec(), Some(3)), None);
    assert_eq!(read_segment_duration(b"+12".to_vec(), None), Some(12));
}

#[test]
fn segment_duration_bounds() {
    assert_eq!(resolve_segment_duration(None, 5).unwrap(), 5);
    assert_eq!(resolve_segment_duration(Some(1), 5).unwrap(), 1);
    assert_eq!(resolve_segment_duration(Some(30), 5).unwrap(), 30);
    assert_eq!(validation_text(resolve_segment_duration(Some(0), 5)), "segment_duration must be between 1 and 30");
    assert_eq!(validation_text(resolve_segment_duration(Some(31), 5)), "segment_duration must be between 1 and 30");
    assert!(resolve_segment_duration(None, 40).is_err());
}

#[test]
fn video_name_default() {
    assert_eq!(video_file_name(None), "input.mp4");
    assert_eq!(video_file_name(Some("clip.mov".into())), "clip.mov");
}

#[test]
fn all_failed_uploads_fail_the_job() {
    match check_segment_uploads(0, 3) {
        Err(AppError::UploadError(m)) => assert_eq!(m, "All segment uploads failed — check CDN credentials"),
        _ => panic!("expected an upload error"),
    }
    assert!(check_segment_uploads(0, 0).is_ok());
    assert!(check_segment_uploads(1, 3).is_ok());
}

#[test]
fn image_types() {
    for t in ["image/jpeg", "image/png", "image/gif", "image/webp", "image/bmp", "image/png; x=y"] {
        assert!(is_allowed_image_type(t), "{}", t);
    }
    for t in ["image/svg+xml", "text/plain", "", "IMAGE/PNG"] {
        assert!(!is_allowed_image_type(t), "{}", t);
    }
}

#[test]
fn image_fields_named_and_typed() {
    let intake = ImageIntake::new(50);
    assert_eq!(intake.begin_field(None, None).unwrap(), ("image_0.png".to_string(), "image/png".to_string()));
    assert_eq!(
        intake.begin_field(Some("a.jpg".into()), Some("image/jpeg".into())).unwrap(),
        ("a.jpg".to_string(), "image/jpeg".to_string())
    );
    assert_eq!(
        validation_text(intake.begin_field(Some("a.txt".into()), Some("text/plain".into()))),
        "Unsupported image type 'text/plain' for file 'a.txt'. Allowed: JPEG, PNG, GIF, WebP, BMP"
    );
}

#[test]
fn image_count_limit() {
    let mut intake = ImageIntake::new(50);
    for i in 0..MAX_IMAGES_PER_REQUEST {
        let (name, _) = intake.begin_field(None, None).unwrap();
        assert_eq!(name, format!("image_{}.png", i));
        intake.accept_file(&name, 10).unwrap();
    }
    assert_eq!(validation_text(intake.begin_field(None, None)), "Too many files. Maximum 20 images per request");
    assert_eq!(validation_text(intake.accept_file("x", 1)), "Too many files. Maximum 20 images per request");
    assert_eq!(intake.finish().unwrap(), 20);
}

#[test]
fn image_size_limits() {
    let mut intake = ImageIntake::new(1);
    assert_eq!(validation_text(intake.accept_file("e.png", 0)), "File 'e.png' is empty");
    intake.accept_file("a.png", 1024 * 1024 - 1).unwrap();
    assert_eq!(validation_text(intake.accept_file("b.png", 2)), "Total upload size exceeds 1 MB limit");
    intake.accept_file("c.png", 1).unwrap();
    assert_eq!(intake.finish().unwrap(), 2);
    assert_eq!(validation_text(ImageIntake::new(50).finish()), "No images provided. Use field name `images`");
}

#[test]
fn image_results_and_summary() {
    let ok = image_result("a.png".into(), Ok("https://cdn/a".into()));
    assert_eq!(ok.url.as_deref(), Some("https://cdn/a"));
    assert!(ok.error.is_none());
    let bad = image_result("b.png".into(), Err(AppError::UploadError("CDN HTTP 500: x".into())));
    assert!(bad.url.is_none());
    assert_eq!(bad.error.as_deref(), Some("Upload to CDN failed: CDN HTTP 500: x"));
    let c = image_result("c.png".into(), Ok("https://cdn/c".into()));
    let summary = summarize_images(vec![ok, bad, c]);
    assert_eq!(summary.total, 3);
    assert_eq!(summary.uploaded, 2);
    assert_eq!(summary.failed, 1);
    assert_eq!(summary.results[1].filename, "b.png");
}

#[test]
fn jobs_start_with_a_fresh_v4_id_inside_the_work_dir() {
    let (id, dir) = start_job("./hls_work");
    assert_eq!(id.len(), 36);
    let chars: Vec<char> = id.chars().collect();
    for (i, c) in chars.iter().enumerate() {
        if [8, 13, 18, 23].contains(&i) {
            assert_eq!(*c, '-');
        } else {
            assert!(c.is_ascii_hexdigit() && !c.is_ascii_uppercase());
        }
    }
    assert_eq!(chars[14], '4');
    assert!(['8', '9', 'a', 'b'].contains(&chars[19]));
    assert_eq!(dir, format!("./hls_work/{}", id));
    let (other, _) = start_job("w/");
    assert_ne!(id, other);
}

#[test]
fn video_is_required() {
    assert_eq!(require_video(Some("/w/in.mp4".into())).unwrap(), "/w/in.mp4");
    assert_eq!(validation_text(require_video(None)), "Missing required field: `video`");
}
