use video_hls_api::errors::AppError;
use video_hls_api::hls::{byterange_entry, count_segments, rewrite_playlist, saved_playlist_path};
use video_hls_api::models::{CdnUploadData, CdnUploadResponse, HlsSegment, SegmentUploadResult};
use video_hls_api::upload::{
    cdn_granted_url, mask_segment, png_mask, record_segment_outcome, segment_upload_name,
    settle_cdn_reply, settle_segment_upload, PNG_MASK_SIZE,
};

fn reply(code: Option<i32>, url: Option<&str>, with_data: bool) -> CdnUploadResponse {
    CdnUploadResponse {
        code,
        data: if with_data { Some(CdnUploadData { url: url.map(|u| u.to_string()) }) } else { None },
        message: None,
    }
}

#[test]
fn png_mask_is_a_67_byte_png() {
    let m = png_mask();
    assert_eq!(m.len(), PNG_MASK_SIZE);
    assert_eq!(PNG_MASK_SIZE, 67);
    assert_eq!(&m[..8], &[0x89, 0x50, 0x4e, 0x47, 0x0d, 0x0a, 0x1a, 0x0a]);
    assert_eq!(&m[8..16], &[0x00, 0x00, 0x00, 0x0d, 0x49, 0x48, 0x44, 0x52]);
    assert_eq!(&m[63..], &[0xae, 0x42, 0x60, 0x82]);
}

#[test]
fn masked_segment_reads_back_from_offset_67() {
    let ts: Vec<u8> = (0..200u32).map(|i| (i * 7 % 256) as u8).collect();
    let masked = mask_segment(&ts);
    assert_eq!(masked.len(), 67 + ts.len());
    assert_eq!(&masked[..67], &png_mask()[..]);
    assert_eq!(&masked[PNG_MASK_SIZE..PNG_MASK_SIZE + ts.len()], &ts[..]);
    assert_eq!(mask_segment(&[]), png_mask());
}

#[test]
fn segments_upload_as_png_names() {
    assert_eq!(segment_upload_name("index0.ts"), "index0.png");
    assert_eq!(segment_upload_name("a.ts.ts"), "a.ts.png");
    assert_eq!(segment_upload_name("a.tsx.ts"), "a.tsx.png");
    assert_eq!(segment_upload_name("clip"), "clip");
    assert_eq!(segment_upload_name("clip.mp4"), "clip.mp4");
    assert_eq!(segment_upload_name(".ts"), ".ts");
}

#[test]
fn cdn_grants_url_only_for_code_zero_with_url() {
    assert_eq!(cdn_granted_url(reply(Some(0), Some("https://cdn/x.png"), true)), Some("https://cdn/x.png".to_string()));
    assert_eq!(cdn_granted_url(reply(Some(1), Some("https://cdn/x.png"), true)), None);
    assert_eq!(cdn_granted_url(reply(None, Some("https://cdn/x.png"), true)), None);
    assert_eq!(cdn_granted_url(reply(Some(0), None, true)), None);
    assert_eq!(cdn_granted_url(reply(Some(0), None, false)), None);
}

fn upload_error_text(r: Result<String, AppError>) -> String {
    match r {
        Err(AppError::UploadError(m)) => m,
        other => panic!("expected an upload error, got {:?}", other),
    }
}

#[test]
fn cdn_reply_decisions() {
    let ok = settle_cdn_reply("a.png", true, "200 OK", "{}", Ok(reply(Some(0), Some("u"), true)));
    assert_eq!(ok.unwrap(), "u");
    let http = settle_cdn_reply("a.png", false, "403 Forbidden", "nope", Ok(reply(Some(0), Some("u"), true)));
    assert_eq!(upload_error_text(http), "CDN HTTP 403 Forbidden: nope");
    let bad = settle_cdn_reply("a.png", true, "200 OK", "<html>", Err("expected value".to_string()));
    assert_eq!(upload_error_text(bad), "Failed to parse CDN response: expected value — body: <html>");
    let rejected = settle_cdn_reply("a.png", true, "200 OK", "{\"code\":7}", Ok(reply(Some(7), None, false)));
    assert_eq!(upload_error_text(rejected), "CDN rejected a.png: {\"code\":7}");
}

#[test]
fn segment_upload_result_keeps_name_and_size() {
    let seg = HlsSegment { filename: "index3.ts".to_string(), path: "/w/index3.ts".to_string(), size: 10 };
    let r = settle_segment_upload(&seg, 1234, true, "200 OK", "{}", Ok(reply(Some(0), Some("https://cdn/3"), true))).unwrap();
    assert_eq!(r.filename, "index3.ts");
    assert_eq!(r.remote_url, "https://cdn/3");
    assert_eq!(r.original_size, 1234);
    let e = settle_segment_upload(&seg, 1, true, "200 OK", "{}", Ok(reply(Some(2), None, false)));
    match e {
        Err(AppError::UploadError(m)) => assert_eq!(m, "CDN rejected index3.ts: {}"),
        _ => panic!("expected rejection"),
    }
}

#[test]
fn failed_segment_uploads_are_dropped() {
    let mut results = Vec::new();
    let r = SegmentUploadResult { filename: "index0.ts".into(), remote_url: "u0".into(), original_size: 5 };
    record_segment_outcome(&mut results, Ok(r));
    record_segment_outcome(&mut results, Err(AppError::UploadError("x".into())));
    let r = SegmentUploadResult { filename: "index2.ts".into(), remote_url: "u2".into(), original_size: 6 };
    record_segment_outcome(&mut results, Ok(r));
    let names: Vec<&str> = results.iter().map(|r| r.filename.as_str()).collect();
    assert_eq!(names, vec!["index0.ts", "index2.ts"]);
}

#[test]
fn byterange_entry_format() {
    let r = SegmentUploadResult { filename: "index0.ts".into(), remote_url: "https://cdn/0.png".into(), original_size: 376000 };
    assert_eq!(byterange_entry(&r), "#EXT-X-BYTERANGE:376000@67\nhttps://cdn/0.png");
}

#[test]
fn playlist_rewrite_points_at_cdn() {
    let m3u8 = "#EXTM3U\n#EXT-X-VERSION:3\n#EXT-X-TARGETDURATION:5\n#EXT-X-MEDIA-SEQUENCE:0\n#EXTINF:5.000000,\nindex0.ts\n#EXTINF:2.500000,\nindex1.ts\n#EXT-X-ENDLIST\n";
    let results = vec![
        SegmentUploadResult { filename: "index0.ts".into(), remote_url: "https://cdn/a.png".into(), original_size: 1000 },
        SegmentUploadResult { filename: "index1.ts".into(), remote_url: "https://cdn/b.png".into(), original_size: 500 },
    ];
    let out = rewrite_playlist(m3u8, &results);
    let expected = "#EXTM3U\n#EXT-X-VERSION:4\n#EXT-X-TARGETDURATION:5\n#EXT-X-MEDIA-SEQUENCE:0\n#EXTINF:5.000000,\n#EXT-X-BYTERANGE:1000@67\nhttps://cdn/a.png\n#EXTINF:2.500000,\n#EXT-X-BYTERANGE:500@67\nhttps://cdn/b.png\n#EXT-X-ENDLIST\n";
    assert_eq!(out, expected);
    assert_eq!(count_segments(&out), 2);
}

#[test]
fn playlist_rewrite_without_results_only_raises_version() {
    let m3u8 = "#EXTM3U\n#EXT-X-VERSION:3\n#EXTINF:5,\nindex0.ts\n";
    assert_eq!(rewrite_playlist(m3u8, &[]), "#EXTM3U\n#EXT-X-VERSION:4\n#EXTINF:5,\nindex0.ts\n");
}

#[test]
fn single_occurrence_is_replaced_in_place() {
    let pre = "#EXTINF:5,\n";
    let post = "\n#EXT-X-ENDLIST\n";
    let r = SegmentUploadResult { filename: "index7.ts".into(), remote_url: "https://cdn/7".into(), original_size: 9 };
    let text = format!("{}{}{}", pre, r.filename, post);
    let out = rewrite_playlist(&text, std::slice::from_ref(&r));
    assert_eq!(out, format!("{}{}{}", pre, byterange_entry(&r), post));
}

#[test]
fn saved_playlist_location() {
    assert_eq!(saved_playlist_path("./playlists", "550e8400"), "./playlists/550e8400.m3u8");
    assert_eq!(saved_playlist_path("./playlists/", "j"), "./playlists/j.m3u8");
}

#[test]
fn playlist_naming_no_segment_only_changes_version() {
    let m3u8 = "#EXTM3U\n#EXT-X-VERSION:3\n#EXTINF:5,\nother0.ts\n";
    let results = vec![SegmentUploadResult { filename: "index0.ts".into(), remote_url: "u".into(), original_size: 1 }];
    assert_eq!(rewrite_playlist(m3u8, &results), "#EXTM3U\n#EXT-X-VERSION:4\n#EXTINF:5,\nother0.ts\n");
}
