//! The decisions the HTTP endpoints take about what they receive and what they answer.
use vstd::prelude::*;
use vstd::string::*;
use crate::errors::AppError;
use crate::models::{
    HealthResponse, ImageResult, ImageUploadResponse, JobResult, JobStatus, UploadResponse,
};
use crate::text::{
    concat_str, decimal, decimal_string, parse_unsigned, parse_unsigned_str, path_join,
    path_join_str, starts_with, starts_with_str, trim, trim_str, utf8_decode,
};

verus! {

/// The health answer: status `ok`, the service's version and whether FFmpeg runs.
pub fn health_response(version: &str, ffmpeg_available: bool) -> (r: HealthResponse)
    ensures
        r.status@ == "ok"@,
        r.version@ == version@,
        r.ffmpeg_available == ffmpeg_available,
{
    HealthResponse {
        status: String::from_str("ok"),
        version: String::from_str(version),
        ffmpeg_available,
    }
}

// ── Video uploads ───────────────────────────────────────────────

/// The shortest segment duration accepted, in seconds.
pub const MIN_SEGMENT_DURATION: u32 = 1;

/// The longest segment duration accepted, in seconds.
pub const MAX_SEGMENT_DURATION: u32 = 30;

/// A lower-case hex digit.
pub open spec fn is_lower_hex(c: char) -> bool {
    ('0' <= c && c <= '9') || ('a' <= c && c <= 'f')
}

/// The text of a version-4 UUID as `uuid` displays it: 36 characters, `-` at positions
/// 8, 13, 18 and 23, lower-case hex digits elsewhere, the version digit `4` at 14 and a
/// variant digit from `8` to `b` at 19.
pub open spec fn is_uuid_v4_text(s: Seq<char>) -> bool {
    &&& s.len() == 36
    &&& forall|i: int|
        0 <= i < 36 ==> if i == 8 || i == 13 || i == 18 || i == 23 {
            s[i] == '-'
        } else {
            is_lower_hex(#[trigger] s[i])
        }
    &&& s[14] == '4'
    &&& (s[19] == '8' || s[19] == '9' || s[19] == 'a' || s[19] == 'b')
}

/// `uuid::Uuid::new_v4()`, displayed.
/// Trusted: the id is random, so only its form is stated: a hyphenated lower-case
/// version-4 UUID.
#[verifier::external_body]
fn new_uuid_v4() -> (id: String)
    ensures
        is_uuid_v4_text(id@),
{
    uuid::Uuid::new_v4().to_string()
}

/// Opens a job: a fresh random id, and the job's working directory, named by the id,
/// inside `work_dir`.
pub fn start_job(work_dir: &str) -> (out: (String, String))
    ensures
        is_uuid_v4_text(out.0@),
        out.1@ == path_join(work_dir@, out.0@),
        starts_with(out.1@, work_dir@),
{
    let id = new_uuid_v4();
    let dir = path_join_str(work_dir, id.as_str());
    proof {
        assert(id@[0] != '/') by {
            assert(is_lower_hex(id@[0]));
        }
        let w = work_dir@;
        if w.len() == 0 || w.last() == '/' {
            assert((w + id@).take(w.len() as int) =~= w);
        } else {
            assert((w + seq!['/'] + id@).take(w.len() as int) =~= w);
        }
    }
    (id, dir)
}

/// The name the uploaded video is stored under: the one the client gave, or `input.mp4`.
pub fn video_file_name(given: Option<String>) -> (name: String)
    ensures
        name@ == match given {
            Some(g) => g@,
            None => "input.mp4"@,
        },
{
    match given {
        Some(g) => g,
        None => String::from_str("input.mp4"),
    }
}

/// The uploaded video's location, which a request must have sent.
pub fn require_video(video_path: Option<String>) -> (r: Result<String, AppError>)
    ensures
        match video_path {
            Some(p) => r == Ok::<String, AppError>(p),
            None => r matches Err(AppError::ValidationError(m)) && m@
                == "Missing required field: `video`"@,
        },
{
    match video_path {
        Some(p) => Ok(p),
        None => Err(AppError::ValidationError(String::from_str("Missing required field: `video`"))),
    }
}

/// The segment duration after reading a `segment_duration` field: text that is not
/// UTF-8 leaves the duration read so far; otherwise the trimmed text, read as a `u32`,
/// is the duration (none when it does not read as one).
pub fn read_segment_duration(field: Vec<u8>, current: Option<u32>) -> (r: Option<u32>)
    ensures
        !vstd::utf8::valid_utf8(field@) ==> r == current,
        vstd::utf8::valid_utf8(field@) ==> match parse_unsigned(
            trim(vstd::utf8::decode_utf8(field@)),
            u32::MAX as int,
        ) {
            Some(n) => r == Some(n as u32),
            None => r is None,
        },
{
    match utf8_decode(field) {
        Some(s) => {
            let t = trim_str(s.as_str());
            match parse_unsigned_str(t.as_str(), u32::MAX as u64) {
                Some(n) => Some(n as u32),
                None => None,
            }
        },
        None => current,
    }
}

/// The segment duration a job runs with: the requested one, or else the configured
/// default; it must lie between 1 and 30 seconds.
pub fn resolve_segment_duration(requested: Option<u32>, default: u32) -> (r: Result<u32, AppError>)
    ensures
        ({
            let d = match requested {
                Some(x) => x,
                None => default,
            };
            &&& (MIN_SEGMENT_DURATION <= d <= MAX_SEGMENT_DURATION) ==> r == Ok::<u32, AppError>(d)
            &&& !(MIN_SEGMENT_DURATION <= d <= MAX_SEGMENT_DURATION) ==> (r matches Err(
                AppError::ValidationError(m),
            ) && m@ == "segment_duration must be between 1 and 30"@)
        }),
{
    let d = match requested {
        Some(x) => x,
        None => default,
    };
    if MIN_SEGMENT_DURATION <= d && d <= MAX_SEGMENT_DURATION {
        Ok(d)
    } else {
        Err(AppError::ValidationError(String::from_str("segment_duration must be between 1 and 30")))
    }
}

/// A job fails when segments were produced and none of them reached the CDN.
pub fn check_segment_uploads(uploaded: usize, produced: usize) -> (r: Result<(), AppError>)
    ensures
        (uploaded == 0 && produced > 0) ==> (r matches Err(AppError::UploadError(m)) && m@
            == "All segment uploads failed — check CDN credentials"@),
        !(uploaded == 0 && produced > 0) ==> r is Ok,
{
    if uploaded == 0 && produced > 0 {
        Err(AppError::UploadError(String::from_str("All segment uploads failed — check CDN credentials")))
    } else {
        Ok(())
    }
}

/// The URL path a job's playlist is served at.
pub open spec fn playlist_url_of(job_id: Seq<char>) -> Seq<char> {
    "/api/v1/video/"@ + job_id + "/playlist"@
}

/// The playlist URL names the job by its id verbatim: `/api/v1/video/`, then the whole
/// id as it is, then `/playlist`.
pub proof fn law_playlist_url_names_job(job_id: Seq<char>)
    ensures
        ({
            let u = playlist_url_of(job_id);
            &&& u.len() == 14 + job_id.len() + 9
            &&& u.take(14) == "/api/v1/video/"@
            &&& u.subrange(14, u.len() - 9) == job_id
            &&& u.skip(u.len() - 9) == "/playlist"@
        }),
{
    reveal_strlit("/api/v1/video/");
    reveal_strlit("/playlist");
    let u = playlist_url_of(job_id);
    assert(u.take(14) =~= "/api/v1/video/"@);
    assert(u.subrange(14, u.len() - 9) =~= job_id);
    assert(u.skip(u.len() - 9) =~= "/playlist"@);
}

/// The record kept of a completed job and the answer to its upload: both completed,
/// with the job's playlist, saved file and counts, and the answer with the URL path
/// of the playlist.
pub fn finish_job(
    job_id: String,
    playlist: String,
    playlist_file: String,
    segments_count: usize,
    segments_uploaded: usize,
) -> (out: (JobResult, UploadResponse))
    ensures
        out.0.job_id == job_id,
        out.0.status == JobStatus::Completed,
        out.0.playlist == playlist,
        out.0.playlist_file == playlist_file,
        out.0.segments_count == segments_count,
        out.0.segments_uploaded == segments_uploaded,
        out.1.job_id == job_id,
        out.1.status == JobStatus::Completed,
        out.1.segments_count == segments_count,
        out.1.segments_uploaded == segments_uploaded,
        out.1.playlist == playlist,
        out.1.playlist_url@ == playlist_url_of(job_id@),
        out.1.playlist_url@.subrange(14, out.1.playlist_url@.len() - 9) == out.0.job_id@,
        out.1.playlist_file == playlist_file,
{
    let mut url = concat_str("/api/v1/video/", job_id.as_str());
    url.append("/playlist");
    proof {
        law_playlist_url_names_job(job_id@);
    }
    let job = JobResult {
        job_id: job_id.clone(),
        status: JobStatus::Completed,
        playlist: playlist.clone(),
        playlist_file: playlist_file.clone(),
        segments_count,
        segments_uploaded,
    };
    let response = UploadResponse {
        job_id,
        status: JobStatus::Completed,
        segments_count,
        segments_uploaded,
        playlist,
        playlist_url: url,
        playlist_file,
    };
    (job, response)
}

// ── Image uploads ───────────────────────────────────────────────

/// Maximum number of images allowed per request.
pub const MAX_IMAGES_PER_REQUEST: usize = 20;

/// The image types accepted: JPEG, PNG, GIF, WebP and BMP (the content type starts
/// with the type's name).
pub open spec fn allowed_image_type(ct: Seq<char>) -> bool {
    ||| starts_with(ct, "image/jpeg"@)
    ||| starts_with(ct, "image/png"@)
    ||| starts_with(ct, "image/gif"@)
    ||| starts_with(ct, "image/webp"@)
    ||| starts_with(ct, "image/bmp"@)
}

/// Whether a content type names an accepted image type.
pub fn is_allowed_image_type(ct: &str) -> (b: bool)
    ensures
        b == allowed_image_type(ct@),
{
    starts_with_str(ct, "image/jpeg") || starts_with_str(ct, "image/png") || starts_with_str(
        ct,
        "image/gif",
    ) || starts_with_str(ct, "image/webp") || starts_with_str(ct, "image/bmp")
}

/// The images of one upload request received so far.
pub struct ImageIntake {
    max_total_bytes: usize,
    max_mb: u64,
    accepted: usize,
    total_bytes: usize,
}

impl ImageIntake {
    /// The number of images accepted so far.
    pub closed spec fn accepted(&self) -> nat {
        self.accepted as nat
    }

    /// Their bytes together.
    pub closed spec fn total_bytes(&self) -> nat {
        self.total_bytes as nat
    }

    /// The most bytes a request may carry in images.
    pub closed spec fn max_total_bytes(&self) -> nat {
        self.max_total_bytes as nat
    }

    /// The limit in MB.
    pub closed spec fn max_mb(&self) -> nat {
        self.max_mb as nat
    }

    /// At most `MAX_IMAGES_PER_REQUEST` images and at most the limit in bytes.
    pub open spec fn wf(&self) -> bool {
        &&& self.accepted() <= MAX_IMAGES_PER_REQUEST
        &&& self.total_bytes() <= self.max_total_bytes()
        &&& self.max_total_bytes() == self.max_mb() * 1024 * 1024
    }

    /// A request with nothing received yet, limited to `max_mb` MB of images.
    pub fn new(max_mb: u64) -> (r: Self)
        requires
            max_mb * 1024 * 1024 <= usize::MAX,
        ensures
            r.wf(),
            r.accepted() == 0,
            r.total_bytes() == 0,
            r.max_mb() == max_mb,
    {
        let max_total_bytes = (max_mb as usize) * 1024 * 1024;
        ImageIntake { max_total_bytes, max_mb, accepted: 0, total_bytes: 0 }
    }

    /// The name and content type of the next `images` field: the name the client gave,
    /// or `image_<n>.png` with `n` the images accepted so far; the content type given, or
    /// `image/png`. Refused when the request already holds `MAX_IMAGES_PER_REQUEST`
    /// images, or when the type is not an accepted image type.
    pub fn begin_field(&self, filename: Option<String>, content_type: Option<String>) -> (r: Result<
        (String, String),
        AppError,
    >)
        requires
            self.wf(),
        ensures
            ({
                let name = match filename {
                    Some(f) => f@,
                    None => "image_"@ + decimal(self.accepted()) + ".png"@,
                };
                let ct = match content_type {
                    Some(c) => c@,
                    None => "image/png"@,
                };
                &&& self.accepted() >= MAX_IMAGES_PER_REQUEST ==> (r matches Err(
                    AppError::ValidationError(m),
                ) && m@ == "Too many files. Maximum 20 images per request"@)
                &&& self.accepted() < MAX_IMAGES_PER_REQUEST && !allowed_image_type(ct) ==> (r matches Err(
                    AppError::ValidationError(m),
                ) && m@ == "Unsupported image type '"@ + ct + "' for file '"@ + name
                    + "'. Allowed: JPEG, PNG, GIF, WebP, BMP"@)
                &&& self.accepted() < MAX_IMAGES_PER_REQUEST && allowed_image_type(ct) ==> (r matches Ok(
                    p,
                ) && p.0@ == name && p.1@ == ct)
            }),
    {
        if self.accepted >= MAX_IMAGES_PER_REQUEST {
            return Err(
                AppError::ValidationError(
                    String::from_str("Too many files. Maximum 20 images per request"),
                ),
            );
        }
        let name = match filename {
            Some(f) => f,
            None => {
                let mut n = String::from_str("image_");
                let k = decimal_string(self.accepted as u64);
                n.append(k.as_str());
                n.append(".png");
                n
            },
        };
        let ct = match content_type {
            Some(c) => c,
            None => String::from_str("image/png"),
        };
        if !is_allowed_image_type(ct.as_str()) {
            let mut m = concat_str("Unsupported image type '", ct.as_str());
            m.append("' for file '");
            m.append(name.as_str());
            m.append("'. Allowed: JPEG, PNG, GIF, WebP, BMP");
            return Err(AppError::ValidationError(m));
        }
        Ok((name, ct))
    }

    /// Accepts an image of `len` bytes named `filename`. Refused, with nothing changed,
    /// when the request already holds `MAX_IMAGES_PER_REQUEST` images, when the image is
    /// empty, or when it would take the request over its limit.
    pub fn accept_file(&mut self, filename: &str, len: usize) -> (r: Result<(), AppError>)
        requires
            old(self).wf(),
        ensures
            final(self).wf(),
            final(self).max_mb() == old(self).max_mb(),
            final(self).max_total_bytes() == old(self).max_total_bytes(),
            old(self).accepted() >= MAX_IMAGES_PER_REQUEST ==> (r matches Err(
                AppError::ValidationError(m),
            ) && m@ == "Too many files. Maximum 20 images per request"@),
            old(self).accepted() < MAX_IMAGES_PER_REQUEST && len == 0 ==> (r matches Err(
                AppError::ValidationError(m),
            ) && m@ == "File '"@ + filename@ + "' is empty"@),
            old(self).accepted() < MAX_IMAGES_PER_REQUEST && len > 0 && old(self).total_bytes() + len
                > old(self).max_total_bytes() ==> (r matches Err(AppError::ValidationError(m)) && m@
                == "Total upload size exceeds "@ + decimal(old(self).max_mb()) + " MB limit"@),
            r is Err ==> final(self).accepted() == old(self).accepted() && final(self).total_bytes() == old(self).total_bytes(),
            r is Ok <==> (old(self).accepted() < MAX_IMAGES_PER_REQUEST && len > 0 && old(self).total_bytes() + len <= old(self).max_total_bytes()),
            r is Ok ==> final(self).accepted() == old(self).accepted() + 1 && final(self).total_bytes() == old(self).total_bytes() + len,
    {
        if self.accepted >= MAX_IMAGES_PER_REQUEST {
            return Err(
                AppError::ValidationError(
                    String::from_str("Too many files. Maximum 20 images per request"),
                ),
            );
        }
        if len == 0 {
            let mut m = concat_str("File '", filename);
            m.append("' is empty");
            return Err(AppError::ValidationError(m));
        }
        if len > self.max_total_bytes - self.total_bytes {
            let mut m = String::from_str("Total upload size exceeds ");
            let mb = decimal_string(self.max_mb);
            m.append(mb.as_str());
            m.append(" MB limit");
            return Err(AppError::ValidationError(m));
        }
        self.total_bytes = self.total_bytes + len;
        self.accepted = self.accepted + 1;
        Ok(())
    }

    /// The number of images received, or an error when there are none.
    pub fn finish(&self) -> (r: Result<usize, AppError>)
        ensures
            self.accepted() == 0 ==> (r matches Err(AppError::ValidationError(m)) && m@
                == "No images provided. Use field name `images`"@),
            self.accepted() > 0 ==> (r matches Ok(n) && n == self.accepted()),
    {
        if self.accepted == 0 {
            Err(AppError::ValidationError(String::from_str("No images provided. Use field name `images`")))
        } else {
            Ok(self.accepted)
        }
    }
}

/// The result reported for one image: its URL when the upload succeeded, or the
/// error's message when it failed.
pub fn image_result(filename: String, outcome: Result<String, AppError>) -> (r: ImageResult)
    ensures
        r.filename == filename,
        match outcome {
            Ok(u) => r.url == Some(u) && r.error is None,
            Err(e) => r.url is None && (r.error matches Some(m) && m@ == e.text()),
        },
{
    match outcome {
        Ok(u) => ImageResult { filename, url: Some(u), error: None },
        Err(e) => ImageResult { filename, url: None, error: Some(e.message()) },
    }
}

/// How many of the results carry a URL.
pub open spec fn uploaded_count(s: Seq<ImageResult>) -> nat
    decreases s.len(),
{
    if s.len() == 0 {
        0
    } else {
        uploaded_count(s.drop_last()) + if s.last().url is Some {
            1nat
        } else {
            0nat
        }
    }
}

/// The answer to an image upload: every result, their number, how many uploaded and
/// how many failed.
pub fn summarize_images(results: Vec<ImageResult>) -> (r: ImageUploadResponse)
    ensures
        r.results@ == results@,
        r.total == results@.len(),
        r.uploaded == uploaded_count(results@),
        r.failed == results@.len() - uploaded_count(results@),
        r.uploaded + r.failed == r.total,
{
    let n = results.len();
    let mut uploaded: usize = 0;
    let mut i: usize = 0;
    while i < n
        invariant
            n == results@.len(),
            i <= n,
            uploaded == uploaded_count(results@.take(i as int)),
            uploaded <= i,
        decreases n - i,
    {
        assert(results@.take(i + 1).drop_last() =~= results@.take(i as int));
        if results[i].url.is_some() {
            uploaded = uploaded + 1;
        }
        i = i + 1;
    }
    assert(results@.take(n as int) =~= results@);
    ImageUploadResponse { total: n, uploaded, failed: n - uploaded, results }
}

} // verus!
