//! The records that the service hands out, stores and reads back.
use vstd::prelude::*;

verus! {

/// Response returned when a video upload + HLS processing completes.
pub struct UploadResponse {
    /// Unique job identifier
    pub job_id: String,
    /// Processing status
    pub status: JobStatus,
    /// Number of TS segments produced
    pub segments_count: usize,
    /// Number of segments successfully uploaded to CDN
    pub segments_uploaded: usize,
    /// The final M3U8 playlist content
    pub playlist: String,
    /// URL path to retrieve the M3U8 playlist
    pub playlist_url: String,
    /// Local file path where the M3U8 was saved
    pub playlist_file: String,
}

/// Current status of a processing job.
#[derive(Debug, Clone, Copy, PartialEq, Eq, Structural)]
pub enum JobStatus {
    /// Upload received, processing starting
    Pending,
    /// FFmpeg is slicing the video
    Processing,
    /// Segments are being uploaded to CDN
    Uploading,
    /// Everything completed successfully
    Completed,
    /// An error occurred
    Failed,
}

/// Stored result of a completed job.
#[derive(Debug, Clone)]
pub struct JobResult {
    /// Unique job identifier
    pub job_id: String,
    /// Final job status
    pub status: JobStatus,
    /// Final M3U8 playlist content
    pub playlist: String,
    /// Local file path where the M3U8 was saved
    pub playlist_file: String,
    /// Number of segments
    pub segments_count: usize,
    /// Number of uploaded segments
    pub segments_uploaded: usize,
}

/// Health check response.
pub struct HealthResponse {
    /// Service status
    pub status: String,
    /// Service version
    pub version: String,
    /// Whether FFmpeg is available
    pub ffmpeg_available: bool,
}

/// Response for listing all processed jobs.
pub struct JobListResponse {
    /// List of job summaries
    pub jobs: Vec<JobSummary>,
    /// Total number of jobs
    pub total: usize,
}

/// Summary of a job (for listing).
pub struct JobSummary {
    /// Unique job identifier
    pub job_id: String,
    /// Current status
    pub status: JobStatus,
    /// Number of segments
    pub segments_count: usize,
    /// Number uploaded
    pub segments_uploaded: usize,
}

/// Multipart form data for video upload.
pub struct VideoUploadRequest {
    /// The video file to upload
    pub video: Vec<u8>,
    /// Optional HLS segment duration in seconds (default: 5)
    pub segment_duration: Option<u32>,
}

/// Multipart form data for image upload.
pub struct ImageUploadRequest {
    /// One or more image files to upload
    pub images: Vec<Vec<u8>>,
}

/// Response returned when image(s) are uploaded.
pub struct ImageUploadResponse {
    /// Total number of images submitted
    pub total: usize,
    /// Number of images uploaded successfully
    pub uploaded: usize,
    /// Number of images that failed to upload
    pub failed: usize,
    /// Per-image upload results
    pub results: Vec<ImageResult>,
}

/// Result of uploading a single image.
pub struct ImageResult {
    /// Original filename
    pub filename: String,
    /// Remote CDN URL (present on success)
    pub url: Option<String>,
    /// Error message (present on failure)
    pub error: Option<String>,
}

/// A single HLS segment on disk.
#[derive(Debug, Clone)]
pub struct HlsSegment {
    /// Filename (e.g., "index0.ts")
    pub filename: String,
    /// Full path on disk
    pub path: String,
    /// Raw size in bytes
    pub size: u64,
}

/// Result of uploading a single segment to the CDN.
#[derive(Debug, Clone)]
pub struct SegmentUploadResult {
    /// Original local filename
    pub filename: String,
    /// Remote CDN URL
    pub remote_url: String,
    /// Original TS size (for BYTERANGE)
    pub original_size: u64,
}

/// The CDN's answer to an upload.
pub struct CdnUploadResponse {
    pub code: Option<i32>,
    pub data: Option<CdnUploadData>,
    pub message: Option<String>,
}

/// The payload of a CDN answer.
pub struct CdnUploadData {
    pub url: Option<String>,
}

} // verus!
