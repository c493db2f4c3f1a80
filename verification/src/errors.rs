//! The service's errors, their HTTP status, category and message.
use vstd::prelude::*;
use vstd::string::*;
use crate::text::{concat_str, decimal, decimal_string};

verus! {

/// Application-wide error types. An outside error (I/O, HTTP client) is carried as
/// the text that it displays.
#[derive(Debug)]
pub enum AppError {
    FfmpegError(String),
    IoError(String),
    UploadError(String),
    HttpClientError(String),
    ValidationError(String),
    NotFound(String),
    InternalError(String),
    MultipartError(String),
}

/// Error response body: status, message and category.
#[derive(Debug)]
pub struct ErrorResponse {
    /// HTTP status code
    pub status: u16,
    /// Human-readable error message
    pub message: String,
    /// Error category
    pub error: String,
}

impl AppError {
    /// The text that the error carries.
    pub open spec fn detail(&self) -> Seq<char> {
        match self {
            AppError::FfmpegError(s) => s@,
            AppError::IoError(s) => s@,
            AppError::UploadError(s) => s@,
            AppError::HttpClientError(s) => s@,
            AppError::ValidationError(s) => s@,
            AppError::NotFound(s) => s@,
            AppError::InternalError(s) => s@,
            AppError::MultipartError(s) => s@,
        }
    }

    /// What the error's message says before the carried text.
    pub open spec fn lead(&self) -> Seq<char> {
        match self {
            AppError::FfmpegError(_) => "FFmpeg processing failed: "@,
            AppError::IoError(_) => "File I/O error: "@,
            AppError::UploadError(_) => "Upload to CDN failed: "@,
            AppError::HttpClientError(_) => "HTTP client error: "@,
            AppError::ValidationError(_) => "Invalid input: "@,
            AppError::NotFound(_) => "Job not found: "@,
            AppError::InternalError(_) => "Internal server error: "@,
            AppError::MultipartError(_) => "Multipart error: "@,
        }
    }

    /// The error's message.
    pub open spec fn text(&self) -> Seq<char> {
        self.lead() + self.detail()
    }

    /// The HTTP status that answers the error.
    pub open spec fn status(&self) -> u16 {
        match self {
            AppError::FfmpegError(_) => 500,
            AppError::IoError(_) => 500,
            AppError::UploadError(_) => 502,
            AppError::HttpClientError(_) => 502,
            AppError::ValidationError(_) => 400,
            AppError::NotFound(_) => 404,
            AppError::InternalError(_) => 500,
            AppError::MultipartError(_) => 400,
        }
    }

    /// The error's category.
    pub open spec fn kind(&self) -> Seq<char> {
        match self {
            AppError::FfmpegError(_) => "FFMPEG_ERROR"@,
            AppError::IoError(_) => "IO_ERROR"@,
            AppError::UploadError(_) => "UPLOAD_ERROR"@,
            AppError::HttpClientError(_) => "HTTP_CLIENT_ERROR"@,
            AppError::ValidationError(_) => "VALIDATION_ERROR"@,
            AppError::NotFound(_) => "NOT_FOUND"@,
            AppError::InternalError(_) => "INTERNAL_ERROR"@,
            AppError::MultipartError(_) => "MULTIPART_ERROR"@,
        }
    }

    /// The HTTP status code for this error.
    pub fn status_code(&self) -> (code: u16)
        ensures
            code == self.status(),
    {
        match self {
            AppError::FfmpegError(_) => 500,
            AppError::IoError(_) => 500,
            AppError::UploadError(_) => 502,
            AppError::HttpClientError(_) => 502,
            AppError::ValidationError(_) => 400,
            AppError::NotFound(_) => 404,
            AppError::InternalError(_) => 500,
            AppError::MultipartError(_) => 400,
        }
    }

    /// The category name for this error.
    pub fn error_type(&self) -> (out: String)
        ensures
            out@ == self.kind(),
    {
        match self {
            AppError::FfmpegError(_) => String::from_str("FFMPEG_ERROR"),
            AppError::IoError(_) => String::from_str("IO_ERROR"),
            AppError::UploadError(_) => String::from_str("UPLOAD_ERROR"),
            AppError::HttpClientError(_) => String::from_str("HTTP_CLIENT_ERROR"),
            AppError::ValidationError(_) => String::from_str("VALIDATION_ERROR"),
            AppError::NotFound(_) => String::from_str("NOT_FOUND"),
            AppError::InternalError(_) => String::from_str("INTERNAL_ERROR"),
            AppError::MultipartError(_) => String::from_str("MULTIPART_ERROR"),
        }
    }

    /// The error's message (what the error displays).
    pub fn message(&self) -> (out: String)
        ensures
            out@ == self.text(),
    {
        match self {
            AppError::FfmpegError(s) => concat_str("FFmpeg processing failed: ", s.as_str()),
            AppError::IoError(s) => concat_str("File I/O error: ", s.as_str()),
            AppError::UploadError(s) => concat_str("Upload to CDN failed: ", s.as_str()),
            AppError::HttpClientError(s) => concat_str("HTTP client error: ", s.as_str()),
            AppError::ValidationError(s) => concat_str("Invalid input: ", s.as_str()),
            AppError::NotFound(s) => concat_str("Job not found: ", s.as_str()),
            AppError::InternalError(s) => concat_str("Internal server error: ", s.as_str()),
            AppError::MultipartError(s) => concat_str("Multipart error: ", s.as_str()),
        }
    }

    /// The response body that answers this error.
    pub fn error_response(&self) -> (r: ErrorResponse)
        ensures
            r.status == self.status(),
            r.message@ == self.text(),
            r.error@ == self.kind(),
    {
        ErrorResponse { status: self.status_code(), message: self.message(), error: self.error_type() }
    }
}

impl ErrorResponse {
    /// How the body displays: `[status] error: message`.
    pub open spec fn text(&self) -> Seq<char> {
        "["@ + decimal(self.status as nat) + "] "@ + self.error@ + ": "@ + self.message@
    }

    /// The displayed form `[status] error: message`.
    pub fn display(&self) -> (out: String)
        ensures
            out@ == self.text(),
    {
        let mut out = String::from_str("[");
        let code = decimal_string(self.status as u64);
        out.append(code.as_str());
        out.append("] ");
        out.append(self.error.as_str());
        out.append(": ");
        out.append(self.message.as_str());
        out
    }
}

} // verus!
