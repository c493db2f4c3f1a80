//! The service's configuration and how it is read from environment variables.
use vstd::prelude::*;
use vstd::string::*;
use crate::text::{concat_str, parse_unsigned, parse_unsigned_str, trim_matches, trim_matches_str};

verus! {

/// Application configuration.
#[derive(Debug, Clone)]
pub struct AppConfig {
    pub host: String,
    pub port: u16,
    pub work_dir: String,
    pub playlists_dir: String,
    pub cdn_upload_endpoint: String,
    pub cdn_csrf_token: String,
    pub cdn_uuid: String,
    pub cdn_cookie: String,
    pub hls_segment_duration: u32,
    pub max_upload_size_mb: u64,
    pub max_image_upload_size_mb: u64,
}

/// The environment variables the configuration is read from, each as found
/// (`None` when unset or not Unicode).
pub struct ConfigVars {
    /// `APP_HOST`
    pub app_host: Option<String>,
    /// `APP_PORT`
    pub app_port: Option<String>,
    /// `WORK_DIR`
    pub work_dir: Option<String>,
    /// `PLAYLISTS_DIR`
    pub playlists_dir: Option<String>,
    /// `CDN_UPLOAD_ENDPOINT` (required)
    pub cdn_upload_endpoint: Option<String>,
    /// `CDN_CSRF_TOKEN` (required)
    pub cdn_csrf_token: Option<String>,
    /// `CDN_UUID` (required)
    pub cdn_uuid: Option<String>,
    /// `CDN_COOKIE` (required)
    pub cdn_cookie: Option<String>,
    /// `HLS_SEGMENT_DURATION`
    pub hls_segment_duration: Option<String>,
    /// `MAX_UPLOAD_SIZE_MB`
    pub max_upload_size_mb: Option<String>,
    /// `MAX_IMAGE_UPLOAD_SIZE_MB`
    pub max_image_upload_size_mb: Option<String>,
}

/// A required variable that is not set.
#[derive(Debug)]
pub struct MissingVar {
    /// The variable's name
    pub key: String,
}

impl MissingVar {
    /// The message it stops the service with: `<KEY> must be set`.
    pub fn message(&self) -> (out: String)
        ensures
            out@ == self.key@ + " must be set"@,
    {
        concat_str(self.key.as_str(), " must be set")
    }
}

/// A value as set, or else the default.
pub open spec fn or_default(v: Option<String>, default: Seq<char>) -> Seq<char> {
    match v {
        Some(s) => s@,
        None => default,
    }
}

/// A number read from a variable when it is set and reads as one no greater than
/// `max`, or else the default.
pub open spec fn number_or(v: Option<String>, max: int, default: int) -> int {
    match v {
        Some(s) => match parse_unsigned(s@, max) {
            Some(n) => n,
            None => default,
        },
        None => default,
    }
}

/// A required value without the double and then single quotes that a `.env` file
/// may leave around it.
pub open spec fn unquoted(s: Seq<char>) -> Seq<char> {
    trim_matches(trim_matches(s, '"'), '\'')
}

fn text_or(v: Option<String>, default: &str) -> (out: String)
    ensures
        out@ == or_default(v, default@),
{
    match v {
        Some(s) => s,
        None => String::from_str(default),
    }
}

fn number_or_u64(v: &Option<String>, max: u64, default: u64) -> (out: u64)
    requires
        default <= max,
    ensures
        out == number_or(*v, max as int, default as int),
        out <= max,
{
    match v {
        Some(s) => match parse_unsigned_str(s.as_str(), max) {
            Some(n) => n,
            None => default,
        },
        None => default,
    }
}

fn unquote(s: &String) -> (out: String)
    ensures
        out@ == unquoted(s@),
{
    let a = trim_matches_str(s.as_str(), '"');
    trim_matches_str(a.as_str(), '\'')
}

impl AppConfig {
    /// Build the configuration from the environment's variables with sensible defaults:
    /// host `0.0.0.0`, port 8080, work directory `./hls_work`, playlists directory
    /// `./playlists`, 5-second segments, 500 MB uploads and 50 MB image uploads. The
    /// four CDN variables are required; the first one missing, in that order, is the error.
    pub fn from_vars(vars: ConfigVars) -> (out: Result<AppConfig, MissingVar>)
        ensures
            vars.cdn_upload_endpoint is None ==> (out matches Err(m) && m.key@ == "CDN_UPLOAD_ENDPOINT"@),
            vars.cdn_upload_endpoint is Some && vars.cdn_csrf_token is None ==> (out matches Err(m)
                && m.key@ == "CDN_CSRF_TOKEN"@),
            vars.cdn_upload_endpoint is Some && vars.cdn_csrf_token is Some && vars.cdn_uuid is None
                ==> (out matches Err(m) && m.key@ == "CDN_UUID"@),
            vars.cdn_upload_endpoint is Some && vars.cdn_csrf_token is Some && vars.cdn_uuid is Some
                && vars.cdn_cookie is None ==> (out matches Err(m) && m.key@ == "CDN_COOKIE"@),
            out is Ok <==> (vars.cdn_upload_endpoint is Some && vars.cdn_csrf_token is Some
                && vars.cdn_uuid is Some && vars.cdn_cookie is Some),
            out matches Ok(c) ==> {
                &&& c.host@ == or_default(vars.app_host, "0.0.0.0"@)
                &&& c.port == number_or(vars.app_port, u16::MAX as int, 8080)
                &&& c.work_dir@ == or_default(vars.work_dir, "./hls_work"@)
                &&& c.playlists_dir@ == or_default(vars.playlists_dir, "./playlists"@)
                &&& c.cdn_upload_endpoint@ == unquoted(vars.cdn_upload_endpoint.unwrap()@)
                &&& c.cdn_csrf_token@ == unquoted(vars.cdn_csrf_token.unwrap()@)
                &&& c.cdn_uuid@ == unquoted(vars.cdn_uuid.unwrap()@)
                &&& c.cdn_cookie@ == unquoted(vars.cdn_cookie.unwrap()@)
                &&& c.hls_segment_duration == number_or(vars.hls_segment_duration, u32::MAX as int, 5)
                &&& c.max_upload_size_mb == number_or(vars.max_upload_size_mb, u64::MAX as int, 500)
                &&& c.max_image_upload_size_mb == number_or(
                    vars.max_image_upload_size_mb,
                    u64::MAX as int,
                    50,
                )
            },
    {
        let endpoint = match &vars.cdn_upload_endpoint {
            Some(s) => unquote(s),
            None => return Err(MissingVar { key: String::from_str("CDN_UPLOAD_ENDPOINT") }),
        };
        let csrf = match &vars.cdn_csrf_token {
            Some(s) => unquote(s),
            None => return Err(MissingVar { key: String::from_str("CDN_CSRF_TOKEN") }),
        };
        let uuid = match &vars.cdn_uuid {
            Some(s) => unquote(s),
            None => return Err(MissingVar { key: String::from_str("CDN_UUID") }),
        };
        let cookie = match &vars.cdn_cookie {
            Some(s) => unquote(s),
            None => return Err(MissingVar { key: String::from_str("CDN_COOKIE") }),
        };
        let port = number_or_u64(&vars.app_port, u16::MAX as u64, 8080) as u16;
        let seg = number_or_u64(&vars.hls_segment_duration, u32::MAX as u64, 5) as u32;
        let max_mb = number_or_u64(&vars.max_upload_size_mb, u64::MAX, 500);
        let max_img = number_or_u64(&vars.max_image_upload_size_mb, u64::MAX, 50);
        Ok(AppConfig {
            host: text_or(vars.app_host, "0.0.0.0"),
            port,
            work_dir: text_or(vars.work_dir, "./hls_work"),
            playlists_dir: text_or(vars.playlists_dir, "./playlists"),
            cdn_upload_endpoint: endpoint,
            cdn_csrf_token: csrf,
            cdn_uuid: uuid,
            cdn_cookie: cookie,
            hls_segment_duration: seg,
            max_upload_size_mb: max_mb,
            max_image_upload_size_mb: max_img,
        })
    }
}

} // verus!
