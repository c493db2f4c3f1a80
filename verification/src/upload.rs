//! Masking segments as PNG images and reading the CDN's answers.
use vstd::prelude::*;
use vstd::string::*;
use crate::errors::AppError;
use crate::models::{CdnUploadResponse, HlsSegment, SegmentUploadResult};
use crate::ffmpeg::is_segment_file;
use crate::text::{concat_str, file_extension, file_stem, split_file_name};

verus! {

broadcast use vstd::string::group_string_axioms;

/// The complete 1×1 RGBA PNG (67 bytes), spelled in hex.
/// Used as a prefix mask so the CDN sees a valid PNG header.
pub const PNG_HEX: &'static str = "89504e470d0a1a0a0000000d49484452000000010000000108060000001f15c4890000000a49444154789c63000100000500010d0a2db40000000049454e44ae426082";

/// Size of the PNG mask in bytes.
pub const PNG_MASK_SIZE: usize = 67;

/// The error `hex::decode` reports (carried, never looked into).
#[verifier::external_type_specification]
#[verifier::external_body]
pub struct ExFromHexError(hex::FromHexError);

/// A byte that spells a hex digit: `0-9`, `a-f` or `A-F`.
pub open spec fn is_hex_digit(b: u8) -> bool {
    (48 <= b && b <= 57) || (97 <= b && b <= 102) || (65 <= b && b <= 70)
}

/// The value of a hex digit byte.
pub open spec fn hex_value(b: u8) -> int {
    if 48 <= b && b <= 57 {
        b - 48
    } else if 97 <= b && b <= 102 {
        b - 87
    } else {
        b - 55
    }
}

/// The bytes that a hex text spells, two digits per byte, high digit first.
pub open spec fn hex_bytes(h: Seq<u8>) -> Seq<u8> {
    Seq::new(h.len() / 2, |i: int| (16 * hex_value(h[2 * i]) + hex_value(h[2 * i + 1])) as u8)
}

/// A text that `hex::decode` accepts: an even number of hex digits.
pub open spec fn is_hex_text(h: Seq<u8>) -> bool {
    h.len() % 2 == 0 && forall|i: int| 0 <= i < h.len() ==> is_hex_digit(#[trigger] h[i])
}

/// `hex::decode` on the bytes of `s`.
/// Trusted: it succeeds exactly on an even number of hex digits (either case), and then
/// gives one byte per digit pair, the first digit of the pair being the high half.
#[verifier::external_body]
fn hex_decode(s: &str) -> (r: Result<Vec<u8>, hex::FromHexError>)
    ensures
        r is Ok <==> is_hex_text(s.spec_bytes()),
        r matches Ok(v) ==> v@ == hex_bytes(s.spec_bytes()),
{
    hex::decode(s)
}

/// The bytes of the PNG mask.
pub open spec fn png_mask_bytes() -> Seq<u8> {
    hex_bytes(PNG_HEX.spec_bytes())
}

/// The mask's hex text is 134 hex digits.
proof fn lemma_png_hex_text()
    ensures
        is_hex_text(PNG_HEX.spec_bytes()),
        PNG_HEX.spec_bytes().len() == 2 * PNG_MASK_SIZE,
{
    reveal_strlit("89504e470d0a1a0a0000000d49484452000000010000000108060000001f15c4890000000a49444154789c63000100000500010d0a2db40000000049454e44ae426082");
    let s = PNG_HEX@;
    assert(s.len() == 134);
    assert(forall|i: int| 0 <= i < 134 ==> is_hex_char(#[trigger] s[i]));
    assert(is_ascii(PNG_HEX));
}

/// A character that spells a hex digit.
pub open spec fn is_hex_char(c: char) -> bool {
    ('0' <= c && c <= '9') || ('a' <= c && c <= 'f') || ('A' <= c && c <= 'F')
}

/// Build the 67-byte PNG mask buffer.
pub fn png_mask() -> (m: Vec<u8>)
    ensures
        m@ == png_mask_bytes(),
        m@.len() == PNG_MASK_SIZE,
{
    proof {
        lemma_png_hex_text();
    }
    match hex_decode(PNG_HEX) {
        Ok(v) => v,
        Err(_) => {
            proof {
                assert(false);
            }
            Vec::new()
        },
    }
}


/// The upload body of a segment: the PNG mask followed by the segment's bytes.
pub fn mask_segment(ts_data: &[u8]) -> (out: Vec<u8>)
    ensures
        out@ == png_mask_bytes() + ts_data@,
        out@.len() == PNG_MASK_SIZE + ts_data@.len(),
{
    let mut out = png_mask();
    let n = ts_data.len();
    let mut i: usize = 0;
    while i < n
        invariant
            n == ts_data@.len(),
            i <= n,
            out@ == png_mask_bytes() + ts_data@.take(i as int),
        decreases n - i,
    {
        out.push(ts_data[i]);
        i = i + 1;
        assert(out@ =~= png_mask_bytes() + ts_data@.take(i as int));
    }
    assert(ts_data@.take(n as int) =~= ts_data@);
    out
}

/// The mask is exactly `PNG_MASK_SIZE` bytes long, so the bytes of a masked segment
/// from offset `PNG_MASK_SIZE` on, as many as the segment had, are the segment itself.
pub proof fn law_mask_is_skipped(ts_data: Seq<u8>)
    ensures
        png_mask_bytes().len() == PNG_MASK_SIZE,
        (png_mask_bytes() + ts_data).subrange(
            PNG_MASK_SIZE as int,
            PNG_MASK_SIZE + ts_data.len(),
        ) == ts_data,
{
    lemma_png_hex_text();
    assert((png_mask_bytes() + ts_data).subrange(PNG_MASK_SIZE as int, PNG_MASK_SIZE + ts_data.len())
        =~= ts_data);
}

/// The file name a segment is uploaded under: a `.ts` extension is changed to `.png`
/// (the stem is kept as it is); a name without that extension is kept.
pub fn segment_upload_name(filename: &str) -> (out: String)
    ensures
        file_extension(filename@) == Some("ts"@) ==> out@ == file_stem(filename@) + ".png"@,
        file_extension(filename@) != Some("ts"@) ==> out@ == filename@,
{
    let (stem, _) = split_file_name(filename);
    if is_segment_file(filename) {
        concat_str(stem.as_str(), ".png")
    } else {
        String::from_str(filename)
    }
}

/// The URL that a CDN answer grants: present only when the code is 0 and the
/// answer carries data with a URL.
pub open spec fn granted_url(r: CdnUploadResponse) -> Option<String> {
    match r.code {
        Some(c) => if c == 0 {
            match r.data {
                Some(d) => d.url,
                None => None,
            }
        } else {
            None
        },
        None => None,
    }
}

/// The URL that a CDN answer grants, if any.
pub fn cdn_granted_url(r: CdnUploadResponse) -> (out: Option<String>)
    ensures
        out == granted_url(r),
{
    match r.code {
        Some(c) => if c == 0 {
            match r.data {
                Some(d) => d.url,
                None => None,
            }
        } else {
            None
        },
        None => None,
    }
}

/// Decides an upload from the CDN's reply to it: `name` is the file's name,
/// `success` whether the HTTP status was a success, `status` how the status displays,
/// `body` the reply's text and `parsed` the reply read as a `CdnUploadResponse`
/// (or the parser's message). Succeeds with the granted URL.
pub fn settle_cdn_reply(
    name: &str,
    success: bool,
    status: &str,
    body: &str,
    parsed: Result<CdnUploadResponse, String>,
) -> (out: Result<String, AppError>)
    ensures
        !success ==> (out matches Err(AppError::UploadError(m)) && m@ == "CDN HTTP "@ + status@
            + ": "@ + body@),
        success ==> match parsed {
            Err(e) => out matches Err(AppError::UploadError(m)) && m@
                == "Failed to parse CDN response: "@ + e@ + " — body: "@ + body@,
            Ok(r) => match granted_url(r) {
                Some(u) => out == Ok::<String, AppError>(u),
                None => out matches Err(AppError::UploadError(m)) && m@ == "CDN rejected "@
                    + name@ + ": "@ + body@,
            },
        },
{
    if !success {
        let mut m = concat_str("CDN HTTP ", status);
        m.append(": ");
        m.append(body);
        return Err(AppError::UploadError(m));
    }
    match parsed {
        Err(e) => {
            let mut m = concat_str("Failed to parse CDN response: ", e.as_str());
            m.append(" — body: ");
            m.append(body);
            Err(AppError::UploadError(m))
        },
        Ok(r) => match cdn_granted_url(r) {
            Some(u) => Ok(u),
            None => {
                let mut m = concat_str("CDN rejected ", name);
                m.append(": ");
                m.append(body);
                Err(AppError::UploadError(m))
            },
        },
    }
}

/// Decides a segment's upload from the CDN's reply (see `settle_cdn_reply`); on success
/// the result records the segment's name, the granted URL and the segment's size
/// before masking.
pub fn settle_segment_upload(
    segment: &HlsSegment,
    original_size: u64,
    success: bool,
    status: &str,
    body: &str,
    parsed: Result<CdnUploadResponse, String>,
) -> (out: Result<SegmentUploadResult, AppError>)
    ensures
        match settle_cdn_reply_spec(segment.filename@, success, status@, body@, parsed) {
            Ok(u) => out matches Ok(r) && r.filename == segment.filename && r.remote_url@ == u
                && r.original_size == original_size,
            Err(m) => out matches Err(AppError::UploadError(e)) && e@ == m,
        },
{
    match settle_cdn_reply(segment.filename.as_str(), success, status, body, parsed) {
        Ok(u) => Ok(SegmentUploadResult {
            filename: segment.filename.clone(),
            remote_url: u,
            original_size,
        }),
        Err(e) => Err(e),
    }
}

/// What `settle_cdn_reply` decides: the granted URL, or the text of the upload error.
pub open spec fn settle_cdn_reply_spec(
    name: Seq<char>,
    success: bool,
    status: Seq<char>,
    body: Seq<char>,
    parsed: Result<CdnUploadResponse, String>,
) -> Result<Seq<char>, Seq<char>> {
    if !success {
        Err("CDN HTTP "@ + status + ": "@ + body)
    } else {
        match parsed {
            Err(e) => Err("Failed to parse CDN response: "@ + e@ + " — body: "@ + body),
            Ok(r) => match granted_url(r) {
                Some(u) => Ok(u@),
                None => Err("CDN rejected "@ + name + ": "@ + body),
            },
        }
    }
}

/// Adds a segment's upload outcome to the results so far: a success is kept, in
/// order; a failure leaves the results as they were.
pub fn record_segment_outcome(
    results: &mut Vec<SegmentUploadResult>,
    outcome: Result<SegmentUploadResult, AppError>,
)
    ensures
        match outcome {
            Ok(r) => final(results)@ == old(results)@.push(r),
            Err(_) => final(results)@ == old(results)@,
        },
{
    match outcome {
        Ok(r) => results.push(r),
        Err(_) => {},
    }
}

} // verus!
