//! Rewriting the HLS playlist to point at the masked segments on the CDN.
use vstd::prelude::*;
use vstd::string::*;
use crate::models::SegmentUploadResult;
use crate::text::{
    concat_str, count_prefixed_lines, count_prefixed_lines_str, decimal, decimal_string, path_join,
    file_extension, file_stem, last_index_of, law_decimal_round_trip, law_replace_absent,
    law_replace_single, lemma_last_index_append, occurs, parse_unsigned, path_join_str,
    replace_all, replace_all_str,
};
use crate::upload::PNG_MASK_SIZE;

verus! {

/// The playlist entry for an uploaded segment: a `BYTERANGE` tag that reads the
/// segment's original size from offset `PNG_MASK_SIZE`, then the remote URL.
pub open spec fn byterange_block(r: SegmentUploadResult) -> Seq<char> {
    "#EXT-X-BYTERANGE:"@ + decimal(r.original_size as nat) + "@"@ + decimal(PNG_MASK_SIZE as nat)
        + "\n"@ + r.remote_url@
}

/// The playlist after each result, in order, has replaced its segment's file name.
pub open spec fn replace_segments(m3u8: Seq<char>, results: Seq<SegmentUploadResult>) -> Seq<char>
    decreases results.len(),
{
    if results.len() == 0 {
        m3u8
    } else {
        replace_all(
            replace_segments(m3u8, results.drop_last()),
            results.last().filename@,
            byterange_block(results.last()),
        )
    }
}

/// The final playlist: segments replaced, then the HLS version raised from 3 to 4.
pub open spec fn rewritten_playlist(m3u8: Seq<char>, results: Seq<SegmentUploadResult>) -> Seq<
    char,
> {
    replace_all(replace_segments(m3u8, results), "#EXT-X-VERSION:3"@, "#EXT-X-VERSION:4"@)
}

/// The playlist entry for one uploaded segment.
pub fn byterange_entry(r: &SegmentUploadResult) -> (out: String)
    ensures
        out@ == byterange_block(*r),
        out@.len() >= r.remote_url@.len(),
        out@.skip(out@.len() - r.remote_url@.len()) == r.remote_url@,
{
    let mut out = String::from_str("#EXT-X-BYTERANGE:");
    let size = decimal_string(r.original_size);
    out.append(size.as_str());
    out.append("@");
    let offset = decimal_string(PNG_MASK_SIZE as u64);
    out.append(offset.as_str());
    out.append("\n");
    out.append(r.remote_url.as_str());
    proof {
        law_entry_reads_back(*r);
        let e = byterange_block(*r);
        let k = e.len() - r.remote_url@.len() - 4;
        assert(e.skip(k + 4) == r.remote_url@);
    }
    out
}

/// Rewrite the playlist text to point at remote CDN URLs with `#EXT-X-BYTERANGE` tags
/// that skip the PNG mask, and upgrade the HLS version from 3 to 4 (required for
/// `BYTERANGE` support).
pub fn rewrite_playlist(m3u8: &str, upload_results: &[SegmentUploadResult]) -> (out: String)
    ensures
        out@ == rewritten_playlist(m3u8@, upload_results@),
{
    let mut text = String::from_str(m3u8);
    let n = upload_results.len();
    let mut i: usize = 0;
    while i < n
        invariant
            n == upload_results@.len(),
            i <= n,
            text@ == replace_segments(m3u8@, upload_results@.take(i as int)),
        decreases n - i,
    {
        let r = &upload_results[i];
        let block = byterange_entry(r);
        text = replace_all_str(text.as_str(), r.filename.as_str(), block.as_str());
        assert(upload_results@.take(i + 1).drop_last() =~= upload_results@.take(i as int));
        i = i + 1;
    }
    assert(upload_results@.take(n as int) =~= upload_results@);
    replace_all_str(text.as_str(), "#EXT-X-VERSION:3", "#EXT-X-VERSION:4")
}

/// The file a job's playlist is saved to: `<job_id>.m3u8` inside `output_dir`.
pub open spec fn saved_playlist_file(output_dir: Seq<char>, job_id: Seq<char>) -> Seq<char> {
    path_join(output_dir, job_id + ".m3u8"@)
}

/// The path `save_playlist` writes a job's playlist to.
pub fn saved_playlist_path(output_dir: &str, job_id: &str) -> (out: String)
    ensures
        out@ == saved_playlist_file(output_dir@, job_id@),
        (job_id@.len() > 0 && forall|i: int| 0 <= i < job_id@.len() ==> job_id@[i] != '/') ==> file_stem(
            out@.skip(last_index_of(out@, '/') + 1),
        ) == job_id@,
{
    let name = concat_str(job_id, ".m3u8");
    let out = path_join_str(output_dir, name.as_str());
    proof {
        if job_id@.len() > 0 && forall|i: int| 0 <= i < job_id@.len() ==> job_id@[i] != '/' {
            law_saved_file_named_by_job(output_dir@, job_id@);
        }
    }
    out
}

/// The number of `#EXTINF:` lines of a playlist, i.e. its segments.
pub fn count_segments(playlist: &str) -> (n: usize)
    ensures
        n == count_prefixed_lines(playlist@, "#EXTINF:"@),
{
    count_prefixed_lines_str(playlist, "#EXTINF:")
}


/// Where a segment's name occurs once in the playlist, its entry takes the name's place
/// and the rest of the playlist is kept.
pub proof fn law_segment_entry_replaces_name(
    pre: Seq<char>,
    post: Seq<char>,
    r: SegmentUploadResult,
)
    requires
        r.filename@.len() > 0,
        forall|i: int| occurs(pre + r.filename@ + post, r.filename@, i) ==> i == pre.len(),
    ensures
        replace_segments(pre + r.filename@ + post, seq![r]) == pre + byterange_block(r) + post,
{
    let m3u8 = pre + r.filename@ + post;
    assert(seq![r].drop_last() =~= Seq::<SegmentUploadResult>::empty());
    assert(replace_segments(m3u8, seq![r].drop_last()) == m3u8);
    law_replace_single(pre, r.filename@, post, byterange_block(r));
}


/// A playlist that names none of the uploaded segments is left as it was by their
/// replacement.
pub proof fn law_unnamed_segments_leave_playlist(
    m3u8: Seq<char>,
    results: Seq<SegmentUploadResult>,
)
    requires
        forall|k: int| 0 <= k < results.len() ==> (#[trigger] results[k]).filename@.len() > 0,
        forall|k: int, i: int| 0 <= k < results.len() ==> !#[trigger] occurs(m3u8, results[k].filename@, i),
    ensures
        replace_segments(m3u8, results) == m3u8,
    decreases results.len(),
{
    if results.len() > 0 {
        let init = results.drop_last();
        assert forall|k: int| 0 <= k < init.len() implies (#[trigger] init[k]).filename@.len() > 0 by {
            assert(init[k] == results[k]);
        }
        assert forall|k: int, i: int| 0 <= k < init.len() implies !#[trigger] occurs(m3u8, init[k].filename@, i) by {
            assert(init[k] == results[k]);
        }
        law_unnamed_segments_leave_playlist(m3u8, init);
        let last = results[results.len() - 1];
        assert(results.last() == last);
        assert forall|i: int| !occurs(m3u8, last.filename@, i) by {
            assert(!occurs(m3u8, results[results.len() - 1].filename@, i));
        }
        law_replace_absent(m3u8, last.filename@, byterange_block(last));
    }
}

/// A segment's playlist entry reads back as what it stands for: the tag
/// `#EXT-X-BYTERANGE:`, then digits that read as the segment's size before masking, then
/// `@67` (the mask's size) and a line break, and then the segment's remote URL, whole.
pub proof fn law_entry_reads_back(r: SegmentUploadResult)
    ensures
        ({
            let e = byterange_block(r);
            let u = r.remote_url@;
            let k = e.len() - u.len() - 4;
            &&& 17 < k
            &&& e.take(17) == "#EXT-X-BYTERANGE:"@
            &&& parse_unsigned(e.subrange(17, k), u64::MAX as int) == Some(r.original_size as int)
            &&& e.subrange(k, k + 4) == "@67\n"@
            &&& e.skip(k + 4) == u
        }),
        PNG_MASK_SIZE == 67,
{
    reveal_strlit("#EXT-X-BYTERANGE:");
    reveal_strlit("@67\n");
    reveal_strlit("@");
    reveal_strlit("\n");
    let h = "#EXT-X-BYTERANGE:"@;
    let d = decimal(r.original_size as nat);
    let u = r.remote_url@;
    assert(decimal(6) == seq!['6']);
    assert(decimal(67) =~= seq!['6', '7']);
    let tail = "@"@ + decimal(PNG_MASK_SIZE as nat) + "\n"@;
    assert(tail =~= "@67\n"@);
    let e = byterange_block(r);
    assert(e =~= h + d + tail + u);
    law_decimal_round_trip(r.original_size as nat, u64::MAX as int);
    crate::text::lemma_decimal_digits(r.original_size as nat);
    let k = e.len() - u.len() - 4;
    assert(k == 17 + d.len());
    assert(e.take(17) =~= h);
    assert(e.subrange(17, k) =~= d);
    assert(e.subrange(k, k + 4) =~= tail);
    assert(e.skip(k + 4) =~= u);
}

/// The file a job's playlist is saved to is named by the whole job id: after the last
/// `/` of its path comes `<job_id>.m3u8`, whose stem is the job id and whose extension
/// is `m3u8`, and before it stands the directory (with a `/` added when a non-empty
/// directory does not end with one).
pub proof fn law_saved_file_named_by_job(output_dir: Seq<char>, job_id: Seq<char>)
    requires
        job_id.len() > 0,
        forall|i: int| 0 <= i < job_id.len() ==> job_id[i] != '/',
    ensures
        ({
            let p = saved_playlist_file(output_dir, job_id);
            let k = last_index_of(p, '/');
            let name = p.skip(k + 1);
            &&& -1 <= k < p.len()
            &&& name == job_id + ".m3u8"@
            &&& file_stem(name) == job_id
            &&& file_extension(name) == Some("m3u8"@)
            &&& p.take(k + 1) == if output_dir.len() == 0 || output_dir.last() == '/' {
                output_dir
            } else {
                output_dir + seq!['/']
            }
        }),
{
    reveal_strlit(".m3u8");
    let ext = "m3u8"@;
    reveal_strlit("m3u8");
    let dotted = ".m3u8"@;
    assert(dotted =~= seq!['.'] + ext);
    let name = job_id + dotted;
    assert(forall|i: int| 0 <= i < dotted.len() ==> dotted[i] != '/');
    assert forall|i: int| 0 <= i < name.len() implies name[i] != '/' by {
        if i < job_id.len() {
            assert(name[i] == job_id[i]);
        } else {
            assert(name[i] == dotted[i - job_id.len()]);
        }
    }
    let a = if output_dir.len() == 0 || output_dir.last() == '/' {
        output_dir
    } else {
        output_dir + seq!['/']
    };
    let p = saved_playlist_file(output_dir, job_id);
    assert(job_id[0] != '/');
    assert(name[0] == job_id[0]);
    assert(p =~= a + name);
    lemma_last_index_append(a, name, '/');
    if a.len() == 0 {
        assert(last_index_of(a, '/') == -1);
    } else {
        assert(a.last() == '/');
        assert(last_index_of(a, '/') == a.len() - 1);
    }
    let k = last_index_of(p, '/');
    assert(k == a.len() - 1);
    assert(p.skip(k + 1) =~= name);
    assert(p.take(k + 1) =~= a);
    // the extension: the last '.' of the name is the one before "m3u8"
    assert(forall|i: int| 0 <= i < ext.len() ==> ext[i] != '.');
    let upto = job_id + seq!['.'];
    assert(name =~= upto + ext);
    lemma_last_index_append(upto, ext, '.');
    assert(last_index_of(upto, '.') == job_id.len());
    assert(last_index_of(name, '.') == job_id.len());
    assert(name != seq!['.', '.']) by {
        assert(name.len() >= 6);
    }
    assert(name.skip(job_id.len() + 1int) =~= ext);
    assert(name.take(job_id.len() as int) =~= job_id);
}

} // verus!
