//! What the service asks of FFmpeg and how it orders the segments produced.
use vstd::prelude::*;
use vstd::string::*;
use crate::errors::AppError;
use crate::models::HlsSegment;
use crate::text::{
    chars_of, concat_str, decimal, decimal_string, file_extension, last_index_of,
    law_decimal_round_trip, lemma_last_index_append, parse_unsigned, path_join, path_join_str,
    split_file_name,
};

verus! {

/// The file FFmpeg writes the playlist to inside `output_dir`.
pub open spec fn playlist_file(output_dir: Seq<char>) -> Seq<char> {
    path_join(output_dir, "index.m3u8"@)
}

/// Get the path to the generated M3U8 playlist inside the output dir.
pub fn playlist_path(output_dir: &str) -> (out: String)
    ensures
        out@ == playlist_file(output_dir@),
{
    path_join_str(output_dir, "index.m3u8")
}

/// The playlist sits directly in `output_dir` under the name `index.m3u8`: what follows
/// the last `/` of its path is `index.m3u8`, and what comes up to that `/` is
/// `output_dir` (with the `/` added when `output_dir` does not end with one).
pub proof fn law_playlist_in_output_dir(output_dir: Seq<char>)
    requires
        output_dir.len() > 0,
    ensures
        ({
            let p = playlist_file(output_dir);
            let k = last_index_of(p, '/');
            &&& 0 <= k < p.len()
            &&& p.skip(k + 1) == "index.m3u8"@
            &&& p.take(k + 1) == if output_dir.last() == '/' {
                output_dir
            } else {
                output_dir + seq!['/']
            }
        }),
{
    reveal_strlit("index.m3u8");
    let name = "index.m3u8"@;
    assert(name.len() == 10);
    assert(forall|i: int| 0 <= i < name.len() ==> name[i] != '/');
    let a = if output_dir.last() == '/' {
        output_dir
    } else {
        output_dir + seq!['/']
    };
    let p = playlist_file(output_dir);
    assert(p =~= a + name);
    assert(a.last() == '/');
    assert(last_index_of(a, '/') == a.len() - 1);
    lemma_last_index_append(a, name, '/');
    assert(p.skip(a.len() as int) =~= name);
    assert(p.take(a.len() as int) =~= a);
}

/// The arguments FFmpeg is run with: copy the codecs, strip all metadata, start
/// numbering at 0, cut `segment_duration`-second segments, keep them all in the list,
/// and write HLS to `m3u8`.
pub open spec fn ffmpeg_arg_list(input: Seq<char>, m3u8: Seq<char>, segment_duration: u32) -> Seq<
    Seq<char>,
> {
    seq![
        "-y"@, "-i"@, input, "-codec:"@, "copy"@, "-map_metadata"@, "-1"@, "-metadata"@,
        "service_provider=video-hls-api"@, "-metadata"@, "service_name=video-hls-api"@,
        "-start_number"@, "0"@, "-hls_time"@, decimal(segment_duration as nat), "-hls_list_size"@,
        "0"@, "-f"@, "hls"@, m3u8,
    ]
}

/// FFmpeg reads the input path as given (`-i` followed by the path verbatim, spaces and
/// all), cuts segments of the requested length (`-hls_time` followed by digits that read
/// as it), writes HLS (`-f hls`) and lists the segments in the playlist path, given
/// verbatim as the last argument.
pub proof fn law_ffmpeg_reads_input_writes_playlist(
    input: Seq<char>,
    m3u8: Seq<char>,
    segment_duration: u32,
)
    ensures
        ({
            let a = ffmpeg_arg_list(input, m3u8, segment_duration);
            &&& a.len() == 20
            &&& a[1] == "-i"@
            &&& a[2] == input
            &&& a[13] == "-hls_time"@
            &&& parse_unsigned(a[14], u32::MAX as int) == Some(segment_duration as int)
            &&& a[17] == "-f"@
            &&& a[18] == "hls"@
            &&& a[19] == m3u8
        }),
{
    law_decimal_round_trip(segment_duration as nat, u32::MAX as int);
}

/// The argument list for slicing `input` into HLS segments listed in `m3u8`.
pub fn ffmpeg_args(input: &str, m3u8: &str, segment_duration: u32) -> (out: Vec<String>)
    ensures
        out@.map_values(|a: String| a@) == ffmpeg_arg_list(input@, m3u8@, segment_duration),
        out@.len() == 20,
        out@[2]@ == input@,
        out@[19]@ == m3u8@,
{
    let mut out: Vec<String> = Vec::new();
    out.push(String::from_str("-y"));
    out.push(String::from_str("-i"));
    out.push(String::from_str(input));
    out.push(String::from_str("-codec:"));
    out.push(String::from_str("copy"));
    out.push(String::from_str("-map_metadata"));
    out.push(String::from_str("-1"));
    out.push(String::from_str("-metadata"));
    out.push(String::from_str("service_provider=video-hls-api"));
    out.push(String::from_str("-metadata"));
    out.push(String::from_str("service_name=video-hls-api"));
    out.push(String::from_str("-start_number"));
    out.push(String::from_str("0"));
    out.push(String::from_str("-hls_time"));
    out.push(decimal_string(segment_duration as u64));
    out.push(String::from_str("-hls_list_size"));
    out.push(String::from_str("0"));
    out.push(String::from_str("-f"));
    out.push(String::from_str("hls"));
    out.push(String::from_str(m3u8));
    assert(out@.map_values(|a: String| a@) =~= ffmpeg_arg_list(input@, m3u8@, segment_duration));
    proof {
        law_ffmpeg_reads_input_writes_playlist(input@, m3u8@, segment_duration);
        assert(out@.map_values(|a: String| a@)[2] == out@[2]@);
        assert(out@.map_values(|a: String| a@)[19] == out@[19]@);
    }
    out
}

/// Whether a directory entry named `name` is a segment: its extension is `ts`.
pub fn is_segment_file(name: &str) -> (b: bool)
    ensures
        b == (file_extension(name@) == Some("ts"@)),
{
    let (_, ext) = split_file_name(name);
    match ext {
        Some(e) => {
            let cs = chars_of(e.as_str());
            let r = cs.len() == 2 && cs[0] == 't' && cs[1] == 's';
            proof {
                reveal_strlit("ts");
                if r {
                    assert(e@ =~= "ts"@);
                }
                if e@ == "ts"@ {
                    assert(cs@[0] == 't' && cs@[1] == 's');
                }
            }
            r
        },
        None => false,
    }
}

/// The error for an FFmpeg that could not be started.
pub fn ffmpeg_launch_error(cause: &str) -> (e: AppError)
    ensures
        e matches AppError::FfmpegError(m) && m@ == "Failed to execute FFmpeg: "@ + cause@
            + ". Is FFmpeg installed?"@,
{
    let mut m = concat_str("Failed to execute FFmpeg: ", cause);
    m.append(". Is FFmpeg installed?");
    AppError::FfmpegError(m)
}

/// Lexicographic order on character sequences (std's `Ord` for `String`, which
/// compares the UTF-8 bytes and so orders as the code points do).
pub open spec fn lex_le(a: Seq<char>, b: Seq<char>) -> bool
    decreases a.len(),
{
    if a.len() == 0 {
        true
    } else if b.len() == 0 {
        false
    } else if a[0] != b[0] {
        a[0] < b[0]
    } else {
        lex_le(a.skip(1), b.skip(1))
    }
}

proof fn lemma_lex_total(a: Seq<char>, b: Seq<char>)
    ensures
        lex_le(a, b) || lex_le(b, a),
    decreases a.len(),
{
    if a.len() > 0 && b.len() > 0 && a[0] == b[0] {
        lemma_lex_total(a.skip(1), b.skip(1));
    }
}

proof fn lemma_lex_trans(a: Seq<char>, b: Seq<char>, c: Seq<char>)
    requires
        lex_le(a, b),
        lex_le(b, c),
    ensures
        lex_le(a, c),
    decreases a.len(),
{
    if a.len() > 0 && b.len() > 0 && c.len() > 0 && a[0] == b[0] && b[0] == c[0] {
        lemma_lex_trans(a.skip(1), b.skip(1), c.skip(1));
    }
}

/// Whether `a` comes no later than `b` in lexicographic order.
pub fn lex_le_str(a: &str, b: &str) -> (r: bool)
    ensures
        r == lex_le(a@, b@),
{
    let x = chars_of(a);
    let y = chars_of(b);
    let mut i: usize = 0;
    assert(x@.skip(0) =~= x@);
    assert(y@.skip(0) =~= y@);
    while i < x.len() && i < y.len() && x[i] == y[i]
        invariant
            i <= x@.len(),
            i <= y@.len(),
            lex_le(x@, y@) == lex_le(x@.skip(i as int), y@.skip(i as int)),
        decreases x@.len() - i,
    {
        assert(x@.skip(i as int).skip(1) =~= x@.skip(i + 1));
        assert(y@.skip(i as int).skip(1) =~= y@.skip(i + 1));
        i = i + 1;
    }
    if i == x.len() {
        true
    } else if i == y.len() {
        false
    } else {
        x[i] < y[i]
    }
}

/// The segments are in order of their file names.
pub open spec fn sorted_by_name(s: Seq<HlsSegment>) -> bool {
    forall|i: int, j: int| 0 <= i < j < s.len() ==> lex_le(s[i].filename@, s[j].filename@)
}

/// The segments of `s` named `f`, in their order in `s`.
pub open spec fn named(s: Seq<HlsSegment>, f: Seq<char>) -> Seq<HlsSegment>
    decreases s.len(),
{
    if s.len() == 0 {
        seq![]
    } else {
        (if s[0].filename@ == f {
            seq![s[0]]
        } else {
            seq![]
        }) + named(s.drop_first(), f)
    }
}

proof fn lemma_named_concat(a: Seq<HlsSegment>, b: Seq<HlsSegment>, f: Seq<char>)
    ensures
        named(a + b, f) == named(a, f) + named(b, f),
    decreases a.len(),
{
    if a.len() == 0 {
        assert(a + b =~= b);
        assert(named(a, f) + named(b, f) =~= named(b, f));
    } else {
        assert((a + b).drop_first() =~= a.drop_first() + b);
        assert((a + b)[0] == a[0]);
        lemma_named_concat(a.drop_first(), b, f);
        let h = if a[0].filename@ == f {
            seq![a[0]]
        } else {
            Seq::<HlsSegment>::empty()
        };
        assert(h + (named(a.drop_first(), f) + named(b, f)) =~= (h + named(a.drop_first(), f))
            + named(b, f));
    }
}

proof fn lemma_named_none(s: Seq<HlsSegment>, f: Seq<char>)
    requires
        forall|i: int| 0 <= i < s.len() ==> s[i].filename@ != f,
    ensures
        named(s, f) == Seq::<HlsSegment>::empty(),
    decreases s.len(),
{
    if s.len() > 0 {
        assert(s[0].filename@ != f);
        assert forall|i: int| 0 <= i < s.drop_first().len() implies s.drop_first()[i].filename@ != f by {
            assert(s.drop_first()[i] == s[i + 1]);
        }
        lemma_named_none(s.drop_first(), f);
        assert(Seq::<HlsSegment>::empty() + Seq::<HlsSegment>::empty() =~= Seq::<HlsSegment>::empty());
    }
}

/// The segments ordered by file name; segments with the same name keep their order
/// (a stable sort, like std's `sort_by`).
pub fn sort_segments(segments: Vec<HlsSegment>) -> (out: Vec<HlsSegment>)
    ensures
        sorted_by_name(out@),
        forall|f: Seq<char>| #[trigger] named(out@, f) == named(segments@, f),
        out@.to_multiset() == segments@.to_multiset(),
{
    broadcast use vstd::seq_lib::group_to_multiset_ensures;

    let ghost orig = segments@;
    let mut input = segments;
    let mut out: Vec<HlsSegment> = Vec::new();
    while input.len() > 0
        invariant
            sorted_by_name(out@),
            out@.to_multiset().add(input@.to_multiset()) == orig.to_multiset(),
            forall|f: Seq<char>| #[trigger] named(orig, f) == named(out@, f) + named(input@, f),
        decreases input@.len(),
    {
        let ghost before_in = input@;
        let x = input.remove(0);
        proof {
            before_in.to_multiset_ensures();
        }
        // place x after every segment whose name is no later than its own
        let mut j: usize = 0;
        while j < out.len() && lex_le_str(out[j].filename.as_str(), x.filename.as_str())
            invariant
                j <= out@.len(),
                forall|k: int| 0 <= k < j ==> lex_le(#[trigger] out@[k].filename@, x.filename@),
            decreases out@.len() - j,
        {
            j = j + 1;
        }
        let ghost before_out = out@;
        proof {
            if j < before_out.len() {
                lemma_lex_total(before_out[j as int].filename@, x.filename@);
            }
            assert forall|k: int| j <= k < before_out.len() implies lex_le(
                x.filename@,
                #[trigger] before_out[k].filename@,
            ) by {
                if k > j {
                    lemma_lex_trans(x.filename@, before_out[j as int].filename@, before_out[k].filename@);
                }
            }
        }
        out.insert(j, x);
        proof {
            let t = out@;
            t.to_multiset_ensures();
            assert forall|a: int, b: int| 0 <= a < b < t.len() implies lex_le(
                t[a].filename@,
                t[b].filename@,
            ) by {
                if b < j {
                    assert(t[a] == before_out[a] && t[b] == before_out[b]);
                } else if b == j {
                    assert(t[a] == before_out[a]);
                } else if a == j {
                    assert(t[b] == before_out[b - 1]);
                } else if a < j {
                    assert(t[a] == before_out[a] && t[b] == before_out[b - 1]);
                    lemma_lex_trans(t[a].filename@, x.filename@, t[b].filename@);
                } else {
                    assert(t[a] == before_out[a - 1] && t[b] == before_out[b - 1]);
                }
            }
            assert(t.remove(j as int) =~= before_out);
            assert(t[j as int] == x);
            assert(t.to_multiset().remove(x) == before_out.to_multiset());
            assert(t.to_multiset().count(x) > 0);
            assert(t.to_multiset() =~= before_out.to_multiset().insert(x));
            assert(input@ == before_in.remove(0));
            assert(before_in[0] == x);
            assert(before_in.to_multiset().count(x) > 0);
            assert(before_in.to_multiset() =~= input@.to_multiset().insert(x));
            assert(t.to_multiset().add(input@.to_multiset()) =~= before_out.to_multiset().add(
                before_in.to_multiset(),
            ));
            // no segment from position j on shares x's name
            assert forall|k: int| j <= k < before_out.len() implies before_out[k].filename@
                != x.filename@ by {
                if before_out[k].filename@ == x.filename@ {
                    if k > j {
                        assert(lex_le(before_out[j as int].filename@, before_out[k].filename@));
                    }
                    assert(lex_le(before_out[j as int].filename@, x.filename@));
                }
            }
            let pre = before_out.take(j as int);
            let post = before_out.skip(j as int);
            assert(t =~= pre + seq![x] + post);
            assert(before_out =~= pre + post);
            assert(input@ =~= before_in.drop_first());
            assert forall|f: Seq<char>| #[trigger] named(orig, f) == named(t, f) + named(input@, f) by {
                lemma_named_concat(pre + seq![x], post, f);
                lemma_named_concat(pre, seq![x], f);
                lemma_named_concat(pre, post, f);
                assert(seq![x].drop_first() =~= Seq::<HlsSegment>::empty());
                assert(named(seq![x].drop_first(), f) == Seq::<HlsSegment>::empty());
                assert(before_in[0] == x);
                if f == x.filename@ {
                    assert forall|i: int| 0 <= i < post.len() implies post[i].filename@ != f by {
                        assert(post[i] == before_out[j + i]);
                    }
                    lemma_named_none(post, f);
                    assert(named(seq![x], f) =~= seq![x]);
                    assert(named(before_in, f) == seq![x] + named(input@, f));
                    assert(named(t, f) =~= named(pre, f) + seq![x]);
                    assert(named(before_out, f) =~= named(pre, f));
                    assert(named(t, f) + named(input@, f) =~= named(before_out, f) + named(before_in, f));
                } else {
                    assert(named(seq![x], f) =~= Seq::<HlsSegment>::empty());
                    assert(named(before_in, f) =~= named(input@, f));
                    assert(named(t, f) =~= named(pre, f) + named(post, f));
                }
            }
        }
    }
    assert(input@.to_multiset() =~= vstd::multiset::Multiset::empty());
    assert forall|f: Seq<char>| #[trigger] named(out@, f) == named(orig, f) by {
        assert(named(input@, f) =~= Seq::<HlsSegment>::empty());
        assert(named(out@, f) + named(input@, f) =~= named(out@, f));
    }
    assert(out@.to_multiset().add(input@.to_multiset()) =~= out@.to_multiset());
    out
}

} // verus!
