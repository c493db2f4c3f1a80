use video_hls_api::text::{
    chars_of, concat_str, count_prefixed_lines_str, decimal_string, parse_unsigned_str, path_join_str,
    replace_all_str, split_file_name, starts_with_str, string_of_range, trim_matches_str, trim_str,
};

#[test]
fn replace_every_occurrence_left_to_right() {
    assert_eq!(replace_all_str("abcabc", "b", "X"), "aXcaXc");
    assert_eq!(replace_all_str("aaa", "aa", "b"), "ba");
    assert_eq!(replace_all_str("index0.ts", ".ts", ".png"), "index0.png");
}

#[test]
fn replace_with_empty_pattern_matches_between_characters() {
    assert_eq!(replace_all_str("abc", "", "-"), "-a-b-c-");
    assert_eq!(replace_all_str("", "", "-"), "-");
}

#[test]
fn replace_absent_pattern_keeps_text() {
    assert_eq!(replace_all_str("#EXTM3U\n", "index9.ts", "X"), "#EXTM3U\n");
    assert_eq!(replace_all_str("", "a", "b"), "");
}

#[test]
fn replace_matches_std() {
    let cases = [("a.ts.ts", ".ts", ""), ("ééé", "é", "e"), ("xyz", "xyzw", "q"), ("aXbXc", "X", "YY")];
    for (s, f, t) in cases {
        assert_eq!(replace_all_str(s, f, t), s.replace(f, t));
    }
}

#[test]
fn decimal_spelling() {
    assert_eq!(decimal_string(0), "0");
    assert_eq!(decimal_string(67), "67");
    assert_eq!(decimal_string(1000), "1000");
    assert_eq!(decimal_string(u64::MAX), u64::MAX.to_string());
}

#[test]
fn parse_unsigned_like_std() {
    assert_eq!(parse_unsigned_str("42", 100), Some(42));
    assert_eq!(parse_unsigned_str("+42", 100), Some(42));
    assert_eq!(parse_unsigned_str("0000255", 255), Some(255));
    assert_eq!(parse_unsigned_str("256", 255), None);
    assert_eq!(parse_unsigned_str("", 255), None);
    assert_eq!(parse_unsigned_str("+", 255), None);
    assert_eq!(parse_unsigned_str("-1", 255), None);
    assert_eq!(parse_unsigned_str("4a", 255), None);
    assert_eq!(parse_unsigned_str(" 5", 255), None);
    assert_eq!(parse_unsigned_str("18446744073709551615", u64::MAX), Some(u64::MAX));
    assert_eq!(parse_unsigned_str("18446744073709551616", u64::MAX), None);
    for s in ["65535", "65536", "+0", "1x", "", "99999999999999999999"] {
        assert_eq!(parse_unsigned_str(s, u16::MAX as u64).map(|v| v as u16), s.parse::<u16>().ok());
    }
}

#[test]
fn decimal_round_trip_on_values() {
    for n in [0u64, 7, 10, 67, 8080, 65535, u64::MAX] {
        assert_eq!(parse_unsigned_str(&decimal_string(n), u64::MAX), Some(n));
    }
}

#[test]
fn trims() {
    assert_eq!(trim_str("  \t5\n "), "5");
    assert_eq!(trim_str("\u{3000}x y\u{a0}"), "x y");
    assert_eq!(trim_str("   "), "");
    assert_eq!(trim_matches_str("\"'abc'\"", '"'), "'abc'");
    assert_eq!(trim_matches_str("''abc'", '\''), "abc");
    assert_eq!(trim_matches_str("\"\"", '"'), "");
    assert_eq!(trim_matches_str("a\"b", '"'), "a\"b");
}

#[test]
fn joins_paths_like_std() {
    assert_eq!(path_join_str("a", "b"), "a/b");
    assert_eq!(path_join_str("a/", "b"), "a/b");
    assert_eq!(path_join_str("", "b"), "b");
    assert_eq!(path_join_str("a", "/b"), "/b");
    assert_eq!(path_join_str("./playlists", "job.m3u8"), "./playlists/job.m3u8");
}

#[test]
fn splits_file_names_like_std() {
    let cases = ["index0.ts", ".bashrc", "a.b.m3u8", "noext", "x.", "abc.m3u8", "a..b"];
    for name in cases {
        let p = std::path::Path::new(name);
        let (stem, ext) = split_file_name(name);
        assert_eq!(Some(stem.as_str()), p.file_stem().and_then(|s| s.to_str()), "{}", name);
        assert_eq!(ext.as_deref(), p.extension().and_then(|s| s.to_str()), "{}", name);
    }
    assert_eq!(split_file_name("index0.ts"), ("index0".to_string(), Some("ts".to_string())));
    assert_eq!(split_file_name(".."), ("..".to_string(), None));
}

#[test]
fn counts_prefixed_lines() {
    let p = "#EXTM3U\n#EXTINF:5.0,\nindex0.ts\n#EXTINF:4.2,\r\nindex1.ts\n#EXT-X-ENDLIST\n";
    assert_eq!(count_prefixed_lines_str(p, "#EXTINF:"), 2);
    assert_eq!(count_prefixed_lines_str(p, "#EXTINF:"), p.lines().filter(|l| l.starts_with("#EXTINF:")).count());
    assert_eq!(count_prefixed_lines_str("", "#EXTINF:"), 0);
    assert_eq!(count_prefixed_lines_str("x#EXTINF:1", "#EXTINF:"), 0);
}

#[test]
fn small_helpers() {
    assert!(starts_with_str("image/png; q=1", "image/png"));
    assert!(!starts_with_str("image/pn", "image/png"));
    assert_eq!(concat_str("ab", "cd"), "abcd");
    assert_eq!(chars_of("héllo"), vec!['h', 'é', 'l', 'l', 'o']);
    assert_eq!(string_of_range(&vec!['a', 'b', 'c'], 1, 3), "bc");
}
