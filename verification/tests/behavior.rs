use json_strip_comments::CommentSettings;
use json_strip_comments::Error;
use json_strip_comments::ScanState;
use json_strip_comments::StripComments;
use json_strip_comments::scan;
use json_strip_comments::strip_buf;
use json_strip_comments::strip_slice;

/// One whole-buffer transform with every category enabled.
fn strip_all(input: &str) -> Result<String, Error> {
    let mut bytes = input.as_bytes().to_vec();
    strip_slice(&mut bytes)?;
    Ok(String::from_utf8(bytes).unwrap())
}

/// One whole-buffer transform under the given settings.
fn strip_with(input: &str, settings: CommentSettings) -> Result<String, Error> {
    let mut bytes = input.as_bytes().to_vec();
    let mut state = ScanState::Top;
    scan(&mut state, &mut bytes, settings)?;
    Ok(String::from_utf8(bytes).unwrap())
}

#[test]
fn block_comment_region_becomes_spaces() {
    assert_eq!(strip_all(r#"{/* Comment */"hi": "bye"}"#).unwrap(), r#"{             "hi": "bye"}"#);
}

#[test]
fn trailing_comma_before_brace_is_blanked() {
    assert_eq!(strip_all(r#"{"x":true,}"#).unwrap(), r#"{"x":true }"#);
}

#[test]
fn comment_like_text_inside_string_is_kept() {
    assert_eq!(strip_all(r#"{"a":"b//c"}"#).unwrap(), r#"{"a":"b//c"}"#);
}

#[test]
fn unterminated_string_is_invalid_at_end_of_input() {
    let mut reader = StripComments::new(());
    let mut chunk = b"\"foo".to_vec();
    reader.process_chunk(&mut chunk).unwrap();
    let mut end: [u8; 0] = [];
    assert_eq!(reader.process_chunk(&mut end).unwrap_err(), Error::InvalidData);
}

#[test]
fn unterminated_block_comment_is_invalid_at_end_of_input() {
    let mut reader = StripComments::new(());
    let mut chunk = b"[] /*".to_vec();
    reader.process_chunk(&mut chunk).unwrap();
    let mut end: [u8; 0] = [];
    assert_eq!(reader.process_chunk(&mut end).unwrap_err(), Error::InvalidData);
}

#[test]
fn line_comment_may_end_at_end_of_input() {
    let mut reader = StripComments::new(());
    let mut chunk = b"// only line comment".to_vec();
    reader.process_chunk(&mut chunk).unwrap();
    let mut end: [u8; 0] = [];
    reader.process_chunk(&mut end).unwrap();
    assert_eq!(chunk, vec![b' '; 20]);
}

#[test]
fn lone_slash_is_invalid_data() {
    let mut bytes = b"/x".to_vec();
    assert_eq!(strip_slice(&mut bytes).unwrap_err(), Error::InvalidData);
    // the slash and the offending byte are blanked before the error
    assert_eq!(bytes, b"  ".to_vec());
}

#[test]
fn error_is_not_transactional() {
    // everything before the failure point is already rewritten
    let mut bytes = b"/* a */ /x tail".to_vec();
    assert_eq!(strip_slice(&mut bytes).unwrap_err(), Error::InvalidData);
    assert_eq!(&bytes, b"           tail");
}

#[test]
fn string_interrupts_trailing_comma() {
    // a string literal between the comma and the bracket is ordinary
    // content, so the comma is not trailing
    assert_eq!(strip_all(r#"[1,"a"]"#).unwrap(), r#"[1,"a"]"#);
}

#[test]
fn consecutive_commas_blank_only_the_last() {
    // each comma is judged by the rule on its own; the comma directly
    // superseded survives, so one more run can strip one more comma
    assert_eq!(strip_all("[1,,]").unwrap(), "[1, ]");
    assert_eq!(strip_all("[1, ]").unwrap(), "[1  ]");
}

#[test]
fn newlines_kept_inside_block_comments() {
    assert_eq!(strip_all("/*a\nb\r\nc*/1").unwrap(), "   \n \r\n   1");
}

#[test]
fn carriage_return_kept_inside_line_comments() {
    assert_eq!(strip_all("//a\rb\n1").unwrap(), "   \r \n1");
}

#[test]
fn output_length_always_matches_input_length() {
    let inputs = ["", "{}", "{/* c */}", "// x", "# y\n[1,]", "\"s\""];
    for input in inputs {
        let out = strip_all(input).unwrap();
        assert_eq!(out.len(), input.len());
    }
}

#[test]
fn second_run_changes_nothing_on_typical_output() {
    let once = strip_all(r#"{/* c */ "a": [1, 2,], // t
        "b": "x,/*y*/"}"#).unwrap();
    let twice = strip_all(&once).unwrap();
    assert_eq!(once, twice);
}

#[test]
fn chunked_scan_matches_whole_scan() {
    let input = r#"{/* a comment that spans chunks */ "k": "v//w", # t
        "n": [1, 2]}"#;
    let mut whole = input.as_bytes().to_vec();
    strip_slice(&mut whole).unwrap();
    for cut in 0..=input.len() {
        let mut state = ScanState::Top;
        let mut a = input.as_bytes()[..cut].to_vec();
        let mut b = input.as_bytes()[cut..].to_vec();
        strip_buf(&mut state, &mut a).unwrap();
        strip_buf(&mut state, &mut b).unwrap();
        a.extend_from_slice(&b);
        assert_eq!(a, whole);
    }
}

#[test]
fn trailing_comma_is_not_tracked_across_chunks() {
    // the comma's byte has left with the first chunk, so it cannot be
    // blanked when the bracket arrives in the second
    let mut state = ScanState::Top;
    let mut a = b"[1,".to_vec();
    let mut b = b"]".to_vec();
    strip_buf(&mut state, &mut a).unwrap();
    strip_buf(&mut state, &mut b).unwrap();
    a.extend_from_slice(&b);
    assert_eq!(&a, b"[1,]");
}

#[test]
fn state_carries_across_chunks() {
    let mut state = ScanState::Top;
    let mut a = b"{\"k\": \"v\" /* open".to_vec();
    strip_buf(&mut state, &mut a).unwrap();
    let mut b = b" still closed */ 1}".to_vec();
    strip_buf(&mut state, &mut b).unwrap();
    assert_eq!(&a, b"{\"k\": \"v\"        ");
    assert_eq!(&b, b"                 1}");
}

#[test]
fn default_settings_enable_everything() {
    let cfg = CommentSettings::default();
    assert!(cfg.block_comments);
    assert!(cfg.slash_line_comments);
    assert!(cfg.hash_line_comments);
    assert!(cfg.trailing_commas);
    assert_eq!(cfg, CommentSettings::all());
}

#[test]
fn hash_only_strips_hash_comments_alone() {
    let cfg = CommentSettings::hash_only();
    assert_eq!(strip_with("# note\n{\"a\": 1}", cfg).unwrap(), "      \n{\"a\": 1}");
    // a trailing comma is kept
    assert_eq!(strip_with("[1,]", cfg).unwrap(), "[1,]");
    // a slash is ordinary content when both slash styles are off
    assert_eq!(strip_with("\"a/b\" /", cfg).unwrap(), "\"a/b\" /");
}

#[test]
fn c_style_leaves_hash_as_content() {
    let cfg = CommentSettings::c_style();
    assert_eq!(strip_with("{/* c */ \"a\": 1,}", cfg).unwrap(), "{        \"a\": 1 }");
    assert_eq!(strip_with("# not a comment", cfg).unwrap(), "# not a comment");
}

#[test]
fn disabled_marker_interrupts_trailing_comma() {
    // with `#` comments off, a `#` after the comma is ordinary content,
    // so the comma is no longer trailing
    let cfg = CommentSettings::c_style();
    assert_eq!(strip_with("[1, # ]", cfg).unwrap(), "[1, # ]");
    // with `#` comments on, the same text is a comment and the comma
    // would only be trailing if a bracket followed on a later line
    let all = CommentSettings::all();
    assert_eq!(strip_with("[1, # x\n]", all).unwrap(), "[1     \n]");
}

#[test]
fn disabled_second_opener_byte_is_invalid() {
    // `/` opens a comment because block comments are on, but `//` is off
    let cfg = CommentSettings {
        block_comments: true,
        slash_line_comments: false,
        hash_line_comments: false,
        trailing_commas: true,
    };
    assert_eq!(strip_with("// x", cfg).unwrap_err(), Error::InvalidData);
    assert_eq!(strip_with("/* x */ 1", cfg).unwrap(), "        1");

    // and the other way around
    let cfg2 = CommentSettings {
        block_comments: false,
        slash_line_comments: true,
        hash_line_comments: false,
        trailing_commas: true,
    };
    assert_eq!(strip_with("/* x */", cfg2).unwrap_err(), Error::InvalidData);
    assert_eq!(strip_with("// x", cfg2).unwrap(), "    ");
}

#[test]
fn with_settings_streams_under_those_settings() {
    let mut reader = StripComments::with_settings((), CommentSettings::hash_only());
    let mut chunk = b"# c\n{\"a/b\": 1}".to_vec();
    reader.process_chunk(&mut chunk).unwrap();
    let mut end: [u8; 0] = [];
    reader.process_chunk(&mut end).unwrap();
    assert_eq!(&chunk, b"   \n{\"a/b\": 1}");
}

#[test]
fn escape_keeps_following_quote_in_string() {
    assert_eq!(strip_all(r#""a\"b" //c"#).unwrap(), "\"a\\\"b\"    ");
}

#[test]
fn pending_comma_survives_comments_and_whitespace() {
    assert_eq!(strip_all("[1, /* c */ // d\n ]").unwrap(), "[1              \n ]");
    assert_eq!(strip_all("{\"a\": 1, # done\n}").unwrap(), "{\"a\": 1        \n}");
}
