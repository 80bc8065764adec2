use bms_resource_toolbox::encoding::{get_bms_file_str, get_boftt_encoding, PriorityDecoder};
use bms_resource_toolbox::info::{clean_work_title, dir_boftt_encoding};

#[test]
fn test_priority_decoder() {
    let test_bytes: &[u8] = &[0x82, 0xb1, 0x82, 0xf1, 0x82, 0xc9, 0x82, 0xbf, 0x82, 0xcd];
    let decoder = PriorityDecoder::new(&["shift-jis", "utf-8"]);
    let result = decoder.decode(test_bytes, "replace").unwrap();
    assert_eq!(result, "こんにちは");
}

#[test]
fn test_shift_jis_decode() {
    let bytes = b"\x82\xb1\x82\xf1\x82\xc9\x82\xbf\x82\xcd";
    let decoder = PriorityDecoder::new(&["shift-jis"]);
    let result = decoder.decode(bytes, "replace").unwrap();
    assert_eq!(result, "こんにちは");
}

#[test]
fn test_utf8_decode() {
    let bytes = "こんにちは".as_bytes();
    let decoder = PriorityDecoder::new(&["utf-8"]);
    let result = decoder.decode(bytes, "replace").unwrap();
    assert_eq!(result, "こんにちは");
}

#[test]
fn test_encoding_priority() {
    let sjis_bytes = b"\x82\xb1";
    let decoder = PriorityDecoder::new(&["shift-jis", "utf-8"]);
    let result = decoder.decode(sjis_bytes, "replace").unwrap();
    assert_eq!(result, "こ");
}

#[test]
fn test_replace_mode() {
    let decoder = PriorityDecoder::new(&["utf-8"]);
    let result = decoder.decode(b"\xFF\xFE\xFF", "replace").unwrap();
    assert!(result.contains('\u{FFFD}'));
}

#[test]
fn test_ignore_mode() {
    let decoder = PriorityDecoder::new(&["utf-8"]);
    let result = decoder.decode(b"\xFF", "ignore").unwrap();
    assert_eq!(result, "");
}

#[test]
fn test_strict_mode_errors() {
    let decoder = PriorityDecoder::new(&["utf-8"]);
    let result = decoder.decode(b"\xFF", "strict");
    assert!(result.is_err());
}

#[test]
fn test_get_bms_file_str_utf8() {
    let result = get_bms_file_str(b"Hello #TITLE Test", None);
    assert!(result.contains("Hello"));
}

#[test]
fn test_get_bms_file_str_fallback() {
    let mut bytes = Vec::new();
    bytes.extend_from_slice(b"#TITLE ");
    bytes.extend_from_slice(&[0x82, 0xb1]);
    bytes.extend_from_slice(b"\xFF");
    let result = get_bms_file_str(&bytes, None);
    assert!(result.contains("#TITLE"));
}

#[test]
fn test_get_bms_file_str_empty() {
    assert_eq!(get_bms_file_str(b"", None), "");
}

#[test]
fn test_get_bms_file_str_ascii() {
    let result = get_bms_file_str(b"#TITLE Test", None);
    assert_eq!(result, "#TITLE Test");
}

#[test]
fn test_get_bms_file_str_sjis_mixed() {
    let bytes = b"#TITLE \x83\x65\x83\x58\x83\x67";
    let result = get_bms_file_str(bytes, None);
    assert!(
        result.contains("テスト") || result.contains("#TITLE"),
        "SJIS or fallback: {result}"
    );
}

#[test]
fn test_get_bms_file_str_corrupted_sjis_fallback() {
    let bytes = b"#TITLE \x82\xFF Test";
    let result = get_bms_file_str(bytes, None);
    assert!(!result.is_empty(), "should not be empty");
    assert!(result.contains("#TITLE"), "ASCII should survive");
}

#[test]
fn test_boftt_encoding_table() {
    assert_eq!(get_boftt_encoding("134"), Some("utf-8"));
    assert_eq!(get_boftt_encoding("191"), Some("gbk"));
    assert_eq!(get_boftt_encoding("435"), Some("gbk"));
    assert_eq!(get_boftt_encoding("439"), Some("gbk"));
    assert_eq!(get_boftt_encoding("999"), None);
}

#[test]
fn encoding_decode_strict_ok_when_decodable() {
    let decoder = PriorityDecoder::new(&["utf-8"]);
    assert_eq!(decoder.decode(b"abc", "strict").unwrap(), "abc");
}

#[test]
fn encoding_replace_mode_exact() {
    let decoder = PriorityDecoder::new(&["utf-8"]);
    assert_eq!(decoder.decode(b"a\xFFb", "replace").unwrap(), "a\u{FFFD}b");
    assert_eq!(decoder.decode(b"a\xFFb", "ignore").unwrap(), "ab");
}

#[test]
fn encoding_unknown_labels_are_dropped() {
    let decoder = PriorityDecoder::new(&["no-such-encoding", "utf-8"]);
    assert_eq!(decoder.decode("é".as_bytes(), "strict").unwrap(), "é");
}

#[test]
fn encoding_forced_gbk() {
    // "中文" in GBK
    let bytes = b"\xd6\xd0\xce\xc4";
    assert_eq!(get_bms_file_str(bytes, Some("gbk")), "中文");
}

#[test]
fn encoding_dir_encoding_by_work_number() {
    assert_eq!(dir_boftt_encoding("134. Song [Artist]"), Some("utf-8"));
    assert_eq!(dir_boftt_encoding("191"), Some("gbk"));
    assert_eq!(dir_boftt_encoding("7. Song"), None);
}

#[test]
fn info_clean_work_title_drops_dangling_dash() {
    assert_eq!(clean_work_title("Song -"), "Song");
    assert_eq!(clean_work_title("Song -A- -"), "Song -A-");
    assert_eq!(clean_work_title("Song - Sub -"), "Song - Sub -");
    assert_eq!(clean_work_title("Song-"), "Song-");
    assert_eq!(clean_work_title("-"), "-");
    assert_eq!(clean_work_title("Plain"), "Plain");
    assert_eq!(clean_work_title("  Song \t-"), "Song");
}

#[test]
fn encoding_modes_agree_when_strict_succeeds() {
    let decoder = PriorityDecoder::new(&["shift-jis", "utf-8"]);
    let bytes = b"\x82\xb1abc";
    let strict = decoder.decode(bytes, "strict").unwrap();
    assert_eq!(decoder.decode(bytes, "replace").unwrap(), strict);
    assert_eq!(decoder.decode(bytes, "ignore").unwrap(), strict);
    assert!(decoder.decode(b"\xFF\xFF", "replace").is_ok());
    assert!(decoder.decode(b"\xFF\xFF", "ignore").is_ok());
}
