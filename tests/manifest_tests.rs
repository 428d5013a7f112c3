use m3u8_dl::error::HlsError;
use m3u8_dl::manifest::{acquire_string, acquire_u32, analyze, Ext, KeyDescriptor, EXT_X_VERSION};

fn parse(text: &str, suffix: &str) -> (Ext, Result<(), HlsError>) {
    let mut ext = Ext::new();
    let r = analyze(&mut ext, text.to_string(), suffix);
    (ext, r)
}

#[test]
fn version_directive_is_read() {
    let (ext, r) = parse("#EXTM3U\n#EXT-X-VERSION:7", ".ts");
    assert_eq!(r, Ok(()));
    assert_eq!(ext.version, Some(7));
}

#[test]
fn target_duration_directive_is_read() {
    let (ext, r) = parse("#EXT-X-TARGETDURATION:10\n", ".ts");
    assert_eq!(r, Ok(()));
    assert_eq!(ext.target_duration, Some(10));
    assert_eq!(ext.version, None);
}

#[test]
fn playlist_type_and_media_sequence_are_read() {
    let (ext, r) = parse("#EXT-X-PLAYLIST-TYPE:VOD\n#EXT-X-MEDIA-SEQUENCE:3", ".ts");
    assert_eq!(r, Ok(()));
    assert_eq!(ext.play_list_type, Some("VOD".to_string()));
    assert_eq!(ext.media_sequence, Some(3));
}

#[test]
fn key_line_is_read_with_quotes_stripped() {
    let (ext, r) = parse("#EXT-X-KEY:METHOD=AES-128,URI=\"key.bin\"", ".ts");
    assert_eq!(r, Ok(()));
    let key = ext.key.expect("key");
    assert_eq!(key.method, Some("AES-128".to_string()));
    assert_eq!(key.uri, Some("key.bin".to_string()));
}

#[test]
fn key_line_ignores_other_fields() {
    let (ext, _) = parse("#EXT-X-KEY:METHOD=AES-128,IV=0x01,URI=\"k\"", ".ts");
    let key = ext.key.expect("key");
    assert_eq!(key.method, Some("AES-128".to_string()));
    assert_eq!(key.uri, Some("k".to_string()));
}

#[test]
fn last_key_line_wins() {
    let (ext, _) = parse("#EXT-X-KEY:METHOD=AES-128,URI=\"a\"\n#EXT-X-KEY:METHOD=NONE", ".ts");
    let key = ext.key.expect("key");
    assert_eq!(key.method, Some("NONE".to_string()));
    assert_eq!(key.uri, None);
}

#[test]
fn segments_keep_manifest_order() {
    let text = "#EXTM3U\n#EXTINF:10,\nb.ts\n#EXTINF:10,\na.ts\nc.ts\n#EXT-X-ENDLIST";
    let (ext, r) = parse(text, ".ts");
    assert_eq!(r, Ok(()));
    assert_eq!(ext.uri_list, vec!["b.ts".to_string(), "a.ts".to_string(), "c.ts".to_string()]);
}

#[test]
fn suffix_is_matched_as_substring() {
    let (ext, _) = parse("segment_0001.ts\n#EXT-X-PLAYLIST-TYPE:x.ts", ".ts");
    assert_eq!(ext.uri_list, vec!["segment_0001.ts".to_string(), "#EXT-X-PLAYLIST-TYPE:x.ts".to_string()]);
    assert_eq!(ext.play_list_type, Some("x.ts".to_string()));
}

#[test]
fn malformed_number_fails_and_stops() {
    let (ext, r) = parse("a.ts\n#EXT-X-VERSION:seven\nb.ts", ".ts");
    assert_eq!(r, Err(HlsError::Parse));
    assert_eq!(ext.uri_list, vec!["a.ts".to_string()]);
    assert_eq!(ext.version, None);
}

#[test]
fn number_out_of_range_fails() {
    let (_, r) = parse("#EXT-X-MEDIA-SEQUENCE:4294967296", ".ts");
    assert_eq!(r, Err(HlsError::Parse));
    let (ext, r) = parse("#EXT-X-MEDIA-SEQUENCE:4294967295", ".ts");
    assert_eq!(r, Ok(()));
    assert_eq!(ext.media_sequence, Some(u32::MAX));
}

#[test]
fn empty_manifest_gives_empty_set() {
    let (ext, r) = parse("", ".ts");
    assert_eq!(r, Ok(()));
    assert!(ext.uri_list.is_empty());
    assert!(ext.key.is_none());
}

#[test]
fn acquire_u32_reads_after_keyword() {
    assert_eq!(acquire_u32("#EXT-X-VERSION:7", EXT_X_VERSION), Ok(7));
    assert_eq!(acquire_u32("#EXT-X-VERSION:+12", EXT_X_VERSION), Ok(12));
    assert_eq!(acquire_u32("#EXT-X-VERSION:", EXT_X_VERSION), Err(HlsError::Parse));
    assert_eq!(acquire_u32("#EXT-X-VERSION:-1", EXT_X_VERSION), Err(HlsError::Parse));
}

#[test]
fn acquire_string_reads_after_keyword() {
    assert_eq!(acquire_string("#EXT-X-PLAYLIST-TYPE:EVENT", "#EXT-X-PLAYLIST-TYPE:"), "EVENT");
    assert_eq!(acquire_string("other", "#EXT-X-PLAYLIST-TYPE:"), "other");
}

#[test]
fn setters_fill_fields() {
    let mut ext = Ext::new();
    ext.set_version(3);
    ext.set_target_duration(6);
    ext.set_play_list_type("VOD".to_string());
    ext.set_media_sequence(0);
    ext.set_key(KeyDescriptor { method: Some("AES-128".to_string()), uri: None });
    ext.set_uri_list("a.ts".to_string());
    ext.set_uri_list("b.ts".to_string());
    assert_eq!(ext.version, Some(3));
    assert_eq!(ext.target_duration, Some(6));
    assert_eq!(ext.play_list_type, Some("VOD".to_string()));
    assert_eq!(ext.media_sequence, Some(0));
    assert_eq!(ext.key.unwrap().method, Some("AES-128".to_string()));
    assert_eq!(ext.uri_list, vec!["a.ts".to_string(), "b.ts".to_string()]);
}
