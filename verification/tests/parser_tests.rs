use selene::errors::ParseError;
use selene::mp3url::M3U;

const MASTER: &str = "#EXTM3U\n\
#EXT-X-STREAM-INF:BANDWIDTH=800000,RESOLUTION=1280x720\n\
https://host/path/nq/playlist.m3u8\n\
#EXT-X-STREAM-INF:BANDWIDTH=2000000,RESOLUTION=1920x1080\n\
https://host/path/hq/playlist.m3u8\n";

const MEDIA: &str = "#EXTM3U\n\
#EXT-X-VERSION:3\n\
#EXT-X-KEY:METHOD=AES-128,URI=key.php,IV=0x00000000000000000000000000000000\n\
#EXTINF:10.0,\n\
seg0.ts\n\
#EXTINF:9.5,\n\
seg1.ts\n\
#EXT-X-ENDLIST\n";

#[test]
fn master_playlist_parses_into_variants() {
    let doc = M3U::from_str(MASTER).unwrap();
    assert_eq!(doc.subplaylists.len(), 2);
    assert_eq!(doc.subplaylists[0].url, "https://host/path/nq/playlist.m3u8");
    assert_eq!(doc.subplaylists[1].url, "https://host/path/hq/playlist.m3u8");
    assert!(doc.tracklist.is_empty());
    assert!(doc.key_info.is_none());
    let attribs = &doc.subplaylists[0].attribs;
    assert!(attribs.contains(&("BANDWIDTH".to_string(), "800000".to_string())));
    assert!(attribs.contains(&("RESOLUTION".to_string(), "1280x720".to_string())));
}

#[test]
fn media_playlist_parses_tracks_and_key() {
    let doc = M3U::from_str(MEDIA).unwrap();
    assert!(doc.subplaylists.is_empty());
    assert_eq!(doc.tracklist.len(), 2);
    assert_eq!(doc.tracklist[0].name, "seg0.ts");
    assert_eq!(doc.tracklist[1].name, "seg1.ts");
    let ki = doc.key_info.unwrap();
    assert_eq!(ki.method, "AES-128");
    assert_eq!(ki.uri, "key.php");
    assert_eq!(ki.iv, "0x00000000000000000000000000000000");
    assert_eq!(
        doc.directives,
        vec![("#EXT-X-VERSION".to_string(), "3".to_string())]
    );
}

#[test]
fn missing_header_is_rejected() {
    assert_eq!(M3U::from_str(""), Err(ParseError::MissingHeader));
    assert_eq!(M3U::from_str("#EXTM3U-ish\n"), Err(ParseError::MissingHeader));
}

#[test]
fn directive_without_separator_is_rejected() {
    let text = "#EXTM3U\n#NOSEPARATOR\n";
    assert_eq!(M3U::from_str(text), Err(ParseError::MalformedDirective));
}

#[test]
fn empty_attribute_list_is_rejected() {
    let text = "#EXTM3U\n#EXT-X-STREAM-INF:\nhttps://host/x.m3u8\n";
    assert_eq!(M3U::from_str(text), Err(ParseError::MalformedAttributeList));
}

#[test]
fn track_info_without_name_line_is_eof() {
    let text = "#EXTM3U\n#EXTINF:10.0,";
    assert_eq!(M3U::from_str(text), Err(ParseError::UnexpectedEof));
}

#[test]
fn variant_without_url_line_is_eof() {
    let text = "#EXTM3U\n#EXT-X-STREAM-INF:BANDWIDTH=1";
    assert_eq!(M3U::from_str(text), Err(ParseError::UnexpectedEof));
}

#[test]
fn missing_end_marker_still_parses() {
    let text = "#EXTM3U\n#EXTINF:10.0,\nseg0.ts\n";
    let doc = M3U::from_str(text).unwrap();
    assert_eq!(doc.tracklist.len(), 1);
    assert_eq!(doc.tracklist[0].name, "seg0.ts");
}

#[test]
fn lines_after_end_marker_are_ignored() {
    let text = "#EXTM3U\n#EXTINF:10.0,\nseg0.ts\n#EXT-X-ENDLIST\n#EXTINF:9.0,\nseg1.ts\n";
    let doc = M3U::from_str(text).unwrap();
    assert_eq!(doc.tracklist.len(), 1);
}

#[test]
fn unknown_plain_lines_are_skipped() {
    let text = "#EXTM3U\nsome stray line\n#EXTINF:1.0,\nseg0.ts\n";
    let doc = M3U::from_str(text).unwrap();
    assert_eq!(doc.tracklist.len(), 1);
}

#[test]
fn parsing_twice_yields_equal_documents() {
    let first = M3U::from_str(MEDIA).unwrap();
    let second = M3U::from_str(MEDIA).unwrap();
    assert_eq!(first, second);
    let first_master = M3U::from_str(MASTER).unwrap();
    let second_master = M3U::from_str(MASTER).unwrap();
    assert_eq!(first_master, second_master);
}

#[test]
fn classification_of_well_formed_documents() {
    let master = M3U::from_str(MASTER).unwrap();
    assert_eq!(master.classify(), Ok(true));
    assert!(master.is_primary());
    let media = M3U::from_str(MEDIA).unwrap();
    assert_eq!(media.classify(), Ok(false));
    assert!(!media.is_primary());
}

#[test]
fn classification_fails_on_empty_document() {
    let doc = M3U {
        directives: vec![],
        tracklist: vec![],
        subplaylists: vec![],
        key_info: None,
    };
    assert_eq!(doc.classify(), Err(ParseError::InvalidClassification));
}

#[test]
fn classification_fails_when_both_lists_are_filled() {
    let master = M3U::from_str(MASTER).unwrap();
    let media = M3U::from_str(MEDIA).unwrap();
    let doc = M3U {
        directives: vec![],
        tracklist: media.tracklist.clone(),
        subplaylists: master.subplaylists.clone(),
        key_info: None,
    };
    assert_eq!(doc.classify(), Err(ParseError::InvalidClassification));
}

#[test]
fn key_attribute_names_are_case_insensitive() {
    let text = "#EXTM3U\n\
#EXT-X-KEY:method=AES-128,Uri=key.php,iv=0xAB\n\
#EXTINF:1.0,\n\
seg0.ts\n";
    let doc = M3U::from_str(text).unwrap();
    let ki = doc.key_info.unwrap();
    assert_eq!(ki.method, "AES-128");
    assert_eq!(ki.uri, "key.php");
    assert_eq!(ki.iv, "0xAB");
}

#[test]
fn later_key_directive_wins() {
    let text = "#EXTM3U\n\
#EXT-X-KEY:METHOD=AES-128,IV=0xAA\n\
#EXT-X-KEY:METHOD=AES-128,IV=0xBB\n\
#EXTINF:1.0,\n\
seg0.ts\n";
    let doc = M3U::from_str(text).unwrap();
    assert_eq!(doc.key_info.unwrap().iv, "0xBB");
}

#[test]
fn repeated_directive_keeps_one_entry() {
    let text = "#EXTM3U\n#EXT-X-VERSION:3\n#EXT-X-VERSION:4\n#EXTINF:1.0,\nseg0.ts\n";
    let doc = M3U::from_str(text).unwrap();
    assert_eq!(
        doc.directives,
        vec![("#EXT-X-VERSION".to_string(), "4".to_string())]
    );
}

#[test]
fn read_directive_splits_at_first_colon() {
    let (k, v) = selene::mp3url::read_directive("#EXT-X-KEY:METHOD=AES-128,URI=a:b").unwrap();
    assert_eq!(k, "#EXT-X-KEY");
    assert_eq!(v, "METHOD=AES-128,URI=a:b");
    assert_eq!(
        selene::mp3url::read_directive("no separator here"),
        Err(ParseError::MalformedDirective)
    );
}
