use selene::client::{
    build_video_list, collect_successes, login_failed, playlist_fetch_decision,
    retrieve_base_url_for_playlist, Key, Primary, RetryAction, Secondary, SchoolismVideoList,
};
use selene::errors::ResolveError;
use selene::mp3url::M3U;

const MASTER: &str = "#EXTM3U\n\
#EXT-X-STREAM-INF:BANDWIDTH=800000\n\
https://host/path/to/manifest.m3u8\n";

const MEDIA: &str = "#EXTM3U\n\
#EXT-X-KEY:METHOD=AES-128,URI=key.php,IV=0xB87F84A4\n\
#EXTINF:10.0,\n\
seg0.ts\n\
#EXTINF:9.5,\n\
seg1.ts\n\
#EXT-X-ENDLIST\n";

#[test]
fn base_url_is_everything_through_the_last_slash() {
    let base = retrieve_base_url_for_playlist("https://host/path/to/manifest.m3u8").unwrap();
    assert_eq!(base, "https://host/path/to/");
}

#[test]
fn url_without_slash_has_no_base() {
    assert_eq!(
        retrieve_base_url_for_playlist("manifest.m3u8"),
        Err(ResolveError::InvalidBaseUrl)
    );
}

#[test]
fn manifests_resolve_into_full_segment_urls() {
    let master = M3U::from_str(MASTER).unwrap();
    let media = M3U::from_str(MEDIA).unwrap();
    let key: Vec<u8> = (0u8..16).collect();
    let list = build_video_list(master, vec![media], false, Key(key.clone())).unwrap();
    assert_eq!(list.key, key);
    assert_eq!(list.iv, vec![0xB8u8, 0x7F, 0x84, 0xA4]);
    assert_eq!(
        list.files,
        vec![
            "https://host/path/to/seg0.ts".to_string(),
            "https://host/path/to/seg1.ts".to_string(),
        ]
    );
}

#[test]
fn high_quality_selects_the_second_variant() {
    let master = M3U::from_str(MASTER).unwrap();
    let media = M3U::from_str(MEDIA).unwrap();
    // only one variant document: asking for high quality runs off the list
    assert_eq!(
        build_video_list(master, vec![media], true, Key(vec![])),
        Err(ResolveError::VariantIndexOutOfRange)
    );
}

#[test]
fn media_document_without_key_info_is_rejected() {
    let master = M3U::from_str(MASTER).unwrap();
    let text = "#EXTM3U\n#EXTINF:10.0,\nseg0.ts\n";
    let media = M3U::from_str(text).unwrap();
    assert_eq!(
        build_video_list(master, vec![media], false, Key(vec![])),
        Err(ResolveError::MissingKeyInfo)
    );
}

#[test]
fn media_document_with_bad_iv_is_rejected() {
    let master = M3U::from_str(MASTER).unwrap();
    let text = "#EXTM3U\n#EXT-X-KEY:METHOD=AES-128,IV=0xABC\n#EXTINF:10.0,\nseg0.ts\n";
    let media = M3U::from_str(text).unwrap();
    assert_eq!(
        build_video_list(master, vec![media], false, Key(vec![])),
        Err(ResolveError::InvalidHexEncoding)
    );
}

#[test]
fn from_manifests_joins_base_and_names() {
    let primary = Primary { streams: vec!["https://h/a/b.m3u8".to_string()] };
    let secondary = Secondary {
        iv: vec![1, 2],
        files: vec!["x.ts".to_string(), "y.ts".to_string()],
    };
    let list = SchoolismVideoList::from_manifests(primary, secondary, vec![7]).unwrap();
    assert_eq!(list.key, vec![7]);
    assert_eq!(list.iv, vec![1, 2]);
    assert_eq!(
        list.files,
        vec!["https://h/a/x.ts".to_string(), "https://h/a/y.ts".to_string()]
    );
}

#[test]
fn retry_decision_follows_the_budget() {
    assert_eq!(playlist_fetch_decision("all good", 0), RetryAction::Accept);
    assert_eq!(
        playlist_fetch_decision("<Error>AccessDenied</Error>", 0),
        RetryAction::Retry
    );
    assert_eq!(
        playlist_fetch_decision("<Error>AccessDenied</Error>", 1),
        RetryAction::Retry
    );
    assert_eq!(
        playlist_fetch_decision("<Error>AccessDenied</Error>", 2),
        RetryAction::GiveUp
    );
}

#[test]
fn login_failure_marker_is_recognized() {
    assert!(login_failed(
        "<script>parent.location = 'login.colorBox.php?loginError=true';</script>"
    ));
    assert!(!login_failed("<html>welcome to your dashboard</html>"));
}

#[test]
fn failed_variant_fetches_are_dropped_not_fatal() {
    let a = M3U::from_str(MEDIA).unwrap();
    let b = M3U::from_str(MASTER).unwrap();
    let kept = collect_successes(vec![Some(a.clone()), None, Some(b.clone())]);
    assert_eq!(kept, vec![a, b]);
}
