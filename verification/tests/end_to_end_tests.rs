use selene::client::{build_video_list, Key};
use selene::decryption::Cipher;
use selene::mp3url::M3U;
use selene::pipeline::SegmentPipeline;
use selene::util::decode_hex;

const MASTER: &str = "#EXTM3U\n\
#EXT-X-STREAM-INF:BANDWIDTH=800000\n\
https://host/lessons/video/playlist.m3u8\n";

const MEDIA: &str = "#EXTM3U\n\
#EXT-X-KEY:METHOD=AES-128,URI=key.php,IV=0x00000000000000000000000000000000\n\
#EXTINF:10.0,\n\
seg0.ts\n\
#EXTINF:9.5,\n\
seg1.ts\n\
#EXT-X-ENDLIST\n";

#[test]
fn one_variant_two_segments_merge_into_the_decrypted_stream() {
    // resolve the manifests into a download job
    let master = M3U::from_str(MASTER).unwrap();
    let media = M3U::from_str(MEDIA).unwrap();
    let key: Vec<u8> = (0u8..16).map(|b| b.wrapping_mul(3)).collect();
    let list = build_video_list(master, vec![media], false, Key(key.clone())).unwrap();
    assert_eq!(list.key, key);
    assert_eq!(list.iv, decode_hex("0x00000000000000000000000000000000").unwrap());
    assert_eq!(
        list.files,
        vec![
            "https://host/lessons/video/seg0.ts".to_string(),
            "https://host/lessons/video/seg1.ts".to_string(),
        ]
    );

    // the encrypted bytes that the two segment URLs would serve
    let cipher = Cipher::from_list(&list);
    let plain0: Vec<u8> = b"first segment contents".to_vec();
    let plain1: Vec<u8> = b"second segment contents".to_vec();
    let body0 = cipher.encrypt(&plain0).unwrap();
    let body1 = cipher.encrypt(&plain1).unwrap();
    let expected = [cipher.decrypt(&body0).unwrap(), cipher.decrypt(&body1).unwrap()].concat();

    // run the merge with a worker pool of two; the later segment lands first
    let mut pipeline = SegmentPipeline::new(Cipher::from_list(&list), list.files.len());
    let concurrency = 2;
    assert!(pipeline.admit_more(0, concurrency, 0));
    assert!(pipeline.admit_more(1, concurrency, 1));
    assert!(!pipeline.admit_more(2, concurrency, 1));
    pipeline.deliver(1, body1).unwrap();
    pipeline.deliver(0, body0).unwrap();
    let merged = pipeline.drain_all().unwrap();

    assert_eq!(merged, expected);
    assert_eq!(merged, [plain0, plain1].concat());
}
