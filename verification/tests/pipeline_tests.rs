use selene::client::SchoolismVideoList;
use selene::decryption::Cipher;
use selene::errors::{DecryptError, PipelineError};
use selene::pipeline::SegmentPipeline;

fn test_cipher() -> Cipher {
    let list = SchoolismVideoList {
        key: (0u8..16).collect(),
        iv: vec![0u8; 16],
        files: vec![],
    };
    Cipher::from_list(&list)
}

fn encrypted_segments(count: usize) -> (Vec<Vec<u8>>, Vec<Vec<u8>>) {
    let cipher = test_cipher();
    let mut plains = Vec::new();
    let mut bodies = Vec::new();
    for i in 0..count {
        let plain: Vec<u8> = (0..24).map(|b| (b + i * 31) as u8).collect();
        bodies.push(cipher.encrypt(&plain).unwrap());
        plains.push(plain);
    }
    (plains, bodies)
}

#[test]
fn segments_merge_in_order_when_delivered_in_order() {
    let (plains, bodies) = encrypted_segments(3);
    let mut pipeline = SegmentPipeline::new(test_cipher(), 3);
    for (i, body) in bodies.into_iter().enumerate() {
        pipeline.deliver(i, body).unwrap();
    }
    let merged = pipeline.drain_all().unwrap();
    let expected: Vec<u8> = plains.concat();
    assert_eq!(merged, expected);
}

#[test]
fn segments_merge_in_order_when_completion_order_is_inverted() {
    let (plains, bodies) = encrypted_segments(4);
    let mut pipeline = SegmentPipeline::new(test_cipher(), 4);
    // completion order inverted relative to the manifest order
    for (i, body) in bodies.into_iter().enumerate().rev() {
        pipeline.deliver(i, body).unwrap();
    }
    let merged = pipeline.drain_all().unwrap();
    let expected: Vec<u8> = plains.concat();
    assert_eq!(merged, expected);
}

#[test]
fn drain_holds_back_until_earlier_segments_arrive() {
    let (plains, bodies) = encrypted_segments(2);
    let mut pipeline = SegmentPipeline::new(test_cipher(), 2);
    let mut bodies = bodies.into_iter();
    let body0 = bodies.next().unwrap();
    let body1 = bodies.next().unwrap();
    pipeline.deliver(1, body1).unwrap();
    // segment 0 is still missing: nothing may leave yet
    assert!(pipeline.drain_next().is_none());
    assert!(pipeline.drain_all().is_none());
    pipeline.deliver(0, body0).unwrap();
    assert_eq!(pipeline.drain_next().unwrap(), plains[0]);
    assert_eq!(pipeline.drain_next().unwrap(), plains[1]);
    assert!(pipeline.drain_next().is_none());
}

#[test]
fn admission_respects_concurrency_and_failure() {
    let mut pipeline = SegmentPipeline::new(test_cipher(), 3);
    assert!(pipeline.admit_more(0, 2, 0));
    assert!(pipeline.admit_more(1, 2, 2));
    assert!(!pipeline.admit_more(2, 2, 0)); // pool full
    assert!(!pipeline.admit_more(0, 2, 3)); // no segment left
    let err = pipeline.report_fetch_failure(1);
    assert_eq!(err, PipelineError::Fetch { segment: 1 });
    assert!(!pipeline.admit_more(0, 2, 0)); // failed job admits nothing
}

#[test]
fn a_body_that_does_not_decrypt_fails_the_job() {
    let mut pipeline = SegmentPipeline::new(test_cipher(), 1);
    let err = pipeline.deliver(0, vec![0u8; 10]).unwrap_err();
    assert_eq!(
        err,
        PipelineError::Decrypt { segment: 0, cause: DecryptError::InvalidCiphertextLength }
    );
    assert!(!pipeline.admit_more(0, 4, 0));
}
