use job_upload::digest::{Digest, DIGEST_LEN};
use job_upload::job_description::{JobDescription, JobResult, Runtime};
use job_upload::queue::BatchQueue;
use job_upload::upload::{Upload, UploadConfig, UploadError};
use job_upload::wire::{decode_record, encode_batch, encode_record};
use job_upload::job_transfer::TransferToServer;

fn zero_digest() -> Digest {
    Digest::parse(&"0".repeat(DIGEST_LEN)).unwrap()
}

fn runtime_from_millis(ms: u64) -> Runtime {
    Runtime {
        secs: ms / 1000,
        nanos: ((ms % 1000) * 1_000_000) as u32,
    }
}

fn infeasible_record() -> JobDescription {
    JobDescription::infeasible(zero_digest(), None)
}

fn valid_record(text: &str, score: u32) -> JobDescription {
    JobDescription {
        idigest: zero_digest(),
        result: JobResult::Valid {
            score,
            solution: text.to_string(),
            sdigest: zero_digest(),
        },
        runtime: None,
    }
}

fn uploader() -> Upload {
    Upload::new_with_endpoint("http://localhost:8080/api/solution", UploadConfig::reference())
        .unwrap()
}

#[test]
fn serde_timeout() {
    let org = JobDescription::timeout(zero_digest(), runtime_from_millis(123456));

    let serialized = encode_record(&org);
    let deserialized: JobDescription = decode_record(&serialized).unwrap();

    assert_eq!(org, deserialized);
}

#[test]
fn serde_infeasible() {
    for org in [
        JobDescription::infeasible(zero_digest(), Some(runtime_from_millis(123456))),
        JobDescription::infeasible(zero_digest(), None),
    ] {
        let serialized = encode_record(&org);
        let deserialized: JobDescription = decode_record(&serialized).unwrap();

        assert_eq!(org, deserialized);
    }
}

#[test]
fn round_trip_valid_with_runtime() {
    let org = JobDescription {
        idigest: zero_digest(),
        result: JobResult::Valid {
            score: 7,
            solution: "a\nbb\"\\ccc\t".to_string(),
            sdigest: zero_digest(),
        },
        runtime: Some(Runtime { secs: 3, nanos: 999_999_999 }),
    };
    let serialized = encode_record(&org);
    let deserialized = decode_record(&serialized).unwrap();
    assert_eq!(org, deserialized);
}

#[test]
fn round_trip_control_characters() {
    let org = JobDescription {
        idigest: zero_digest(),
        result: JobResult::Valid {
            score: 1,
            solution: "a\u{1}b\u{1f}c".to_string(),
            sdigest: zero_digest(),
        },
        runtime: None,
    };
    let serialized = encode_record(&org);
    assert!(serialized.contains("\\u0001"));
    assert!(serialized.contains("\\u001f"));
    // the escaped form is real JSON and carries the same text
    let v: serde_json::Value = serde_json::from_str(&serialized).unwrap();
    assert_eq!(
        v["result"]["Valid"]["solution"].as_str().unwrap(),
        "a\u{1}b\u{1f}c"
    );
    let deserialized = decode_record(&serialized).unwrap();
    assert_eq!(org, deserialized);
}

#[test]
fn decode_rejects_garbage() {
    assert!(decode_record("").is_none());
    assert!(decode_record("{}").is_none());
    let good = encode_record(&infeasible_record());
    assert!(decode_record(&good[..good.len() - 1]).is_none());
}

#[test]
fn encoded_record_is_real_json() {
    let org = JobDescription {
        idigest: zero_digest(),
        result: JobResult::Valid {
            score: 3,
            solution: "x\ny".to_string(),
            sdigest: zero_digest(),
        },
        runtime: Some(runtime_from_millis(123456)),
    };
    let serialized = encode_record(&org);
    let v: serde_json::Value = serde_json::from_str(&serialized).unwrap();
    assert_eq!(v["idigest"].as_str().unwrap(), "0".repeat(DIGEST_LEN));
    assert_eq!(v["result"]["Valid"]["score"].as_u64().unwrap(), 3);
    assert_eq!(v["result"]["Valid"]["solution"].as_str().unwrap(), "x\ny");
    assert_eq!(v["runtime"]["secs"].as_u64().unwrap(), 123);
    assert_eq!(v["runtime"]["nanos"].as_u64().unwrap(), 456_000_000);
}

#[test]
fn encoded_batch_is_real_json() {
    let t = TransferToServer {
        jobs: vec![infeasible_record(), valid_record("ab", 1)],
    };
    let serialized = encode_batch(&t);
    let v: serde_json::Value = serde_json::from_str(&serialized).unwrap();
    assert_eq!(v["jobs"].as_array().unwrap().len(), 2);
    assert_eq!(v["jobs"][0]["result"].as_str().unwrap(), "Infeasible");
}

#[test]
fn digest_parsing() {
    // exactly DIGEST_LEN hex characters parse
    assert!(Digest::parse(&"0123456789abcdefABCDEF0123456789".repeat(2)).is_ok());
    // any other length fails
    assert_eq!(
        Digest::parse(&"0".repeat(DIGEST_LEN - 1)).unwrap_err(),
        UploadError::InvalidDigest
    );
    assert_eq!(
        Digest::parse(&"0".repeat(DIGEST_LEN + 1)).unwrap_err(),
        UploadError::InvalidDigest
    );
    assert_eq!(Digest::parse("").unwrap_err(), UploadError::InvalidDigest);
    // a non-hex character fails
    let mut bad = "0".repeat(DIGEST_LEN - 1);
    bad.push('g');
    assert_eq!(Digest::parse(&bad).unwrap_err(), UploadError::InvalidDigest);
}

#[test]
fn size_estimates() {
    assert_eq!(valid_record("0123456789", 3).size_estimate(), 60);
    assert_eq!(infeasible_record().size_estimate(), 50);
    assert_eq!(
        JobDescription::timeout(zero_digest(), runtime_from_millis(5)).size_estimate(),
        50
    );
}

#[test]
fn item_count_trigger_threshold() {
    let mut up = uploader();
    for _ in 0..25 {
        up.add_job(infeasible_record());
    }
    assert!(!up.needs_upload());
    up.add_job(infeasible_record());
    assert!(up.needs_upload());
}

#[test]
fn byte_trigger_threshold() {
    // at the boundary: total size estimate 3_750_000 does not trigger
    let mut up = uploader();
    up.add_job(valid_record(&"x".repeat(3_749_950), 1));
    assert_eq!(up.total_size_estimate(), 3_750_000);
    assert!(!up.needs_upload());
    // one more unit does
    let mut up = uploader();
    up.add_job(valid_record(&"x".repeat(3_749_951), 1));
    assert!(up.needs_upload());
}

#[test]
fn build_payload_biggest_first() {
    let mut up = uploader();
    for len in [5usize, 30, 1, 17, 8, 0, 23] {
        up.add_job(valid_record(&"x".repeat(len), 1));
    }
    let batch = up.build_payload();
    assert_eq!(batch.jobs.len(), 7);
    let sizes: Vec<usize> = batch.jobs.iter().map(|j| j.size_estimate()).collect();
    for w in sizes.windows(2) {
        assert!(w[0] > w[1]);
    }
    assert_eq!(sizes[0], 80);
    assert_eq!(up.len(), 0);
    assert_eq!(up.total_size_estimate(), 0);
}

#[test]
fn build_payload_respects_item_cap() {
    let mut up = uploader();
    for _ in 0..250 {
        up.add_job(infeasible_record());
    }
    let batch = up.build_payload();
    assert_eq!(batch.jobs.len(), 100);
    assert_eq!(up.len(), 150);
}

#[test]
fn flush_drains_in_expected_batches() {
    let mut up = uploader();
    for _ in 0..250 {
        up.add_job(infeasible_record());
    }
    let mut batches = 0;
    while !up.is_empty() {
        let b = up.build_payload();
        assert!(!b.jobs.is_empty());
        batches += 1;
    }
    assert_eq!(batches, 3);
    assert_eq!(up.len(), 0);
    assert_eq!(up.total_size_estimate(), 0);
}

#[test]
fn single_record_scenario() {
    let mut up = uploader();
    let rec = valid_record("0123456789", 3);
    assert_eq!(rec.size_estimate(), 60);
    up.add_job(rec);
    // well under both thresholds: no opportunistic upload
    assert!(!up.needs_upload());
    // a flush sends exactly one batch with exactly that record
    let batch = up.build_payload();
    assert_eq!(batch.jobs.len(), 1);
    assert_eq!(batch.jobs[0].size_estimate(), 60);
    assert!(matches!(
        batch.jobs[0].result,
        JobResult::Valid { score: 3, .. }
    ));
    assert!(up.is_empty());
    assert_eq!(up.total_size_estimate(), 0);
}

#[test]
fn queue_pops_largest_first() {
    let mut q = BatchQueue::new();
    q.push(valid_record("aaaa", 1));
    q.push(infeasible_record());
    q.push(valid_record("aaaaaaaa", 1));
    assert_eq!(q.len(), 3);
    assert_eq!(q.total_size_estimate(), 50 + 54 + 58);
    let a = q.pop_largest().unwrap();
    assert_eq!(a.size, 58);
    let b = q.pop_largest().unwrap();
    assert_eq!(b.size, 54);
    let c = q.pop_largest().unwrap();
    assert_eq!(c.size, 50);
    assert!(q.pop_largest().is_none());
    assert_eq!(q.total_size_estimate(), 0);
}

#[test]
fn valid_sorts_and_joins_rendered_trees() {
    let rec = JobDescription::valid(
        zero_digest(),
        vec!["aaa".to_string(), "a".to_string(), "bb".to_string()],
        zero_digest(),
        None,
    );
    match rec.result {
        JobResult::Valid { score, solution, .. } => {
            assert_eq!(score, 3);
            assert_eq!(solution, "a\nbb\naaa");
        }
        _ => panic!("expected a Valid result"),
    }
}

#[test]
fn valid_sort_is_stable_for_equal_lengths() {
    let rec = JobDescription::valid(
        zero_digest(),
        vec!["bb".to_string(), "aa".to_string(), "c".to_string()],
        zero_digest(),
        None,
    );
    match rec.result {
        JobResult::Valid { solution, .. } => {
            assert_eq!(solution, "c\nbb\naa");
        }
        _ => panic!("expected a Valid result"),
    }
}

#[test]
fn invalid_endpoint_is_rejected() {
    let r = Upload::new_with_endpoint("not a url", UploadConfig::reference());
    assert!(matches!(r, Err(UploadError::InvalidEndpoint)));
}

#[test]
fn server_url_gets_api_path() {
    let up = Upload::new_with_server("http://example.com", UploadConfig::reference()).unwrap();
    assert_eq!(up.url(), "http://example.com/api/solution");
}
