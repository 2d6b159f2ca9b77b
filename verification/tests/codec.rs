//! The durable log codec: exact texts, round trips, and rejections.

use mergeflow::codec::{decode_history, encode_history};
use mergeflow::MergeStep;

fn step(target: &str, sha: &str, tags: &[&str]) -> MergeStep {
    MergeStep {
        target_branch: target.to_string(),
        original_sha: sha.to_string(),
        tags_created: tags.iter().map(|t| t.to_string()).collect(),
    }
}

#[test]
fn encode_one_record_with_tags() {
    let h = vec![step("staging", "s1", &["v2"])];
    assert_eq!(encode_history(&h), "staging s1 v2\n");
}

#[test]
fn encode_record_without_tags_keeps_empty_field() {
    let h = vec![step("main", "m1", &[])];
    assert_eq!(encode_history(&h), "main m1 \n");
}

#[test]
fn encode_joins_tags_with_commas() {
    let h = vec![step("main", "abc123", &["v1", "v2", "v3"])];
    assert_eq!(encode_history(&h), "main abc123 v1,v2,v3\n");
}

#[test]
fn round_trip_history_with_and_without_tags() {
    let h = vec![
        step("staging", "s1", &["v2"]),
        step("main", "m1", &[]),
        step("release", "r9", &["a", "b", "c"]),
    ];
    let text = encode_history(&h);
    let back = decode_history(&text).expect("well-formed text must decode");
    assert_eq!(back, h);
}

#[test]
fn round_trip_empty_history() {
    let h: Vec<MergeStep> = Vec::new();
    let text = encode_history(&h);
    assert_eq!(text, "");
    let back = decode_history(&text).expect("empty text must decode");
    assert!(back.is_empty());
}

#[test]
fn decode_reads_fields_back() {
    let got = decode_history("staging s1 v2\nmain m1 \n").expect("must decode");
    assert_eq!(got.len(), 2);
    assert_eq!(got[0].target_branch, "staging");
    assert_eq!(got[0].original_sha, "s1");
    assert_eq!(got[0].tags_created, vec!["v2".to_string()]);
    assert_eq!(got[1].target_branch, "main");
    assert_eq!(got[1].original_sha, "m1");
    assert!(got[1].tags_created.is_empty());
}

#[test]
fn decode_rejects_missing_newline() {
    assert!(decode_history("staging s1 v2").is_err());
}

#[test]
fn decode_rejects_missing_sha_field() {
    assert!(decode_history("staging\n").is_err());
}

#[test]
fn decode_rejects_missing_tags_field() {
    assert!(decode_history("staging s1\n").is_err());
}

#[test]
fn decode_rejects_empty_tag_segments() {
    assert!(decode_history("t s a,,b\n").is_err());
    assert!(decode_history("t s ,a\n").is_err());
    assert!(decode_history("t s a,\n").is_err());
}
