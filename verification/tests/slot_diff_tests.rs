use sofa_registry::checksum::slot_of_key;
use sofa_registry::slot_diff::{diff_digests, DatumDigest, DatumSummary, DiffResult, SlotDiffSyncer};

fn d(id: &str, version: i64, count: u32) -> DatumDigest {
    DatumDigest { data_info_id: id.to_string(), version, publisher_count: count }
}

#[test]
fn identical_digests_need_nothing() {
    let local = vec![d("a", 1, 2), d("b", 3, 1)];
    let remote = vec![d("b", 3, 1), d("a", 1, 2)];
    let r = diff_digests(&local, &remote);
    assert!(r.updated.is_empty());
    assert!(r.removed.is_empty());
}

#[test]
fn newer_remote_version_is_updated() {
    let r = diff_digests(&[d("a", 1, 2)], &[d("a", 2, 2)]);
    assert_eq!(r.updated, vec!["a".to_string()]);
    assert!(r.removed.is_empty());
}

#[test]
fn older_remote_version_with_same_count_is_kept() {
    let r = diff_digests(&[d("a", 5, 2)], &[d("a", 2, 2)]);
    assert!(r.updated.is_empty());
}

#[test]
fn different_publisher_count_is_updated() {
    let r = diff_digests(&[d("a", 5, 2)], &[d("a", 2, 3)]);
    assert_eq!(r.updated, vec!["a".to_string()]);
}

#[test]
fn remote_only_is_updated_and_local_only_is_removed() {
    let r = diff_digests(&[d("x", 1, 1), d("a", 1, 1)], &[d("a", 1, 1), d("y", 1, 1)]);
    assert_eq!(r.updated, vec!["y".to_string()]);
    assert_eq!(r.removed, vec!["x".to_string()]);
}

#[test]
fn later_duplicate_digest_wins() {
    let r = diff_digests(&[d("a", 1, 1)], &[d("a", 9, 1), d("a", 1, 1)]);
    assert!(r.updated.is_empty());
    let r = diff_digests(&[d("a", 1, 1)], &[d("a", 1, 1), d("a", 9, 1)]);
    assert_eq!(r.updated, vec!["a".to_string()]);
}

#[test]
fn diff_result_default_is_empty() {
    let r = DiffResult::default();
    assert!(r.updated.is_empty() && r.removed.is_empty());
}

#[test]
fn slot_digest_keeps_only_the_slot() {
    let syncer = SlotDiffSyncer::new(4);
    let entries = vec![
        DatumSummary { data_info_id: "123456789".to_string(), version: 7, publisher_count: 2 },
        DatumSummary { data_info_id: "other".to_string(), version: 1, publisher_count: 5 },
    ];
    // CRC-32C of "123456789" is 0xE3069283, which is 3 modulo 4.
    let slot = slot_of_key("123456789", 4);
    assert_eq!(slot, 3);
    let digest = syncer.compute_slot_digest(&entries, 3);
    let other_slot = slot_of_key("other", 4);
    if other_slot == 3 {
        assert_eq!(digest.len(), 2);
    } else {
        assert_eq!(digest.len(), 1);
    }
    assert_eq!(digest[0].data_info_id, "123456789");
    assert_eq!(digest[0].version, 7);
    assert_eq!(digest[0].publisher_count, 2);
}

#[test]
fn slot_digest_of_empty_store_is_empty() {
    let syncer = SlotDiffSyncer::new(256);
    assert!(syncer.compute_slot_digest(&[], 0).is_empty());
}
