use block_repair::codec::{decode_record, encode_record_prev, DecodedRecord};
use block_repair::scrub::{
    migrate_scrub_persisted, ScrubWorkerPersisted, SCRUB_INTERVAL_MS, SCRUB_JITTER_MS,
};
use block_repair::walker::{BlockStoreIterator, DataDir, DirEntry, DirEntryKind};

const HASH_A: &str = "0123456789abcdef0123456789abcdef0123456789abcdef0123456789abcdef";

fn walker_mid_scan() -> BlockStoreIterator {
    let dirs = vec![
        DataDir { path: "/data/один".to_string(), capacity: Some(3) },
        DataDir { path: "/data/two".to_string(), capacity: Some(1) },
    ];
    let mut it = BlockStoreIterator::new(&dirs);
    let listing = vec![
        DirEntry { name: "00".to_string(), kind: DirEntryKind::Subdirectory },
        DirEntry { name: format!("{}.tmp", HASH_A), kind: DirEntryKind::RegularFile },
    ];
    let p = it.next_dir_path().unwrap();
    assert_eq!(p, "/data/один");
    it.expand_top_dir(&listing);
    it
}

/// Drive a walker over an empty file system and collect what it yields.
fn remaining(it: &mut BlockStoreIterator) -> Vec<(String, Vec<u8>)> {
    let mut out = Vec::new();
    loop {
        if it.next_dir_path().is_some() {
            it.expand_top_dir(&Vec::new());
        } else if let Some(ph) = it.pop_file() {
            out.push(ph);
        } else {
            break;
        }
    }
    out
}

#[test]
fn snapshot_round_trip_preserves_the_walk() {
    let it = walker_mid_scan();
    let bytes = it.encode_snapshot();
    let decoded = BlockStoreIterator::decode_snapshot(&bytes).expect("must decode");
    // bit-identical re-encoding, and the same remaining walk
    assert_eq!(decoded.encode_snapshot(), bytes);
    let mut a = it;
    let mut b = decoded;
    assert_eq!(remaining(&mut a), remaining(&mut b));
}

#[test]
fn record_round_trip_with_checkpoint() {
    let rec = ScrubWorkerPersisted {
        tranquility: 11,
        time_last_complete_scrub: 77,
        time_next_run_scrub: 88,
        corruptions_detected: 5,
        checkpoint: Some(walker_mid_scan()),
    };
    let bytes = rec.encode();
    match decode_record(&bytes) {
        Some(DecodedRecord::Current(r2)) => {
            assert_eq!(r2.tranquility, 11);
            assert_eq!(r2.time_last_complete_scrub, 77);
            assert_eq!(r2.time_next_run_scrub, 88);
            assert_eq!(r2.corruptions_detected, 5);
            assert_eq!(r2.encode(), bytes);
            assert!(r2.checkpoint.is_some());
        }
        _ => panic!("expected a current-schema record"),
    }
}

#[test]
fn record_round_trip_without_checkpoint() {
    let rec = ScrubWorkerPersisted {
        tranquility: 0,
        time_last_complete_scrub: 0,
        time_next_run_scrub: u64::MAX,
        corruptions_detected: u64::MAX,
        checkpoint: None,
    };
    let bytes = rec.encode();
    match decode_record(&bytes) {
        Some(DecodedRecord::Current(r2)) => {
            assert_eq!(r2.time_next_run_scrub, u64::MAX);
            assert_eq!(r2.corruptions_detected, u64::MAX);
            assert!(r2.checkpoint.is_none());
        }
        _ => panic!("expected a current-schema record"),
    }
}

#[test]
fn previous_schema_is_recognized_and_migrates() {
    let bytes = encode_record_prev(6, 12_345, 2);
    match decode_record(&bytes) {
        Some(DecodedRecord::Previous(p)) => {
            assert_eq!(p.tranquility, 6);
            assert_eq!(p.time_last_complete_scrub, 12_345);
            assert_eq!(p.corruptions_detected, 2);
            let migrated = migrate_scrub_persisted(&p);
            assert!(migrated.checkpoint.is_none());
            assert!(migrated.time_next_run_scrub >= 12_345 + SCRUB_INTERVAL_MS);
            assert!(migrated.time_next_run_scrub < 12_345 + SCRUB_INTERVAL_MS + SCRUB_JITTER_MS);
        }
        _ => panic!("expected a previous-schema record"),
    }
}

#[test]
fn malformed_bytes_are_rejected() {
    // empty, unknown version tag, truncated record, trailing garbage
    assert!(decode_record(&Vec::new()).is_none());
    assert!(decode_record(&vec![9u8, 0, 0]).is_none());
    let rec = ScrubWorkerPersisted {
        tranquility: 1,
        time_last_complete_scrub: 2,
        time_next_run_scrub: 3,
        corruptions_detected: 4,
        checkpoint: Some(walker_mid_scan()),
    };
    let bytes = rec.encode();
    let mut truncated = bytes.clone();
    truncated.pop();
    assert!(decode_record(&truncated).is_none());
    let mut extended = bytes.clone();
    extended.push(0);
    assert!(decode_record(&extended).is_none());
}

#[test]
fn checkpoint_violating_the_stack_order_is_rejected() {
    // tamper with a progress field so markers increase toward the back:
    // the decoder must refuse to resume such a checkpoint
    let it = walker_mid_scan();
    let bytes = it.encode_snapshot();
    assert!(BlockStoreIterator::decode_snapshot(&bytes).is_some());
    // the last 8 bytes are the progress of the entry pushed last
    let mut tampered = bytes.clone();
    let n = tampered.len();
    tampered[n - 1] = 0xff;
    assert!(BlockStoreIterator::decode_snapshot(&tampered).is_none());
}
