use block_repair::repair::{RepairWorker, REPAIR_BATCH_SIZE};
use block_repair::walker::DataDir;

fn dirs() -> Vec<DataDir> {
    vec![DataDir { path: "/data".to_string(), capacity: Some(1) }]
}

/// A 32-byte hash whose big-endian tail is `i`, so hashes are ordered as
/// their indices.
fn hash_of(i: u32) -> Vec<u8> {
    let mut h = vec![0u8; 32];
    h[28] = (i >> 24) as u8;
    h[29] = (i >> 16) as u8;
    h[30] = (i >> 8) as u8;
    h[31] = i as u8;
    h
}

/// An index range scan: up to `limit` keys strictly after `cursor`, in
/// ascending order.
fn scan(index: &[Vec<u8>], cursor: &Option<Vec<u8>>, limit: usize) -> Vec<Vec<u8>> {
    index
        .iter()
        .filter(|h| match cursor {
            Some(c) => *h > c,
            None => true,
        })
        .take(limit)
        .cloned()
        .collect()
}

#[test]
fn phase1_enqueues_all_hashes_in_three_batches() {
    // 2500 ascending hashes: batches of 1000, 1000 and 500, each batch read
    // whole before any enqueue is issued, everything enqueued ascending.
    let index: Vec<Vec<u8>> = (0..2500).map(hash_of).collect();
    let mut worker = RepairWorker::new();
    let mut enqueued: Vec<Vec<u8>> = Vec::new();
    let mut batch_sizes: Vec<usize> = Vec::new();
    loop {
        assert!(worker.in_phase_1());
        // reading is finished before the first write of the batch
        let batch = scan(&index, &worker.next_start, REPAIR_BATCH_SIZE);
        if batch.is_empty() {
            worker.phase1_finish(&dirs());
            break;
        }
        batch_sizes.push(batch.len());
        for h in &batch {
            enqueued.push(h.clone());
            worker.phase1_record_enqueued(h);
        }
    }
    assert_eq!(batch_sizes, vec![1000, 1000, 500]);
    assert_eq!(enqueued.len(), 2500);
    assert_eq!(enqueued, index);
    assert!(enqueued.windows(2).all(|w| w[0] < w[1]));
    assert!(!worker.in_phase_1());
}

#[test]
fn cursor_restarts_rescan_idempotently() {
    // the cursor is memory only: a fresh worker rescans from the start and
    // enqueues the same set again
    let index: Vec<Vec<u8>> = (0..10).map(hash_of).collect();
    let run = |_w: &mut RepairWorker| -> Vec<Vec<u8>> {
        let mut worker = RepairWorker::new();
        let mut out = Vec::new();
        loop {
            let batch = scan(&index, &worker.next_start, 4);
            if batch.is_empty() {
                break;
            }
            for h in &batch {
                out.push(h.clone());
                worker.phase1_record_enqueued(h);
            }
        }
        out
    };
    let mut w = RepairWorker::new();
    let first = run(&mut w);
    let second = run(&mut w);
    assert_eq!(first, second);
}

#[test]
fn status_in_phase_1_shows_cursor_prefix() {
    let mut worker = RepairWorker::new();
    let st = worker.status();
    assert_eq!(st.progress.as_deref(), Some("0.00%"));
    assert_eq!(
        st.freeform,
        vec!["Currently in phase 1, iterator position: ".to_string()]
    );

    let h = hex::decode("a1b2c3d4000000000000000000000000000000000000000000000000000000ff")
        .unwrap();
    worker.phase1_record_enqueued(&h);
    let st = worker.status();
    assert_eq!(
        st.freeform,
        vec!["Currently in phase 1, iterator position: a1b2c3d4".to_string()]
    );
}

#[test]
fn status_in_phase_2_mirrors_walker_progress() {
    let mut worker = RepairWorker::new();
    worker.phase1_finish(&dirs());
    let st = worker.status();
    assert_eq!(st.progress.as_deref(), Some("0.00%"));
    assert_eq!(st.freeform, vec!["Currently in phase 2".to_string()]);

    // exhaust the walker: progress reads full
    let it = worker.block_iter.as_mut().unwrap();
    let p = it.next_dir_path().unwrap();
    assert_eq!(p, "/data");
    it.expand_top_dir(&Vec::new());
    let st = worker.status();
    assert_eq!(st.progress.as_deref(), Some("100.00%"));
}
