use std::collections::HashMap;

use block_repair::walker::{
    BlockStoreIterator, BsiTodo, DataDir, DirEntry, DirEntryKind,
};

const FP: u64 = 1_000_000_000;

fn dir(path: &str, capacity: Option<u64>) -> DataDir {
    DataDir { path: path.to_string(), capacity }
}

fn sub(name: &str) -> DirEntry {
    DirEntry { name: name.to_string(), kind: DirEntryKind::Subdirectory }
}

fn file(name: &str) -> DirEntry {
    DirEntry { name: name.to_string(), kind: DirEntryKind::RegularFile }
}

fn other(name: &str) -> DirEntry {
    DirEntry { name: name.to_string(), kind: DirEntryKind::Other }
}

/// A simulated directory tree; listing a path the map does not know yields
/// nothing.
struct SimFs {
    dirs: HashMap<String, Vec<DirEntry>>,
}

impl SimFs {
    fn list(&self, path: &str) -> Vec<DirEntry> {
        match self.dirs.get(path) {
            Some(es) => es
                .iter()
                .map(|e| DirEntry { name: e.name.clone(), kind: e.kind })
                .collect(),
            None => Vec::new(),
        }
    }
}

/// Drive the walker to exhaustion, checking on the way that progress never
/// decreases; returns the yielded pairs and the progress samples.
fn drive(it: &mut BlockStoreIterator, fs: &SimFs) -> (Vec<(String, Vec<u8>)>, Vec<u64>) {
    let mut yielded = Vec::new();
    let mut samples = vec![it.progress_fp()];
    loop {
        if let Some(p) = it.next_dir_path() {
            let listing = fs.list(&p);
            it.expand_top_dir(&listing);
        } else if let Some(ph) = it.pop_file() {
            yielded.push(ph);
        } else {
            break;
        }
        let s = it.progress_fp();
        assert!(s >= *samples.last().unwrap(), "progress went backwards");
        samples.push(s);
    }
    (yielded, samples)
}

const HASH_A: &str = "0123456789abcdef0123456789abcdef0123456789abcdef0123456789abcdef";
const HASH_B: &str = "fedcba9876543210fedcba9876543210fedcba9876543210fedcba9876543210";
const HASH_C: &str = "00000000000000000000000000000000000000000000000000000000000000ff";

#[test]
fn three_directories_weighted_bounds() {
    // Capacities 1, 1, 2 split the progress interval into quarters:
    // [0, 0.25), [0.25, 0.5), [0.5, 1.0).
    let dirs = vec![dir("/a", Some(1)), dir("/b", Some(1)), dir("/c", Some(2))];
    let it = BlockStoreIterator::new(&dirs);
    assert_eq!(it.todo.len(), 3);
    // the stack is popped from the back, so the first directory sits last
    let bounds: Vec<(u64, u64)> = it
        .todo
        .iter()
        .map(|e| match e {
            BsiTodo::Directory { progress_min, progress_max, .. } => {
                (*progress_min, *progress_max)
            }
            BsiTodo::File { .. } => panic!("no files expected"),
        })
        .collect();
    assert_eq!(bounds[2], (0, FP / 4));
    assert_eq!(bounds[1], (FP / 4, FP / 2));
    assert_eq!(bounds[0], (FP / 2, FP));
}

#[test]
fn unknown_capacity_takes_minimum_known() {
    // Unknown capacity counts as the minimum known one (1), so the split is
    // again 1, 1, 2 out of 4.
    let dirs = vec![dir("/a", Some(1)), dir("/b", None), dir("/c", Some(2))];
    let it = BlockStoreIterator::new(&dirs);
    let last = &it.todo[2];
    match last {
        BsiTodo::Directory { progress_min, progress_max, path } => {
            assert_eq!(path, "/a");
            assert_eq!((*progress_min, *progress_max), (0, FP / 4));
        }
        _ => panic!(),
    }
}

#[test]
fn empty_directory_list_is_exhausted() {
    let it = BlockStoreIterator::new(&Vec::new());
    assert_eq!(it.progress_fp(), FP);
    let mut it = it;
    assert!(it.pop_file().is_none());
    assert!(it.next_dir_path().is_none());
}

#[test]
fn yields_only_conforming_names_with_their_hashes() {
    let mut fs = SimFs { dirs: HashMap::new() };
    fs.dirs.insert(
        "/data".to_string(),
        vec![
            sub("00"),
            sub("zz"),            // not hex: skipped
            sub("abc"),           // odd length: skipped
            file(HASH_B),
            file("short"),        // too short: skipped
            other(HASH_A),        // neither file nor directory: skipped
        ],
    );
    fs.dirs.insert(
        "/data/00".to_string(),
        vec![
            file(&format!("{}.tmp", HASH_A)), // suffix after the dot ignored
            file(&format!("{}x", HASH_A)),    // stem longer than 64: skipped
            file(HASH_C),
        ],
    );
    let dirs = vec![dir("/data", Some(1))];
    let mut it = BlockStoreIterator::new(&dirs);
    let (yielded, samples) = drive(&mut it, &fs);

    let names: Vec<&str> = yielded.iter().map(|(p, _)| p.as_str()).collect();
    assert_eq!(
        names,
        vec![
            format!("/data/00/{}.tmp", HASH_A),
            format!("/data/00/{}", HASH_C),
            format!("/data/{}", HASH_B),
        ]
    );
    // every yielded hash is the decoding of the name's first 64 characters
    assert_eq!(yielded[0].1, hex::decode(HASH_A).unwrap());
    assert_eq!(yielded[1].1, hex::decode(HASH_C).unwrap());
    assert_eq!(yielded[2].1, hex::decode(HASH_B).unwrap());
    // exhausted exactly at full progress
    assert_eq!(*samples.last().unwrap(), FP);
    assert!(samples[..samples.len() - 1].iter().all(|s| *s < FP));
}

#[test]
fn progress_monotonic_over_two_weighted_directories() {
    let mut fs = SimFs { dirs: HashMap::new() };
    fs.dirs.insert("/a".to_string(), vec![sub("00"), sub("01")]);
    fs.dirs.insert("/a/00".to_string(), vec![file(HASH_A)]);
    fs.dirs.insert("/a/01".to_string(), vec![file(HASH_B)]);
    fs.dirs.insert("/b".to_string(), vec![file(HASH_C)]);
    let dirs = vec![dir("/a", Some(3)), dir("/b", Some(1))];
    let mut it = BlockStoreIterator::new(&dirs);
    let (yielded, samples) = drive(&mut it, &fs);
    assert_eq!(yielded.len(), 3);
    assert_eq!(yielded[0].0, format!("/a/00/{}", HASH_A));
    assert_eq!(yielded[2].0, format!("/b/{}", HASH_C));
    assert_eq!(*samples.last().unwrap(), FP);
}

#[test]
fn snapshot_resumes_identically() {
    let mut fs = SimFs { dirs: HashMap::new() };
    fs.dirs.insert(
        "/d".to_string(),
        vec![sub("aa"), sub("bb"), file(HASH_C)],
    );
    fs.dirs.insert("/d/aa".to_string(), vec![file(HASH_A)]);
    fs.dirs.insert("/d/bb".to_string(), vec![file(HASH_B)]);
    let dirs = vec![dir("/d", Some(7))];
    let mut it = BlockStoreIterator::new(&dirs);
    // take one step, then snapshot mid-scan
    let p = it.next_dir_path().unwrap();
    let listing = fs.list(&p);
    it.expand_top_dir(&listing);
    let snap = it.snapshot();

    let (rest_orig, _) = drive(&mut it, &fs);
    let mut resumed = snap;
    let (rest_resumed, _) = drive(&mut resumed, &fs);
    assert_eq!(rest_orig, rest_resumed);
    assert_eq!(rest_orig.len(), 3);
}
