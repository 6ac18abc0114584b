//! Capacity-weighted, resumable enumeration of the block store.
//!
//! The walker owns an explicit stack of work items (never call-stack state),
//! so that mid-traversal state is a plain value that can be checkpointed and
//! resumed at arbitrary depth. Each top-level data directory receives a
//! sub-range of the fixed-point progress interval proportional to its
//! capacity; children split their parent's range into equal widths. Entries
//! are kept with progress markers non-increasing from the front of the stack
//! toward the back, so successive pops yield non-decreasing progress.
use vstd::prelude::*;

use crate::hexutil::{
    basename, block_file_hash, hex_decoded, is_block_file_name, is_hex_name, is_hex_seq,
    join_path, lemma_basename_join, lemma_hex_decoded_len, name_stem, parse_block_file_name,
};
use crate::textnum::PROGRESS_FP;

verus! {

/// One storage directory: its path and its capacity in bytes, or `None` when
/// the capacity is unknown (a directory kept only for reading).
pub struct DataDir {
    pub path: String,
    pub capacity: Option<u64>,
}

/// Mathematical image of a `DataDir`.
pub struct DataDirV {
    pub path: Seq<char>,
    pub capacity: Option<u64>,
}

impl View for DataDir {
    type V = DataDirV;

    open spec fn view(&self) -> DataDirV {
        DataDirV { path: self.path@, capacity: self.capacity }
    }
}

/// One work item of the walker's stack.
pub enum BsiTodo {
    /// A directory still to list, owning the progress range
    /// `[progress_min, progress_max]`.
    Directory { path: String, progress_min: u64, progress_max: u64 },
    /// A block file still to yield, at the given progress marker.
    File { path: String, hash: Vec<u8>, progress: u64 },
}

/// Mathematical image of a work item.
pub enum TodoV {
    Directory { path: Seq<char>, progress_min: u64, progress_max: u64 },
    File { path: Seq<char>, hash: Seq<u8>, progress: u64 },
}

impl View for BsiTodo {
    type V = TodoV;

    open spec fn view(&self) -> TodoV {
        match self {
            BsiTodo::Directory { path, progress_min, progress_max } => TodoV::Directory {
                path: path@,
                progress_min: *progress_min,
                progress_max: *progress_max,
            },
            BsiTodo::File { path, hash, progress } => TodoV::File {
                path: path@,
                hash: hash@,
                progress: *progress,
            },
        }
    }
}

/// The progress marker of an entry: where the walk stands when the entry is
/// about to be processed.
pub open spec fn entry_lo(e: TodoV) -> u64 {
    match e {
        TodoV::Directory { progress_min, .. } => progress_min,
        TodoV::File { progress, .. } => progress,
    }
}

/// The upper progress bound of an entry.
pub open spec fn entry_hi(e: TodoV) -> u64 {
    match e {
        TodoV::Directory { progress_max, .. } => progress_max,
        TodoV::File { progress, .. } => progress,
    }
}

/// A file entry is sound: its 32-byte hash is the one encoded in the first 64
/// characters of its file name. Non-conforming names never enter the stack.
pub open spec fn entry_sound(e: TodoV) -> bool {
    match e {
        TodoV::Directory { .. } => true,
        TodoV::File { path, hash, .. } => {
            &&& hash.len() == 32
            &&& is_block_file_name(basename(path))
            &&& block_file_hash(basename(path)) == hash
        },
    }
}

pub open spec fn entry_wf(e: TodoV) -> bool {
    &&& entry_lo(e) <= entry_hi(e) <= PROGRESS_FP
    &&& entry_sound(e)
}

/// Stack invariant: every entry is well formed, and upper bounds are
/// non-increasing from the front toward the back, so that popping from the
/// back yields non-decreasing progress markers.
pub open spec fn stack_wf(s: Seq<TodoV>) -> bool {
    &&& forall|i: int| 0 <= i < s.len() ==> entry_wf(#[trigger] s[i])
    &&& forall|i: int| 0 <= i < s.len() - 1 ==> entry_hi(#[trigger] s[i + 1]) <= entry_lo(s[i])
}

/// The progress marker of the next entry to be processed, or the full range
/// when the walk is exhausted.
pub open spec fn stack_progress(s: Seq<TodoV>) -> u64 {
    if s.len() == 0 {
        PROGRESS_FP
    } else {
        entry_lo(s.last())
    }
}

/// Every entry's marker lies strictly below the full range. This holds as
/// soon as every directory counts a positive capacity, and is what makes the
/// progress report reach the full range exactly at exhaustion.
pub open spec fn stack_strict(s: Seq<TodoV>) -> bool {
    forall|i: int| 0 <= i < s.len() ==> entry_lo(#[trigger] s[i]) < PROGRESS_FP
}

/// Progress equals the full fixed-point range exactly when the walk is
/// exhausted, on any stack whose markers stay strictly below the full range.
/// (A directory of capacity zero can own an empty range at the very top of
/// the interval, which is why strictness is asked for.)
pub proof fn lemma_progress_full_iff_exhausted(s: Seq<TodoV>)
    requires
        stack_strict(s),
    ensures
        stack_progress(s) == PROGRESS_FP <==> s.len() == 0,
{
    if s.len() > 0 {
        assert(s.last() == s[s.len() - 1]);
    }
}

/// Whether any directory has a known capacity.
pub open spec fn has_known_cap(dirs: Seq<DataDirV>) -> bool
    decreases dirs.len(),
{
    if dirs.len() == 0 {
        false
    } else {
        dirs.last().capacity is Some || has_known_cap(dirs.drop_last())
    }
}

/// The minimum known capacity among the directories (0 when none is known).
/// A directory of unknown capacity is approximated by this minimum.
pub open spec fn min_known_cap(dirs: Seq<DataDirV>) -> u64
    decreases dirs.len(),
{
    if dirs.len() == 0 {
        0
    } else {
        let rest = dirs.drop_last();
        match dirs.last().capacity {
            Some(c) => if has_known_cap(rest) && min_known_cap(rest) < c {
                min_known_cap(rest)
            } else {
                c
            },
            None => min_known_cap(rest),
        }
    }
}

/// The capacity a directory counts for: its own when known, else the minimum
/// known capacity `m`.
pub open spec fn eff_cap(d: DataDirV, m: u64) -> u64 {
    match d.capacity {
        Some(c) => c,
        None => m,
    }
}

/// Sum of the effective capacities, as a mathematical integer.
pub open spec fn total_cap(dirs: Seq<DataDirV>, m: u64) -> int
    decreases dirs.len(),
{
    if dirs.len() == 0 {
        0
    } else {
        total_cap(dirs.drop_last(), m) + eff_cap(dirs.last(), m)
    }
}

/// Sum of the effective capacities of the first `i` directories.
pub open spec fn prefix_cap(dirs: Seq<DataDirV>, m: u64, i: int) -> int {
    total_cap(dirs.take(i), m)
}

/// The mathematical image of a directory list.
pub open spec fn dv_of(dirs: Seq<DataDir>) -> Seq<DataDirV> {
    dirs.map_values(|d: DataDir| d@)
}

/// Every directory counts a positive capacity.
pub open spec fn all_caps_positive(dirs: Seq<DataDirV>) -> bool {
    forall|i: int|
        0 <= i < dirs.len() ==> eff_cap(#[trigger] dirs[i], min_known_cap(dirs)) > 0
}

pub proof fn lemma_total_cap_nonneg(dirs: Seq<DataDirV>, m: u64)
    ensures
        total_cap(dirs, m) >= 0,
    decreases dirs.len(),
{
    if dirs.len() > 0 {
        lemma_total_cap_nonneg(dirs.drop_last(), m);
    }
}

pub proof fn lemma_prefix_cap_le(dirs: Seq<DataDirV>, m: u64, i: int)
    requires
        0 <= i <= dirs.len(),
    ensures
        prefix_cap(dirs, m, i) <= total_cap(dirs, m),
    decreases dirs.len() - i,
{
    if i == dirs.len() {
        assert(dirs.take(i) =~= dirs);
    } else {
        assert(dirs.take(i + 1).drop_last() =~= dirs.take(i));
        assert(eff_cap(dirs.take(i + 1).last(), m) >= 0);
        lemma_prefix_cap_le(dirs, m, i + 1);
    }
}

/// Where the progress range of the `i`-th top-level directory begins: the
/// capacity before it, scaled into the fixed-point progress interval.
pub open spec fn dir_range_point(dirs: Seq<DataDirV>, i: int) -> int {
    let m = min_known_cap(dirs);
    prefix_cap(dirs, m, i) * (PROGRESS_FP as int) / total_cap(dirs, m)
}

/// The initial stack over the given directories: one directory entry each,
/// capacity-proportional ranges, pushed so that popping from the back visits
/// them in ascending progress order.
pub open spec fn initial_stack(dirs: Seq<DataDirV>) -> Seq<TodoV> {
    let n = dirs.len() as int;
    Seq::new(dirs.len(), |j: int| TodoV::Directory {
        path: dirs[n - 1 - j].path,
        progress_min: dir_range_point(dirs, n - 1 - j) as u64,
        progress_max: dir_range_point(dirs, n - j) as u64,
    })
}

/// The walker over the block store: an explicit stack, popped from the back.
pub struct BlockStoreIterator {
    pub todo: Vec<BsiTodo>,
}

impl View for BlockStoreIterator {
    type V = Seq<TodoV>;

    open spec fn view(&self) -> Seq<TodoV> {
        self.todo@.map_values(|e: BsiTodo| e@)
    }
}

impl BlockStoreIterator {
    pub open spec fn wf(&self) -> bool {
        stack_wf(self@)
    }

    /// Construct a walker over the given data directories. Each directory
    /// receives a progress sub-range proportional to its effective capacity
    /// relative to the summed capacity of all directories.
    pub fn new(dirs: &Vec<DataDir>) -> (r: Self)
        requires
            dirs@.len() > 0 ==> total_cap(dv_of(dirs@), min_known_cap(dv_of(dirs@))) > 0,
            total_cap(dv_of(dirs@), min_known_cap(dv_of(dirs@))) <= u64::MAX,
        ensures
            r@ == initial_stack(dv_of(dirs@)),
            r.wf(),
            all_caps_positive(dv_of(dirs@)) ==> stack_strict(r@),
    {
        let ghost dv = dirs@.map_values(|d: DataDir| d@);
        let n = dirs.len();

        // Minimum known capacity, approximating unknown ones.
        let mut min_cap: u64 = 0;
        let mut any_known: bool = false;
        let mut i: usize = 0;
        while i < n
            invariant
                0 <= i <= n,
                n == dirs@.len(),
                dv == dirs@.map_values(|d: DataDir| d@),
                any_known == has_known_cap(dv.take(i as int)),
                min_cap == min_known_cap(dv.take(i as int)),
            decreases n - i,
        {
            proof {
                assert(dv.take(i + 1).drop_last() =~= dv.take(i as int));
                assert(dv.take(i + 1).last() == dv[i as int]);
            }
            match dirs[i].capacity {
                Some(c) => {
                    if !any_known || c < min_cap {
                        min_cap = c;
                    }
                    any_known = true;
                },
                None => {},
            }
            i += 1;
        }
        proof {
            assert(dv.take(n as int) =~= dv);
        }

        // Summed effective capacity.
        let mut total: u64 = 0;
        let mut i: usize = 0;
        while i < n
            invariant
                0 <= i <= n,
                n == dirs@.len(),
                dv == dirs@.map_values(|d: DataDir| d@),
                min_cap == min_known_cap(dv),
                total == prefix_cap(dv, min_cap, i as int),
                total_cap(dv, min_cap) <= u64::MAX,
            decreases n - i,
        {
            proof {
                assert(dv.take(i + 1).drop_last() =~= dv.take(i as int));
                assert(dv.take(i + 1).last() == dv[i as int]);
                lemma_prefix_cap_le(dv, min_cap, i + 1);
                lemma_total_cap_nonneg(dv.take(i as int), min_cap);
            }
            let cap = match dirs[i].capacity {
                Some(c) => c,
                None => min_cap,
            };
            total = total + cap;
            i += 1;
        }
        proof {
            assert(dv.take(n as int) =~= dv);
        }

        if n == 0 {
            let r = BlockStoreIterator { todo: Vec::new() };
            proof {
                assert(r@ =~= initial_stack(dv));
            }
            return r;
        }

        // Build entries in ascending progress order.
        let mut asc: Vec<BsiTodo> = Vec::new();
        let mut cum: u64 = 0;
        let mut i: usize = 0;
        while i < n
            invariant
                0 <= i <= n,
                n == dirs@.len(),
                dv == dirs@.map_values(|d: DataDir| d@),
                min_cap == min_known_cap(dv),
                0 < total == total_cap(dv, min_cap) <= u64::MAX,
                cum == prefix_cap(dv, min_cap, i as int),
                asc@.len() == i,
                forall|k: int| 0 <= k < i ==> asc@[k]@ == (TodoV::Directory {
                    path: dv[k].path,
                    progress_min: dir_range_point(dv, k) as u64,
                    progress_max: dir_range_point(dv, k + 1) as u64,
                }),
            decreases n - i,
        {
            proof {
                assert(dv.take(i + 1).drop_last() =~= dv.take(i as int));
                assert(dv.take(i + 1).last() == dv[i as int]);
                lemma_prefix_cap_le(dv, min_cap, i + 1);
                lemma_total_cap_nonneg(dv.take(i as int), min_cap);
            }
            let cap = match dirs[i].capacity {
                Some(c) => c,
                None => min_cap,
            };
            let cum_next = cum + cap;
            let p_min_wide: u128 = (cum as u128) * (PROGRESS_FP as u128) / (total as u128);
            let p_max_wide: u128 = (cum_next as u128) * (PROGRESS_FP as u128) / (total as u128);
            proof {
                assert((cum as int) * (PROGRESS_FP as int) <= (total as int) * (PROGRESS_FP as int)
                    && (cum_next as int) * (PROGRESS_FP as int) <= (total as int) * (
                PROGRESS_FP as int) && (total as int) * (PROGRESS_FP as int) / (total as int)
                    == PROGRESS_FP as int) by (nonlinear_arith)
                    requires
                        0 <= cum <= total,
                        0 <= cum_next <= total,
                        0 < total,
                ;
                vstd::arithmetic::div_mod::lemma_div_is_ordered(
                    (cum as int) * (PROGRESS_FP as int),
                    (total as int) * (PROGRESS_FP as int),
                    total as int,
                );
                vstd::arithmetic::div_mod::lemma_div_is_ordered(
                    (cum_next as int) * (PROGRESS_FP as int),
                    (total as int) * (PROGRESS_FP as int),
                    total as int,
                );
            }
            let p_min: u64 = p_min_wide as u64;
            let p_max: u64 = p_max_wide as u64;
            asc.push(BsiTodo::Directory {
                path: dirs[i].path.clone(),
                progress_min: p_min,
                progress_max: p_max,
            });
            cum = cum_next;
            i += 1;
        }

        // Reverse so that popping from the back proceeds in ascending order.
        let mut todo: Vec<BsiTodo> = Vec::new();
        while asc.len() > 0
            invariant
                n == dirs@.len(),
                dv == dirs@.map_values(|d: DataDir| d@),
                asc@.len() + todo@.len() == n,
                forall|k: int| 0 <= k < asc@.len() ==> asc@[k]@ == (TodoV::Directory {
                    path: dv[k].path,
                    progress_min: dir_range_point(dv, k) as u64,
                    progress_max: dir_range_point(dv, k + 1) as u64,
                }),
                forall|j: int| 0 <= j < todo@.len() ==> todo@[j]@ == initial_stack(dv)[j],
            decreases asc.len(),
        {
            let e = asc.pop().unwrap();
            todo.push(e);
        }
        let r = BlockStoreIterator { todo };
        proof {
            assert(r@ =~= initial_stack(dv));
            lemma_initial_stack_wf(dv);
            if all_caps_positive(dv) {
                assert forall|j: int| 0 <= j < r@.len() implies entry_lo(#[trigger] r@[j])
                    < PROGRESS_FP by {
                    lemma_dir_range_point_props(dv, dv.len() - 1 - j);
                    lemma_dir_range_point_strict(dv, dv.len() - 1 - j);
                    assert(r@[j] == initial_stack(dv)[j]);
                }
            }
        }
        r
    }

    /// An independently owned copy of the walker, taken for checkpointing;
    /// it stands for exactly the same remaining walk.
    pub fn snapshot(&self) -> (r: Self)
        ensures
            r@ == self@,
    {
        let mut todo: Vec<BsiTodo> = Vec::new();
        let mut i: usize = 0;
        while i < self.todo.len()
            invariant
                0 <= i <= self.todo@.len(),
                todo@.len() == i,
                forall|j: int| 0 <= j < i ==> #[trigger] todo@[j]@ == self.todo@[j]@,
            decreases self.todo@.len() - i,
        {
            match &self.todo[i] {
                BsiTodo::Directory { path, progress_min, progress_max } => {
                    todo.push(
                        BsiTodo::Directory {
                            path: path.clone(),
                            progress_min: *progress_min,
                            progress_max: *progress_max,
                        },
                    );
                },
                BsiTodo::File { path, hash, progress } => {
                    let mut h: Vec<u8> = Vec::new();
                    let mut k: usize = 0;
                    while k < hash.len()
                        invariant
                            0 <= k <= hash@.len(),
                            h@ == hash@.take(k as int),
                        decreases hash@.len() - k,
                    {
                        h.push(hash[k]);
                        proof {
                            assert(h@ =~= hash@.take(k + 1));
                        }
                        k += 1;
                    }
                    proof {
                        assert(hash@.take(hash@.len() as int) =~= hash@);
                    }
                    todo.push(
                        BsiTodo::File { path: path.clone(), hash: h, progress: *progress },
                    );
                },
            }
            i += 1;
        }
        let r = BlockStoreIterator { todo };
        proof {
            assert(r@ =~= self@);
        }
        r
    }

    /// Progress of the walk in fixed point: the marker of the entry about to
    /// be processed, or the full range when exhausted.
    pub fn progress_fp(&self) -> (r: u64)
        requires
            self.wf(),
        ensures
            r == stack_progress(self@),
            r <= PROGRESS_FP,
    {
        let len = self.todo.len();
        if len == 0 {
            PROGRESS_FP
        } else {
            match &self.todo[len - 1] {
                BsiTodo::Directory { progress_min, .. } => *progress_min,
                BsiTodo::File { progress, .. } => *progress,
            }
        }
    }
}

/// What a directory listing reports about one entry.
#[derive(Clone, Copy, Debug, PartialEq, Eq, Structural)]
pub enum DirEntryKind {
    Subdirectory,
    RegularFile,
    Other,
}

/// One entry of a directory listing, as handed in from the file system.
pub struct DirEntry {
    pub name: String,
    pub kind: DirEntryKind,
}

/// Mathematical image of a listing entry.
pub struct DirEntryV {
    pub name: Seq<char>,
    pub kind: DirEntryKind,
}

impl View for DirEntry {
    type V = DirEntryV;

    open spec fn view(&self) -> DirEntryV {
        DirEntryV { name: self.name@, kind: self.kind }
    }
}

/// The path of an entry.
pub open spec fn entry_path(e: TodoV) -> Seq<char> {
    match e {
        TodoV::Directory { path, .. } => path,
        TodoV::File { path, .. } => path,
    }
}

/// How one listing entry is classified, before progress is assigned:
/// subdirectories with hexadecimal names become nested directory entries,
/// regular files whose name encodes a block hash become file entries, and
/// everything else is silently skipped.
pub open spec fn classified_child(parent: Seq<char>, e: DirEntryV) -> Option<TodoV> {
    if e.kind == DirEntryKind::Subdirectory && e.name.len() % 2 == 0 && is_hex_seq(e.name) {
        Some(
            TodoV::Directory {
                path: parent + seq!['/'] + e.name,
                progress_min: 0,
                progress_max: 0,
            },
        )
    } else if e.kind == DirEntryKind::RegularFile && is_block_file_name(e.name) {
        Some(
            TodoV::File {
                path: parent + seq!['/'] + e.name,
                hash: block_file_hash(e.name),
                progress: 0,
            },
        )
    } else {
        None
    }
}

/// The classified children of a listing, in listing order.
pub open spec fn children_of(parent: Seq<char>, entries: Seq<DirEntryV>) -> Seq<TodoV>
    decreases entries.len(),
{
    if entries.len() == 0 {
        Seq::empty()
    } else {
        children_of(parent, entries.drop_last()) + match classified_child(
            parent,
            entries.last(),
        ) {
            Some(c) => seq![c],
            None => Seq::empty(),
        }
    }
}

/// The `i`-th division point when a parent range `[lo, hi]` is split into `n`
/// contiguous, equal-width child ranges.
pub open spec fn child_point(lo: u64, hi: u64, n: int, i: int) -> int {
    lo + (hi - lo) * i / n
}

/// A classified child with its progress range filled in.
pub open spec fn with_range(c: TodoV, p1: u64, p2: u64) -> TodoV {
    match c {
        TodoV::Directory { path, .. } => TodoV::Directory {
            path,
            progress_min: p1,
            progress_max: p2,
        },
        TodoV::File { path, hash, .. } => TodoV::File { path, hash, progress: p1 },
    }
}

/// The stack segment that replaces an expanded directory entry: its children
/// with contiguous equal-width sub-ranges of `[lo, hi]`, reversed so that
/// popping from the back proceeds in ascending progress order.
pub open spec fn expansion(lo: u64, hi: u64, kids: Seq<TodoV>) -> Seq<TodoV> {
    let n = kids.len() as int;
    Seq::new(
        kids.len(),
        |j: int|
            with_range(
                kids[n - 1 - j],
                child_point(lo, hi, n, n - 1 - j) as u64,
                child_point(lo, hi, n, n - j) as u64,
            ),
    )
}

pub proof fn lemma_child_point_mono(lo: u64, hi: u64, n: int, i: int, j: int)
    requires
        lo <= hi,
        0 < n,
        0 <= i <= j <= n,
    ensures
        lo <= child_point(lo, hi, n, i) <= child_point(lo, hi, n, j) <= hi,
        child_point(lo, hi, n, 0) == lo,
        child_point(lo, hi, n, n) == hi,
{
    let w = (hi - lo) as int;
    assert(0 <= w * i && w * i <= w * j && w * j <= w * n && w * n / n == w) by (nonlinear_arith)
        requires
            0 <= w,
            0 <= i <= j <= n,
            0 < n,
    ;
    vstd::arithmetic::div_mod::lemma_div_is_ordered(0, w * i, n);
    vstd::arithmetic::div_mod::lemma_div_is_ordered(w * i, w * j, n);
    vstd::arithmetic::div_mod::lemma_div_is_ordered(w * j, w * n, n);
}

/// Every classified child is sound: a file child's hash is the one its name
/// encodes.
pub proof fn lemma_children_sound(parent: Seq<char>, entries: Seq<DirEntryV>)
    requires
        forall|k: int, j: int|
            0 <= k < entries.len() && 0 <= j < entries[k].name.len() ==> entries[k].name[j] != '/',
    ensures
        forall|i: int|
            0 <= i < children_of(parent, entries).len() ==> entry_sound(
                #[trigger] children_of(parent, entries)[i],
            ),
    decreases entries.len(),
{
    if entries.len() > 0 {
        let rest = entries.drop_last();
        assert(forall|k: int, j: int|
            0 <= k < rest.len() && 0 <= j < rest[k].name.len() ==> rest[k].name[j] != '/');
        lemma_children_sound(parent, rest);
        let e = entries.last();
        assert(0 <= (entries.len() - 1) && e == entries[entries.len() - 1]);
        let prev = children_of(parent, rest);
        let all = children_of(parent, entries);
        match classified_child(parent, e) {
            Some(c) => {
                if c is File {
                    assert(forall|j: int| 0 <= j < e.name.len() ==> e.name[j] != '/');
                    lemma_basename_join(parent, e.name);
                    crate::hexutil::lemma_stem_len_bounds(e.name);
                    lemma_hex_decoded_len(name_stem(e.name));
                }
                assert(entry_sound(c));
                assert(all == prev + seq![c]);
                assert forall|i: int| 0 <= i < all.len() implies entry_sound(
                    #[trigger] all[i],
                ) by {
                    if i < prev.len() {
                        assert(all[i] == prev[i]);
                    } else {
                        assert(all[i] == c);
                    }
                }
            },
            None => {
                assert(all =~= prev);
            },
        }
    }
}

/// Progress assignment keeps soundness: it changes no path and no hash.
pub proof fn lemma_with_range_sound(c: TodoV, p1: u64, p2: u64)
    requires
        entry_sound(c),
    ensures
        entry_sound(with_range(c, p1, p2)),
{
}

impl BlockStoreIterator {
    /// The path of the directory entry on top of the stack, if the next work
    /// item is listing a directory.
    pub fn next_dir_path(&self) -> (r: Option<String>)
        requires
            self.wf(),
        ensures
            match r {
                Some(p) => self@.len() > 0 && p@ == entry_path(self@.last()) && self@.last()
                    is Directory,
                None => self@.len() == 0 || !(self@.last() is Directory),
            },
    {
        let len = self.todo.len();
        if len == 0 {
            return None;
        }
        match &self.todo[len - 1] {
            BsiTodo::Directory { path, .. } => Some(path.clone()),
            BsiTodo::File { .. } => None,
        }
    }

    /// Pop the file entry on top of the stack and yield its path and hash;
    /// `None` (and no change) when the stack is empty or a directory is on
    /// top. Progress never decreases, and every yielded pair is sound: the
    /// file name's first 64 characters decode to the yielded hash.
    pub fn pop_file(&mut self) -> (r: Option<(String, Vec<u8>)>)
        requires
            old(self).wf(),
        ensures
            final(self).wf(),
            stack_progress(final(self)@) >= stack_progress(old(self)@),
            stack_strict(old(self)@) ==> stack_strict(final(self)@),
            match r {
                Some(ph) => {
                    &&& old(self)@.len() > 0
                    &&& old(self)@.last() is File
                    &&& ph.0@ == entry_path(old(self)@.last())
                    &&& (old(self)@.last() matches TodoV::File { hash, .. } && ph.1@ == hash)
                    &&& entry_sound(old(self)@.last())
                    &&& final(self)@ == old(self)@.drop_last()
                },
                None => {
                    &&& final(self)@ == old(self)@
                    &&& (old(self)@.len() == 0 || !(old(self)@.last() is File))
                },
            },
    {
        let len = self.todo.len();
        if len == 0 {
            return None;
        }
        match &self.todo[len - 1] {
            BsiTodo::Directory { .. } => None,
            BsiTodo::File { .. } => {
                let top = self.todo.pop().unwrap();
                match top {
                    BsiTodo::File { path, hash, .. } => {
                        proof {
                            let s0 = old(self)@;
                            if s0.len() >= 2 {
                                assert(entry_hi(s0[s0.len() - 2 + 1]) <= entry_lo(
                                    s0[s0.len() - 2],
                                ));
                                assert(s0.last() == s0[s0.len() - 1]);
                            }
                            assert(self@ =~= s0.drop_last());
                        }
                        Some((path, hash))
                    },
                    BsiTodo::Directory { .. } => {
                        proof {
                            assert(false);
                        }
                        None
                    },
                }
            },
        }
    }

    /// Replace the directory entry on top of the stack by its classified
    /// children, each child receiving an equal-width sub-range of the
    /// parent's progress range, pushed so that popping continues in
    /// ascending progress order. Entry names must be plain names, without a
    /// path separator, as directory listings report them.
    pub fn expand_top_dir(&mut self, entries: &Vec<DirEntry>)
        requires
            old(self).wf(),
            old(self)@.len() > 0,
            old(self)@.last() is Directory,
            forall|k: int, j: int|
                0 <= k < entries@.len() && 0 <= j < entries@[k]@.name.len()
                    ==> entries@[k]@.name[j] != '/',
        ensures
            final(self).wf(),
            final(self)@ == old(self)@.drop_last() + expansion(
                entry_lo(old(self)@.last()),
                entry_hi(old(self)@.last()),
                children_of(entry_path(old(self)@.last()), entries@.map_values(|e: DirEntry| e@)),
            ),
            stack_progress(final(self)@) >= stack_progress(old(self)@),
            stack_strict(old(self)@) ==> stack_strict(final(self)@),
    {
        let ghost s0 = old(self)@;
        let ghost base = s0.drop_last();
        let ghost ev = entries@.map_values(|e: DirEntry| e@);
        let top = self.todo.pop().unwrap();
        assert(top@ == s0.last());
        let (parent, lo, hi) = match top {
            BsiTodo::Directory { path, progress_min, progress_max } => (
                path,
                progress_min,
                progress_max,
            ),
            BsiTodo::File { .. } => {
                proof {
                    assert(false);
                }
                vstd::pervasive::unreached()
            },
        };
        assert(lo == entry_lo(s0.last()) && hi == entry_hi(s0.last()) && parent@ == entry_path(
            s0.last(),
        ));
        assert(lo <= hi <= PROGRESS_FP);

        // Classify the listing into child work items (progress still 0).
        let mut kids: Vec<BsiTodo> = Vec::new();
        let mut i: usize = 0;
        while i < entries.len()
            invariant
                0 <= i <= entries@.len(),
                ev == entries@.map_values(|e: DirEntry| e@),
                kids@.map_values(|e: BsiTodo| e@) == children_of(parent@, ev.take(i as int)),
            decreases entries@.len() - i,
        {
            proof {
                assert(ev.take(i + 1).drop_last() =~= ev.take(i as int));
                assert(ev.take(i + 1).last() == ev[i as int]);
            }
            let e = &entries[i];
            match e.kind {
                DirEntryKind::Subdirectory => {
                    if is_hex_name(e.name.as_str()) {
                        let p = join_path(parent.as_str(), e.name.as_str());
                        kids.push(BsiTodo::Directory { path: p, progress_min: 0, progress_max: 0 });
                    }
                },
                DirEntryKind::RegularFile => {
                    match parse_block_file_name(e.name.as_str()) {
                        Some(h) => {
                            let p = join_path(parent.as_str(), e.name.as_str());
                            kids.push(BsiTodo::File { path: p, hash: h, progress: 0 });
                        },
                        None => {},
                    }
                },
                DirEntryKind::Other => {},
            }
            i += 1;
            proof {
                assert(kids@.map_values(|e: BsiTodo| e@) =~= children_of(
                    parent@,
                    ev.take(i as int),
                ));
            }
        }
        proof {
            assert(ev.take(ev.len() as int) =~= ev);
        }
        let ghost kv = children_of(parent@, ev);
        assert(kids@.map_values(|e: BsiTodo| e@) == kv);
        let ghost exp = expansion(lo, hi, kv);

        // Assign progress ranges; popping the classified list from its back
        // appends children in descending progress order, which is the stack
        // order that pops ascending.
        let count = kids.len();
        let width = hi - lo;
        while kids.len() > 0
            invariant
                count == kv.len(),
                kids@.len() <= count,
                lo <= hi <= PROGRESS_FP,
                width == hi - lo,
                exp == expansion(lo, hi, kv),
                forall|j: int|
                    0 <= j < kids@.len() ==> #[trigger] kids@[j]@ == kv[j],
                self.todo@.len() == base.len() + (count - kids@.len()),
                forall|j: int| 0 <= j < base.len() ==> #[trigger] self.todo@[j]@ == base[j],
                forall|j: int|
                    0 <= j < count - kids@.len() ==> #[trigger] self.todo@[base.len() + j]@
                        == exp[j],
            decreases kids.len(),
        {
            let ghost pre = kids@;
            let child = kids.pop().unwrap();
            let idx = kids.len();
            let ghost n = count as int;
            let ghost k = n - 1 - idx;
            proof {
                assert(child == pre[idx as int]);
                assert(pre[idx as int]@ == kv[idx as int]);
                assert(child@ == kv[idx as int]);
                lemma_child_point_mono(lo, hi, n, idx as int, idx + 1);
                assert((width as int) * (idx as int) <= (PROGRESS_FP as int) * (count as int)
                    && (width as int) * ((idx as int) + 1) <= (PROGRESS_FP as int) * (
                count as int)) by (nonlinear_arith)
                    requires
                        0 <= width <= PROGRESS_FP,
                        0 <= idx,
                        (idx as int) + 1 <= count as int,
                ;
            }
            let p1_wide: u128 = (width as u128) * (idx as u128) / (count as u128);
            let p2_wide: u128 = (width as u128) * ((idx as u128) + 1) / (count as u128);
            let p1: u64 = lo + (p1_wide as u64);
            let p2: u64 = lo + (p2_wide as u64);
            assert(p1 == child_point(lo, hi, n, idx as int) && p2 == child_point(
                lo,
                hi,
                n,
                idx + 1,
            ));
            match child {
                BsiTodo::Directory { path, .. } => {
                    self.todo.push(
                        BsiTodo::Directory { path, progress_min: p1, progress_max: p2 },
                    );
                },
                BsiTodo::File { path, hash, .. } => {
                    self.todo.push(BsiTodo::File { path, hash, progress: p1 });
                },
            }
            proof {
                assert(self.todo@.last()@ == with_range(kv[idx as int], p1, p2));
                assert(exp[k] == with_range(
                    kv[idx as int],
                    child_point(lo, hi, n, idx as int) as u64,
                    child_point(lo, hi, n, idx + 1) as u64,
                ));
            }
        }
        proof {
            assert forall|k2: int, j2: int|
                0 <= k2 < ev.len() && 0 <= j2 < ev[k2].name.len() implies ev[k2].name[j2]
                != '/' by {
                assert(ev[k2] == entries@[k2]@);
            }
            lemma_children_sound(parent@, ev);
            assert(self@.len() == base.len() + exp.len());
            assert forall|j: int| 0 <= j < self@.len() implies self@[j] == (base + exp)[j] by {
                if j < base.len() {
                    assert(self.todo@[j]@ == base[j]);
                } else {
                    assert(self.todo@[base.len() + (j - base.len())]@ == exp[j - base.len()]);
                }
            }
            assert(self@ =~= base + exp);
            lemma_expansion_wf(s0, lo, hi, kv, base + exp);
        }
    }
}

/// Replacing a well-formed stack's top directory by the expansion of its
/// children preserves the stack invariant and never lowers progress.
pub proof fn lemma_expansion_wf(s0: Seq<TodoV>, lo: u64, hi: u64, kids: Seq<TodoV>, s1: Seq<TodoV>)
    requires
        stack_wf(s0),
        s0.len() > 0,
        s0.last() is Directory,
        lo == entry_lo(s0.last()),
        hi == entry_hi(s0.last()),
        forall|i: int| 0 <= i < kids.len() ==> entry_sound(#[trigger] kids[i]),
        s1 == s0.drop_last() + expansion(lo, hi, kids),
    ensures
        stack_wf(s1),
        stack_progress(s1) >= stack_progress(s0),
        stack_strict(s0) ==> stack_strict(s1),
{
    let base = s0.drop_last();
    let exp = expansion(lo, hi, kids);
    let n = kids.len() as int;
    assert forall|j: int| 0 <= j < exp.len() implies entry_wf(#[trigger] exp[j]) by {
        lemma_child_point_mono(lo, hi, n, n - 1 - j, n - j);
        lemma_with_range_sound(
            kids[n - 1 - j],
            child_point(lo, hi, n, n - 1 - j) as u64,
            child_point(lo, hi, n, n - j) as u64,
        );
    }
    assert forall|i: int| 0 <= i < s1.len() implies entry_wf(#[trigger] s1[i]) by {
        if i < base.len() {
            assert(s1[i] == s0[i]);
            assert(entry_wf(s0[i]));
        } else {
            assert(s1[i] == exp[i - base.len()]);
        }
    }
    assert forall|i: int| 0 <= i < s1.len() - 1 implies entry_hi(#[trigger] s1[i + 1]) <= entry_lo(
        s1[i],
    ) by {
        if i + 1 < base.len() {
            assert(s1[i] == s0[i] && s1[i + 1] == s0[i + 1]);
            assert(entry_hi(s0[i + 1]) <= entry_lo(s0[i]));
        } else if i + 1 == base.len() {
            // boundary: first expansion entry below the old second-from-top
            assert(s1[i] == s0[i]);
            assert(s1[i + 1] == exp[0]);
            lemma_child_point_mono(lo, hi, n, n - 1, n);
            assert(entry_hi(exp[0]) <= hi);
            assert(entry_hi(s0[s0.len() - 2 + 1]) <= entry_lo(s0[s0.len() - 2]));
            assert(s0.last() == s0[s0.len() - 1]);
        } else {
            let j = i - base.len();
            assert(s1[i] == exp[j] && s1[i + 1] == exp[j + 1]);
            lemma_child_point_mono(lo, hi, n, n - 2 - j, n - 1 - j);
            assert(entry_hi(exp[j + 1]) <= child_point(lo, hi, n, n - 1 - j));
            assert(entry_lo(exp[j]) == child_point(lo, hi, n, n - 1 - j));
        }
    }
    if stack_strict(s0) {
        assert(s0.last() == s0[s0.len() - 1]);
        assert(lo < PROGRESS_FP);
        assert forall|i: int| 0 <= i < s1.len() implies entry_lo(#[trigger] s1[i])
            < PROGRESS_FP by {
            if i < base.len() {
                assert(s1[i] == s0[i]);
                assert(entry_lo(s0[i]) < PROGRESS_FP);
            } else {
                let j = i - base.len();
                assert(s1[i] == exp[j]);
                let w = (hi - lo) as int;
                let idx = n - 1 - j;
                if w > 0 {
                    assert(w * idx / n < w) by (nonlinear_arith)
                        requires
                            0 < w,
                            0 <= idx < n,
                            0 < n,
                    ;
                } else {
                    lemma_child_point_mono(lo, hi, n, idx, idx);
                }
            }
        }
    }
    if exp.len() > 0 {
        lemma_child_point_mono(lo, hi, n, 0, 1);
        assert(s1.last() == exp[exp.len() - 1]);
        assert(entry_lo(s1.last()) == child_point(lo, hi, n, 0));
    } else {
        assert(s1 =~= base);
        if base.len() > 0 {
            assert(entry_hi(s0[s0.len() - 2 + 1]) <= entry_lo(s0[s0.len() - 2]));
            assert(s0.last() == s0[s0.len() - 1]);
        }
    }
}

/// The initial stack satisfies the walker invariant.
pub proof fn lemma_initial_stack_wf(dirs: Seq<DataDirV>)
    requires
        dirs.len() > 0 ==> total_cap(dirs, min_known_cap(dirs)) > 0,
    ensures
        stack_wf(initial_stack(dirs)),
{
    let s = initial_stack(dirs);
    let m = min_known_cap(dirs);
    let t = total_cap(dirs, m);
    let n = dirs.len() as int;
    assert forall|i: int| 0 <= i < s.len() implies entry_wf(#[trigger] s[i]) by {
        lemma_dir_range_point_props(dirs, n - 1 - i);
        lemma_dir_range_point_props(dirs, n - i);
        lemma_dir_range_point_ordered(dirs, n - 1 - i, n - i);
    }
    assert forall|i: int| 0 <= i < s.len() - 1 implies entry_hi(#[trigger] s[i + 1]) <= entry_lo(
        s[i],
    ) by {
        lemma_dir_range_point_props(dirs, n - 1 - i);
    }
}

/// Each range point lies within the fixed-point progress interval.
pub proof fn lemma_dir_range_point_props(dirs: Seq<DataDirV>, i: int)
    requires
        0 <= i <= dirs.len(),
        total_cap(dirs, min_known_cap(dirs)) > 0,
    ensures
        0 <= dir_range_point(dirs, i) <= PROGRESS_FP,
{
    let m = min_known_cap(dirs);
    let t = total_cap(dirs, m);
    let p = prefix_cap(dirs, m, i);
    lemma_total_cap_nonneg(dirs.take(i), m);
    lemma_prefix_cap_le(dirs, m, i);
    assert(0 <= p * (PROGRESS_FP as int) && p * (PROGRESS_FP as int) <= t * (PROGRESS_FP as int)
        && t * (PROGRESS_FP as int) / t == PROGRESS_FP as int) by (nonlinear_arith)
        requires
            0 <= p <= t,
            0 < t,
    ;
    vstd::arithmetic::div_mod::lemma_div_is_ordered(0, p * (PROGRESS_FP as int), t);
    vstd::arithmetic::div_mod::lemma_div_is_ordered(
        p * (PROGRESS_FP as int),
        t * (PROGRESS_FP as int),
        t,
    );
}

/// Range points are ordered as their indices.
pub proof fn lemma_dir_range_point_ordered(dirs: Seq<DataDirV>, i: int, j: int)
    requires
        0 <= i <= j <= dirs.len(),
        total_cap(dirs, min_known_cap(dirs)) > 0,
    ensures
        dir_range_point(dirs, i) <= dir_range_point(dirs, j),
{
    let m = min_known_cap(dirs);
    let t = total_cap(dirs, m);
    lemma_prefix_cap_mono(dirs, m, i, j);
    let pi = prefix_cap(dirs, m, i);
    let pj = prefix_cap(dirs, m, j);
    assert(pi * (PROGRESS_FP as int) <= pj * (PROGRESS_FP as int)) by (nonlinear_arith)
        requires
            pi <= pj,
    ;
    vstd::arithmetic::div_mod::lemma_div_is_ordered(
        pi * (PROGRESS_FP as int),
        pj * (PROGRESS_FP as int),
        t,
    );
}

/// With positive capacities everywhere, every range start lies strictly
/// below the full fixed-point range.
pub proof fn lemma_dir_range_point_strict(dirs: Seq<DataDirV>, i: int)
    requires
        0 <= i < dirs.len(),
        all_caps_positive(dirs),
        total_cap(dirs, min_known_cap(dirs)) > 0,
    ensures
        dir_range_point(dirs, i) < PROGRESS_FP,
{
    let m = min_known_cap(dirs);
    let t = total_cap(dirs, m);
    let p = prefix_cap(dirs, m, i);
    assert(dirs.take(i + 1).drop_last() =~= dirs.take(i));
    assert(dirs.take(i + 1).last() == dirs[i]);
    lemma_prefix_cap_le(dirs, m, i + 1);
    assert(eff_cap(dirs[i], m) > 0);
    assert(p < t);
    lemma_total_cap_nonneg(dirs.take(i), m);
    assert(p * (PROGRESS_FP as int) / t < PROGRESS_FP as int) by (nonlinear_arith)
        requires
            0 <= p < t,
            0 < t,
    ;
}

pub proof fn lemma_prefix_cap_mono(dirs: Seq<DataDirV>, m: u64, i: int, j: int)
    requires
        0 <= i <= j <= dirs.len(),
    ensures
        prefix_cap(dirs, m, i) <= prefix_cap(dirs, m, j),
    decreases j - i,
{
    if i < j {
        assert(dirs.take(i + 1).drop_last() =~= dirs.take(i));
        assert(eff_cap(dirs.take(i + 1).last(), m) >= 0);
        lemma_prefix_cap_mono(dirs, m, i + 1, j);
    }
}

} // verus!
