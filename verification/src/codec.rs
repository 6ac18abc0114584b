//! The byte format of the scrub task's durable state: a versioned record of
//! the scheduling fields plus an optional walker checkpoint, and the walker
//! snapshot on its own. Encoding and decoding are exact inverses, so a
//! checkpoint written mid-scan resumes exactly where it left off; records of
//! the earlier schema are recognized by their version tag and forward
//! migrated on load.
use vstd::prelude::*;

use vstd::bytes::{
    lemma_auto_spec_u32_to_from_le_bytes, lemma_auto_spec_u64_to_from_le_bytes,
    spec_u32_from_le_bytes, spec_u32_to_le_bytes, spec_u64_from_le_bytes, spec_u64_to_le_bytes,
    u32_from_le_bytes, u32_to_le_bytes, u64_from_le_bytes, u64_to_le_bytes,
};
use vstd::utf8::{decode_utf8, encode_utf8, encode_utf8_decode_utf8, encode_utf8_valid_utf8,
    valid_utf8};

use crate::walker::{entry_hi, entry_lo, entry_sound, stack_wf, BlockStoreIterator, BsiTodo, TodoV};
use crate::hexutil::{basename_str, parse_block_file_name};
use crate::textnum::PROGRESS_FP;
use crate::scrub::{ScrubPersistedV, ScrubWorkerPersisted};

verus! {

/// Version tag of a record of the earlier schema (no next-run time, no
/// checkpoint).
pub const RECORD_TAG_PREV: u8 = 1;

/// Version tag of a record of the current schema.
pub const RECORD_TAG_CURRENT: u8 = 2;

// ---- the encoding, as a function on mathematical values ----

pub open spec fn enc_u64(x: u64) -> Seq<u8> {
    spec_u64_to_le_bytes(x)
}

pub open spec fn enc_u32(x: u32) -> Seq<u8> {
    spec_u32_to_le_bytes(x)
}

/// Length-prefixed bytes.
pub open spec fn enc_bytes(b: Seq<u8>) -> Seq<u8> {
    enc_u64(b.len() as u64) + b
}

/// A string: its length-prefixed UTF-8 bytes.
pub open spec fn enc_str(s: Seq<char>) -> Seq<u8> {
    enc_bytes(encode_utf8(s))
}

/// One walker work item: a tag byte, then its fields.
pub open spec fn enc_todo(e: TodoV) -> Seq<u8> {
    match e {
        TodoV::Directory { path, progress_min, progress_max } => seq![0u8] + enc_str(path)
            + enc_u64(progress_min) + enc_u64(progress_max),
        TodoV::File { path, hash, progress } => seq![1u8] + enc_str(path) + enc_bytes(hash)
            + enc_u64(progress),
    }
}

/// The work items in stack order, front first.
pub open spec fn enc_todo_list(s: Seq<TodoV>) -> Seq<u8>
    decreases s.len(),
{
    if s.len() == 0 {
        Seq::empty()
    } else {
        enc_todo(s[0]) + enc_todo_list(s.drop_first())
    }
}

/// A walker snapshot: the entry count, then the entries.
pub open spec fn enc_snapshot(s: Seq<TodoV>) -> Seq<u8> {
    enc_u64(s.len() as u64) + enc_todo_list(s)
}

/// The full record of the current schema.
pub open spec fn enc_record(r: ScrubPersistedV) -> Seq<u8> {
    seq![RECORD_TAG_CURRENT] + enc_u32(r.tranquility) + enc_u64(r.time_last_complete_scrub)
        + enc_u64(r.time_next_run_scrub) + enc_u64(r.corruptions_detected) + match r.checkpoint {
        Some(s) => seq![1u8] + enc_snapshot(s),
        None => seq![0u8],
    }
}

// ---- the decoding, as a function on mathematical values; each step
// yields the value and what remains of the input ----

pub open spec fn dec_u64(b: Seq<u8>) -> Option<(u64, Seq<u8>)> {
    if b.len() >= 8 {
        Some((spec_u64_from_le_bytes(b.take(8)), b.skip(8)))
    } else {
        None
    }
}

pub open spec fn dec_u32(b: Seq<u8>) -> Option<(u32, Seq<u8>)> {
    if b.len() >= 4 {
        Some((spec_u32_from_le_bytes(b.take(4)), b.skip(4)))
    } else {
        None
    }
}

pub open spec fn dec_bytes(b: Seq<u8>) -> Option<(Seq<u8>, Seq<u8>)> {
    match dec_u64(b) {
        None => None,
        Some((n, rest)) => if rest.len() >= n {
            Some((rest.take(n as int), rest.skip(n as int)))
        } else {
            None
        },
    }
}

pub open spec fn dec_str(b: Seq<u8>) -> Option<(Seq<char>, Seq<u8>)> {
    match dec_bytes(b) {
        None => None,
        Some((bytes, rest)) => if valid_utf8(bytes) {
            Some((decode_utf8(bytes), rest))
        } else {
            None
        },
    }
}

pub open spec fn dec_todo(b: Seq<u8>) -> Option<(TodoV, Seq<u8>)> {
    if b.len() < 1 {
        None
    } else if b[0] == 0u8 {
        match dec_str(b.skip(1)) {
            None => None,
            Some((path, r1)) => match dec_u64(r1) {
                None => None,
                Some((lo, r2)) => match dec_u64(r2) {
                    None => None,
                    Some((hi, r3)) => Some(
                        (TodoV::Directory { path, progress_min: lo, progress_max: hi }, r3),
                    ),
                },
            },
        }
    } else if b[0] == 1u8 {
        match dec_str(b.skip(1)) {
            None => None,
            Some((path, r1)) => match dec_bytes(r1) {
                None => None,
                Some((hash, r2)) => match dec_u64(r2) {
                    None => None,
                    Some((progress, r3)) => Some((TodoV::File { path, hash, progress }, r3)),
                },
            },
        }
    } else {
        None
    }
}

pub open spec fn dec_todo_list(b: Seq<u8>, n: nat) -> Option<(Seq<TodoV>, Seq<u8>)>
    decreases n,
{
    if n == 0 {
        Some((Seq::empty(), b))
    } else {
        match dec_todo(b) {
            None => None,
            Some((e, rest)) => match dec_todo_list(rest, (n - 1) as nat) {
                None => None,
                Some((s, rest2)) => Some((seq![e] + s, rest2)),
            },
        }
    }
}

pub open spec fn dec_snapshot(b: Seq<u8>) -> Option<(Seq<TodoV>, Seq<u8>)> {
    match dec_u64(b) {
        None => None,
        Some((n, rest)) => dec_todo_list(rest, n as nat),
    }
}

/// The record, of either schema; a record of the earlier schema is reported
/// with its fields mapped into the current shape: no next-run time is
/// synthesized here (that takes a random draw), so the caller migrates.
pub open spec fn dec_record(b: Seq<u8>) -> Option<(ScrubPersistedV, Seq<u8>)> {
    if b.len() < 1 {
        None
    } else if b[0] == RECORD_TAG_CURRENT {
        match dec_u32(b.skip(1)) {
            None => None,
            Some((tranquility, r1)) => match dec_u64(r1) {
                None => None,
                Some((tlcs, r2)) => match dec_u64(r2) {
                    None => None,
                    Some((tnrs, r3)) => match dec_u64(r3) {
                        None => None,
                        Some((corr, r4)) => if r4.len() < 1 {
                            None
                        } else if r4[0] == 0u8 {
                            Some(
                                (
                                    ScrubPersistedV {
                                        tranquility,
                                        time_last_complete_scrub: tlcs,
                                        time_next_run_scrub: tnrs,
                                        corruptions_detected: corr,
                                        checkpoint: None,
                                    },
                                    r4.skip(1),
                                ),
                            )
                        } else if r4[0] == 1u8 {
                            match dec_snapshot(r4.skip(1)) {
                                None => None,
                                Some((s, rest)) => Some(
                                    (
                                        ScrubPersistedV {
                                            tranquility,
                                            time_last_complete_scrub: tlcs,
                                            time_next_run_scrub: tnrs,
                                            corruptions_detected: corr,
                                            checkpoint: Some(s),
                                        },
                                        rest,
                                    ),
                                ),
                            }
                        } else {
                            None
                        },
                    },
                },
            },
        }
    } else {
        None
    }
}

// ---- round trip: decoding an encoding yields the value back ----

pub proof fn lemma_dec_enc_u64(x: u64, rest: Seq<u8>)
    ensures
        dec_u64(enc_u64(x) + rest) == Some((x, rest)),
{
    lemma_auto_spec_u64_to_from_le_bytes();
    assert((enc_u64(x) + rest).take(8) =~= enc_u64(x));
    assert((enc_u64(x) + rest).skip(8) =~= rest);
}

pub proof fn lemma_dec_enc_u32(x: u32, rest: Seq<u8>)
    ensures
        dec_u32(enc_u32(x) + rest) == Some((x, rest)),
{
    lemma_auto_spec_u32_to_from_le_bytes();
    assert((enc_u32(x) + rest).take(4) =~= enc_u32(x));
    assert((enc_u32(x) + rest).skip(4) =~= rest);
}

pub proof fn lemma_dec_enc_bytes(b: Seq<u8>, rest: Seq<u8>)
    requires
        b.len() <= u64::MAX,
    ensures
        dec_bytes(enc_bytes(b) + rest) == Some((b, rest)),
{
    let whole = enc_bytes(b) + rest;
    assert(whole =~= enc_u64(b.len() as u64) + (b + rest));
    lemma_dec_enc_u64(b.len() as u64, b + rest);
    assert((b + rest).take(b.len() as int) =~= b);
    assert((b + rest).skip(b.len() as int) =~= rest);
}

pub proof fn lemma_dec_enc_str(s: Seq<char>, rest: Seq<u8>)
    requires
        encode_utf8(s).len() <= u64::MAX,
    ensures
        dec_str(enc_str(s) + rest) == Some((s, rest)),
{
    lemma_dec_enc_bytes(encode_utf8(s), rest);
    encode_utf8_valid_utf8(s);
    encode_utf8_decode_utf8(s);
}

/// Side condition under which an entry's encoding stays in range: its
/// variable-length parts are shorter than the length prefix can count.
pub open spec fn todo_encodable(e: TodoV) -> bool {
    match e {
        TodoV::Directory { path, .. } => encode_utf8(path).len() <= u64::MAX,
        TodoV::File { path, hash, .. } => encode_utf8(path).len() <= u64::MAX && hash.len()
            <= u64::MAX,
    }
}

pub open spec fn stack_encodable(s: Seq<TodoV>) -> bool {
    s.len() <= u64::MAX && forall|i: int| 0 <= i < s.len() ==> todo_encodable(#[trigger] s[i])
}

pub proof fn lemma_dec_enc_todo(e: TodoV, rest: Seq<u8>)
    requires
        todo_encodable(e),
    ensures
        dec_todo(enc_todo(e) + rest) == Some((e, rest)),
{
    match e {
        TodoV::Directory { path, progress_min, progress_max } => {
            let whole = enc_todo(e) + rest;
            assert(whole[0] == 0u8);
            assert(whole.skip(1) =~= enc_str(path) + (enc_u64(progress_min) + (enc_u64(
                progress_max,
            ) + rest)));
            lemma_dec_enc_str(path, enc_u64(progress_min) + (enc_u64(progress_max) + rest));
            lemma_dec_enc_u64(progress_min, enc_u64(progress_max) + rest);
            lemma_dec_enc_u64(progress_max, rest);
        },
        TodoV::File { path, hash, progress } => {
            let whole = enc_todo(e) + rest;
            assert(whole[0] == 1u8);
            assert(whole.skip(1) =~= enc_str(path) + (enc_bytes(hash) + (enc_u64(progress)
                + rest)));
            lemma_dec_enc_str(path, enc_bytes(hash) + (enc_u64(progress) + rest));
            lemma_dec_enc_bytes(hash, enc_u64(progress) + rest);
            lemma_dec_enc_u64(progress, rest);
        },
    }
}

pub proof fn lemma_dec_enc_todo_list(s: Seq<TodoV>, rest: Seq<u8>)
    requires
        forall|i: int| 0 <= i < s.len() ==> todo_encodable(#[trigger] s[i]),
    ensures
        dec_todo_list(enc_todo_list(s) + rest, s.len()) == Some((s, rest)),
    decreases s.len(),
{
    if s.len() == 0 {
        assert(enc_todo_list(s) + rest =~= rest);
        assert(dec_todo_list(rest, 0) == Some((Seq::<TodoV>::empty(), rest)));
        assert(s =~= Seq::<TodoV>::empty());
    } else {
        let tail = s.drop_first();
        assert(enc_todo_list(s) + rest =~= enc_todo(s[0]) + (enc_todo_list(tail) + rest));
        lemma_dec_enc_todo(s[0], enc_todo_list(tail) + rest);
        assert(forall|i: int| 0 <= i < tail.len() ==> todo_encodable(#[trigger] tail[i]));
        lemma_dec_enc_todo_list(tail, rest);
        assert(seq![s[0]] + tail =~= s);
    }
}

/// Decoding an encoded walker snapshot yields exactly the snapshot back:
/// the resumed walk is the walk that was checkpointed.
pub proof fn lemma_snapshot_round_trip(s: Seq<TodoV>, rest: Seq<u8>)
    requires
        stack_encodable(s),
    ensures
        dec_snapshot(enc_snapshot(s) + rest) == Some((s, rest)),
{
    assert(enc_snapshot(s) + rest =~= enc_u64(s.len() as u64) + (enc_todo_list(s) + rest));
    lemma_dec_enc_u64(s.len() as u64, enc_todo_list(s) + rest);
    lemma_dec_enc_todo_list(s, rest);
}

/// The record of the earlier schema: its version tag, then its three
/// fields.
pub open spec fn enc_record_prev(tranquility: u32, tlcs: u64, corr: u64) -> Seq<u8> {
    seq![RECORD_TAG_PREV] + enc_u32(tranquility) + enc_u64(tlcs) + enc_u64(corr)
}

pub open spec fn dec_record_prev(b: Seq<u8>) -> Option<((u32, u64, u64), Seq<u8>)> {
    if b.len() < 1 || b[0] != RECORD_TAG_PREV {
        None
    } else {
        match dec_u32(b.skip(1)) {
            None => None,
            Some((tranquility, r1)) => match dec_u64(r1) {
                None => None,
                Some((tlcs, r2)) => match dec_u64(r2) {
                    None => None,
                    Some((corr, r3)) => Some(((tranquility, tlcs, corr), r3)),
                },
            },
        }
    }
}

/// Decoding an encoded record of the earlier schema yields its fields back.
pub proof fn lemma_record_prev_round_trip(tranquility: u32, tlcs: u64, corr: u64, rest: Seq<u8>)
    ensures
        dec_record_prev(enc_record_prev(tranquility, tlcs, corr) + rest) == Some(
            ((tranquility, tlcs, corr), rest),
        ),
{
    let whole = enc_record_prev(tranquility, tlcs, corr) + rest;
    assert(whole[0] == RECORD_TAG_PREV);
    assert(whole.skip(1) =~= enc_u32(tranquility) + (enc_u64(tlcs) + (enc_u64(corr) + rest)));
    lemma_dec_enc_u32(tranquility, enc_u64(tlcs) + (enc_u64(corr) + rest));
    lemma_dec_enc_u64(tlcs, enc_u64(corr) + rest);
    lemma_dec_enc_u64(corr, rest);
}

/// Side condition for the whole record.
pub open spec fn record_encodable(r: ScrubPersistedV) -> bool {
    match r.checkpoint {
        Some(s) => stack_encodable(s),
        None => true,
    }
}

/// Decoding an encoded record yields exactly the record back.
#[verifier::rlimit(60)]
pub proof fn lemma_record_round_trip(r: ScrubPersistedV, rest: Seq<u8>)
    requires
        record_encodable(r),
    ensures
        dec_record(enc_record(r) + rest) == Some((r, rest)),
{
    let whole = enc_record(r) + rest;
    assert(whole[0] == RECORD_TAG_CURRENT);
    match r.checkpoint {
        None => {
            let tail4 = seq![0u8];
            assert(whole.skip(1) =~= enc_u32(r.tranquility) + (enc_u64(
                r.time_last_complete_scrub,
            ) + (enc_u64(r.time_next_run_scrub) + (enc_u64(r.corruptions_detected) + (tail4
                + rest)))));
            lemma_dec_enc_u32(
                r.tranquility,
                enc_u64(r.time_last_complete_scrub) + (enc_u64(r.time_next_run_scrub) + (
                enc_u64(r.corruptions_detected) + (tail4 + rest))),
            );
            lemma_dec_enc_u64(
                r.time_last_complete_scrub,
                enc_u64(r.time_next_run_scrub) + (enc_u64(r.corruptions_detected) + (tail4
                    + rest)),
            );
            lemma_dec_enc_u64(
                r.time_next_run_scrub,
                enc_u64(r.corruptions_detected) + (tail4 + rest),
            );
            lemma_dec_enc_u64(r.corruptions_detected, tail4 + rest);
            assert((tail4 + rest)[0] == 0u8);
            assert((tail4 + rest).skip(1) =~= rest);
        },
        Some(s) => {
            let tail4 = seq![1u8] + enc_snapshot(s);
            assert(whole.skip(1) =~= enc_u32(r.tranquility) + (enc_u64(
                r.time_last_complete_scrub,
            ) + (enc_u64(r.time_next_run_scrub) + (enc_u64(r.corruptions_detected) + (tail4
                + rest)))));
            lemma_dec_enc_u32(
                r.tranquility,
                enc_u64(r.time_last_complete_scrub) + (enc_u64(r.time_next_run_scrub) + (
                enc_u64(r.corruptions_detected) + (tail4 + rest))),
            );
            lemma_dec_enc_u64(
                r.time_last_complete_scrub,
                enc_u64(r.time_next_run_scrub) + (enc_u64(r.corruptions_detected) + (tail4
                    + rest)),
            );
            lemma_dec_enc_u64(
                r.time_next_run_scrub,
                enc_u64(r.corruptions_detected) + (tail4 + rest),
            );
            lemma_dec_enc_u64(r.corruptions_detected, tail4 + rest);
            assert((tail4 + rest)[0] == 1u8);
            assert((tail4 + rest).skip(1) =~= enc_snapshot(s) + rest);
            lemma_snapshot_round_trip(s, rest);
        },
    }
}

// ---- executable encoding ----

fn emit_u64(out: &mut Vec<u8>, x: u64)
    ensures
        final(out)@ == old(out)@ + enc_u64(x),
{
    let mut b = u64_to_le_bytes(x);
    out.append(&mut b);
}

fn emit_u32(out: &mut Vec<u8>, x: u32)
    ensures
        final(out)@ == old(out)@ + enc_u32(x),
{
    let mut b = u32_to_le_bytes(x);
    out.append(&mut b);
}

fn emit_bytes(out: &mut Vec<u8>, b: &Vec<u8>)
    ensures
        final(out)@ == old(out)@ + enc_bytes(b@),
{
    emit_u64(out, b.len() as u64);
    let mut c = crate::hexutil::copy_bytes(b);
    out.append(&mut c);
    proof {
        assert(final(out)@ =~= old(out)@ + enc_bytes(b@));
    }
}

fn emit_str(out: &mut Vec<u8>, s: &str)
    ensures
        final(out)@ == old(out)@ + enc_str(s@),
{
    let bytes = s.as_bytes_vec();
    emit_bytes(out, &bytes);
}

fn emit_todo(out: &mut Vec<u8>, e: &BsiTodo)
    ensures
        final(out)@ == old(out)@ + enc_todo(e@),
{
    match e {
        BsiTodo::Directory { path, progress_min, progress_max } => {
            out.push(0u8);
            emit_str(out, path.as_str());
            emit_u64(out, *progress_min);
            emit_u64(out, *progress_max);
            proof {
                assert(final(out)@ =~= old(out)@ + enc_todo(e@));
            }
        },
        BsiTodo::File { path, hash, progress } => {
            out.push(1u8);
            emit_str(out, path.as_str());
            emit_bytes(out, hash);
            emit_u64(out, *progress);
            proof {
                assert(final(out)@ =~= old(out)@ + enc_todo(e@));
            }
        },
    }
}

pub proof fn lemma_enc_todo_list_snoc(s: Seq<TodoV>, e: TodoV)
    ensures
        enc_todo_list(s.push(e)) == enc_todo_list(s) + enc_todo(e),
    decreases s.len(),
{
    if s.len() == 0 {
        assert(s.push(e)[0] == e);
        assert(s.push(e).drop_first() =~= Seq::empty());
        assert(enc_todo_list(s.push(e).drop_first()) =~= Seq::empty());
        assert(enc_todo_list(s.push(e)) =~= enc_todo_list(s) + enc_todo(e));
    } else {
        assert(s.push(e)[0] == s[0]);
        assert(s.push(e).drop_first() =~= s.drop_first().push(e));
        lemma_enc_todo_list_snoc(s.drop_first(), e);
        assert(enc_todo_list(s.push(e)) =~= enc_todo_list(s) + enc_todo(e));
    }
}

fn emit_todo_vec(out: &mut Vec<u8>, todo: &Vec<BsiTodo>)
    ensures
        final(out)@ == old(out)@ + enc_u64(todo@.len() as u64) + enc_todo_list(
            todo@.map_values(|e: BsiTodo| e@),
        ),
{
    let ghost tv = todo@.map_values(|e: BsiTodo| e@);
    emit_u64(out, todo.len() as u64);
    let mut i: usize = 0;
    while i < todo.len()
        invariant
            0 <= i <= todo@.len(),
            tv == todo@.map_values(|e: BsiTodo| e@),
            out@ == old(out)@ + enc_u64(todo@.len() as u64) + enc_todo_list(tv.take(i as int)),
        decreases todo@.len() - i,
    {
        emit_todo(out, &todo[i]);
        proof {
            assert(tv.take(i + 1) =~= tv.take(i as int).push(tv[i as int]));
            lemma_enc_todo_list_snoc(tv.take(i as int), tv[i as int]);
        }
        i += 1;
    }
    proof {
        assert(tv.take(todo@.len() as int) =~= tv);
    }
}

impl BlockStoreIterator {
    /// The byte serialization of the walker's full stack.
    pub fn encode_snapshot(&self) -> (out: Vec<u8>)
        ensures
            out@ == enc_snapshot(self@),
    {
        let mut out: Vec<u8> = Vec::new();
        emit_todo_vec(&mut out, &self.todo);
        proof {
            assert(out@ =~= enc_snapshot(self@));
        }
        out
    }
}

impl ScrubWorkerPersisted {
    /// The byte serialization of the record, in the current schema.
    pub fn encode(&self) -> (out: Vec<u8>)
        ensures
            out@ == enc_record(self@),
    {
        let mut out: Vec<u8> = Vec::new();
        out.push(RECORD_TAG_CURRENT);
        emit_u32(&mut out, self.tranquility);
        emit_u64(&mut out, self.time_last_complete_scrub);
        emit_u64(&mut out, self.time_next_run_scrub);
        emit_u64(&mut out, self.corruptions_detected);
        match &self.checkpoint {
            None => {
                out.push(0u8);
            },
            Some(it) => {
                out.push(1u8);
                emit_todo_vec(&mut out, &it.todo);
            },
        }
        proof {
            assert(out@ =~= enc_record(self@));
        }
        out
    }
}

/// The byte serialization of a record as the earlier schema wrote it.
pub fn encode_record_prev(tranquility: u32, tlcs: u64, corr: u64) -> (out: Vec<u8>)
    ensures
        out@ == enc_record_prev(tranquility, tlcs, corr),
{
    let mut out: Vec<u8> = Vec::new();
    out.push(RECORD_TAG_PREV);
    emit_u32(&mut out, tranquility);
    emit_u64(&mut out, tlcs);
    emit_u64(&mut out, corr);
    proof {
        assert(out@ =~= enc_record_prev(tranquility, tlcs, corr));
    }
    out
}

// ---- executable decoding ----

/// Relies on String::from_utf8: it succeeds exactly on valid UTF-8 and
/// returns the string of exactly those bytes.
#[verifier::external_body]
fn string_from_utf8(v: Vec<u8>) -> (r: Option<String>)
    ensures
        r is Some <==> valid_utf8(v@),
        r matches Some(s) ==> encode_utf8(s@) == v@,
{
    String::from_utf8(v).ok()
}

fn read_u64(b: &Vec<u8>, pos: usize) -> (r: Option<(u64, usize)>)
    requires
        pos <= b@.len(),
    ensures
        match r {
            Some(v) => pos <= v.1 <= b@.len() && dec_u64(b@.skip(pos as int)) == Some(
                (v.0, b@.skip(v.1 as int)),
            ),
            None => dec_u64(b@.skip(pos as int)) is None,
        },
{
    if b.len() - pos >= 8 {
        let s = vstd::slice::slice_subrange(b.as_slice(), pos, pos + 8);
        let x = u64_from_le_bytes(s);
        proof {
            assert(s@ =~= b@.skip(pos as int).take(8));
            assert(b@.skip(pos as int).skip(8) =~= b@.skip(pos + 8));
        }
        Some((x, pos + 8))
    } else {
        None
    }
}

fn read_u32(b: &Vec<u8>, pos: usize) -> (r: Option<(u32, usize)>)
    requires
        pos <= b@.len(),
    ensures
        match r {
            Some(v) => pos <= v.1 <= b@.len() && dec_u32(b@.skip(pos as int)) == Some(
                (v.0, b@.skip(v.1 as int)),
            ),
            None => dec_u32(b@.skip(pos as int)) is None,
        },
{
    if b.len() - pos >= 4 {
        let s = vstd::slice::slice_subrange(b.as_slice(), pos, pos + 4);
        let x = u32_from_le_bytes(s);
        proof {
            assert(s@ =~= b@.skip(pos as int).take(4));
            assert(b@.skip(pos as int).skip(4) =~= b@.skip(pos + 4));
        }
        Some((x, pos + 4))
    } else {
        None
    }
}

fn read_bytes(b: &Vec<u8>, pos: usize) -> (r: Option<(Vec<u8>, usize)>)
    requires
        pos <= b@.len(),
    ensures
        match r {
            Some(v) => pos <= v.1 <= b@.len() && dec_bytes(b@.skip(pos as int)) == Some(
                (v.0@, b@.skip(v.1 as int)),
            ),
            None => dec_bytes(b@.skip(pos as int)) is None,
        },
{
    match read_u64(b, pos) {
        None => None,
        Some((n, p1)) => {
            if n <= (b.len() - p1) as u64 {
                let nn = n as usize;
                let s = vstd::slice::slice_subrange(b.as_slice(), p1, p1 + nn);
                let v = vstd::slice::slice_to_vec(s);
                proof {
                    assert(s@ =~= b@.skip(p1 as int).take(n as int));
                    assert(b@.skip(p1 as int).skip(n as int) =~= b@.skip(p1 + nn));
                }
                Some((v, p1 + nn))
            } else {
                None
            }
        },
    }
}

fn read_str(b: &Vec<u8>, pos: usize) -> (r: Option<(String, usize)>)
    requires
        pos <= b@.len(),
    ensures
        match r {
            Some(v) => pos <= v.1 <= b@.len() && dec_str(b@.skip(pos as int)) == Some(
                (v.0@, b@.skip(v.1 as int)),
            ),
            None => dec_str(b@.skip(pos as int)) is None,
        },
{
    match read_bytes(b, pos) {
        None => None,
        Some((bytes, p1)) => {
            let ghost bv = bytes@;
            match string_from_utf8(bytes) {
                None => None,
                Some(s) => {
                    proof {
                        encode_utf8_decode_utf8(s@);
                    }
                    Some((s, p1))
                },
            }
        },
    }
}

fn read_todo(b: &Vec<u8>, pos: usize) -> (r: Option<(BsiTodo, usize)>)
    requires
        pos <= b@.len(),
    ensures
        match r {
            Some(v) => pos <= v.1 <= b@.len() && dec_todo(b@.skip(pos as int)) == Some(
                (v.0@, b@.skip(v.1 as int)),
            ),
            None => dec_todo(b@.skip(pos as int)) is None,
        },
{
    if pos >= b.len() {
        return None;
    }
    let tag = b[pos];
    proof {
        assert(b@.skip(pos as int)[0] == b@[pos as int]);
        assert(b@.skip(pos as int).skip(1) =~= b@.skip(pos + 1));
    }
    if tag == 0u8 {
        match read_str(b, pos + 1) {
            None => None,
            Some((path, p1)) => match read_u64(b, p1) {
                None => None,
                Some((lo, p2)) => match read_u64(b, p2) {
                    None => None,
                    Some((hi, p3)) => Some(
                        (
                            BsiTodo::Directory {
                                path,
                                progress_min: lo,
                                progress_max: hi,
                            },
                            p3,
                        ),
                    ),
                },
            },
        }
    } else if tag == 1u8 {
        match read_str(b, pos + 1) {
            None => None,
            Some((path, p1)) => match read_bytes(b, p1) {
                None => None,
                Some((hash, p2)) => match read_u64(b, p2) {
                    None => None,
                    Some((progress, p3)) => Some(
                        (BsiTodo::File { path, hash, progress }, p3),
                    ),
                },
            },
        }
    } else {
        None
    }
}

fn read_todo_vec(b: &Vec<u8>, pos: usize, n: u64) -> (r: Option<(Vec<BsiTodo>, usize)>)
    requires
        pos <= b@.len(),
    ensures
        match r {
            Some(v) => pos <= v.1 <= b@.len() && dec_todo_list(b@.skip(pos as int), n as nat)
                == Some((v.0@.map_values(|e: BsiTodo| e@), b@.skip(v.1 as int))),
            None => dec_todo_list(b@.skip(pos as int), n as nat) is None,
        },
{
    let mut acc: Vec<BsiTodo> = Vec::new();
    let mut cur: usize = pos;
    let mut i: u64 = 0;
    while i < n
        invariant
            0 <= i <= n,
            pos <= cur <= b@.len(),
            dec_todo_list(b@.skip(pos as int), n as nat) == (match dec_todo_list(
                b@.skip(cur as int),
                (n - i) as nat,
            ) {
                None => None::<(Seq<TodoV>, Seq<u8>)>,
                Some((s, rest)) => Some((acc@.map_values(|e: BsiTodo| e@) + s, rest)),
            }),
        decreases n - i,
    {
        let ghost acc0 = acc@.map_values(|e: BsiTodo| e@);
        match read_todo(b, cur) {
            None => {
                return None;
            },
            Some((e, p1)) => {
                acc.push(e);
                cur = p1;
                proof {
                    assert(acc@.map_values(|e2: BsiTodo| e2@) =~= acc0.push(e@));
                    match dec_todo_list(b@.skip(cur as int), (n - i - 1) as nat) {
                        Some(v) => {
                            assert(acc0 + (seq![e@] + v.0) =~= acc0.push(e@) + v.0);
                        },
                        None => {},
                    }
                }
            },
        }
        i += 1;
    }
    proof {
        assert(dec_todo_list(b@.skip(cur as int), 0) == Some(
            (Seq::<TodoV>::empty(), b@.skip(cur as int)),
        ));
        assert(acc@.map_values(|e: BsiTodo| e@) + Seq::<TodoV>::empty() =~= acc@.map_values(
            |e: BsiTodo| e@,
        ));
    }
    Some((acc, cur))
}

/// Whether the decoded stack satisfies the walker invariant; checked on
/// load, so only sound checkpoints are ever resumed.
fn check_stack_wf(todo: &Vec<BsiTodo>) -> (r: bool)
    ensures
        r == stack_wf(todo@.map_values(|e: BsiTodo| e@)),
{
    let ghost tv = todo@.map_values(|e: BsiTodo| e@);
    let mut i: usize = 0;
    while i < todo.len()
        invariant
            0 <= i <= todo@.len(),
            tv == todo@.map_values(|e: BsiTodo| e@),
            forall|j: int| 0 <= j < i ==> crate::walker::entry_wf(#[trigger] tv[j]),
            forall|j: int| 0 <= j < i - 1 ==> entry_hi(#[trigger] tv[j + 1]) <= entry_lo(
                tv[j],
            ),
        decreases todo@.len() - i,
    {
        let (lo, hi) = match &todo[i] {
            BsiTodo::Directory { progress_min, progress_max, .. } => (
                *progress_min,
                *progress_max,
            ),
            BsiTodo::File { progress, .. } => (*progress, *progress),
        };
        if !(lo <= hi && hi <= PROGRESS_FP) {
            proof {
                assert(tv[i as int] == todo@[i as int]@);
                assert(entry_lo(tv[i as int]) == lo && entry_hi(tv[i as int]) == hi);
                assert(!crate::walker::entry_wf(tv[i as int]));
            }
            return false;
        }
        match &todo[i] {
            BsiTodo::Directory { .. } => {},
            BsiTodo::File { path, hash, .. } => {
                let name = basename_str(path.as_str());
                match parse_block_file_name(name.as_str()) {
                    None => {
                        proof {
                            assert(tv[i as int] == todo@[i as int]@);
                            assert(!entry_sound(tv[i as int]));
                            assert(!crate::walker::entry_wf(tv[i as int]));
                        }
                        return false;
                    },
                    Some(h) => {
                        if !crate::hexutil::eq_bytes(&h, hash) {
                            proof {
                                assert(tv[i as int] == todo@[i as int]@);
                                assert(!entry_sound(tv[i as int]));
                                assert(!crate::walker::entry_wf(tv[i as int]));
                            }
                            return false;
                        }
                        proof {
                            assert(tv[i as int] == todo@[i as int]@);
                            assert(entry_sound(tv[i as int]));
                        }
                    },
                }
            },
        }
        if i >= 1 {
            let prev_lo = match &todo[i - 1] {
                BsiTodo::Directory { progress_min, .. } => *progress_min,
                BsiTodo::File { progress, .. } => *progress,
            };
            if !(hi <= prev_lo) {
                proof {
                    assert(tv[i as int] == todo@[i as int]@);
                    assert(tv[i as int - 1] == todo@[i as int - 1]@);
                    assert(entry_hi(tv[i as int]) == hi && entry_lo(tv[i as int - 1])
                        == prev_lo);
                    assert(entry_hi(tv[(i as int - 1) + 1]) > entry_lo(tv[i as int - 1]));
                    assert(!stack_wf(tv));
                }
                return false;
            }
        }
        proof {
            assert(tv[i as int] == todo@[i as int]@);
            assert(crate::walker::entry_wf(tv[i as int]));
        }
        i += 1;
    }
    proof {
        assert(tv.len() == todo@.len());
        assert(stack_wf(tv));
    }
    true
}

impl BlockStoreIterator {
    /// Rebuild a walker from a serialized snapshot. This succeeds exactly
    /// on the byte strings that are whole encodings of a stack satisfying
    /// the walker invariant; the rebuilt walker stands for exactly the
    /// encoded walk.
    pub fn decode_snapshot(bytes: &Vec<u8>) -> (r: Option<Self>)
        ensures
            match dec_snapshot(bytes@) {
                Some(v) => {
                    if v.1.len() == 0 && stack_wf(v.0) {
                        r matches Some(it) && it@ == v.0 && it.wf()
                    } else {
                        r is None
                    }
                },
                None => r is None,
            },
    {
        proof {
            assert(bytes@.skip(0) =~= bytes@);
        }
        match read_u64(bytes, 0) {
            None => None,
            Some((n, p1)) => match read_todo_vec(bytes, p1, n) {
                None => None,
                Some((todo, p2)) => {
                    if p2 != bytes.len() {
                        proof {
                            assert(bytes@.skip(p2 as int).len() != 0);
                        }
                        return None;
                    }
                    if !check_stack_wf(&todo) {
                        return None;
                    }
                    Some(BlockStoreIterator { todo })
                },
            },
        }
    }
}

/// A persisted record as read back from disk: either of the current schema,
/// or the fields of the earlier schema, still to be migrated.
pub enum DecodedRecord {
    Current(ScrubWorkerPersisted),
    Previous(crate::scrub::ScrubWorkerPersistedPrev),
}

/// Decode a persisted record of either schema. A record of the current
/// schema is accepted exactly when the bytes are a whole encoding and any
/// checkpoint in it satisfies the walker invariant; a record of the earlier
/// schema is handed back as such, for the caller to migrate.
pub fn decode_record(bytes: &Vec<u8>) -> (r: Option<DecodedRecord>)
    ensures
        match dec_record(bytes@) {
            Some(v) => {
                if v.1.len() == 0 && (match v.0.checkpoint {
                    Some(s) => stack_wf(s),
                    None => true,
                }) {
                    r matches Some(d) && (d matches DecodedRecord::Current(rec) && rec@ == v.0
                        && (match rec@.checkpoint {
                        Some(s) => stack_wf(s),
                        None => true,
                    }))
                } else {
                    r is None
                }
            },
            None => match dec_record_prev(bytes@) {
                Some(v) => {
                    if v.1.len() == 0 {
                        r matches Some(d) && (d matches DecodedRecord::Previous(p)
                            && p.tranquility == v.0.0 && p.time_last_complete_scrub == v.0.1
                            && p.corruptions_detected == v.0.2)
                    } else {
                        r is None
                    }
                },
                None => r is None,
            },
        },
{
    proof {
        assert(bytes@.skip(0) =~= bytes@);
    }
    if bytes.len() < 1 {
        return None;
    }
    let tag = bytes[0];
    proof {
        assert(bytes@.skip(1).len() == bytes@.len() - 1);
    }
    if tag == RECORD_TAG_CURRENT {
        match read_u32(bytes, 1) {
            None => None,
            Some((tranquility, p1)) => match read_u64(bytes, p1) {
                None => None,
                Some((tlcs, p2)) => match read_u64(bytes, p2) {
                    None => None,
                    Some((tnrs, p3)) => match read_u64(bytes, p3) {
                        None => None,
                        Some((corr, p4)) => {
                            if p4 >= bytes.len() {
                                return None;
                            }
                            let cp_tag = bytes[p4];
                            proof {
                                assert(bytes@.skip(p4 as int)[0] == bytes@[p4 as int]);
                                assert(bytes@.skip(p4 as int).skip(1) =~= bytes@.skip(
                                    p4 + 1,
                                ));
                            }
                            if cp_tag == 0u8 {
                                if p4 + 1 != bytes.len() {
                                    return None;
                                }
                                Some(
                                    DecodedRecord::Current(
                                        ScrubWorkerPersisted {
                                            tranquility,
                                            time_last_complete_scrub: tlcs,
                                            time_next_run_scrub: tnrs,
                                            corruptions_detected: corr,
                                            checkpoint: None,
                                        },
                                    ),
                                )
                            } else if cp_tag == 1u8 {
                                match read_u64(bytes, p4 + 1) {
                                    None => None,
                                    Some((n, p5)) => match read_todo_vec(bytes, p5, n) {
                                        None => None,
                                        Some((todo, p6)) => {
                                            if p6 != bytes.len() {
                                                proof {
                                                    assert(bytes@.skip(p6 as int).len()
                                                        != 0);
                                                }
                                                return None;
                                            }
                                            if !check_stack_wf(&todo) {
                                                return None;
                                            }
                                            Some(
                                                DecodedRecord::Current(
                                                    ScrubWorkerPersisted {
                                                        tranquility,
                                                        time_last_complete_scrub: tlcs,
                                                        time_next_run_scrub: tnrs,
                                                        corruptions_detected: corr,
                                                        checkpoint: Some(
                                                            BlockStoreIterator { todo },
                                                        ),
                                                    },
                                                ),
                                            )
                                        },
                                    },
                                }
                            } else {
                                None
                            }
                        },
                    },
                },
            },
        }
    } else if tag == RECORD_TAG_PREV {
        match read_u32(bytes, 1) {
            None => None,
            Some((tranquility, p1)) => match read_u64(bytes, p1) {
                None => None,
                Some((tlcs, p2)) => match read_u64(bytes, p2) {
                    None => None,
                    Some((corr, p3)) => {
                        if p3 != bytes.len() {
                            return None;
                        }
                        Some(
                            DecodedRecord::Previous(
                                crate::scrub::ScrubWorkerPersistedPrev {
                                    tranquility,
                                    time_last_complete_scrub: tlcs,
                                    corruptions_detected: corr,
                                },
                            ),
                        )
                    },
                },
            },
        }
    } else {
        None
    }
}

} // verus!
