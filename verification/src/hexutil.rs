//! Hexadecimal names: the block store shards blocks into directories whose
//! names are hex prefixes, and stores each block in a file whose name starts
//! with the 64 hex digits of the block's hash.
use vstd::prelude::*;

verus! {

/// A hexadecimal digit, upper or lower case.
pub open spec fn is_hex_digit(c: char) -> bool {
    (('0' as u32) <= (c as u32) && (c as u32) <= ('9' as u32))
        || (('a' as u32) <= (c as u32) && (c as u32) <= ('f' as u32))
        || (('A' as u32) <= (c as u32) && (c as u32) <= ('F' as u32))
}

/// Numeric value of one hex digit.
pub open spec fn hex_digit_val(c: char) -> u8
    recommends
        is_hex_digit(c),
{
    if ('0' as u32) <= (c as u32) && (c as u32) <= ('9' as u32) {
        ((c as u32) - ('0' as u32)) as u8
    } else if ('a' as u32) <= (c as u32) && (c as u32) <= ('f' as u32) {
        ((c as u32) - ('a' as u32) + 10) as u8
    } else {
        ((c as u32) - ('A' as u32) + 10) as u8
    }
}

/// Every character of `s` is a hex digit.
pub open spec fn is_hex_seq(s: Seq<char>) -> bool {
    forall|i: int| 0 <= i < s.len() ==> is_hex_digit(#[trigger] s[i])
}

/// The byte encoded by a pair of hex digits.
pub open spec fn hex_pair_val(hi: char, lo: char) -> u8
    recommends
        is_hex_digit(hi),
        is_hex_digit(lo),
{
    ((hex_digit_val(hi) as u32) * 16 + (hex_digit_val(lo) as u32)) as u8
}

/// The bytes encoded by a sequence of hex digits, two digits per byte.
pub open spec fn hex_decoded(s: Seq<char>) -> Seq<u8>
    recommends
        s.len() % 2 == 0,
        is_hex_seq(s),
    decreases s.len(),
{
    if s.len() < 2 {
        Seq::empty()
    } else {
        seq![hex_pair_val(s[0], s[1])] + hex_decoded(s.skip(2))
    }
}

/// Decoding yields one byte per two digits.
pub proof fn lemma_hex_decoded_len(s: Seq<char>)
    requires
        s.len() % 2 == 0,
    ensures
        hex_decoded(s).len() == s.len() / 2,
    decreases s.len(),
{
    if s.len() >= 2 {
        lemma_hex_decoded_len(s.skip(2));
    }
}

/// The lower-case hex digit for a value below 16.
pub open spec fn hex_char_of(v: u8) -> char
    recommends
        v < 16,
{
    if v == 0 { '0' } else if v == 1 { '1' } else if v == 2 { '2' } else if v == 3 { '3' }
    else if v == 4 { '4' } else if v == 5 { '5' } else if v == 6 { '6' } else if v == 7 { '7' }
    else if v == 8 { '8' } else if v == 9 { '9' } else if v == 10 { 'a' } else if v == 11 { 'b' }
    else if v == 12 { 'c' } else if v == 13 { 'd' } else if v == 14 { 'e' } else { 'f' }
}

/// Lower-case hex encoding, two digits per byte.
pub open spec fn hex_encoded(b: Seq<u8>) -> Seq<char>
    decreases b.len(),
{
    if b.len() == 0 {
        Seq::empty()
    } else {
        seq![hex_char_of(b[0] / 16), hex_char_of(b[0] % 16)] + hex_encoded(b.drop_first())
    }
}

/// Relies on hex::decode: it succeeds exactly on inputs of even length whose
/// characters are all hex digits (upper or lower case), and then returns one
/// byte per digit pair. hex::decode reads the UTF-8 bytes of `s`; on an input
/// of hex digits only, bytes and characters coincide, and any other character
/// contributes at least one byte that is not a hex digit, so decoding fails.
#[verifier::external_body]
pub(crate) fn hex_decode_str(s: &str) -> (r: Option<Vec<u8>>)
    ensures
        r is Some <==> (s@.len() % 2 == 0 && is_hex_seq(s@)),
        r matches Some(v) ==> v@ == hex_decoded(s@),
{
    hex::decode(s).ok()
}

/// Relies on hex::encode: two lower-case hex digits for each input byte, in
/// input order.
#[verifier::external_body]
pub(crate) fn hex_encode_bytes(b: &[u8]) -> (r: String)
    ensures
        r@ == hex_encoded(b@),
{
    hex::encode(b)
}

/// Whether a directory entry name is a plain hex string (of even length), as
/// the hash-prefix shard directories of the block store are.
pub fn is_hex_name(name: &str) -> (r: bool)
    ensures
        r == (name@.len() % 2 == 0 && is_hex_seq(name@)),
{
    hex_decode_str(name).is_some()
}

/// Length of the prefix of `s` before its first `'.'` (all of `s` if none).
pub open spec fn stem_len(s: Seq<char>) -> int
    decreases s.len(),
{
    if s.len() == 0 {
        0
    } else if s[0] == '.' {
        0
    } else {
        1 + stem_len(s.drop_first())
    }
}

/// The part of a file name before its first `'.'`; a temp-file or similar
/// suffix after the separator is ignored when recognizing block files.
pub open spec fn name_stem(s: Seq<char>) -> Seq<char> {
    s.take(stem_len(s))
}

pub proof fn lemma_stem_len_bounds(s: Seq<char>)
    ensures
        0 <= stem_len(s) <= s.len(),
    decreases s.len(),
{
    if s.len() > 0 && s[0] != '.' {
        lemma_stem_len_bounds(s.drop_first());
    }
}

pub proof fn lemma_stem_len_at(s: Seq<char>, i: int)
    requires
        0 <= i <= s.len(),
        forall|j: int| 0 <= j < i ==> s[j] != '.',
        i == s.len() || s[i] == '.',
    ensures
        stem_len(s) == i,
    decreases s.len(),
{
    if s.len() > 0 && i > 0 {
        lemma_stem_len_at(s.drop_first(), i - 1);
    }
}

/// A file name carries a block hash when the prefix before its first dot is
/// exactly 64 hex digits; the decoded 32 bytes are the hash.
pub open spec fn is_block_file_name(name: Seq<char>) -> bool {
    stem_len(name) == 64 && is_hex_seq(name_stem(name))
}

/// The hash encoded in a block file name.
pub open spec fn block_file_hash(name: Seq<char>) -> Seq<u8> {
    hex_decoded(name_stem(name))
}

/// Recognize a block file: the name's prefix before the first dot must be
/// exactly 64 hex digits, which decode to the 32-byte block hash.
pub fn parse_block_file_name(name: &str) -> (r: Option<Vec<u8>>)
    ensures
        r is Some <==> is_block_file_name(name@),
        r matches Some(v) ==> v@ == block_file_hash(name@) && v@.len() == 32,
{
    let n = name.unicode_len();
    let mut i: usize = 0;
    while i < n && name.get_char(i) != '.'
        invariant
            0 <= i <= n,
            n == name@.len(),
            forall|j: int| 0 <= j < i ==> name@[j] != '.',
        decreases n - i,
    {
        i += 1;
    }
    proof {
        lemma_stem_len_at(name@, i as int);
    }
    if i != 64 {
        return None;
    }
    let stem = name.substring_char(0, 64);
    assert(stem@ == name_stem(name@));
    let r = hex_decode_str(stem);
    proof {
        if r is Some {
            lemma_hex_decoded_len(name_stem(name@));
        }
    }
    r
}

/// An owned copy of a byte vector.
pub fn copy_bytes(v: &Vec<u8>) -> (r: Vec<u8>)
    ensures
        r@ == v@,
{
    let mut r: Vec<u8> = Vec::new();
    let mut i: usize = 0;
    while i < v.len()
        invariant
            0 <= i <= v@.len(),
            r@ == v@.take(i as int),
        decreases v@.len() - i,
    {
        r.push(v[i]);
        proof {
            assert(r@ =~= v@.take(i + 1));
        }
        i += 1;
    }
    proof {
        assert(v@.take(v@.len() as int) =~= v@);
    }
    r
}

/// Join a directory path and an entry name with `'/'`.
pub fn join_path(dir: &str, name: &str) -> (r: String)
    ensures
        r@ == dir@ + seq!['/'] + name@,
{
    proof {
        reveal_strlit("/");
    }
    let mut r = String::from_str(dir);
    r.append("/");
    r.append(name);
    assert(r@ =~= dir@ + seq!['/'] + name@);
    r
}

/// The part of a path after its last `'/'` (the file name).
pub open spec fn basename(p: Seq<char>) -> Seq<char>
    decreases p.len(),
{
    if p.len() == 0 {
        p
    } else if p.last() == '/' {
        Seq::empty()
    } else {
        basename(p.drop_last()).push(p.last())
    }
}

/// The basename is what stands after the last `'/'`.
pub proof fn lemma_basename_after_last_slash(p: Seq<char>, k: int)
    requires
        -1 <= k < p.len(),
        k >= 0 ==> p[k] == '/',
        forall|j: int| k < j < p.len() ==> p[j] != '/',
    ensures
        basename(p) == p.subrange(k + 1, p.len() as int),
    decreases p.len(),
{
    if p.len() == 0 {
        assert(basename(p) =~= p.subrange(k + 1, p.len() as int));
    } else if k == p.len() - 1 {
        assert(p.last() == '/');
        assert(basename(p) =~= p.subrange(k + 1, p.len() as int));
    } else {
        assert(p.last() != '/');
        let q = p.drop_last();
        assert(forall|j: int| k < j < q.len() ==> q[j] != '/');
        lemma_basename_after_last_slash(q, k);
        assert(basename(p) == basename(q).push(p.last()));
        assert(basename(q).push(p.last()) =~= p.subrange(k + 1, p.len() as int));
    }
}

/// The file-name part of a path: what stands after its last `'/'`.
pub fn basename_str(p: &str) -> (r: String)
    ensures
        r@ == basename(p@),
{
    let n = p.unicode_len();
    let mut start: usize = 0;
    let mut i: usize = 0;
    while i < n
        invariant
            0 <= start <= i <= n,
            n == p@.len(),
            start >= 1 ==> p@[start as int - 1] == '/',
            start == 0 ==> forall|j: int| 0 <= j < i ==> p@[j] != '/',
            start >= 1 ==> forall|j: int| start <= j < i ==> p@[j] != '/',
        decreases n - i,
    {
        if p.get_char(i) == '/' {
            start = i + 1;
        }
        i += 1;
    }
    proof {
        lemma_basename_after_last_slash(p@, start as int - 1);
    }
    let r = String::from_str(p.substring_char(start, n));
    assert(r@ =~= basename(p@));
    r
}

/// Whether two byte vectors hold the same bytes.
pub fn eq_bytes(a: &Vec<u8>, b: &Vec<u8>) -> (r: bool)
    ensures
        r == (a@ == b@),
{
    if a.len() != b.len() {
        proof {
            assert(a@.len() != b@.len());
        }
        return false;
    }
    let mut i: usize = 0;
    while i < a.len()
        invariant
            0 <= i <= a@.len(),
            a@.len() == b@.len(),
            forall|j: int| 0 <= j < i ==> a@[j] == b@[j],
        decreases a@.len() - i,
    {
        if a[i] != b[i] {
            return false;
        }
        i += 1;
    }
    proof {
        assert(a@ =~= b@);
    }
    true
}

/// Joining a slash-free name onto a directory path makes it the basename.
pub proof fn lemma_basename_join(dir: Seq<char>, name: Seq<char>)
    requires
        forall|j: int| 0 <= j < name.len() ==> name[j] != '/',
    ensures
        basename(dir + seq!['/'] + name) == name,
    decreases name.len(),
{
    let p = dir + seq!['/'] + name;
    if name.len() == 0 {
        assert(p.last() == '/');
        assert(basename(p) =~= name);
    } else {
        assert(p.last() == name.last());
        assert(p.drop_last() =~= dir + seq!['/'] + name.drop_last());
        lemma_basename_join(dir, name.drop_last());
        assert(basename(p) =~= name.drop_last().push(name.last()));
        assert(name.drop_last().push(name.last()) =~= name);
    }
}

} // verus!
