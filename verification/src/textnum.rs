//! Decimal rendering of integers and of fixed-point progress values, used by
//! the status reports of the repair and scrub tasks.
use vstd::prelude::*;

use crate::hexutil::hex_char_of;

verus! {

/// Fixed-point denominator for progress values: progress runs over
/// `0 ..= PROGRESS_FP`, standing for the real interval [0, 1].
pub const PROGRESS_FP: u64 = 1_000_000_000;

/// Decimal digits of `n`, most significant first, no leading zeros (a single
/// `'0'` for zero).
pub open spec fn dec_string(n: nat) -> Seq<char>
    decreases n,
{
    if n < 10 {
        seq![hex_char_of(n as u8)]
    } else {
        dec_string(n / 10).push(hex_char_of((n % 10) as u8))
    }
}

/// The percentage rendering of a progress value `fp` (out of `PROGRESS_FP`),
/// with two decimals: whole percents, `'.'`, two digits, `'%'`.
pub open spec fn percent_string(fp: u64) -> Seq<char>
    recommends
        fp <= PROGRESS_FP,
{
    let bp = fp as nat * 10000 / (PROGRESS_FP as nat);
    dec_string(bp / 100) + seq!['.', hex_char_of(((bp / 10) % 10) as u8), hex_char_of(
        (bp % 10) as u8,
    ), '%']
}

fn dec_digit_str(d: u64) -> (r: &'static str)
    requires
        d < 10,
    ensures
        r@ == seq![hex_char_of(d as u8)],
{
    proof {
        reveal_strlit("0");
        reveal_strlit("1");
        reveal_strlit("2");
        reveal_strlit("3");
        reveal_strlit("4");
        reveal_strlit("5");
        reveal_strlit("6");
        reveal_strlit("7");
        reveal_strlit("8");
        reveal_strlit("9");
    }
    let r = if d == 0 { "0" } else if d == 1 { "1" } else if d == 2 { "2" } else if d == 3 {
        "3"
    } else if d == 4 { "4" } else if d == 5 { "5" } else if d == 6 { "6" } else if d == 7 {
        "7"
    } else if d == 8 { "8" } else { "9" };
    assert(r@ =~= seq![hex_char_of(d as u8)]);
    r
}

/// Render `n` in decimal.
pub fn u64_to_dec_string(n: u64) -> (r: String)
    ensures
        r@ == dec_string(n as nat),
    decreases n,
{
    if n < 10 {
        String::from_str(dec_digit_str(n))
    } else {
        let mut r = u64_to_dec_string(n / 10);
        r.append(dec_digit_str(n % 10));
        assert(r@ =~= dec_string((n / 10) as nat).push(hex_char_of((n % 10) as u8)));
        r
    }
}

/// Render a fixed-point progress value as a percentage with two decimals,
/// e.g. half progress as `"50.00%"`.
pub fn format_percent_fp(fp: u64) -> (r: String)
    requires
        fp <= PROGRESS_FP,
    ensures
        r@ == percent_string(fp),
{
    proof {
        reveal_strlit(".");
        reveal_strlit("%");
    }
    let bp: u64 = fp * 10000 / PROGRESS_FP;
    let mut r = u64_to_dec_string(bp / 100);
    r.append(".");
    r.append(dec_digit_str((bp / 10) % 10));
    r.append(dec_digit_str(bp % 10));
    r.append("%");
    assert(r@ =~= percent_string(fp));
    r
}

} // verus!
