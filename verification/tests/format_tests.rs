use block_repair::hexutil::{is_hex_name, parse_block_file_name};
use block_repair::textnum::{format_percent_fp, u64_to_dec_string, PROGRESS_FP};
use block_repair::tranquilizer::Tranquilizer;
use block_repair::worker::WorkerState;

#[test]
fn decimal_rendering() {
    assert_eq!(u64_to_dec_string(0), "0");
    assert_eq!(u64_to_dec_string(7), "7");
    assert_eq!(u64_to_dec_string(10), "10");
    assert_eq!(u64_to_dec_string(1_234_567_890), "1234567890");
    assert_eq!(u64_to_dec_string(u64::MAX), "18446744073709551615");
}

#[test]
fn percent_rendering() {
    assert_eq!(format_percent_fp(0), "0.00%");
    assert_eq!(format_percent_fp(PROGRESS_FP), "100.00%");
    assert_eq!(format_percent_fp(PROGRESS_FP / 2), "50.00%");
    assert_eq!(format_percent_fp(PROGRESS_FP / 4), "25.00%");
    // 12.3456789% rounds down to two decimals
    assert_eq!(format_percent_fp(123_456_789), "12.34%");
    assert_eq!(format_percent_fp(1), "0.00%");
    assert_eq!(format_percent_fp(PROGRESS_FP - 1), "99.99%");
}

#[test]
fn hex_name_recognition() {
    // hex::decode accepts the empty string and even-length digit strings of
    // either case, and nothing else
    assert!(is_hex_name(""));
    assert!(is_hex_name("00"));
    assert!(is_hex_name("a1B2"));
    assert!(!is_hex_name("abc"));
    assert!(!is_hex_name("0g"));
    assert!(!is_hex_name("aa "));
}

#[test]
fn block_file_name_recognition() {
    let hash = "00ff00ff00ff00ff00ff00ff00ff00ff00ff00ff00ff00ff00ff00ff00ff00AA";
    let decoded = parse_block_file_name(hash).expect("bare hash name");
    assert_eq!(decoded, hex::decode(hash).unwrap());
    assert_eq!(decoded.len(), 32);
    // a suffix after the first dot is ignored
    let with_suffix = format!("{}.tmp.0", hash);
    assert_eq!(parse_block_file_name(&with_suffix).unwrap(), decoded);
    // wrong stem lengths and non-hex stems are refused
    assert!(parse_block_file_name(&hash[1..]).is_none());
    assert!(parse_block_file_name(&format!("{}0", hash)).is_none());
    assert!(parse_block_file_name(&format!("{}zz", &hash[2..])).is_none());
    assert!(parse_block_file_name("").is_none());
}

#[test]
fn tranquilizer_window_and_pause() {
    let mut t = Tranquilizer::new(3);
    // three steps of 100 ms at tranquility 2: pause is always avg * 2
    let mut clock: u64 = 0;
    for _ in 0..3 {
        t.reset(clock);
        clock += 100;
        assert_eq!(t.tranquilize(clock, 2), 200);
    }
    // a slower step raises the window average: (100 + 100 + 400) / 3 * 2
    t.reset(clock);
    clock += 400;
    assert_eq!(t.tranquilize(clock, 2), 400);
    // tranquility 0 never throttles
    t.reset(clock);
    clock += 50;
    assert_eq!(t.tranquilize(clock, 0), 0);
    assert!(matches!(
        {
            t.reset(clock);
            t.tranquilize_worker(clock + 10, 5)
        },
        WorkerState::Throttled(_)
    ));
    // after clear the window is empty again: an instant step owes nothing
    t.clear();
    t.reset(clock);
    assert_eq!(t.tranquilize(clock, 1000), 0);
}
