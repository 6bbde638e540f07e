use burst_miner::encoding::{hex_decode, u64_to_be_bytes};
use burst_miner::long_time::from_seconds;

#[test]
fn from_seconds_formats_durations() {
    assert_eq!(from_seconds(0), "0 years 0 days 0:00:00");
    assert_eq!(from_seconds(59), "0 years 0 days 0:00:59");
    assert_eq!(from_seconds(60), "0 years 0 days 0:01:00");
    assert_eq!(from_seconds(3661), "0 years 0 days 1:01:01");
    assert_eq!(from_seconds(86400), "0 years 1 days 0:00:00");
    assert_eq!(from_seconds(31536000), "1 years 0 days 0:00:00");
    assert_eq!(from_seconds(31536000 + 86400 + 3661), "1 years 1 days 1:01:01");
    assert_eq!(from_seconds(31535999), "0 years 364 days 23:59:59");
    // Hours are not padded, minutes and seconds are.
    assert_eq!(from_seconds(10 * 3600 + 5 * 60 + 4), "0 years 0 days 10:05:04");
}

#[test]
fn hex_decode_both_cases() {
    assert_eq!(hex_decode("00ff"), Some(vec![0x00, 0xff]));
    assert_eq!(hex_decode("DEADbeef"), Some(vec![0xde, 0xad, 0xbe, 0xef]));
    assert_eq!(hex_decode(""), Some(vec![]));
}

#[test]
fn hex_decode_rejects_bad_input() {
    // Odd length.
    assert_eq!(hex_decode("abc"), None);
    // A character outside the hex alphabet.
    assert_eq!(hex_decode("zz"), None);
    assert_eq!(hex_decode("0g"), None);
    // Whitespace is not part of a signature.
    assert_eq!(hex_decode("00 ff"), None);
}

#[test]
fn big_endian_u64_bytes() {
    assert_eq!(u64_to_be_bytes(0), [0; 8]);
    assert_eq!(u64_to_be_bytes(1), [0, 0, 0, 0, 0, 0, 0, 1]);
    assert_eq!(
        u64_to_be_bytes(0x0102030405060708),
        [1, 2, 3, 4, 5, 6, 7, 8]
    );
    assert_eq!(u64_to_be_bytes(u64::MAX), [0xff; 8]);
    assert_eq!(u64_to_be_bytes(500_000), 500_000u64.to_be_bytes());
}
