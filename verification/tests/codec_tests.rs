use token_voting::bytes_to_u128;
use token_voting::codec::{u128_to_be_bytes, u128_to_dec_string, u64_to_dec_string};
use token_voting::error::Error;
use token_voting::parse_u128;
use token_voting::storage::{read_u128, write_u128};
use token_voting::voting::{invalid_char, resolve_poll};

#[test]
fn be_bytes_round_trip() {
    for v in [0u128, 1, 255, 256, 12345678901234567890, u128::MAX] {
        let b = u128_to_be_bytes(v);
        assert_eq!(b.len(), 16);
        assert_eq!(bytes_to_u128(b.as_slice()).unwrap(), v);
    }
    assert_eq!(
        u128_to_be_bytes(1),
        vec![0, 0, 0, 0, 0, 0, 0, 0, 0, 0, 0, 0, 0, 0, 0, 1]
    );
}

#[test]
fn wrong_width_is_corrupt_data() {
    for len in [0usize, 1, 15, 17, 32] {
        let data = vec![0u8; len];
        match bytes_to_u128(data.as_slice()) {
            Err(e) => {
                assert_eq!(e, Error::CorruptData);
                assert_eq!(e.message(), "Corrupted data found. 16 byte expected.");
            },
            Ok(_) => panic!("Must return error"),
        }
    }
}

#[test]
fn storage_round_trip() {
    let mut store = cosmwasm_std::MemoryStorage::new();
    write_u128(&mut store, b"amount", 77);
    assert_eq!(read_u128(&store, b"amount").unwrap(), 77);
    // an absent key reads as zero
    assert_eq!(read_u128(&store, b"missing").unwrap(), 0);
    // overwriting replaces the stored amount
    write_u128(&mut store, b"amount", u128::MAX);
    assert_eq!(read_u128(&store, b"amount").unwrap(), u128::MAX);
    // a stored value that is not exactly 16 bytes is corrupt
    cosmwasm_std::Storage::set(&mut store, b"bad", b"123");
    match read_u128(&store, b"bad") {
        Err(e) => assert_eq!(e, Error::CorruptData),
        Ok(_) => panic!("Must return error"),
    }
}

#[test]
fn decimal_rendering() {
    assert_eq!(u128_to_dec_string(0), "0");
    assert_eq!(u128_to_dec_string(7), "7");
    assert_eq!(u128_to_dec_string(10), "10");
    assert_eq!(u128_to_dec_string(340282366920938463463374607431768211455), u128::MAX.to_string());
    assert_eq!(u64_to_dec_string(12345), "12345");
}

#[test]
fn decimal_parsing() {
    assert_eq!(parse_u128("0").unwrap(), 0);
    assert_eq!(parse_u128("123").unwrap(), 123);
    assert_eq!(parse_u128("340282366920938463463374607431768211455").unwrap(), u128::MAX);
    for bad in ["", "12a", "-1", "+1", " 1", "340282366920938463463374607431768211456"] {
        match parse_u128(bad) {
            Err(e) => assert_eq!(e.message(), "Error while parsing string to u128"),
            Ok(_) => panic!("Must return error"),
        }
    }
}

#[test]
fn parse_then_render_round_trip() {
    for s in ["0", "5", "37", "340282366920938463463374607431768211455"] {
        assert_eq!(u128_to_dec_string(parse_u128(s).unwrap()), s);
    }
}

#[test]
fn description_charset() {
    for c in ['a', 'z', '0', '9', '.', '-', '_', ' '] {
        assert!(!invalid_char(c));
    }
    for c in ['A', 'Z', '!', '/', '{', '\u{e9}'] {
        assert!(invalid_char(c));
    }
}

#[test]
fn tally_resolution() {
    // one voter stakes everything and votes yes: passed
    let (passed, reason) = resolve_poll(1000, 0, 30, 1000);
    assert!(passed);
    assert_eq!(reason, "");
    // participation below the quorum: (1 / 1000) * 100 = 0 < 30
    let (passed, reason) = resolve_poll(1, 0, 30, 1000);
    assert!(!passed);
    assert_eq!(reason, "Quorum not reached");
    // quorum met but no strict majority of yes weight
    let (passed, reason) = resolve_poll(0, 1000, 10, 1000);
    assert!(!passed);
    assert_eq!(reason, "Threshold not reached");
    // an exact half is not a strict majority
    let (passed, reason) = resolve_poll(500, 500, 0, 1000);
    assert!(!passed);
    assert_eq!(reason, "Threshold not reached");
    // no votes at all
    let (passed, reason) = resolve_poll(0, 0, 0, 1000);
    assert!(!passed);
    assert_eq!(reason, "No votes");
    let (passed, reason) = resolve_poll(0, 0, 30, 1000);
    assert!(!passed);
    assert_eq!(reason, "Quorum not reached");
}
