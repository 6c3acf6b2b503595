use base64::engine::general_purpose::{STANDARD, STANDARD_NO_PAD};
use base64::Engine;
use mainnet_replay::encoding::{choose_decoding, decode_base64};
use mainnet_replay::key::{explain_pubkey, parse_pubkey, Key};
use solana_pubkey::Pubkey;

#[test]
fn addresses_are_read_from_base_58() {
    let key = parse_pubkey("SysvarRent111111111111111111111111111111111").unwrap();
    assert_eq!(
        key.bytes,
        [
            6, 167, 213, 23, 25, 44, 92, 81, 33, 140, 201, 76, 61, 74, 241, 127, 88, 218, 238, 8,
            155, 161, 253, 68, 227, 219, 217, 138, 0, 0, 0, 0
        ]
    );
    let zeros = parse_pubkey("11111111111111111111111111111111").unwrap();
    assert!(zeros.same(&Key { bytes: [0; 32] }));
    assert!(!zeros.same(&key));
}

#[test]
fn a_text_that_is_no_address_is_quoted() {
    assert_eq!(
        parse_pubkey("abc").unwrap_err(),
        "invalid pubkey abc: String is the wrong size"
    );
    assert_eq!(
        parse_pubkey("0OIl").unwrap_err(),
        "invalid pubkey 0OIl: Invalid Base58 string"
    );
    assert_eq!(
        explain_pubkey("x", Err("reason".to_string())).unwrap_err(),
        "invalid pubkey x: reason"
    );
    let key = Key { bytes: [7; 32] };
    assert!(explain_pubkey("x", Ok(key)).unwrap().same(&key));
}

#[test]
fn padding_makes_no_difference() {
    for (unpadded, padded, bytes) in [
        ("", "", vec![]),
        ("AQ", "AQ==", vec![1]),
        ("AQI", "AQI=", vec![1, 2]),
        ("AQID", "AQID", vec![1, 2, 3]),
        ("+/8", "+/8=", vec![251, 255]),
    ] {
        assert_eq!(decode_base64(unpadded).unwrap(), bytes);
        assert_eq!(decode_base64(padded).unwrap(), bytes);
    }
}

#[test]
fn what_is_no_base64_is_refused_with_the_padded_error() {
    assert_eq!(decode_base64("!!!!").unwrap_err(), "invalid base64: Invalid symbol 33, offset 0.");
    assert_eq!(decode_base64("AQ=").unwrap_err(), "invalid base64: Invalid padding");
    assert!(decode_base64("A").is_err());
    assert!(decode_base64("AQ===").is_err());
}

#[test]
fn the_reading_without_padding_comes_first() {
    let first = || Err("first".to_string());
    let second = || Err("second".to_string());
    assert_eq!(choose_decoding(Ok(vec![1]), Ok(vec![2])).unwrap(), vec![1]);
    assert_eq!(choose_decoding(Ok(vec![1]), second()).unwrap(), vec![1]);
    assert_eq!(choose_decoding(first(), Ok(vec![2])).unwrap(), vec![2]);
    assert_eq!(choose_decoding(first(), second()).unwrap_err(), "invalid base64: second");
}

#[test]
fn encoded_bytes_read_back() {
    for len in 0..50usize {
        let bytes: Vec<u8> = (0..len).map(|i| (i * 83 + len * 7) as u8).collect();
        assert_eq!(decode_base64(&STANDARD.encode(&bytes)).unwrap(), bytes);
        assert_eq!(decode_base64(&STANDARD_NO_PAD.encode(&bytes)).unwrap(), bytes);
    }
    let all: Vec<u8> = (0..=255).collect();
    assert_eq!(decode_base64(&STANDARD.encode(&all)).unwrap(), all);
}

#[test]
fn there_is_one_way_to_write_bytes_but_for_padding() {
    assert_eq!(decode_base64("AQ").unwrap(), vec![1]);
    assert!(decode_base64("AR").is_err());
    assert!(decode_base64("AR==").is_err());
    assert!(decode_base64("AQJ").is_err());
    assert!(decode_base64("AQ =").is_err());
    assert!(decode_base64("AQI=AQI=").is_err());
}

#[test]
fn addresses_read_back_from_their_text() {
    for i in 0..64u8 {
        let mut bytes = [i.wrapping_mul(37); 32];
        for zero in bytes.iter_mut().take(i as usize / 2) {
            *zero = 0;
        }
        let text = Pubkey::new_from_array(bytes).to_string();
        assert_eq!(parse_pubkey(&text).unwrap().bytes, bytes);
        assert!(parse_pubkey(&format!("1{text}")).is_err());
    }
    assert!(parse_pubkey(&"1".repeat(31)).is_err());
    assert!(parse_pubkey(&"1".repeat(33)).is_err());
    assert!(parse_pubkey(&"z".repeat(44)).is_err());
}

#[test]
fn a_foreign_character_is_told_from_a_wrong_size() {
    let wrong_size = |value: &str| {
        assert_eq!(
            parse_pubkey(value).unwrap_err(),
            format!("invalid pubkey {value}: String is the wrong size")
        );
    };
    let foreign = |value: &str| {
        assert_eq!(
            parse_pubkey(value).unwrap_err(),
            format!("invalid pubkey {value}: Invalid Base58 string")
        );
    };
    wrong_size("");
    wrong_size("z");
    wrong_size(&"z".repeat(44));
    wrong_size(&"0".repeat(45));
    wrong_size(&"\u{e9}".repeat(23));
    foreign(&"0".repeat(44));
    foreign(&"\u{e9}".repeat(22));
    foreign("1111111111111111111111111111111I");
    foreign("1111111111111111111111111111111l");
    foreign(" 1111111111111111111111111111111");
}

#[test]
fn every_digit_of_base_58_is_read() {
    let digits = "123456789ABCDEFGHJKLMNPQRSTUVWXYZabcdefghijkmnopqrstuvwxyz";
    assert_eq!(digits.len(), 58);
    for (value, digit) in digits.chars().enumerate().skip(1) {
        let key = parse_pubkey(&format!("{}{digit}", "1".repeat(31))).unwrap();
        let mut bytes = [0; 32];
        bytes[31] = value as u8;
        assert_eq!(key.bytes, bytes);
    }
}
