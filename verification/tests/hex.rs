use messenger::hex::{decode_hex, encode_hex, hex_nibble, HexError};

#[test]
fn hex_round_trip_and_rejects_invalid() {
    let value = [0x00, 0xab, 0xff];
    assert_eq!(decode_hex(&encode_hex(&value)).unwrap(), value);
    assert!(decode_hex("0").is_err());
    assert!(decode_hex("zz").is_err());
}

#[test]
fn hex_accepts_both_cases_and_names_errors() {
    assert_eq!(encode_hex(&[0x0f, 0xa0]), "0fa0");
    assert_eq!(decode_hex("0FA0").unwrap(), vec![0x0f, 0xa0]);
    assert_eq!(decode_hex("abc"), Err(HexError::OddLength));
    assert_eq!(decode_hex("0g"), Err(HexError::InvalidDigit));
    assert_eq!(hex_nibble(b'F'), Ok(15));
    assert_eq!(hex_nibble(b'x'), Err(HexError::InvalidDigit));
}
