use sid::{base32_decode, base32_encode, DecodeError};
use rand::Rng;

#[test]
fn test_rand() {
    let mut rng = rand::rng();
    for _ in 0..3000000 {
        let mut s = [0u8; 16];
        rng.fill_bytes(&mut s);
        let mut t = [0u8; 16];
        rng.fill_bytes(&mut t);

        // test s round trips
        let s_enc = base32_encode(s);
        let dec = base32_decode(&s_enc).unwrap();
        assert_eq!(dec, s);

        // test t round trips
        let t_enc = base32_encode(t);
        let dec = base32_decode(&t_enc).unwrap();
        assert_eq!(dec, t);

        if s < t {
            assert_eq!(s_enc < t_enc, true);
        } else {
            assert_eq!(s_enc > t_enc, true);
        }
    }
}

#[test]
fn encode_concrete_bytes() {
    let bytes = [1u8, 2, 3, 4, 5, 6, 7, 8, 9, 10, 11, 12, 13, 14, 15, 16];
    assert_eq!(base32_encode(bytes), "01081g81860w40j2gb1g6g_w3rg");
}

#[test]
fn encode_null_is_all_zero_symbols() {
    assert_eq!(base32_encode([0u8; 16]), "0000000000000000000000_0000");
}

#[test]
fn encode_max_is_all_last_symbols() {
    assert_eq!(base32_encode([255u8; 16]), "7zzzzzzzzzzzzzzzzzzzzz_zzzz");
}

#[test]
fn round_trip_concrete() {
    let cases: [[u8; 16]; 4] = [
        [0u8; 16],
        [255u8; 16],
        [1, 2, 3, 4, 5, 6, 7, 8, 9, 10, 11, 12, 13, 14, 15, 16],
        [0, 0, 0, 0, 0, 0, 0, 0, 0, 0, 0, 0, 0, 0, 0, 1],
    ];
    for bytes in cases {
        let enc = base32_encode(bytes);
        assert_eq!(base32_decode(&enc).unwrap(), bytes);
    }
}

#[test]
fn decode_wrong_length_is_invalid_length() {
    assert_eq!(base32_decode(""), Err(DecodeError::InvalidLength));
    assert_eq!(base32_decode("abc"), Err(DecodeError::InvalidLength));
    assert_eq!(
        base32_decode("0000000000000000000000_000"),
        Err(DecodeError::InvalidLength)
    );
    assert_eq!(
        base32_decode("0000000000000000000000_00000"),
        Err(DecodeError::InvalidLength)
    );
}

#[test]
fn decode_misplaced_separator_is_no_separator() {
    assert_eq!(
        base32_decode("000000000000000000000000000"),
        Err(DecodeError::NoSeparator)
    );
    assert_eq!(
        base32_decode("000000000000000000000_00000"),
        Err(DecodeError::NoSeparator)
    );
}

#[test]
fn decode_reports_first_invalid_character() {
    // 'l' is outside the alphabet; the offending character is named.
    assert_eq!(
        base32_decode("00000000l0000000000000_0000"),
        Err(DecodeError::InvalidCharacter('l'))
    );
    // With two bad characters the first one (in string order) is named.
    assert_eq!(
        base32_decode("00i00000l0000000000000_0000"),
        Err(DecodeError::InvalidCharacter('i'))
    );
    // A bad character after the separator is still found and named.
    assert_eq!(
        base32_decode("0000000000000000000000_00O0"),
        Err(DecodeError::InvalidCharacter('O'))
    );
    // Replacing the offender with an alphabet symbol makes decode succeed.
    assert!(base32_decode("00000000b0000000000000_0000").is_ok());
    assert!(base32_decode("00300000l0000000000000_0000").is_err());
    assert!(base32_decode("00300000b0000000000000_0000").is_ok());
}

#[test]
fn decode_rejects_non_ascii() {
    assert_eq!(
        base32_decode("é000000000000000000000_0000"),
        Err(DecodeError::InvalidCharacter('é'))
    );
}

#[test]
fn order_preserved_concrete() {
    let low = [1u8, 2, 3, 4, 5, 6, 7, 8, 9, 10, 11, 12, 13, 14, 15, 16];
    let mut high = low;
    high[15] = 17;
    let mut highest = low;
    highest[0] = 2;
    let e_low = base32_encode(low);
    let e_high = base32_encode(high);
    let e_highest = base32_encode(highest);
    assert!(e_low < e_high);
    assert!(e_high < e_highest);
}
