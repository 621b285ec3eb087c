use sid::{parse, render_labeled, short_labeled, DecodeError, Oid};

#[test]
fn labeled_round_trip_recovers_value() {
    let bytes = [9u8, 8, 7, 6, 5, 4, 3, 2, 1, 0, 255, 254, 253, 252, 251, 250];
    let value = Oid::from_bytes(bytes);
    let rendered = render_labeled("team", &value);
    let back = parse(&rendered).unwrap();
    assert_eq!(back, value);
    let bare = render_labeled("", &value);
    assert_eq!(bare, value.render());
    assert_eq!(parse(&bare).unwrap(), value);
}

#[test]
fn parse_rejects_extra_label_segments() {
    assert_eq!(
        parse("team_extra_0000000000000000000000_0000"),
        Err(DecodeError::InvalidLength)
    );
    assert_eq!(parse("no-underscores-at-all"), Err(DecodeError::InvalidLength));
    assert_eq!(parse("a_b_c_d"), Err(DecodeError::InvalidLength));
}

#[test]
fn parse_propagates_codec_errors() {
    // One separator but the wrong length.
    assert_eq!(parse("0000_0000"), Err(DecodeError::InvalidLength));
    // A label in front of a body that is too short.
    assert_eq!(parse("team_00000000000000_0000"), Err(DecodeError::InvalidLength));
    // A label in front of a body with a character outside the alphabet.
    assert_eq!(
        parse("team_000000000l000000000000_0000"),
        Err(DecodeError::InvalidCharacter('l'))
    );
}

#[test]
fn short_is_the_last_four_symbols() {
    let bytes = [1u8, 2, 3, 4, 5, 6, 7, 8, 9, 10, 11, 12, 13, 14, 15, 16];
    let value = Oid::from_bytes(bytes);
    assert_eq!(value.short(), "w3rg");
    assert_eq!(short_labeled("usr", &value), "usr_w3rg");
    assert_eq!(short_labeled("", &value), "w3rg");
}
