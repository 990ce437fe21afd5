use mutf8::error::{Error, Expected, Mode, Position};
use mutf8::{mutf8_to_utf8, try_mutf8_to_utf8, utf8_to_mutf8};
use std::borrow::Cow;

fn borrowed(data: &Cow<[u8]>) -> bool {
    matches!(data, Cow::Borrowed(_))
}

#[test]
fn nul_pair_is_collapsed() {
    let data = mutf8_to_utf8(&[0x61, 0xC0, 0x80, 0x62]);
    assert!(!borrowed(&data));
    assert_eq!(&data[..], &[0x61, 0x00, 0x62]);
}

#[test]
fn surrogate_pair_is_merged() {
    let data = mutf8_to_utf8(&[0xED, 0xA0, 0x80, 0xED, 0xB0, 0x80]);
    assert!(!borrowed(&data));
    assert_eq!(&data[..], &[0xF0, 0x90, 0x80, 0x80]);
}

#[test]
fn last_surrogate_pair_is_merged() {
    let data = mutf8_to_utf8(&[0xED, 0xAF, 0xBF, 0xED, 0xBF, 0xBF]);
    assert_eq!(&data[..], "\u{10FFFF}".as_bytes());
}

#[test]
fn empty_mutf8_is_borrowed() {
    let data = mutf8_to_utf8(&[]);
    assert!(borrowed(&data));
    assert!(data.is_empty());
    let strict = try_mutf8_to_utf8(&[]).unwrap();
    assert!(borrowed(&strict));
    assert!(strict.is_empty());
}

#[test]
fn plain_forms_are_borrowed() {
    let two = [0xC3, 0xA9];
    let three = [0xE2, 0x82, 0xAC];
    let ascii = [0x41, 0x00, 0x7F];
    for form in [&two[..], &three[..], &ascii[..]] {
        let data = mutf8_to_utf8(form);
        assert!(borrowed(&data));
        assert_eq!(&data[..], form);
    }
}

#[test]
fn round_trip_of_text() {
    let texts = [
        "",
        "value",
        "Hello, \0World!",
        "\0",
        "h\u{e9}llo \u{20ac} \u{10000} \u{1F600} \u{10FFFF}",
        "\u{7ff}\u{800}\u{d7ff}\u{e000}\u{ffff}",
    ];
    for text in texts {
        let encoded = utf8_to_mutf8(text.as_bytes());
        let decoded = mutf8_to_utf8(&encoded);
        assert_eq!(&decoded[..], text.as_bytes());
    }
}

#[test]
fn round_trip_of_every_plane() {
    let mut text = String::new();
    let mut code: u32 = 0;
    while code <= 0x10FFFF {
        if let Some(c) = char::from_u32(code) {
            text.push(c);
        }
        code += 0x3FF;
    }
    let encoded = utf8_to_mutf8(text.as_bytes());
    assert!(!encoded.contains(&0));
    assert!(encoded.iter().all(|b| *b < 0xF0));
    let decoded = try_mutf8_to_utf8(&encoded).unwrap();
    assert_eq!(&decoded[..], text.as_bytes());
}

#[test]
fn the_whole_pair_is_consumed() {
    // The sixth byte gives its low six bits and is not read again.
    let data = mutf8_to_utf8(&[0xED, 0xA0, 0x80, 0xED, 0xB0, 0x41, 0x42]);
    assert_eq!(&data[..], &[0xF0, 0x90, 0x80, 0x81, 0x42]);
}

#[test]
fn a_pair_without_its_last_byte_is_merged() {
    // Both marks are there: the sixth byte is read as zero.
    let input = [0xED, 0xA0, 0x80, 0xED, 0xB0];
    let data = mutf8_to_utf8(&input);
    assert!(!borrowed(&data));
    assert_eq!(&data[..], &[0xF0, 0x90, 0x80, 0x80]);
    assert_eq!(
        try_mutf8_to_utf8(&input),
        Err(Error::EndOfInput(Mode::Decoding, Expected::SixByte, Position::Six))
    );
    let behind = [0x61, 0xC0, 0x80, 0xED, 0xAF, 0xBF, 0xED, 0xBF];
    assert_eq!(&mutf8_to_utf8(&behind)[..], &[0x61, 0x00, 0xF4, 0x8F, 0xBF, 0x80]);
    assert_eq!(
        try_mutf8_to_utf8(&behind),
        Err(Error::EndOfInput(Mode::Decoding, Expected::SixByte, Position::Six))
    );
}

#[test]
fn a_pair_that_ends_before_its_second_mark_is_not_merged() {
    let input = [0xED, 0xA0, 0x80, 0xED];
    let data = mutf8_to_utf8(&input);
    assert!(borrowed(&data));
    assert_eq!(&data[..], &input[..]);
    assert_eq!(
        try_mutf8_to_utf8(&input),
        Err(Error::EndOfInput(Mode::Decoding, Expected::ThreeByte, Position::Two))
    );
    let alone = [0x41, 0xED, 0xA0, 0x80];
    let data = try_mutf8_to_utf8(&alone).unwrap();
    assert!(borrowed(&data));
    assert_eq!(&data[..], &alone[..]);
}

#[test]
fn lone_surrogates_pass_through() {
    let high = [0xED, 0xA0, 0x80, 0x41, 0x42, 0x43];
    let low = [0xED, 0xB0, 0x80, 0xED, 0xA0, 0x80];
    for input in [&high[..], &low[..]] {
        let data = mutf8_to_utf8(input);
        assert!(borrowed(&data));
        assert_eq!(&data[..], input);
    }
}

#[test]
fn truncated_forms_read_zeros_while_copying() {
    assert_eq!(&mutf8_to_utf8(&[0xC0, 0x80, 0xC3])[..], &[0x00, 0xC3, 0x00]);
    assert_eq!(&mutf8_to_utf8(&[0xC0, 0x80, 0xE2])[..], &[0x00, 0xE2, 0x00, 0x00]);
    assert_eq!(&mutf8_to_utf8(&[0xC0, 0x80, 0xE2, 0x82])[..], &[0x00, 0xE2, 0x82, 0x00]);
    let kept = mutf8_to_utf8(&[0x41, 0xC3]);
    assert!(borrowed(&kept));
    assert_eq!(&kept[..], &[0x41, 0xC3]);
}

#[test]
fn truncated_forms_are_errors_when_strict() {
    assert_eq!(
        try_mutf8_to_utf8(&[0x41, 0xC3]),
        Err(Error::EndOfInput(Mode::Decoding, Expected::TwoByte, Position::Two))
    );
    assert_eq!(
        try_mutf8_to_utf8(&[0xE2]),
        Err(Error::EndOfInput(Mode::Decoding, Expected::ThreeByte, Position::Two))
    );
    assert_eq!(
        try_mutf8_to_utf8(&[0xC0, 0x80, 0xE2, 0x82]),
        Err(Error::EndOfInput(Mode::Decoding, Expected::ThreeByte, Position::Three))
    );
}

#[test]
fn strict_decoding_agrees_with_lenient_on_whole_forms() {
    let input = [0x61, 0xC0, 0x80, 0xC3, 0xA9, 0xED, 0xA0, 0xBD, 0xED, 0xB8, 0x80];
    let strict = try_mutf8_to_utf8(&input).unwrap();
    assert_eq!(&strict[..], "a\0\u{e9}\u{1F600}".as_bytes());
    assert_eq!(strict, mutf8_to_utf8(&input));
}

#[test]
fn bytes_that_lead_no_mutf8_form() {
    // Kept while borrowing, left out while copying. MUTF-8 has no four-byte form.
    let kept = mutf8_to_utf8(&[0x80, 0xF0, 0xFF]);
    assert!(borrowed(&kept));
    assert_eq!(&mutf8_to_utf8(&[0x80, 0xC0, 0x80])[..], &[0x80, 0x00]);
    assert_eq!(&mutf8_to_utf8(&[0xC0, 0x80, 0x80, 0xF0, 0x41])[..], &[0x00, 0x41]);
}
