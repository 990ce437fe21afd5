use mutf8::error::{Error, Expected, Mode, Position};
use mutf8::{try_utf8_to_mutf8, utf8_to_mutf8};
use std::borrow::Cow;

fn is_borrowed(data: &Cow<[u8]>) -> bool {
    matches!(data, Cow::Borrowed(_))
}

#[test]
fn ascii_test() {
    let data = utf8_to_mutf8(b"value");
    assert_eq!(data.len(), 5);

    if let Cow::Owned(_) = data {
        panic!("Data not borrowed. [It's just pure ascii which uses the same encoding as utf8]")
    }
}

#[test]
fn nul_test() {
    let data = utf8_to_mutf8(b"\0");
    assert_eq!(data.len(), 2);

    if let Cow::Borrowed(_) = data {
        panic!("Data not owned. [A nul byte needs two bytes in mutf8]")
    }
}

#[test]
fn ascii_without_nul_is_borrowed_and_identical() {
    let input: Vec<u8> = (1u8..0x80).collect();
    let data = utf8_to_mutf8(&input);
    assert!(is_borrowed(&data));
    assert_eq!(&data[..], &input[..]);
}

#[test]
fn nul_is_expanded() {
    let data = utf8_to_mutf8(&[0x61, 0x00, 0x62]);
    assert!(!is_borrowed(&data));
    assert_eq!(&data[..], &[0x61, 0xC0, 0x80, 0x62]);
}

#[test]
fn supplementary_code_point_becomes_surrogate_pair() {
    let data = utf8_to_mutf8(&[0xF0, 0x90, 0x80, 0x80]);
    assert!(!is_borrowed(&data));
    assert_eq!(&data[..], &[0xED, 0xA0, 0x80, 0xED, 0xB0, 0x80]);
}

#[test]
fn last_code_point_becomes_surrogate_pair() {
    // U+10FFFF is F4 8F BF BF, and the surrogates DBFF and DFFF.
    let data = utf8_to_mutf8("\u{10FFFF}".as_bytes());
    assert_eq!(&data[..], &[0xED, 0xAF, 0xBF, 0xED, 0xBF, 0xBF]);
}

#[test]
fn emoji_becomes_surrogate_pair() {
    // U+1F600 is F0 9F 98 80, and the surrogates D83D and DE00.
    let data = utf8_to_mutf8("\u{1F600}".as_bytes());
    assert_eq!(&data[..], &[0xED, 0xA0, 0xBD, 0xED, 0xB8, 0x80]);
}

#[test]
fn empty_input_is_borrowed() {
    let data = utf8_to_mutf8(&[]);
    assert!(is_borrowed(&data));
    assert!(data.is_empty());
    let strict = try_utf8_to_mutf8(&[]).unwrap();
    assert!(is_borrowed(&strict));
    assert!(strict.is_empty());
}

#[test]
fn two_and_three_byte_forms_pass_through() {
    let two = [0xC3, 0xA9];
    let three = [0xE2, 0x82, 0xAC];
    let overlong = [0xC1, 0xBF];
    let surrogate = [0xED, 0xA0, 0x80];
    for form in [&two[..], &three[..], &overlong[..], &surrogate[..]] {
        let data = utf8_to_mutf8(form);
        assert!(is_borrowed(&data));
        assert_eq!(&data[..], form);
    }
}

#[test]
fn text_before_the_first_rewrite_is_kept() {
    let data = utf8_to_mutf8("h\u{e9}\u{20ac}\0x\u{1F600}y".as_bytes());
    assert_eq!(
        &data[..],
        &[
            0x68, 0xC3, 0xA9, 0xE2, 0x82, 0xAC, 0xC0, 0x80, 0x78, 0xED, 0xA0, 0xBD, 0xED, 0xB8,
            0x80, 0x79
        ]
    );
}

#[test]
fn truncated_four_byte_form_reads_zeros() {
    let data = utf8_to_mutf8(&[0xF0, 0x9F]);
    assert!(!is_borrowed(&data));
    assert_eq!(&data[..], &[0xED, 0xA0, 0xBC, 0xED, 0xB0, 0x00]);
}

#[test]
fn truncated_four_byte_form_is_an_error_when_strict() {
    assert_eq!(
        try_utf8_to_mutf8(&[0xF0, 0x9F]),
        Err(Error::EndOfInput(Mode::Encoding, Expected::FourByte, Position::Three))
    );
    assert_eq!(
        try_utf8_to_mutf8(&[0x61, 0xF0]),
        Err(Error::EndOfInput(Mode::Encoding, Expected::FourByte, Position::Two))
    );
    assert_eq!(
        try_utf8_to_mutf8(&[0xF0, 0x9F, 0x98]),
        Err(Error::EndOfInput(Mode::Encoding, Expected::FourByte, Position::Four))
    );
}

#[test]
fn truncated_short_forms_while_copying() {
    assert_eq!(&utf8_to_mutf8(&[0x00, 0xC3])[..], &[0xC0, 0x80, 0xC3, 0x00]);
    assert_eq!(&utf8_to_mutf8(&[0x00, 0xE2])[..], &[0xC0, 0x80, 0xE2, 0x00, 0x00]);
    assert_eq!(&utf8_to_mutf8(&[0x00, 0xE2, 0x82])[..], &[0xC0, 0x80, 0xE2, 0x82, 0x00]);
    assert_eq!(
        try_utf8_to_mutf8(&[0x00, 0xC3]),
        Err(Error::EndOfInput(Mode::Encoding, Expected::TwoByte, Position::Two))
    );
    assert_eq!(
        try_utf8_to_mutf8(&[0x00, 0xE2]),
        Err(Error::EndOfInput(Mode::Encoding, Expected::ThreeByte, Position::Two))
    );
    assert_eq!(
        try_utf8_to_mutf8(&[0x00, 0xE2, 0x82]),
        Err(Error::EndOfInput(Mode::Encoding, Expected::ThreeByte, Position::Three))
    );
}

#[test]
fn truncated_short_forms_while_borrowing_are_not_read() {
    let input = [0x61, 0xC3];
    let lenient = utf8_to_mutf8(&input);
    assert!(is_borrowed(&lenient));
    assert_eq!(&lenient[..], &input[..]);
    let strict = try_utf8_to_mutf8(&input).unwrap();
    assert!(is_borrowed(&strict));
    assert_eq!(&strict[..], &input[..]);
}

#[test]
fn strict_agrees_with_lenient_on_whole_forms() {
    let input = "a\0\u{e9}\u{20ac}\u{10000}".as_bytes();
    let strict = try_utf8_to_mutf8(input).unwrap();
    let lenient = utf8_to_mutf8(input);
    assert_eq!(strict, lenient);
    assert_eq!(is_borrowed(&strict), is_borrowed(&lenient));
}

#[test]
fn bytes_that_lead_no_form() {
    // Kept while borrowing, left out while copying.
    assert_eq!(&utf8_to_mutf8(&[0x80, 0x00])[..], &[0x80, 0xC0, 0x80]);
    assert_eq!(&utf8_to_mutf8(&[0x00, 0x80, 0xFF, 0x41])[..], &[0xC0, 0x80, 0x41]);
    let kept = utf8_to_mutf8(&[0x80, 0xFF]);
    assert!(is_borrowed(&kept));
}

#[test]
fn nul_in_place_of_a_continuation_byte() {
    // While borrowing every byte is looked at; while copying a form takes what follows it.
    assert_eq!(&utf8_to_mutf8(&[0xC3, 0x00])[..], &[0xC3, 0xC0, 0x80]);
    assert_eq!(&utf8_to_mutf8(&[0x00, 0xC3, 0x00])[..], &[0xC0, 0x80, 0xC3, 0x00]);
}

#[test]
fn overlong_four_byte_form_wraps() {
    // The code point is 0: one less than its high bits wraps to all ones.
    assert_eq!(
        &utf8_to_mutf8(&[0xF0, 0x80, 0x80, 0x80])[..],
        &[0xED, 0xAF, 0x80, 0xED, 0xB0, 0x80]
    );
}
