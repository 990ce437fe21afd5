use mutf8::error::{Error, Expected, Mode, Position};
use mutf8::{try_mutf8_to_utf8, try_utf8_to_mutf8};

fn end(mode: Mode, expected: Expected, position: Position) -> String {
    Error::EndOfInput(mode, expected, position).message()
}

#[test]
fn messages_for_the_end_of_input_while_encoding() {
    assert_eq!(
        end(Mode::Encoding, Expected::TwoByte, Position::Two),
        "Unexpected end of input. [Unable to encode a two byte encoding. (Second byte)]"
    );
    assert_eq!(
        end(Mode::Encoding, Expected::ThreeByte, Position::Two),
        "Unexpected end of input. [Unable to encode a three byte encoding. (Second byte)]"
    );
    assert_eq!(
        end(Mode::Encoding, Expected::ThreeByte, Position::Three),
        "Unexpected end of input. [Unable to encode a three byte encoding. (Third byte)]"
    );
    assert_eq!(
        end(Mode::Encoding, Expected::FourByte, Position::Two),
        "Unexpected end of input. [Unable to encode a four byte encoding. (Second byte)]"
    );
    assert_eq!(
        end(Mode::Encoding, Expected::FourByte, Position::Three),
        "Unexpected end of input. [Unable to encode a four byte encoding. (Third byte)]"
    );
    assert_eq!(
        end(Mode::Encoding, Expected::FourByte, Position::Four),
        "Unexpected end of input. [Unable to encode a four byte encoding. (Fourth byte)]"
    );
}

#[test]
fn messages_for_the_end_of_input_while_decoding() {
    assert_eq!(
        end(Mode::Decoding, Expected::TwoByte, Position::Two),
        "Unexpected end of input. [Unable to decode a two byte encoding. (Second byte)]"
    );
    assert_eq!(
        end(Mode::Decoding, Expected::ThreeByte, Position::Two),
        "Unexpected end of input. [Unable to decode a three byte encoding. (Second byte)]"
    );
    assert_eq!(
        end(Mode::Decoding, Expected::ThreeByte, Position::Three),
        "Unexpected end of input. [Unable to decode a three byte encoding. (Third byte)]"
    );
    assert_eq!(
        end(Mode::Decoding, Expected::SixByte, Position::Four),
        "Unexpected end of input. [Unable to decode a six byte encoding. (Fourth byte)]"
    );
    assert_eq!(
        end(Mode::Decoding, Expected::SixByte, Position::Five),
        "Unexpected end of input. [Unable to decode a six byte encoding. (Fifth byte)]"
    );
    assert_eq!(
        end(Mode::Decoding, Expected::SixByte, Position::Six),
        "Unexpected end of input. [Unable to decode a six byte encoding. (Sixth byte)]"
    );
}

#[test]
fn message_of_an_error_that_a_conversion_gave() {
    let error = try_utf8_to_mutf8(&[0xF0, 0x9F]).unwrap_err();
    assert_eq!(
        error.message(),
        "Unexpected end of input. [Unable to encode a four byte encoding. (Third byte)]"
    );
    let error = try_mutf8_to_utf8(&[0xC3]).unwrap_err();
    assert_eq!(
        error.message(),
        "Unexpected end of input. [Unable to decode a two byte encoding. (Second byte)]"
    );
}

#[test]
fn message_for_bytes_that_are_no_utf8() {
    let cause = std::str::from_utf8(&[0x61, 0xFF]).unwrap_err();
    let error = Error::from(cause);
    assert_eq!(
        error.message(),
        format!("Invalid UTF-8 input. [Failed to decode string into UTF-8 ({})]", cause)
    );
    assert!(error.message().contains("index 1"));
}

#[test]
fn error_from_borrowed_bytes_holds_the_cause_alone() {
    let cause = std::str::from_utf8(&[0xC3]).unwrap_err();
    assert_eq!(Error::from(cause), Error::InvalidUtf8 { bytes: None, error: cause });
}

#[test]
fn error_from_owned_bytes_holds_them() {
    let bytes = vec![0x61, 0x62, 0xED, 0xA0, 0x80];
    let refused = String::from_utf8(bytes.clone()).unwrap_err();
    let cause = refused.utf8_error();
    assert_eq!(Error::from(refused), Error::InvalidUtf8 { bytes: Some(bytes), error: cause });
    assert_eq!(cause.valid_up_to(), 2);
}
