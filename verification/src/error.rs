//! The ways in which a conversion between UTF-8 and MUTF-8 can fail.
use std::str::Utf8Error;
use std::string::FromUtf8Error;
use vstd::prelude::*;
use vstd::string::StringExecFns;
use vstd::utf8::{decode_utf8, valid_utf8};

verus! {

/// `std::str::Utf8Error`, carried through opaquely: nothing here looks inside it.
#[verifier::external_type_specification]
#[verifier::external_body]
pub struct ExUtf8Error(Utf8Error);

/// `std::string::FromUtf8Error`, carried through opaquely.
#[verifier::external_type_specification]
#[verifier::external_body]
pub struct ExFromUtf8Error(FromUtf8Error);

/// The direction of a transcoding. Encoding goes to MUTF-8.
#[derive(Debug, Clone, Copy, PartialEq, Eq, Structural)]
pub enum Mode {
    /// UTF-8 is being turned into MUTF-8.
    Encoding,
    /// MUTF-8 is being turned into UTF-8.
    Decoding,
}

/// The multi-byte form that was being read when the input ran out.
#[derive(Debug, Clone, Copy, PartialEq, Eq, Structural)]
pub enum Expected {
    /// A lead byte followed by one more byte, in either encoding.
    TwoByte,
    /// A lead byte followed by two more bytes, in either encoding.
    ThreeByte,
    /// The four-byte form, which only UTF-8 has.
    FourByte,
    /// The pair of three-byte forms by which MUTF-8 writes what UTF-8 writes in four bytes.
    ///
    /// Whether a three-byte form is half of a pair shows in the second byte of each half.
    /// So a pair is known for one when five of its bytes are there, and only its sixth
    /// byte is ever reported missing. Input that ends before that is read as forms of
    /// three bytes, and those are reported.
    SixByte,
}

/// The place, counted from one within its form, of the byte that was missing.
#[derive(Debug, Clone, Copy, PartialEq, Eq, Structural)]
pub enum Position {
    Two,
    Three,
    Four,
    Five,
    Six,
}

/// Why a conversion failed.
#[derive(Debug, PartialEq, Eq)]
pub enum Error {
    /// The input ended inside a multi-byte form.
    EndOfInput(Mode, Expected, Position),
    /// The bytes are not UTF-8 text. `error` is what `std::str::from_utf8` finds wrong
    /// with them. `bytes` holds them where the error has them to itself, and nothing where
    /// they were only borrowed.
    InvalidUtf8 { bytes: Option<Vec<u8>>, error: Utf8Error },
}

/// What `std::str::from_utf8` finds wrong with bytes that are no UTF-8. A `Utf8Error` says
/// up to where the bytes are UTF-8 and how long the sequence is that is not, and so it
/// depends on the bytes alone.
pub uninterp spec fn utf8_cause_of(bytes: Seq<u8>) -> Utf8Error;

/// What `std::str::Utf8Error` prints of itself.
pub uninterp spec fn utf8_error_text(error: Utf8Error) -> Seq<char>;

/// The bytes that a `std::string::FromUtf8Error` hands back: those that were no UTF-8.
pub uninterp spec fn rejected_bytes(error: FromUtf8Error) -> Vec<u8>;

/// What a `std::string::FromUtf8Error` says is wrong with its bytes.
pub uninterp spec fn utf8_cause(error: FromUtf8Error) -> Utf8Error;

/// `std::str::from_utf8` accepts exactly the bytes that are UTF-8, and the text it
/// returns is what they encode. Its error is what it finds wrong with the bytes.
pub assume_specification<'a>[ core::str::from_utf8 ](v: &'a [u8]) -> (r: Result<&'a str, Utf8Error>)
    ensures
        r is Ok <==> valid_utf8(v@),
        r matches Ok(text) ==> text@ == decode_utf8(v@),
        r matches Err(e) ==> e == utf8_cause_of(v@),
;

/// `String::from_utf8` accepts exactly the bytes that are UTF-8, and the text it returns
/// is what they encode. Its error holds the bytes it was given and, as its cause, what
/// `std::str::from_utf8` finds wrong with the same bytes.
pub assume_specification[ String::from_utf8 ](vec: Vec<u8>) -> (r: Result<String, FromUtf8Error>)
    ensures
        r is Ok <==> valid_utf8(vec@),
        r matches Ok(text) ==> text@ == decode_utf8(vec@),
        r matches Err(e) ==> rejected_bytes(e)@ == vec@ && utf8_cause(e) == utf8_cause_of(vec@),
;

/// `FromUtf8Error::into_bytes` returns the bytes that the error holds.
pub assume_specification[ FromUtf8Error::into_bytes ](error: FromUtf8Error) -> (bytes: Vec<u8>)
    ensures
        bytes == rejected_bytes(error),
;

/// `FromUtf8Error::utf8_error` returns the cause that the error holds.
pub assume_specification[ FromUtf8Error::utf8_error ](error: &FromUtf8Error) -> (cause: Utf8Error)
    ensures
        cause == utf8_cause(*error),
;

/// What `error` prints of itself, by the `Display` of `std::str::Utf8Error`.
#[verifier::external_body]
fn describe_utf8_error(error: &Utf8Error) -> (text: String)
    ensures
        text@ == utf8_error_text(*error),
{
    format!("{}", error)
}

impl Mode {
    /// The verb for the direction.
    pub open spec fn verb(self) -> Seq<char> {
        match self {
            Mode::Encoding => "encode"@,
            Mode::Decoding => "decode"@,
        }
    }
}

impl Expected {
    /// The number of bytes of the form, as a word.
    pub open spec fn count_word(self) -> Seq<char> {
        match self {
            Expected::TwoByte => "two"@,
            Expected::ThreeByte => "three"@,
            Expected::FourByte => "four"@,
            Expected::SixByte => "six"@,
        }
    }
}

impl Position {
    /// The place of the byte, as a word.
    pub open spec fn ordinal(self) -> Seq<char> {
        match self {
            Position::Two => "Second"@,
            Position::Three => "Third"@,
            Position::Four => "Fourth"@,
            Position::Five => "Fifth"@,
            Position::Six => "Sixth"@,
        }
    }
}

impl Error {
    /// The text of `message`.
    pub open spec fn message_spec(self) -> Seq<char> {
        match self {
            Error::EndOfInput(mode, expected, position) => "Unexpected end of input. [Unable to "@
                + mode.verb() + " a "@ + expected.count_word() + " byte encoding. ("@
                + position.ordinal() + " byte)]"@,
            Error::InvalidUtf8 { bytes: _, error } =>
                "Invalid UTF-8 input. [Failed to decode string into UTF-8 ("@ + utf8_error_text(
                    error,
                ) + ")]"@,
        }
    }

    /// Describes the error in a sentence: for the end of input, what was being encoded or
    /// decoded and which byte of it was missing; for bytes that are no UTF-8, what
    /// `std::str::Utf8Error` says of them.
    pub fn message(&self) -> (text: String)
        ensures
            text@ == self.message_spec(),
    {
        match self {
            Error::EndOfInput(mode, expected, position) => {
                let mut text = String::from_str("Unexpected end of input. [Unable to ");
                text.append(
                    match mode {
                        Mode::Encoding => "encode",
                        Mode::Decoding => "decode",
                    },
                );
                text.append(" a ");
                text.append(
                    match expected {
                        Expected::TwoByte => "two",
                        Expected::ThreeByte => "three",
                        Expected::FourByte => "four",
                        Expected::SixByte => "six",
                    },
                );
                text.append(" byte encoding. (");
                text.append(
                    match position {
                        Position::Two => "Second",
                        Position::Three => "Third",
                        Position::Four => "Fourth",
                        Position::Five => "Fifth",
                        Position::Six => "Sixth",
                    },
                );
                text.append(" byte)]");
                text
            },
            Error::InvalidUtf8 { bytes: _, error } => {
                let mut text = String::from_str(
                    "Invalid UTF-8 input. [Failed to decode string into UTF-8 (",
                );
                let cause = describe_utf8_error(error);
                text.append(cause.as_str());
                text.append(")]");
                text
            },
        }
    }
}

impl From<Utf8Error> for Error {
    /// Bytes that were only borrowed are not kept: the error holds the cause alone.
    fn from(err: Utf8Error) -> (e: Error) {
        Error::InvalidUtf8 { bytes: None, error: err }
    }
}

impl vstd::std_specs::convert::FromSpecImpl<Utf8Error> for Error {
    open spec fn obeys_from_spec() -> bool {
        true
    }

    open spec fn from_spec(err: Utf8Error) -> Error {
        Error::InvalidUtf8 { bytes: None, error: err }
    }
}

impl From<FromUtf8Error> for Error {
    /// The error holds the cause and the bytes that were given away.
    fn from(err: FromUtf8Error) -> (e: Error) {
        let error = err.utf8_error();
        let bytes = err.into_bytes();
        Error::InvalidUtf8 { bytes: Some(bytes), error }
    }
}

impl vstd::std_specs::convert::FromSpecImpl<FromUtf8Error> for Error {
    open spec fn obeys_from_spec() -> bool {
        true
    }

    open spec fn from_spec(err: FromUtf8Error) -> Error {
        Error::InvalidUtf8 { bytes: Some(rejected_bytes(err)), error: utf8_cause(err) }
    }
}

} // verus!
