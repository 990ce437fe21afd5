//! Strings held as MUTF-8: `MString` owns its bytes, `mstr` borrows them.
use crate::error::{utf8_cause_of, Error, Mode};
use crate::laws::{lemma_conversion_encodes_the_text, lemma_text_is_never_cut_short};
use crate::mutf8::{
    decode_missing, mutf8_of_text, mutf8_to_utf8_spec, try_mutf8_to_utf8, try_utf8_to_mutf8,
    utf8_to_mutf8_spec,
};
use std::borrow::Cow;
use vstd::prelude::*;
use vstd::slice::slice_to_vec;
use vstd::std_specs::cmp::PartialEqSpecImpl;
use vstd::std_specs::convert::FromSpecImpl;
use vstd::utf8::{decode_utf8, valid_utf8};

verus! {

/// `Vec::into_boxed_slice` keeps the elements and their order.
#[verifier::external_body]
fn boxed_slice(bytes: Vec<u8>) -> (boxed: Box<[u8]>)
    ensures
        boxed@ == bytes@,
{
    bytes.into_boxed_slice()
}

/// `String::into_boxed_str` keeps the text.
#[verifier::external_body]
fn boxed_str(text: String) -> (boxed: Box<str>)
    ensures
        boxed@ == text@,
{
    text.into_boxed_str()
}

/// True where the given bytes cannot be turned from MUTF-8 into a `String` or `str`, and
/// `error` says why: the input ends inside a form, or what comes out is no UTF-8, and then
/// the error holds what is wrong with that. `kept` tells whether it also holds the bytes
/// that came out.
pub open spec fn is_decoding_error(mutf8: Seq<u8>, error: Error, kept: bool) -> bool {
    match decode_missing(mutf8) {
        Some((form, place)) => error == Error::EndOfInput(Mode::Decoding, form, place),
        None => {
            &&& !valid_utf8(mutf8_to_utf8_spec(mutf8))
            &&& error matches Error::InvalidUtf8 { bytes, error: cause }
            &&& cause == utf8_cause_of(mutf8_to_utf8_spec(mutf8))
            &&& match bytes {
                Some(held) => kept && held@ == mutf8_to_utf8_spec(mutf8),
                None => !kept,
            }
        },
    }
}

/// True where the given MUTF-8 bytes can be turned into text: no form is cut short, and
/// what comes out is UTF-8.
pub open spec fn is_decodable(mutf8: Seq<u8>) -> bool {
    decode_missing(mutf8) is None && valid_utf8(mutf8_to_utf8_spec(mutf8))
}

/// The text that decodable MUTF-8 bytes hold.
pub open spec fn decoded_text(mutf8: Seq<u8>) -> Seq<char> {
    decode_utf8(mutf8_to_utf8_spec(mutf8))
}

/// A string that owns its MUTF-8 bytes. It takes the bytes on trust: whether they can be
/// turned into UTF-8 shows when that is asked for.
#[derive(Debug, Clone, Hash)]
pub struct MString {
    inner: Vec<u8>,
}

impl View for MString {
    type V = Seq<u8>;

    /// The MUTF-8 bytes.
    closed spec fn view(&self) -> Seq<u8> {
        self.inner@
    }
}

impl PartialEq for MString {
    /// Two strings are equal where their MUTF-8 bytes are.
    fn eq(&self, other: &MString) -> (equal: bool) {
        let equal = self.inner == other.inner;
        proof {
            assert(equal <==> self.inner@ =~= other.inner@);
        }
        equal
    }
}

impl PartialEqSpecImpl for MString {
    open spec fn obeys_eq_spec() -> bool {
        true
    }

    open spec fn eq_spec(&self, other: &MString) -> bool {
        self@ == other@
    }
}

impl Eq for MString {

}

impl MString {
    /// Makes a string of UTF-8 text: it holds the MUTF-8 of the characters of the text.
    /// Bytes that are no UTF-8 are refused with an error that holds a copy of them.
    pub fn from_utf8(input: &[u8]) -> (r: Result<MString, Error>)
        ensures
            r is Ok <==> valid_utf8(input@),
            r matches Ok(string) ==> string@ == utf8_to_mutf8_spec(input@) && string@
                == mutf8_of_text(decode_utf8(input@)),
            r matches Err(e) ==> {
                &&& e matches Error::InvalidUtf8 { bytes: Some(held), error }
                &&& held@ == input@
                &&& error == utf8_cause_of(input@)
            },
    {
        if let Err(error) = std::str::from_utf8(input) {
            return Err(Error::InvalidUtf8 { bytes: Some(slice_to_vec(input)), error });
        }
        proof {
            lemma_text_is_never_cut_short(input@);
            lemma_conversion_encodes_the_text(input@);
        }
        let inner = match try_utf8_to_mutf8(input)? {
            Cow::Borrowed(_) => slice_to_vec(input),
            Cow::Owned(data) => data,
        };
        Ok(MString { inner })
    }

    /// Makes a string of bytes that the caller knows to be MUTF-8. Nothing is checked.
    pub fn from_mutf8(input: Vec<u8>) -> (string: MString)
        ensures
            string@ == input@,
    {
        MString { inner: input }
    }

    /// Makes a string of bytes after checking that they can be turned into text: the
    /// string holds them unchanged, and is refused where `to_utf8` would fail on it.
    pub fn from_mutf8_checked(input: Vec<u8>) -> (r: Result<MString, Error>)
        ensures
            r is Ok <==> is_decodable(input@),
            r matches Ok(string) ==> string@ == input@,
            r matches Err(e) ==> is_decoding_error(input@, e, mutf8_to_utf8_spec(input@) != input@),
    {
        let string = MString { inner: input };
        if let Err(e) = string.as_mstr().to_utf8() {
            return Err(e);
        }
        Ok(string)
    }

    /// Turns the string into a `String`.
    pub fn into_string(self) -> (r: Result<String, Error>)
        ensures
            r is Ok <==> is_decodable(self@),
            r matches Ok(text) ==> text@ == decoded_text(self@),
            r matches Err(e) ==> is_decoding_error(self@, e, true),
    {
        match String::from_utf8(self.into_utf8_bytes()?) {
            Ok(text) => Ok(text),
            Err(e) => Err(Error::from(e)),
        }
    }

    /// Gives the MUTF-8 bytes away.
    pub fn into_mutf8_bytes(self) -> (bytes: Vec<u8>)
        ensures
            bytes@ == self@,
    {
        self.inner
    }

    /// Gives the MUTF-8 bytes away, boxed.
    pub fn into_boxed_mutf8_bytes(self) -> (bytes: Box<[u8]>)
        ensures
            bytes@ == self@,
    {
        boxed_slice(self.inner)
    }

    /// Turns the string into UTF-8 bytes. Whether these are UTF-8 text is not checked.
    pub fn into_utf8_bytes(self) -> (r: Result<Vec<u8>, Error>)
        ensures
            r is Ok <==> decode_missing(self@) is None,
            r matches Ok(bytes) ==> bytes@ == mutf8_to_utf8_spec(self@),
            r matches Err(e) ==> decode_missing(self@) matches Some((form, place)) && e
                == Error::EndOfInput(Mode::Decoding, form, place),
    {
        let bytes = self.inner;
        Ok(
            match try_mutf8_to_utf8(bytes.as_slice())? {
                Cow::Borrowed(_) => bytes,
                Cow::Owned(data) => data,
            },
        )
    }

    /// Turns the string into UTF-8 bytes, boxed. Whether these are UTF-8 text is not
    /// checked.
    pub fn into_boxed_utf8_bytes(self) -> (r: Result<Box<[u8]>, Error>)
        ensures
            r is Ok <==> decode_missing(self@) is None,
            r matches Ok(bytes) ==> bytes@ == mutf8_to_utf8_spec(self@),
            r matches Err(e) ==> decode_missing(self@) matches Some((form, place)) && e
                == Error::EndOfInput(Mode::Decoding, form, place),
    {
        Ok(boxed_slice(self.into_utf8_bytes()?))
    }

    /// A view of the string that borrows its bytes.
    pub fn as_mstr(&self) -> (view: mstr<'_>)
        ensures
            view@ == self@,
    {
        mstr { bytes: self.inner.as_slice() }
    }

    /// Turns the string into a `Box<str>`. The error for bytes that are no UTF-8 holds
    /// the cause alone.
    pub fn into_boxed_str(self) -> (r: Result<Box<str>, Error>)
        ensures
            r is Ok <==> is_decodable(self@),
            r matches Ok(text) ==> text@ == decoded_text(self@),
            r matches Err(e) ==> is_decoding_error(self@, e, false),
    {
        match String::from_utf8(self.into_utf8_bytes()?) {
            Ok(text) => Ok(boxed_str(text)),
            Err(e) => Err(Error::from(e.utf8_error())),
        }
    }

    /// The MUTF-8 bytes.
    pub fn as_mutf8_bytes(&self) -> (bytes: &[u8])
        ensures
            bytes@ == self@,
    {
        self.inner.as_slice()
    }

    /// The string as UTF-8 bytes, borrowed where they are the MUTF-8 bytes. Whether
    /// they are UTF-8 text is not checked.
    pub fn as_utf8_bytes(&self) -> (r: Result<Cow<'_, [u8]>, Error>)
        ensures
            r is Ok <==> decode_missing(self@) is None,
            r matches Ok(bytes) ==> bytes@ == mutf8_to_utf8_spec(self@) && (bytes is Borrowed
                <==> mutf8_to_utf8_spec(self@) == self@),
            r matches Err(e) ==> decode_missing(self@) matches Some((form, place)) && e
                == Error::EndOfInput(Mode::Decoding, form, place),
    {
        try_mutf8_to_utf8(self.inner.as_slice())
    }
}

/// A view of MUTF-8 bytes that it borrows and takes on trust.
#[allow(non_camel_case_types)]
#[derive(Debug, Clone, Copy, Hash)]
pub struct mstr<'a> {
    bytes: &'a [u8],
}

impl<'a> View for mstr<'a> {
    type V = Seq<u8>;

    /// The MUTF-8 bytes.
    closed spec fn view(&self) -> Seq<u8> {
        self.bytes@
    }
}

impl<'a> PartialEq for mstr<'a> {
    /// Two views are equal where their MUTF-8 bytes are.
    fn eq(&self, other: &mstr<'a>) -> (equal: bool) {
        let len = self.bytes.len();
        if other.bytes.len() != len {
            return false;
        }
        let mut i: usize = 0;
        while i < len
            invariant
                len == self.bytes@.len(),
                len == other.bytes@.len(),
                i <= len,
                forall|j: int| 0 <= j < i ==> self.bytes@[j] == other.bytes@[j],
            decreases len - i,
        {
            if self.bytes[i] != other.bytes[i] {
                return false;
            }
            i += 1;
        }
        assert(self.bytes@ =~= other.bytes@);
        true
    }
}

impl<'a> PartialEqSpecImpl for mstr<'a> {
    open spec fn obeys_eq_spec() -> bool {
        true
    }

    open spec fn eq_spec(&self, other: &mstr<'a>) -> bool {
        self@ == other@
    }
}

impl<'a> Eq for mstr<'a> {

}

impl<'a> mstr<'a> {
    /// Makes a string of UTF-8 text: it holds the MUTF-8 of the characters of the text,
    /// and borrows the text where that is its own MUTF-8. Bytes that are no UTF-8 are
    /// refused with an error that holds a copy of them.
    pub fn from_utf8(bytes: &'a [u8]) -> (r: Result<MCow<'a>, Error>)
        ensures
            r is Ok <==> valid_utf8(bytes@),
            r matches Ok(string) ==> {
                &&& string@ == utf8_to_mutf8_spec(bytes@)
                &&& string@ == mutf8_of_text(decode_utf8(bytes@))
                &&& string is Borrowed <==> utf8_to_mutf8_spec(bytes@) == bytes@
            },
            r matches Err(e) ==> {
                &&& e matches Error::InvalidUtf8 { bytes: Some(held), error }
                &&& held@ == bytes@
                &&& error == utf8_cause_of(bytes@)
            },
    {
        if let Err(error) = std::str::from_utf8(bytes) {
            return Err(Error::InvalidUtf8 { bytes: Some(slice_to_vec(bytes)), error });
        }
        proof {
            lemma_text_is_never_cut_short(bytes@);
            lemma_conversion_encodes_the_text(bytes@);
        }
        Ok(
            match try_utf8_to_mutf8(bytes)? {
                Cow::Borrowed(data) => MCow::Borrowed(mstr::from_mutf8(data)),
                Cow::Owned(data) => MCow::Owned(MString::from_mutf8(data)),
            },
        )
    }

    /// Views bytes that the caller knows to be MUTF-8. Nothing is checked or copied.
    pub fn from_mutf8(bytes: &'a [u8]) -> (view: mstr<'a>)
        ensures
            view@ == bytes@,
    {
        mstr { bytes }
    }

    /// The length of the string, in bytes.
    pub fn len(&self) -> (len: usize)
        ensures
            len == self@.len(),
    {
        self.bytes.len()
    }

    /// Whether the string is empty.
    pub fn is_empty(&self) -> (empty: bool)
        ensures
            empty <==> self@.len() == 0,
    {
        self.bytes.len() == 0
    }

    /// The MUTF-8 bytes.
    pub fn as_bytes(&self) -> (bytes: &'a [u8])
        ensures
            bytes@ == self@,
    {
        self.bytes
    }

    /// The string as text. The same as `to_utf8`.
    pub fn to_str(&self) -> (r: Result<Cow<'a, str>, Error>)
        ensures
            r is Ok <==> is_decodable(self@),
            r matches Ok(text) ==> text@ == decoded_text(self@) && (text is Borrowed
                <==> mutf8_to_utf8_spec(self@) == self@),
            r matches Err(e) ==> is_decoding_error(self@, e, mutf8_to_utf8_spec(self@) != self@),
    {
        self.to_utf8()
    }

    /// The string as text, borrowed where the MUTF-8 bytes are their own UTF-8. The error
    /// for bytes that are no UTF-8 holds them where they had to be made.
    pub fn to_utf8(&self) -> (r: Result<Cow<'a, str>, Error>)
        ensures
            r is Ok <==> is_decodable(self@),
            r matches Ok(text) ==> text@ == decoded_text(self@) && (text is Borrowed
                <==> mutf8_to_utf8_spec(self@) == self@),
            r matches Err(e) ==> is_decoding_error(self@, e, mutf8_to_utf8_spec(self@) != self@),
    {
        match try_mutf8_to_utf8(self.bytes)? {
            Cow::Borrowed(data) => match std::str::from_utf8(data) {
                Ok(text) => Ok(Cow::Borrowed(text)),
                Err(e) => Err(Error::from(e)),
            },
            Cow::Owned(data) => match String::from_utf8(data) {
                Ok(text) => Ok(Cow::Owned(text)),
                Err(e) => Err(Error::from(e)),
            },
        }
    }

    /// Copies the bytes into a string that owns them.
    pub fn into_m_string(self) -> (string: MString)
        ensures
            string@ == self@,
    {
        MString { inner: slice_to_vec(self.bytes) }
    }

    /// The byte at `idx`, or `None` where `idx` is not below the length.
    pub fn get(&self, idx: usize) -> (byte: Option<&'a u8>)
        ensures
            idx < self@.len() ==> byte == Some(&self@[idx as int]),
            idx >= self@.len() ==> byte is None,
    {
        if idx < self.bytes.len() {
            Some(&self.bytes[idx])
        } else {
            None
        }
    }

    /// The byte at `idx`, which is below the length.
    pub fn get_unchecked(&self, idx: usize) -> (byte: &'a u8)
        requires
            idx < self@.len(),
        ensures
            *byte == self@[idx as int],
    {
        &self.bytes[idx]
    }

    /// The first byte, or `None` where the string is empty.
    pub fn first(&self) -> (byte: Option<&'a u8>)
        ensures
            self@.len() > 0 ==> byte == Some(&self@[0]),
            self@.len() == 0 ==> byte is None,
    {
        self.get(0)
    }

    /// The last byte, or `None` where the string is empty.
    pub fn last(&self) -> (byte: Option<&'a u8>)
        ensures
            self@.len() > 0 ==> byte == Some(&self@[self@.len() - 1]),
            self@.len() == 0 ==> byte is None,
    {
        let len = self.bytes.len();
        if len > 0 {
            Some(&self.bytes[len - 1])
        } else {
            None
        }
    }
}

/// A string that either borrows its MUTF-8 bytes or owns them.
#[derive(Debug, Clone)]
pub enum MCow<'a> {
    /// The bytes are those of the caller.
    Borrowed(mstr<'a>),
    /// The bytes had to be made.
    Owned(MString),
}

impl<'a> View for MCow<'a> {
    type V = Seq<u8>;

    /// The MUTF-8 bytes.
    open spec fn view(&self) -> Seq<u8> {
        match self {
            MCow::Borrowed(view) => view@,
            MCow::Owned(string) => string@,
        }
    }
}

impl<'a> MCow<'a> {
    /// A view of the string that borrows its bytes.
    pub fn as_mstr(&self) -> (view: mstr<'_>)
        ensures
            view@ == self@,
    {
        match self {
            MCow::Borrowed(view) => *view,
            MCow::Owned(string) => string.as_mstr(),
        }
    }

    /// A string that owns the bytes: they are copied where they were borrowed.
    pub fn into_owned(self) -> (string: MString)
        ensures
            string@ == self@,
    {
        match self {
            MCow::Borrowed(view) => view.into_m_string(),
            MCow::Owned(string) => string,
        }
    }
}

impl<'a> From<MString> for MCow<'a> {
    /// A string that owns its bytes stays as it is.
    fn from(string: MString) -> (held: MCow<'a>) {
        MCow::Owned(string)
    }
}

impl<'a> FromSpecImpl<MString> for MCow<'a> {
    open spec fn obeys_from_spec() -> bool {
        true
    }

    open spec fn from_spec(string: MString) -> MCow<'a> {
        MCow::Owned(string)
    }
}

} // verus!
