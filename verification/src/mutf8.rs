//! The transcoding engine: what each conversion yields, and the scans that compute it.
use crate::error::{Error, Expected, Mode, Position};
use std::borrow::Cow;
use vstd::prelude::*;
use vstd::slice::{slice_subrange, slice_to_vec};
use vstd::utf8::{
    codepoint_width_4, encode_scalar, is_leading_byte_width_1, is_leading_byte_width_2,
    is_leading_byte_width_3, is_leading_byte_width_4, last_continuation_byte,
    leading_byte_width_3, leading_byte_width_4, second_last_continuation_byte,
    third_last_continuation_byte,
};

verus! {

/// The UTF-16 code unit that leads the surrogate pair of a code point above U+FFFF.
pub open spec fn high_surrogate(scalar: u32) -> u32 {
    (0xD800 + ((scalar - 0x10000) as u32 >> 10)) as u32
}

/// The UTF-16 code unit that ends the surrogate pair of a code point above U+FFFF.
pub open spec fn low_surrogate(scalar: u32) -> u32 {
    (0xDC00 + (scalar & 0x3FF)) as u32
}

/// The three bytes that hold the sixteen bits of `unit` in the layout of UTF-8.
pub open spec fn three_byte_form(unit: u32) -> Seq<u8> {
    seq![
        leading_byte_width_3(unit),
        second_last_continuation_byte(unit),
        last_continuation_byte(unit),
    ]
}

/// The MUTF-8 bytes of one character: `C0 80` for NUL, the two surrogates of its UTF-16
/// form for a character above U+FFFF, and its UTF-8 bytes for any other.
pub open spec fn mutf8_of_scalar(scalar: u32) -> Seq<u8> {
    if scalar == 0 {
        seq![0xC0u8, 0x80u8]
    } else if scalar >= 0x10000 {
        three_byte_form(high_surrogate(scalar)) + three_byte_form(low_surrogate(scalar))
    } else {
        encode_scalar(scalar)
    }
}

/// The MUTF-8 bytes of a text: those of its characters, one after the other.
pub open spec fn mutf8_of_text(text: Seq<char>) -> Seq<u8>
    decreases text.len(),
{
    if text.len() == 0 {
        Seq::empty()
    } else {
        mutf8_of_scalar(text[0] as u32) + mutf8_of_text(text.drop_first())
    }
}

/// The byte of `s` at `i`, or zero where `s` has ended: how a lenient scan reads.
pub open spec fn byte_or_zero(s: Seq<u8>, i: int) -> u8 {
    if 0 <= i < s.len() {
        s[i]
    } else {
        0
    }
}

/// The place of the first byte that is missing from a form of which `present` bytes are there.
pub open spec fn missing_position(present: int) -> Position {
    if present <= 1 {
        Position::Two
    } else if present == 2 {
        Position::Three
    } else if present == 3 {
        Position::Four
    } else if present == 4 {
        Position::Five
    } else {
        Position::Six
    }
}

/// The second byte of the high surrogate's form for the code point `bits`: the marker
/// `A0` and, in its low four bits, one less than what `bits` holds above bit 15.
pub open spec fn high_surrogate_second(bits: u32) -> u8 {
    (0xA0 + ((bits >> 16).wrapping_sub(1) & 0x0F)) as u8
}

/// The third byte of the high surrogate's form: bits 10 to 15 of `bits`.
pub open spec fn high_surrogate_third(bits: u32) -> u8 {
    (0x80 + ((bits >> 10) & 0x3F)) as u8
}

/// The second byte of the low surrogate's form: the marker `B0` and bits 6 to 9 of `bits`.
pub open spec fn low_surrogate_second(bits: u32) -> u8 {
    (0xB0 + ((bits >> 6) & 0x0F)) as u8
}

/// The six bytes by which MUTF-8 writes the code point of a four-byte UTF-8 form: the high
/// surrogate and the low surrogate, each as a three-byte form. The last byte is the last
/// byte of the four.
pub open spec fn surrogate_pair(b1: u8, b2: u8, b3: u8, b4: u8) -> Seq<u8> {
    let bits = codepoint_width_4(b1, b2, b3, b4);
    seq![
        0xEDu8,
        high_surrogate_second(bits),
        high_surrogate_third(bits),
        0xEDu8,
        low_surrogate_second(bits),
        b4,
    ]
}

/// True of the bytes that UTF-8 and MUTF-8 write differently: NUL, and the lead byte of a
/// four-byte form.
pub open spec fn needs_rewrite(b: u8) -> bool {
    b == 0 || is_leading_byte_width_4(b)
}

/// The number of bytes of the UTF-8 form that `lead` announces. A byte that leads no form
/// stands alone.
pub open spec fn utf8_form_width(lead: u8) -> int {
    if is_leading_byte_width_2(lead) {
        2
    } else if is_leading_byte_width_3(lead) {
        3
    } else if is_leading_byte_width_4(lead) {
        4
    } else {
        1
    }
}

/// The multi-byte UTF-8 form that `lead` announces.
pub open spec fn utf8_form_kind(lead: u8) -> Expected {
    if is_leading_byte_width_2(lead) {
        Expected::TwoByte
    } else if is_leading_byte_width_3(lead) {
        Expected::ThreeByte
    } else {
        Expected::FourByte
    }
}

/// What copying writes for the form at the head of `s`, which is not empty. Bytes that
/// the form lacks are read as zero; a byte that leads no form is left out.
pub open spec fn encode_form(s: Seq<u8>) -> Seq<u8> {
    let b1 = s[0];
    if b1 == 0 {
        seq![0xC0u8, 0x80u8]
    } else if is_leading_byte_width_1(b1) {
        seq![b1]
    } else if is_leading_byte_width_2(b1) {
        seq![b1, byte_or_zero(s, 1)]
    } else if is_leading_byte_width_3(b1) {
        seq![b1, byte_or_zero(s, 1), byte_or_zero(s, 2)]
    } else if is_leading_byte_width_4(b1) {
        surrogate_pair(b1, byte_or_zero(s, 1), byte_or_zero(s, 2), byte_or_zero(s, 3))
    } else {
        Seq::empty()
    }
}

/// How many bytes of `s`, which is not empty, the form at its head takes up.
pub open spec fn encode_form_extent(s: Seq<u8>) -> int {
    if utf8_form_width(s[0]) <= s.len() {
        utf8_form_width(s[0])
    } else {
        s.len() as int
    }
}

/// What a scan that is copying writes for `s`: form after form.
pub open spec fn encode_copying(s: Seq<u8>) -> Seq<u8>
    decreases s.len(),
{
    if s.len() == 0 {
        s
    } else {
        encode_form(s) + encode_copying(s.skip(encode_form_extent(s)))
    }
}

/// The MUTF-8 bytes for the UTF-8 bytes `s`. Every byte up to the first one that needs
/// rewriting stays as it is; from there on the input is copied form by form.
pub open spec fn utf8_to_mutf8_spec(s: Seq<u8>) -> Seq<u8>
    decreases s.len(),
{
    if s.len() == 0 {
        s
    } else if needs_rewrite(s[0]) {
        encode_copying(s)
    } else {
        seq![s[0]] + utf8_to_mutf8_spec(s.skip(1))
    }
}

/// The form and the place of the byte that a copying scan of `s` finds missing, if any.
pub open spec fn encode_copying_missing(s: Seq<u8>) -> Option<(Expected, Position)>
    decreases s.len(),
{
    if s.len() == 0 {
        None
    } else if utf8_form_width(s[0]) > s.len() {
        Some((utf8_form_kind(s[0]), missing_position(s.len() as int)))
    } else {
        encode_copying_missing(s.skip(utf8_form_width(s[0])))
    }
}

/// The form and the place of the byte that the lenient conversion of `s` to MUTF-8 has to
/// make up, if there is one. While no byte needs rewriting, nothing is read ahead and so
/// nothing can be missing.
pub open spec fn encode_missing(s: Seq<u8>) -> Option<(Expected, Position)>
    decreases s.len(),
{
    if s.len() == 0 {
        None
    } else if needs_rewrite(s[0]) {
        encode_copying_missing(s)
    } else {
        encode_missing(s.skip(1))
    }
}

/// A copying scan takes the form at `i` and then goes on behind it.
proof fn lemma_encode_copying_unfold(s: Seq<u8>, i: int)
    requires
        0 <= i < s.len(),
    ensures
        encode_copying(s.skip(i)) == encode_form(s.skip(i)) + encode_copying(
            s.skip(i + encode_form_extent(s.skip(i))),
        ),
        utf8_form_width(s[i]) <= s.len() - i ==> encode_copying_missing(s.skip(i))
            == encode_copying_missing(s.skip(i + utf8_form_width(s[i]))),
{
    let t = s.skip(i);
    assert(t.skip(encode_form_extent(t)) =~= s.skip(i + encode_form_extent(t)));
    if utf8_form_width(t[0]) <= t.len() {
        assert(t.skip(utf8_form_width(t[0])) =~= s.skip(i + utf8_form_width(t[0])));
    }
}

/// While no byte needs rewriting, the result is the input so far and the scan goes on.
pub proof fn lemma_encode_plain_prefix(s: Seq<u8>, i: int)
    requires
        0 <= i <= s.len(),
        forall|j: int| 0 <= j < i ==> !needs_rewrite(#[trigger] s[j]),
    ensures
        utf8_to_mutf8_spec(s) == s.take(i) + utf8_to_mutf8_spec(s.skip(i)),
        encode_missing(s) == encode_missing(s.skip(i)),
    decreases i,
{
    if i == 0 {
        assert(s.skip(0) =~= s);
        assert(s.take(0) + s =~= s);
    } else {
        lemma_encode_plain_prefix(s, i - 1);
        let t = s.skip(i - 1);
        assert(t[0] == s[i - 1]);
        assert(t.skip(1) =~= s.skip(i));
        assert(s.take(i - 1) + (seq![t[0]] + utf8_to_mutf8_spec(s.skip(i))) =~= s.take(i)
            + utf8_to_mutf8_spec(s.skip(i)));
    }
}

/// The place of the first missing byte of a form of which `present` bytes are there.
fn position_after(present: usize) -> (p: Position)
    ensures
        p == missing_position(present as int),
{
    if present <= 1 {
        Position::Two
    } else if present == 2 {
        Position::Three
    } else if present == 3 {
        Position::Four
    } else if present == 4 {
        Position::Five
    } else {
        Position::Six
    }
}

/// The byte of `input` that stands `offset` places behind `at`, or zero where the input
/// ends before it.
fn peek(input: &[u8], at: usize, offset: usize) -> (b: u8)
    requires
        at < input@.len(),
    ensures
        b == byte_or_zero(input@.skip(at as int), offset as int),
{
    if offset < input.len() - at {
        input[at + offset]
    } else {
        0
    }
}

/// Where a form of `width` bytes that starts at `at` ends: behind its last byte, or with
/// the input.
fn form_end(len: usize, at: usize, width: usize) -> (end: usize)
    requires
        at < len,
    ensures
        end == if width <= len - at {
            at + width
        } else {
            len as int
        },
{
    if width <= len - at {
        at + width
    } else {
        len
    }
}

/// Appends to `out` what copying writes for the form of `input` at `at`, and returns where
/// the next form starts. A strict scan fails instead where the form is cut short.
fn encode_form_into(input: &[u8], at: usize, strict: bool, out: &mut Vec<u8>) -> (r: Result<
    usize,
    Error,
>)
    requires
        at < input@.len(),
    ensures
        match r {
            Ok(next) => {
                &&& final(out)@ == old(out)@ + encode_form(input@.skip(at as int))
                &&& next == at + encode_form_extent(input@.skip(at as int))
                &&& strict ==> utf8_form_width(input@[at as int]) <= input@.len() - at
            },
            Err(e) => {
                &&& strict
                &&& utf8_form_width(input@[at as int]) > input@.len() - at
                &&& e == Error::EndOfInput(
                    Mode::Encoding,
                    utf8_form_kind(input@[at as int]),
                    missing_position(input@.len() - at),
                )
            },
        },
{
    broadcast use vstd::utf8::utf8_byte_ranges_bitwise;

    let len = input.len();
    let left = len - at;
    let byte1 = input[at];
    let ghost form = input@.skip(at as int);
    if byte1 & 0x80 == 0 {
        if byte1 == 0 {
            out.push(0xC0);
            out.push(0x80);
        } else {
            out.push(byte1);
        }
        assert(final(out)@ =~= old(out)@ + encode_form(form));
        Ok(at + 1)
    } else if byte1 & 0xE0 == 0xC0 {
        if strict && left < 2 {
            return Err(Error::EndOfInput(Mode::Encoding, Expected::TwoByte, position_after(left)));
        }
        out.push(byte1);
        out.push(peek(input, at, 1));
        assert(final(out)@ =~= old(out)@ + encode_form(form));
        Ok(form_end(len, at, 2))
    } else if byte1 & 0xF0 == 0xE0 {
        if strict && left < 3 {
            return Err(
                Error::EndOfInput(Mode::Encoding, Expected::ThreeByte, position_after(left)),
            );
        }
        out.push(byte1);
        out.push(peek(input, at, 1));
        out.push(peek(input, at, 2));
        assert(final(out)@ =~= old(out)@ + encode_form(form));
        Ok(form_end(len, at, 3))
    } else if byte1 & 0xF8 == 0xF0 {
        if strict && left < 4 {
            return Err(Error::EndOfInput(Mode::Encoding, Expected::FourByte, position_after(left)));
        }
        let byte2 = peek(input, at, 1);
        let byte3 = peek(input, at, 2);
        let byte4 = peek(input, at, 3);
        // The 21 bits of the code point, from 11110xxx 10xxxxxx 10xxxxxx 10xxxxxx.
        let bits: u32 = ((byte1 & 0x07) as u32) << 18 | ((byte2 & 0x3F) as u32) << 12 | ((byte3
            & 0x3F) as u32) << 6 | ((byte4 & 0x3F) as u32);
        let high: u32 = (bits >> 16).wrapping_sub(1) & 0x0F;
        let middle: u32 = (bits >> 10) & 0x3F;
        let low: u32 = (bits >> 6) & 0x0F;
        assert(high <= 0x0F && middle <= 0x3F && low <= 0x0F) by (bit_vector)
            requires
                high == (bits >> 16).wrapping_sub(1) & 0x0F,
                middle == (bits >> 10) & 0x3F,
                low == (bits >> 6) & 0x0F,
        ;
        // The high surrogate, as 11101101 1010xxxx 10xxxxxx.
        out.push(0xED);
        out.push((0xA0 + high) as u8);
        out.push((0x80 + middle) as u8);
        // The low surrogate, as 11101101 1011xxxx 10xxxxxx.
        out.push(0xED);
        out.push((0xB0 + low) as u8);
        out.push(byte4);
        assert(final(out)@ =~= old(out)@ + encode_form(form));
        Ok(form_end(len, at, 4))
    } else {
        assert(final(out)@ =~= old(out)@ + encode_form(form));
        Ok(at + 1)
    }
}

/// Where the input holds a byte that needs rewriting, the result differs from it there.
pub proof fn lemma_encode_changes_input(s: Seq<u8>, i: int)
    requires
        0 <= i < s.len(),
        forall|j: int| 0 <= j < i ==> !needs_rewrite(#[trigger] s[j]),
        needs_rewrite(s[i]),
    ensures
        utf8_to_mutf8_spec(s) != s,
{
    lemma_encode_plain_prefix(s, i);
    let t = s.skip(i);
    let out = utf8_to_mutf8_spec(s);
    assert(utf8_to_mutf8_spec(t) == encode_form(t) + encode_copying(t.skip(encode_form_extent(t))));
    assert(encode_form(t).len() >= 2);
    assert(encode_form(t)[0] == 0xC0 || encode_form(t)[0] == 0xED);
    assert(out[i] == encode_form(t)[0]);
}

/// The scan behind both conversions to MUTF-8. It borrows until it meets a byte that needs
/// rewriting, copies what it has passed, and copies form by form from there on.
fn scan_utf8<'a>(input: &'a [u8], strict: bool) -> (r: Result<Cow<'a, [u8]>, Error>)
    ensures
        match r {
            Ok(out) => {
                &&& out@ == utf8_to_mutf8_spec(input@)
                &&& out is Borrowed <==> utf8_to_mutf8_spec(input@) == input@
                &&& strict ==> encode_missing(input@) is None
            },
            Err(e) => {
                &&& strict
                &&& encode_missing(input@) matches Some((form, place))
                &&& e == Error::EndOfInput(Mode::Encoding, form, place)
            },
        },
{
    let len = input.len();
    let mut copying = false;
    let mut data: Vec<u8> = Vec::new();
    let mut i: usize = 0;
    while i < len
        invariant
            len == input@.len(),
            i <= len,
            !copying ==> data@.len() == 0 && forall|j: int|
                0 <= j < i ==> !needs_rewrite(#[trigger] input@[j]),
            copying ==> data@ + encode_copying(input@.skip(i as int)) == utf8_to_mutf8_spec(input@),
            copying ==> utf8_to_mutf8_spec(input@) != input@,
            copying && strict ==> encode_copying_missing(input@.skip(i as int)) == encode_missing(
                input@,
            ),
        decreases len - i,
    {
        let byte1 = input[i];
        if !copying && (byte1 == 0 || byte1 & 0xF8 == 0xF0) {
            proof {
                vstd::utf8::utf8_byte_ranges_bitwise(byte1);
                lemma_encode_plain_prefix(input@, i as int);
                lemma_encode_changes_input(input@, i as int);
            }
            copying = true;
            data = slice_to_vec(slice_subrange(input, 0, i));
            assert(input@.subrange(0, i as int) =~= input@.take(i as int));
        }
        if copying {
            proof {
                lemma_encode_copying_unfold(input@, i as int);
            }
            let ghost before = data@;
            let ghost form = input@.skip(i as int);
            i = encode_form_into(input, i, strict, &mut data)?;
            assert(data@ + encode_copying(input@.skip(i as int)) =~= before + (encode_form(form)
                + encode_copying(input@.skip(i as int))));
        } else {
            proof {
                vstd::utf8::utf8_byte_ranges_bitwise(byte1);
            }
            i += 1;
        }
    }
    if copying {
        assert(input@.skip(i as int) =~= Seq::<u8>::empty());
        assert(data@ + Seq::<u8>::empty() =~= data@);
        Ok(Cow::Owned(data))
    } else {
        proof {
            lemma_encode_plain_prefix(input@, len as int);
            assert(input@.skip(len as int) =~= Seq::<u8>::empty());
            assert(input@.take(len as int) + Seq::<u8>::empty() =~= input@);
        }
        Ok(Cow::Borrowed(input))
    }
}

/// Converts UTF-8 to MUTF-8 and never fails: where the input ends inside a form that has
/// to be copied, the bytes that are missing count as zero. Nothing is copied before the
/// first NUL or four-byte form, and until then every byte is looked at by itself.
///
/// The result borrows `input` exactly where the conversion changes nothing.
pub fn utf8_to_mutf8<'a>(input: &'a [u8]) -> (out: Cow<'a, [u8]>)
    ensures
        out@ == utf8_to_mutf8_spec(input@),
        out is Borrowed <==> utf8_to_mutf8_spec(input@) == input@,
        input@.len() == 0 ==> out is Borrowed && out@.len() == 0,
{
    match scan_utf8(input, false) {
        Ok(out) => out,
        Err(_) => unreached(),
    }
}

/// Converts UTF-8 to MUTF-8, and fails with `EndOfInput` exactly where `utf8_to_mutf8`
/// would have to make up a byte. The error names the form that was cut short and the place
/// of its first missing byte.
pub fn try_utf8_to_mutf8<'a>(input: &'a [u8]) -> (r: Result<Cow<'a, [u8]>, Error>)
    ensures
        r is Ok <==> encode_missing(input@) is None,
        r matches Ok(out) ==> out@ == utf8_to_mutf8_spec(input@) && (out is Borrowed
            <==> utf8_to_mutf8_spec(input@) == input@),
        r matches Err(e) ==> encode_missing(input@) matches Some((form, place)) && e
            == Error::EndOfInput(Mode::Encoding, form, place),
{
    scan_utf8(input, true)
}

/// True where `s` starts with `C0 80`, the two bytes by which MUTF-8 writes NUL.
pub open spec fn is_nul_pair(s: Seq<u8>) -> bool {
    s.len() >= 2 && s[0] == 0xC0 && s[1] == 0x80
}

/// True where `s` starts with a surrogate pair: a three-byte form that is marked as a high
/// surrogate (`ED A0` to `ED AF`), and behind it the two bytes that mark a low one (`ED B0`
/// to `ED BF`). The sixth byte, which holds no mark, need not be there.
pub open spec fn is_surrogate_pair(s: Seq<u8>) -> bool {
    &&& s.len() >= 5
    &&& s[0] == 0xED
    &&& 0xA0 <= s[1] <= 0xAF
    &&& s[3] == 0xED
    &&& 0xB0 <= s[4] <= 0xBF
}

/// The code point that a surrogate pair holds, from the second and third byte of each half.
pub open spec fn surrogate_bits(b2: u8, b3: u8, b5: u8, b6: u8) -> u32 {
    (((b2 & 0x0F) + 1) as u32) << 16 | ((b3 & 0x3F) as u32) << 10 | ((b5 & 0x0F) as u32) << 6 | ((b6
        & 0x3F) as u32)
}

/// The four bytes by which UTF-8 writes the code point of a surrogate pair.
pub open spec fn merged_surrogates(b2: u8, b3: u8, b5: u8, b6: u8) -> Seq<u8> {
    let bits = surrogate_bits(b2, b3, b5, b6);
    seq![
        leading_byte_width_4(bits),
        third_last_continuation_byte(bits),
        second_last_continuation_byte(bits),
        last_continuation_byte(bits),
    ]
}

/// The number of bytes of the MUTF-8 form that `lead` announces. MUTF-8 has no four-byte
/// form: a byte that leads neither a two-byte nor a three-byte form stands alone.
pub open spec fn mutf8_form_width(lead: u8) -> int {
    if is_leading_byte_width_2(lead) {
        2
    } else if is_leading_byte_width_3(lead) {
        3
    } else {
        1
    }
}

/// The multi-byte MUTF-8 form that `lead` announces.
pub open spec fn mutf8_form_kind(lead: u8) -> Expected {
    if is_leading_byte_width_2(lead) {
        Expected::TwoByte
    } else {
        Expected::ThreeByte
    }
}

/// True where UTF-8 writes the form at the head of `s` differently.
pub open spec fn decode_rewrites(s: Seq<u8>) -> bool {
    is_nul_pair(s) || is_surrogate_pair(s)
}

/// The number of bytes of the form at the head of `s`, which is not empty: six for a
/// surrogate pair, else what the lead byte announces.
pub open spec fn decode_form_width(s: Seq<u8>) -> int {
    if is_surrogate_pair(s) {
        6
    } else {
        mutf8_form_width(s[0])
    }
}

/// How many bytes of `s`, which is not empty, the form at its head takes up: its width, as
/// far as `s` goes.
pub open spec fn decode_form_extent(s: Seq<u8>) -> int {
    if decode_form_width(s) <= s.len() {
        decode_form_width(s)
    } else {
        s.len() as int
    }
}

/// The form at the head of `s`, which is not empty, and the place of the first byte that
/// it lacks, where `s` ends inside it. A surrogate pair without its last byte is a six-byte
/// form that lacks the sixth; what ends before the marks of a pair are there is a form of
/// two or three bytes.
pub open spec fn decode_form_missing(s: Seq<u8>) -> Option<(Expected, Position)> {
    if decode_form_width(s) <= s.len() {
        None
    } else if is_surrogate_pair(s) {
        Some((Expected::SixByte, missing_position(s.len() as int)))
    } else {
        Some((mutf8_form_kind(s[0]), missing_position(s.len() as int)))
    }
}

/// What copying writes for the form at the head of `s`, which is not empty. Bytes that
/// the form lacks are read as zero; a byte that leads no form is left out.
pub open spec fn decode_form(s: Seq<u8>) -> Seq<u8> {
    let b1 = s[0];
    if is_leading_byte_width_1(b1) {
        seq![b1]
    } else if is_leading_byte_width_2(b1) {
        if is_nul_pair(s) {
            seq![0u8]
        } else {
            seq![b1, byte_or_zero(s, 1)]
        }
    } else if is_leading_byte_width_3(b1) {
        if is_surrogate_pair(s) {
            merged_surrogates(s[1], s[2], s[4], byte_or_zero(s, 5))
        } else {
            seq![b1, byte_or_zero(s, 1), byte_or_zero(s, 2)]
        }
    } else {
        Seq::empty()
    }
}

/// What a scan that is copying writes for `s`: form after form.
pub open spec fn decode_copying(s: Seq<u8>) -> Seq<u8>
    decreases s.len(),
{
    if s.len() == 0 {
        s
    } else {
        decode_form(s) + decode_copying(s.skip(decode_form_extent(s)))
    }
}

/// The UTF-8 bytes for the MUTF-8 bytes `s`. Every form up to the first one that UTF-8
/// writes differently stays as it is; from there on the input is copied form by form.
pub open spec fn mutf8_to_utf8_spec(s: Seq<u8>) -> Seq<u8>
    decreases s.len(),
{
    if s.len() == 0 {
        s
    } else if decode_rewrites(s) {
        decode_copying(s)
    } else {
        s.take(decode_form_extent(s)) + mutf8_to_utf8_spec(s.skip(decode_form_extent(s)))
    }
}

/// The form and the place of the byte that the lenient conversion of `s` to UTF-8 reads
/// past the end, if there is one.
pub open spec fn decode_missing(s: Seq<u8>) -> Option<(Expected, Position)>
    decreases s.len(),
{
    if s.len() == 0 {
        None
    } else if decode_form_missing(s) is Some {
        decode_form_missing(s)
    } else {
        decode_missing(s.skip(decode_form_extent(s)))
    }
}

/// A scan takes the form at `i` and then goes on behind it.
proof fn lemma_decode_unfold(s: Seq<u8>, i: int)
    requires
        0 <= i < s.len(),
    ensures
        decode_copying(s.skip(i)) == decode_form(s.skip(i)) + decode_copying(
            s.skip(i + decode_form_extent(s.skip(i))),
        ),
        decode_form_missing(s.skip(i)) is None ==> decode_missing(s.skip(i)) == decode_missing(
            s.skip(i + decode_form_extent(s.skip(i))),
        ),
        decode_form_missing(s.skip(i)) is Some ==> decode_missing(s.skip(i))
            == decode_form_missing(s.skip(i)),
        !decode_rewrites(s.skip(i)) ==> mutf8_to_utf8_spec(s.skip(i)) == s.subrange(
            i,
            i + decode_form_extent(s.skip(i)),
        ) + mutf8_to_utf8_spec(s.skip(i + decode_form_extent(s.skip(i)))),
{
    let t = s.skip(i);
    let n = decode_form_extent(t);
    assert(t.skip(n) =~= s.skip(i + n));
    assert(t.take(n) =~= s.subrange(i, i + n));
}

/// Where the input holds a form that UTF-8 writes differently, the result differs from it
/// there.
proof fn lemma_decode_changes_form(s: Seq<u8>)
    requires
        decode_rewrites(s),
    ensures
        decode_copying(s).len() > 0,
        decode_copying(s)[0] != s[0],
{
    if is_surrogate_pair(s) {
        let bits = surrogate_bits(s[1], s[2], s[4], byte_or_zero(s, 5));
        assert(leading_byte_width_4(bits) >= 0xF0) by (bit_vector);
    }
}

/// The second byte of a surrogate's three-byte form, by range and by mask.
proof fn lemma_surrogate_markers(b: u8)
    by (bit_vector)
    ensures
        0xA0 <= b <= 0xAF <==> b & 0xF0 == 0xA0,
        0xB0 <= b <= 0xBF <==> b & 0xF0 == 0xB0,
        b & 0x0F <= 0x0F,
{
}

/// Whether `input` holds at `at` the two bytes by which MUTF-8 writes NUL.
fn starts_nul_pair(input: &[u8], at: usize) -> (found: bool)
    requires
        at < input@.len(),
    ensures
        found == is_nul_pair(input@.skip(at as int)),
{
    input[at] == 0xC0 && peek(input, at, 1) == 0x80
}

/// Whether `input` holds at `at` a surrogate pair, with or without its last byte.
fn starts_surrogate_pair(input: &[u8], at: usize) -> (found: bool)
    requires
        at < input@.len(),
    ensures
        found == is_surrogate_pair(input@.skip(at as int)),
{
    if input.len() - at < 5 {
        return false;
    }
    proof {
        lemma_surrogate_markers(input[at + 1]);
        lemma_surrogate_markers(input[at + 4]);
    }
    input[at] == 0xED && input[at + 1] & 0xF0 == 0xA0 && input[at + 3] == 0xED && input[at + 4]
        & 0xF0 == 0xB0
}

/// Finds where the form of `input` at `at` ends and whether UTF-8 writes it differently.
/// A strict scan fails instead where the form is cut short.
fn measure_mutf8_form(input: &[u8], at: usize, strict: bool) -> (r: Result<(usize, bool), Error>)
    requires
        at < input@.len(),
    ensures
        match r {
            Ok((next, rewritten)) => {
                &&& next == at + decode_form_extent(input@.skip(at as int))
                &&& rewritten == decode_rewrites(input@.skip(at as int))
                &&& strict ==> decode_form_missing(input@.skip(at as int)) is None
            },
            Err(e) => {
                &&& strict
                &&& decode_form_missing(input@.skip(at as int)) matches Some((form, place))
                &&& e == Error::EndOfInput(Mode::Decoding, form, place)
            },
        },
{
    broadcast use vstd::utf8::utf8_byte_ranges_bitwise;

    let len = input.len();
    let left = len - at;
    let byte1 = input[at];
    if byte1 & 0xE0 == 0xC0 {
        if strict && left < 2 {
            return Err(Error::EndOfInput(Mode::Decoding, Expected::TwoByte, position_after(left)));
        }
        Ok((form_end(len, at, 2), starts_nul_pair(input, at)))
    } else if byte1 & 0xF0 == 0xE0 {
        if strict && left < 3 {
            return Err(
                Error::EndOfInput(Mode::Decoding, Expected::ThreeByte, position_after(left)),
            );
        }
        if starts_surrogate_pair(input, at) {
            if strict && left < 6 {
                return Err(
                    Error::EndOfInput(Mode::Decoding, Expected::SixByte, position_after(left)),
                );
            }
            Ok((form_end(len, at, 6), true))
        } else {
            Ok((form_end(len, at, 3), false))
        }
    } else {
        Ok((at + 1, false))
    }
}

/// Appends to `out` what copying writes for the form of `input` at `at`.
fn decode_form_into(input: &[u8], at: usize, out: &mut Vec<u8>)
    requires
        at < input@.len(),
    ensures
        final(out)@ == old(out)@ + decode_form(input@.skip(at as int)),
{
    broadcast use vstd::utf8::utf8_byte_ranges_bitwise;

    let byte1 = input[at];
    let ghost form = input@.skip(at as int);
    if byte1 & 0x80 == 0 {
        out.push(byte1);
    } else if byte1 & 0xE0 == 0xC0 {
        if starts_nul_pair(input, at) {
            out.push(0);
        } else {
            out.push(byte1);
            out.push(peek(input, at, 1));
        }
    } else if byte1 & 0xF0 == 0xE0 {
        if starts_surrogate_pair(input, at) {
            let byte2 = input[at + 1];
            let byte3 = input[at + 2];
            let byte5 = input[at + 4];
            let byte6 = peek(input, at, 5);
            proof {
                lemma_surrogate_markers(byte2);
            }
            // The code point, from 11101101 1010xxxx 10xxxxxx 11101101 1011xxxx 10xxxxxx.
            let top: u8 = (byte2 & 0x0F) + 1;
            let bits: u32 = (top as u32) << 16 | ((byte3 & 0x3F) as u32) << 10 | ((byte5
                & 0x0F) as u32) << 6 | ((byte6 & 0x3F) as u32);
            // Its four bytes, as 11110xxx 10xxxxxx 10xxxxxx 10xxxxxx.
            out.push(0xF0 | ((bits >> 18) & 0x07) as u8);
            out.push(0x80 | ((bits >> 12) & 0x3F) as u8);
            out.push(0x80 | ((bits >> 6) & 0x3F) as u8);
            out.push(0x80 | (bits & 0x3F) as u8);
        } else {
            out.push(byte1);
            out.push(peek(input, at, 1));
            out.push(peek(input, at, 2));
        }
    }
    assert(final(out)@ =~= old(out)@ + decode_form(form));
}

/// What a scan knows at `i` while it borrows: the forms before `i` stay as they are, and
/// to a strict scan none of them was cut short.
spec fn decode_untouched(s: Seq<u8>, i: int, strict: bool) -> bool {
    &&& 0 <= i <= s.len()
    &&& mutf8_to_utf8_spec(s) == s.take(i) + mutf8_to_utf8_spec(s.skip(i))
    &&& strict ==> decode_missing(s) == decode_missing(s.skip(i))
}

/// The scan behind both conversions to UTF-8. It borrows until it meets a form that UTF-8
/// writes differently, copies what it has passed, and copies form by form from there on.
fn scan_mutf8<'a>(input: &'a [u8], strict: bool) -> (r: Result<Cow<'a, [u8]>, Error>)
    ensures
        match r {
            Ok(out) => {
                &&& out@ == mutf8_to_utf8_spec(input@)
                &&& out is Borrowed <==> mutf8_to_utf8_spec(input@) == input@
                &&& strict ==> decode_missing(input@) is None
            },
            Err(e) => {
                &&& strict
                &&& decode_missing(input@) matches Some((form, place))
                &&& e == Error::EndOfInput(Mode::Decoding, form, place)
            },
        },
{
    let len = input.len();
    let mut copying = false;
    let mut data: Vec<u8> = Vec::new();
    let mut i: usize = 0;
    assert(input@.skip(0) =~= input@ && input@.take(0) + input@ =~= input@);
    while i < len
        invariant
            len == input@.len(),
            i <= len,
            !copying ==> data@.len() == 0 && decode_untouched(input@, i as int, strict),
            copying ==> data@ + decode_copying(input@.skip(i as int)) == mutf8_to_utf8_spec(input@),
            copying ==> mutf8_to_utf8_spec(input@) != input@,
            copying && strict ==> decode_missing(input@.skip(i as int)) == decode_missing(input@),
        decreases len - i,
    {
        proof {
            lemma_decode_unfold(input@, i as int);
        }
        let ghost form = input@.skip(i as int);
        let (next, rewritten) = measure_mutf8_form(input, i, strict)?;
        if !copying && rewritten {
            proof {
                lemma_decode_changes_form(form);
                let whole = mutf8_to_utf8_spec(input@);
                assert(whole[i as int] == decode_copying(form)[0]);
                assert(form[0] == input@[i as int]);
            }
            copying = true;
            data = slice_to_vec(slice_subrange(input, 0, i));
            assert(input@.subrange(0, i as int) =~= input@.take(i as int));
        }
        if copying {
            let ghost before = data@;
            decode_form_into(input, i, &mut data);
            assert(data@ + decode_copying(input@.skip(next as int)) =~= before + (decode_form(form)
                + decode_copying(input@.skip(next as int))));
        } else {
            assert(input@.take(i as int) + (input@.subrange(i as int, next as int)
                + mutf8_to_utf8_spec(input@.skip(next as int))) =~= input@.take(next as int)
                + mutf8_to_utf8_spec(input@.skip(next as int)));
        }
        i = next;
    }
    assert(input@.skip(i as int) =~= Seq::<u8>::empty());
    if copying {
        assert(data@ + Seq::<u8>::empty() =~= data@);
        Ok(Cow::Owned(data))
    } else {
        assert(input@.take(len as int) + Seq::<u8>::empty() =~= input@);
        Ok(Cow::Borrowed(input))
    }
}

/// Converts MUTF-8 to UTF-8 and never fails: where the input ends inside a form, the
/// bytes that are missing count as zero. A surrogate pair that lacks its last byte is
/// merged with a zero for it. A form of two or three bytes that is cut short stays as it
/// is while nothing has been rewritten; behind a rewritten form it is written with its
/// zeros.
///
/// The result borrows `input` exactly where the conversion changes nothing.
pub fn mutf8_to_utf8<'a>(input: &'a [u8]) -> (out: Cow<'a, [u8]>)
    ensures
        out@ == mutf8_to_utf8_spec(input@),
        out is Borrowed <==> mutf8_to_utf8_spec(input@) == input@,
        input@.len() == 0 ==> out is Borrowed && out@.len() == 0,
{
    match scan_mutf8(input, false) {
        Ok(out) => out,
        Err(_) => unreached(),
    }
}

/// Converts MUTF-8 to UTF-8, and fails with `EndOfInput` exactly where `mutf8_to_utf8`
/// would read past the end of the input. The error names the form that was cut short and
/// the place of its first missing byte: for a surrogate pair that is the six-byte form and
/// its sixth byte.
pub fn try_mutf8_to_utf8<'a>(input: &'a [u8]) -> (r: Result<Cow<'a, [u8]>, Error>)
    ensures
        r is Ok <==> decode_missing(input@) is None,
        r matches Ok(out) ==> out@ == mutf8_to_utf8_spec(input@) && (out is Borrowed
            <==> mutf8_to_utf8_spec(input@) == input@),
        r matches Err(e) ==> decode_missing(input@) matches Some((form, place)) && e
            == Error::EndOfInput(Mode::Decoding, form, place),
{
    scan_mutf8(input, true)
}

} // verus!
