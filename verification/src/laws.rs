//! What holds of the two conversions, proved over what they yield.
use crate::error::{Expected, Position};
use crate::mutf8::{
    decode_copying, decode_form, decode_form_extent, decode_form_missing, decode_missing,
    decode_rewrites, encode_copying, encode_copying_missing, encode_form, encode_form_extent,
    encode_missing, high_surrogate, high_surrogate_second, high_surrogate_third, is_nul_pair,
    is_surrogate_pair, lemma_encode_changes_input, lemma_encode_plain_prefix, low_surrogate,
    low_surrogate_second, mutf8_of_scalar, mutf8_of_text, mutf8_to_utf8_spec, needs_rewrite,
    surrogate_bits, surrogate_pair, utf8_form_width, utf8_to_mutf8_spec,
};
use vstd::prelude::*;
use vstd::utf8::{
    codepoint_width_1, codepoint_width_2, codepoint_width_3, codepoint_width_4,
    decode_first_scalar, decode_utf8, decode_utf8_first_scalar, encode_utf8,
    encode_utf8_decode_utf8, encode_utf8_valid_utf8, is_continuation_byte,
    is_leading_byte_width_1, is_leading_byte_width_2, is_leading_byte_width_3,
    is_leading_byte_width_4, last_continuation_byte, leading_byte_width_3, leading_byte_width_4,
    length_of_first_scalar, not_surrogate, pop_first_scalar, second_last_continuation_byte,
    take_first_scalar, third_last_continuation_byte, valid_first_scalar, valid_utf8,
};

verus! {

/// A two-byte form that is as short as its code point allows is not `C0 80`.
proof fn lemma_two_byte_form_is_no_nul_pair(b1: u8, b2: u8)
    by (bit_vector)
    requires
        0x80 <= codepoint_width_2(b1, b2),
    ensures
        !(b1 == 0xC0 && b2 == 0x80),
{
}

/// A three-byte form whose code point is no surrogate does not carry a surrogate's marker.
proof fn lemma_three_byte_form_is_no_surrogate(b1: u8, b2: u8, b3: u8)
    by (bit_vector)
    requires
        is_continuation_byte(b2),
        is_continuation_byte(b3),
        not_surrogate(codepoint_width_3(b1, b2, b3)),
    ensures
        !(b1 == 0xED && 0xA0 <= b2),
{
}

/// The surrogate pair of a four-byte form carries the two markers, and merging it gives
/// the four bytes back.
proof fn lemma_surrogate_pair_merges_back(b1: u8, b2: u8, b3: u8, b4: u8)
    by (bit_vector)
    requires
        is_leading_byte_width_4(b1),
        is_continuation_byte(b2),
        is_continuation_byte(b3),
        is_continuation_byte(b4),
        0x10000 <= codepoint_width_4(b1, b2, b3, b4) <= 0x10FFFF,
    ensures
        ({
            let bits = codepoint_width_4(b1, b2, b3, b4);
            let h2 = high_surrogate_second(bits);
            let h3 = high_surrogate_third(bits);
            let l2 = low_surrogate_second(bits);
            let back = surrogate_bits(h2, h3, l2, b4);
            &&& 0xA0 <= h2 <= 0xAF
            &&& 0xB0 <= l2 <= 0xBF
            &&& leading_byte_width_4(back) == b1
            &&& third_last_continuation_byte(back) == b2
            &&& second_last_continuation_byte(back) == b3
            &&& last_continuation_byte(back) == b4
        }),
{
}

/// What the two scans make of the first character of UTF-8 text `b`, with `tail` for
/// whatever the encoder writes behind it.
proof fn lemma_first_scalar_round_trip(b: Seq<u8>, tail: Seq<u8>)
    requires
        b.len() > 0,
        valid_first_scalar(b),
    ensures
        ({
            let n = length_of_first_scalar(b);
            let m = encode_form(b) + tail;
            &&& n == utf8_form_width(b[0])
            &&& n == encode_form_extent(b)
            &&& forall|j: int| 1 <= j < n ==> !needs_rewrite(#[trigger] b[j])
            &&& !needs_rewrite(b[0]) ==> encode_form(b) == b.take(n)
            &&& encode_form(b).len() > 0
            &&& decode_form_extent(m) == encode_form(b).len()
            &&& decode_form_missing(m) is None
            &&& decode_form(m) == b.take(n)
            &&& !decode_rewrites(m) ==> encode_form(b) == b.take(n)
        }),
{
    let n = length_of_first_scalar(b);
    let f = encode_form(b);
    let m = f + tail;
    let b1 = b[0];
    if is_leading_byte_width_1(b1) {
        assert(f =~= b.take(n) || b1 == 0);
        assert(decode_form(m) =~= b.take(n));
    } else if is_leading_byte_width_2(b1) {
        lemma_two_byte_form_is_no_nul_pair(b1, b[1]);
        assert(f =~= b.take(n));
        assert(m[0] == b1 && m[1] == b[1]);
        assert(decode_form(m) =~= b.take(n));
    } else if is_leading_byte_width_3(b1) {
        lemma_three_byte_form_is_no_surrogate(b1, b[1], b[2]);
        assert(f =~= b.take(n));
        assert(m[0] == b1 && m[1] == b[1] && m[2] == b[2]);
        assert(decode_form(m) =~= b.take(n));
    } else {
        lemma_surrogate_pair_merges_back(b1, b[1], b[2], b[3]);
        assert(f == surrogate_pair(b1, b[1], b[2], b[3]));
        assert(m[0] == f[0] && m[1] == f[1] && m[2] == f[2] && m[3] == f[3] && m[4] == f[4] && m[5]
            == f[5]);
        assert(is_surrogate_pair(m));
        assert(decode_form(m) =~= b.take(n));
    }
}

/// On UTF-8 text the encoder copies whole characters: it never reads past the end, and
/// what it yields is the text form by form, and the decoder makes of that, with or without
/// copying, the text again and never reads past the end either.
proof fn lemma_round_trip_by_forms(b: Seq<u8>)
    requires
        valid_utf8(b),
    ensures
        utf8_to_mutf8_spec(b) == encode_copying(b),
        encode_missing(b) is None,
        encode_copying_missing(b) is None,
        decode_copying(encode_copying(b)) == b,
        mutf8_to_utf8_spec(encode_copying(b)) == b,
        decode_missing(encode_copying(b)) is None,
    decreases b.len(),
{
    if b.len() > 0 {
        let n = length_of_first_scalar(b);
        let rest = b.skip(n);
        assert(rest =~= pop_first_scalar(b));
        lemma_round_trip_by_forms(rest);
        let tail = encode_copying(rest);
        lemma_first_scalar_round_trip(b, tail);
        let f = encode_form(b);
        let m = f + tail;
        assert(encode_copying(b) == m);
        assert(m.skip(f.len() as int) =~= tail);
        assert(b.take(n) + rest =~= b);
        if !needs_rewrite(b[0]) {
            lemma_encode_plain_prefix(b, n);
        }
        if !decode_rewrites(m) {
            assert(m.take(f.len() as int) =~= f);
        }
    }
}

/// Round trip: UTF-8 text that is converted to MUTF-8 and back is the same text.
pub proof fn lemma_round_trip(b: Seq<u8>)
    requires
        valid_utf8(b),
    ensures
        mutf8_to_utf8_spec(utf8_to_mutf8_spec(b)) == b,
{
    lemma_round_trip_by_forms(b);
}

/// On UTF-8 text neither conversion of a round trip meets a form that is cut short, so the
/// strict conversions succeed where the lenient ones do.
pub proof fn lemma_text_is_never_cut_short(b: Seq<u8>)
    requires
        valid_utf8(b),
    ensures
        encode_missing(b) is None,
        decode_missing(utf8_to_mutf8_spec(b)) is None,
{
    lemma_round_trip_by_forms(b);
}

/// The place of the first byte of `s` that needs rewriting, where `s` holds one at `at`.
proof fn lemma_first_rewrite(s: Seq<u8>, at: int) -> (first: int)
    requires
        0 <= at < s.len(),
        needs_rewrite(s[at]),
    ensures
        0 <= first <= at,
        needs_rewrite(s[first]),
        forall|j: int| 0 <= j < first ==> !needs_rewrite(#[trigger] s[j]),
    decreases at,
{
    if exists|j: int| 0 <= j < at && needs_rewrite(#[trigger] s[j]) {
        let j = choose|j: int| 0 <= j < at && needs_rewrite(#[trigger] s[j]);
        lemma_first_rewrite(s, j)
    } else {
        at
    }
}

/// The conversion to MUTF-8 leaves its input as it is exactly where the input holds
/// neither a NUL nor the lead byte of a four-byte form.
pub proof fn lemma_kept_iff_nothing_to_rewrite(b: Seq<u8>)
    ensures
        utf8_to_mutf8_spec(b) == b <==> forall|i: int|
            0 <= i < b.len() ==> !needs_rewrite(#[trigger] b[i]),
{
    if forall|i: int| 0 <= i < b.len() ==> !needs_rewrite(#[trigger] b[i]) {
        lemma_encode_plain_prefix(b, b.len() as int);
        assert(b.skip(b.len() as int) =~= Seq::<u8>::empty());
        assert(b.take(b.len() as int) + Seq::<u8>::empty() =~= b);
    } else {
        let at = choose|i: int| 0 <= i < b.len() && needs_rewrite(#[trigger] b[i]);
        let first = lemma_first_rewrite(b, at);
        lemma_encode_changes_input(b, first);
    }
}

/// Zero-copy on ASCII without NUL: bytes that are all below `0x80` and not zero are their
/// own MUTF-8, so that `utf8_to_mutf8` borrows them.
pub proof fn lemma_ascii_without_nul_is_kept(b: Seq<u8>)
    requires
        forall|i: int| 0 <= i < b.len() ==> 0 < #[trigger] b[i] < 0x80,
    ensures
        utf8_to_mutf8_spec(b) == b,
{
    lemma_kept_iff_nothing_to_rewrite(b);
}

/// Pass-through forms: a two-byte form other than `C0 80`, and a three-byte form, come out
/// of either conversion as they went in.
pub proof fn lemma_short_forms_pass_through(s: Seq<u8>)
    requires
        s.len() == 2 || s.len() == 3,
        s.len() == 2 ==> is_leading_byte_width_2(s[0]) && !is_nul_pair(s),
        s.len() == 3 ==> is_leading_byte_width_3(s[0]),
        forall|i: int| 1 <= i < s.len() ==> is_continuation_byte(#[trigger] s[i]),
    ensures
        utf8_to_mutf8_spec(s) == s,
        mutf8_to_utf8_spec(s) == s,
{
    lemma_kept_iff_nothing_to_rewrite(s);
    let n = s.len() as int;
    assert(!decode_rewrites(s));
    assert(decode_form_extent(s) == n);
    assert(s.skip(n) =~= Seq::<u8>::empty());
    assert(mutf8_to_utf8_spec(s.skip(n)) =~= Seq::<u8>::empty());
    assert(s.take(n) + Seq::<u8>::empty() =~= s);
}

/// The six bytes that the encoder writes for a four-byte form are the two surrogates of
/// its code point, each as a three-byte form.
proof fn lemma_surrogate_pair_is_utf16(b1: u8, b2: u8, b3: u8, b4: u8)
    by (bit_vector)
    requires
        is_continuation_byte(b4),
        0x10000 <= codepoint_width_4(b1, b2, b3, b4) <= 0x10FFFF,
    ensures
        ({
            let bits = codepoint_width_4(b1, b2, b3, b4);
            let high = high_surrogate(bits);
            let low = low_surrogate(bits);
            &&& 0xD800 <= high <= 0xDBFF
            &&& 0xDC00 <= low <= 0xDFFF
            &&& leading_byte_width_3(high) == 0xED
            &&& second_last_continuation_byte(high) == high_surrogate_second(bits)
            &&& last_continuation_byte(high) == high_surrogate_third(bits)
            &&& leading_byte_width_3(low) == 0xED
            &&& second_last_continuation_byte(low) == low_surrogate_second(bits)
            &&& last_continuation_byte(low) == b4
        }),
{
}

/// How large the code point of a form of one, two or three bytes can be, and that of the
/// bytes of one-byte forms only NUL holds the code point zero.
proof fn lemma_code_point_bounds(b1: u8, b2: u8, b3: u8)
    by (bit_vector)
    ensures
        codepoint_width_1(b1) <= 0x7F,
        codepoint_width_2(b1, b2) <= 0x7FF,
        codepoint_width_3(b1, b2, b3) <= 0xFFFF,
        b1 <= 0x7F ==> (codepoint_width_1(b1) == 0 <==> b1 == 0),
{
}

/// A code point that fits a `char` comes back from it unchanged.
proof fn lemma_scalar_as_char(scalar: u32)
    requires
        scalar <= 0x10FFFF,
        not_surrogate(scalar),
    ensures
        (scalar as char) as u32 == scalar,
{
}

/// Meaning: the MUTF-8 that the conversion makes of UTF-8 text is the MUTF-8 of the
/// characters of that text.
pub proof fn lemma_conversion_encodes_the_text(b: Seq<u8>)
    requires
        valid_utf8(b),
    ensures
        utf8_to_mutf8_spec(b) == mutf8_of_text(decode_utf8(b)),
    decreases b.len(),
{
    lemma_round_trip_by_forms(b);
    if b.len() > 0 {
        let n = length_of_first_scalar(b);
        let rest = b.skip(n);
        assert(rest =~= pop_first_scalar(b));
        lemma_conversion_encodes_the_text(rest);
        lemma_round_trip_by_forms(rest);
        let scalar = decode_first_scalar(b);
        let text = decode_utf8(b);
        assert(text.drop_first() =~= decode_utf8(rest));
        lemma_code_point_bounds(b[0], b[1], b[2]);
        lemma_scalar_as_char(scalar);
        assert(text[0] as u32 == scalar);
        decode_utf8_first_scalar(b);
        assert(take_first_scalar(b) =~= b.take(n));
        lemma_first_scalar_round_trip(b, Seq::empty());
        if is_leading_byte_width_4(b[0]) {
            lemma_surrogate_pair_is_utf16(b[0], b[1], b[2], b[3]);
            assert(encode_form(b) =~= mutf8_of_scalar(scalar));
        } else if b[0] != 0 {
            assert(encode_form(b) == mutf8_of_scalar(scalar));
        }
    }
}

/// A text that is written as MUTF-8 and read back is the same text: the conversion of
/// its UTF-8 gives its MUTF-8, no form of that is cut short, and the conversion back gives
/// UTF-8 that holds the characters again.
pub proof fn lemma_text_survives(text: Seq<char>)
    ensures
        utf8_to_mutf8_spec(encode_utf8(text)) == mutf8_of_text(text),
        decode_missing(mutf8_of_text(text)) is None,
        mutf8_to_utf8_spec(mutf8_of_text(text)) == encode_utf8(text),
        valid_utf8(mutf8_to_utf8_spec(mutf8_of_text(text))),
        decode_utf8(mutf8_to_utf8_spec(mutf8_of_text(text))) == text,
{
    let b = encode_utf8(text);
    encode_utf8_valid_utf8(text);
    encode_utf8_decode_utf8(text);
    lemma_conversion_encodes_the_text(b);
    lemma_round_trip_by_forms(b);
}

/// True where a conversion can find that a form of the kind `form` lacks the byte at
/// `place` and no byte before it: the second byte of any form of up to four bytes, the
/// third of one of three or four bytes, the fourth of one of four, and the sixth of a
/// surrogate pair, which is known for one only when its first five bytes are there.
pub open spec fn can_miss(form: Expected, place: Position) -> bool {
    match form {
        Expected::TwoByte => place == Position::Two,
        Expected::ThreeByte => place == Position::Two || place == Position::Three,
        Expected::FourByte => place == Position::Two || place == Position::Three || place
            == Position::Four,
        Expected::SixByte => place == Position::Six,
    }
}

/// A copying scan to MUTF-8 misses a byte only where its form can lack it.
proof fn lemma_copying_misses_within_form(s: Seq<u8>)
    ensures
        encode_copying_missing(s) matches Some((form, place)) ==> can_miss(form, place) && form
            != Expected::SixByte,
    decreases s.len(),
{
    if s.len() > 0 && utf8_form_width(s[0]) <= s.len() {
        lemma_copying_misses_within_form(s.skip(utf8_form_width(s[0])));
    }
}

/// What the strict conversions report is a byte that its form can lack. To MUTF-8 that is
/// a byte of a form of two, three or four bytes. To UTF-8 it is a byte of a form of two or
/// three bytes, or the last byte of a surrogate pair.
pub proof fn lemma_missing_byte_is_of_its_form(s: Seq<u8>)
    ensures
        encode_missing(s) matches Some((form, place)) ==> can_miss(form, place) && form
            != Expected::SixByte,
        decode_missing(s) matches Some((form, place)) ==> can_miss(form, place) && form
            != Expected::FourByte,
    decreases s.len(),
{
    if s.len() > 0 {
        if needs_rewrite(s[0]) {
            lemma_copying_misses_within_form(s);
        } else {
            lemma_missing_byte_is_of_its_form(s.skip(1));
        }
        if decode_form_missing(s) is None {
            lemma_missing_byte_is_of_its_form(s.skip(decode_form_extent(s)));
        }
    }
}

} // verus!
