//! The canonical byte encoding of what is hashed.
//!
//! A number is sixteen bytes, least significant first. A text is the length
//! of its UTF-8 form, as eight bytes, followed by that form. A text that may
//! be absent is led by one byte that says whether it is there.

use vstd::bytes::{
    lemma_auto_spec_u128_to_from_le_bytes, lemma_auto_spec_u64_to_from_le_bytes,
    spec_u128_from_le_bytes, spec_u128_to_le_bytes, spec_u64_from_le_bytes, spec_u64_to_le_bytes,
    u128_to_le_bytes, u64_to_le_bytes,
};
use vstd::prelude::*;
use vstd::string::{StrSliceExecFns, StringSliceAdditionalSpecFns};
use vstd::utf8::{encode_utf8, encode_utf8_decode_utf8};

verus! {

/// The encoding of a number.
pub open spec fn number_encoding(value: u128) -> Seq<u8> {
    spec_u128_to_le_bytes(value)
}

/// The encoding of a text.
pub open spec fn text_encoding(text: Seq<char>) -> Seq<u8> {
    spec_u64_to_le_bytes(encode_utf8(text).len() as u64) + encode_utf8(text)
}

/// The characters of a text that may be absent.
pub open spec fn text_of(text: Option<String>) -> Option<Seq<char>> {
    match text {
        Some(present) => Some(present@),
        None => None,
    }
}

/// The encoding of a text that may be absent.
pub open spec fn optional_text_encoding(text: Option<Seq<char>>) -> Seq<u8> {
    match text {
        None => seq![0u8],
        Some(present) => seq![1u8] + text_encoding(present),
    }
}

/// Appends the encoding of `value` to `out`.
pub fn append_number(out: &mut Vec<u8>, value: u128)
    ensures
        final(out)@ == old(out)@ + number_encoding(value),
{
    let mut bytes = u128_to_le_bytes(value);
    out.append(&mut bytes);
}

/// Appends the encoding of `text` to `out`.
pub fn append_text(out: &mut Vec<u8>, text: &String)
    ensures
        final(out)@ == old(out)@ + text_encoding(text@),
{
    let mut bytes = text.as_str().as_bytes_vec();
    let length: u64 = bytes.len() as u64;
    let mut prefix = u64_to_le_bytes(length);
    let ghost before = out@;
    out.append(&mut prefix);
    out.append(&mut bytes);
    assert(out@ =~= before + text_encoding(text@));
}

/// Whether two texts that may be absent hold the same characters, or are both
/// absent.
pub fn same_text(left: &Option<String>, right: &Option<String>) -> (same: bool)
    ensures
        same == (text_of(*left) == text_of(*right)),
{
    match (left, right) {
        (None, None) => true,
        (Some(a), Some(b)) => *a == *b,
        _ => false,
    }
}

/// Appends the encoding of a text that may be absent to `out`.
pub fn append_optional_text(out: &mut Vec<u8>, text: &Option<String>)
    ensures
        final(out)@ == old(out)@ + optional_text_encoding(text_of(*text)),
{
    let ghost before = out@;
    match text {
        None => {
            out.push(0u8);
            assert(out@ =~= before + seq![0u8]);
        },
        Some(present) => {
            out.push(1u8);
            append_text(out, present);
            assert(out@ =~= before + (seq![1u8] + text_encoding(present@)));
        },
    }
}

/// Whether the UTF-8 form of `text` is short enough for its length to be
/// written in eight bytes, as that of every text in memory is.
pub open spec fn fits(text: Seq<char>) -> bool {
    encode_utf8(text).len() <= u64::MAX
}

/// Two sequences that begin with parts of one length agree only if both the
/// parts and the rests agree.
pub proof fn lemma_split(part: Seq<u8>, rest: Seq<u8>, other_part: Seq<u8>, other_rest: Seq<u8>)
    requires
        part + rest == other_part + other_rest,
        part.len() == other_part.len(),
    ensures
        part == other_part,
        rest == other_rest,
{
    let whole = part + rest;
    let cut = part.len() as int;
    assert(part =~= whole.subrange(0, cut));
    assert(other_part =~= whole.subrange(0, cut));
    assert(rest =~= whole.subrange(cut, whole.len() as int));
    assert(other_rest =~= whole.subrange(cut, whole.len() as int));
}

/// What follows an encoded number cannot blur it: encodings of numbers,
/// each followed by more bytes, agree only if the numbers and what follows
/// agree.
pub proof fn lemma_number_decodes(value: u128, rest: Seq<u8>, other: u128, other_rest: Seq<u8>)
    requires
        number_encoding(value) + rest == number_encoding(other) + other_rest,
    ensures
        value == other,
        rest == other_rest,
{
    lemma_auto_spec_u128_to_from_le_bytes();
    lemma_split(number_encoding(value), rest, number_encoding(other), other_rest);
    assert(spec_u128_from_le_bytes(spec_u128_to_le_bytes(value)) == value);
    assert(spec_u128_from_le_bytes(spec_u128_to_le_bytes(other)) == other);
}

/// What follows an encoded text cannot blur it: encodings of texts, each
/// followed by more bytes, agree only if the texts and what follows agree.
pub proof fn lemma_text_decodes(
    text: Seq<char>,
    rest: Seq<u8>,
    other: Seq<char>,
    other_rest: Seq<u8>,
)
    requires
        fits(text),
        fits(other),
        text_encoding(text) + rest == text_encoding(other) + other_rest,
    ensures
        text == other,
        rest == other_rest,
{
    lemma_auto_spec_u64_to_from_le_bytes();
    let length = encode_utf8(text).len() as u64;
    let other_length = encode_utf8(other).len() as u64;
    let prefix = spec_u64_to_le_bytes(length);
    let other_prefix = spec_u64_to_le_bytes(other_length);
    assert(text_encoding(text) + rest =~= prefix + (encode_utf8(text) + rest));
    assert(text_encoding(other) + other_rest =~= other_prefix + (encode_utf8(other) + other_rest));
    lemma_split(prefix, encode_utf8(text) + rest, other_prefix, encode_utf8(other) + other_rest);
    assert(spec_u64_from_le_bytes(prefix) == length);
    assert(spec_u64_from_le_bytes(other_prefix) == other_length);
    lemma_split(encode_utf8(text), rest, encode_utf8(other), other_rest);
    encode_utf8_decode_utf8(text);
    encode_utf8_decode_utf8(other);
}

/// What follows the encoding of a text that may be absent cannot blur it:
/// such encodings, each followed by more bytes, agree only if the texts, or
/// their absence, and what follows agree.
pub proof fn lemma_optional_text_decodes(
    text: Option<Seq<char>>,
    rest: Seq<u8>,
    other: Option<Seq<char>>,
    other_rest: Seq<u8>,
)
    requires
        text matches Some(present) ==> fits(present),
        other matches Some(present) ==> fits(present),
        optional_text_encoding(text) + rest == optional_text_encoding(other) + other_rest,
    ensures
        text == other,
        rest == other_rest,
{
    let whole = optional_text_encoding(text) + rest;
    let other_whole = optional_text_encoding(other) + other_rest;
    assert(whole[0] == optional_text_encoding(text)[0]);
    assert(other_whole[0] == optional_text_encoding(other)[0]);
    match (text, other) {
        (None, None) => {
            lemma_split(seq![0u8], rest, seq![0u8], other_rest);
        },
        (Some(present), Some(other_present)) => {
            assert(whole =~= seq![1u8] + (text_encoding(present) + rest));
            assert(other_whole =~= seq![1u8] + (text_encoding(other_present) + other_rest));
            lemma_split(
                seq![1u8],
                text_encoding(present) + rest,
                seq![1u8],
                text_encoding(other_present) + other_rest,
            );
            lemma_text_decodes(present, rest, other_present, other_rest);
        },
        _ => {},
    }
}

} // verus!
