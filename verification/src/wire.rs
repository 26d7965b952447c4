//! The byte-level building blocks of the operation format: numbers and texts.
//!
//! A number is eight bytes, least significant first. A text is the length of
//! its UTF-8 form as a number, followed by the UTF-8 bytes.

use crate::error::DecodeError;
use vstd::bytes::*;
use vstd::prelude::*;
use vstd::slice::*;
use vstd::string::*;
use vstd::utf8::*;

verus! {

/// The eight bytes that stand for `value`.
pub open spec fn number_bytes(value: u64) -> Seq<u8> {
    spec_u64_to_le_bytes(value)
}

/// Whether the UTF-8 form of `text` is short enough for its length to be
/// written as a number. Every `String` in memory is.
pub open spec fn text_fits(text: Seq<char>) -> bool {
    encode_utf8(text).len() <= u64::MAX
}

/// The bytes that stand for `text`.
pub open spec fn text_bytes(text: Seq<char>) -> Seq<u8> {
    number_bytes(encode_utf8(text).len() as u64) + encode_utf8(text)
}

/// What `input` holds from offset `at` on: nothing, where `at` lies behind
/// its end.
pub open spec fn tail_from(input: Seq<u8>, at: int) -> Seq<u8> {
    if 0 <= at <= input.len() {
        input.skip(at)
    } else {
        Seq::empty()
    }
}

/// Reads a number from the front of `input`: the number and what follows it.
pub open spec fn parse_number(input: Seq<u8>) -> Result<(u64, Seq<u8>), DecodeError> {
    if input.len() < 8 {
        Err(DecodeError::Truncated)
    } else {
        Ok((spec_u64_from_le_bytes(input.take(8)), input.skip(8)))
    }
}

/// Reads a text from the front of `input`: the text and what follows it.
pub open spec fn parse_text(input: Seq<u8>) -> Result<(Seq<char>, Seq<u8>), DecodeError> {
    match parse_number(input) {
        Err(e) => Err(e),
        Ok((len, rest)) => {
            if rest.len() < len {
                Err(DecodeError::Truncated)
            } else if !valid_utf8(rest.take(len as int)) {
                Err(DecodeError::InvalidText)
            } else {
                Ok((decode_utf8(rest.take(len as int)), rest.skip(len as int)))
            }
        },
    }
}

/// A number that was written is read back, and reading stops right behind it.
pub proof fn lemma_parse_number_bytes(value: u64, tail: Seq<u8>)
    ensures
        number_bytes(value).len() == 8,
        parse_number(number_bytes(value) + tail) == Ok::<(u64, Seq<u8>), DecodeError>(
            (value, tail),
        ),
{
    lemma_auto_spec_u64_to_from_le_bytes();
    let input = number_bytes(value) + tail;
    assert(input.take(8) =~= number_bytes(value));
    assert(input.skip(8) =~= tail);
}

/// A text that was written is read back, and reading stops right behind it.
pub proof fn lemma_parse_text_bytes(text: Seq<char>, tail: Seq<u8>)
    requires
        text_fits(text),
    ensures
        parse_text(text_bytes(text) + tail) == Ok::<(Seq<char>, Seq<u8>), DecodeError>(
            (text, tail),
        ),
{
    let utf8 = encode_utf8(text);
    let len = utf8.len() as u64;
    lemma_parse_number_bytes(len, utf8 + tail);
    assert(text_bytes(text) + tail =~= number_bytes(len) + (utf8 + tail));
    assert((utf8 + tail).take(len as int) =~= utf8);
    assert((utf8 + tail).skip(len as int) =~= tail);
    encode_utf8_valid_utf8(text);
    encode_utf8_decode_utf8(text);
}

/// `String::from_utf8` of std: the bytes become a `String` exactly when they
/// are valid UTF-8, and the string then holds the characters they encode.
#[verifier::external_body]
fn text_from_utf8(bytes: Vec<u8>) -> (r: Option<String>)
    ensures
        r is Some <==> valid_utf8(bytes@),
        r matches Some(s) ==> s@ == decode_utf8(bytes@),
{
    match String::from_utf8(bytes) {
        Ok(s) => Some(s),
        Err(_) => None,
    }
}

/// Appends the bytes of `value` to `out`.
pub fn put_number(out: &mut Vec<u8>, value: u64)
    ensures
        final(out)@ == old(out)@ + number_bytes(value),
{
    let mut bytes = u64_to_le_bytes(value);
    out.append(&mut bytes);
}

/// Appends the bytes of `text` to `out`.
pub fn put_text(out: &mut Vec<u8>, text: &String)
    ensures
        final(out)@ == old(out)@ + text_bytes(text@),
        text_fits(text@),
{
    let utf8 = text.as_str().as_bytes();
    let len: usize = utf8.len();
    put_number(out, len as u64);
    let mut tail = slice_to_vec(utf8);
    out.append(&mut tail);
    assert(final(out)@ =~= old(out)@ + text_bytes(text@)) by {
        assert(utf8@ == encode_utf8(text@));
    }
}

/// Reads a number at offset `at` of `input`. Returns it with the offset
/// behind it.
pub fn take_number(input: &[u8], at: usize) -> (r: Result<(u64, usize), DecodeError>)
    ensures
        match parse_number(tail_from(input@, at as int)) {
            Ok((value, rest)) => r matches Ok((v, next)) && v == value && next == at + 8 && next
                <= input@.len() && rest == input@.skip(next as int),
            Err(e) => r matches Err(f) && f == e,
        },
{
    if at > input.len() || input.len() - at < 8 {
        return Err(DecodeError::Truncated);
    }
    let value = u64_from_le_bytes(slice_subrange(input, at, at + 8));
    proof {
        assert(input@.skip(at as int).take(8) =~= input@.subrange(at as int, at + 8));
        assert(input@.skip(at as int).skip(8) =~= input@.skip(at + 8));
    }
    Ok((value, at + 8))
}

/// Reads a text at offset `at` of `input`. Returns it with the offset behind
/// it.
pub fn take_text(input: &[u8], at: usize) -> (r: Result<(String, usize), DecodeError>)
    ensures
        match parse_text(tail_from(input@, at as int)) {
            Ok((text, rest)) => r matches Ok((s, next)) && s@ == text && at <= next
                <= input@.len() && rest == input@.skip(next as int),
            Err(e) => r matches Err(f) && f == e,
        },
{
    let (len, start) = match take_number(input, at) {
        Ok(pair) => pair,
        Err(e) => { return Err(e); },
    };
    if ((input.len() - start) as u64) < len {
        return Err(DecodeError::Truncated);
    }
    let end: usize = start + len as usize;
    let bytes = slice_to_vec(slice_subrange(input, start, end));
    proof {
        let rest = input@.skip(start as int);
        assert(rest.take(len as int) =~= input@.subrange(start as int, end as int));
        assert(rest.skip(len as int) =~= input@.skip(end as int));
    }
    match text_from_utf8(bytes) {
        Some(s) => Ok((s, end)),
        None => Err(DecodeError::InvalidText),
    }
}

} // verus!
