//! The frame format: one fixed-size block per message.
//!
//! A frame carries up to [`BLOCK_WIDTH`] bytes of text. Shorter payloads are
//! filled up with spaces; longer ones lose everything past the frame width.
//! There is no length prefix, so a reader cannot tell padding from trailing
//! whitespace of the message and drops both.

use crate::wire::BLOCK_WIDTH;
use vstd::prelude::*;
use vstd::string::*;
use vstd::utf8::*;

verus! {

/// The byte that fills the unused tail of a frame: an ASCII space.
pub const PAD: u8 = 0x20;

/// The frame that carries `payload`: its first [`BLOCK_WIDTH`] bytes, then
/// padding up to the frame width.
pub open spec fn pad_frame(payload: Seq<u8>) -> Seq<u8> {
    Seq::new(
        BLOCK_WIDTH as nat,
        |i: int|
            if i < payload.len() {
                payload[i]
            } else {
                PAD
            },
    )
}

/// Characters with the Unicode property `White_Space`.
pub open spec fn is_whitespace(c: char) -> bool {
    let code = c as u32;
    ||| 0x09 <= code <= 0x0d
    ||| code == 0x20
    ||| code == 0x85
    ||| code == 0xa0
    ||| code == 0x1680
    ||| 0x2000 <= code <= 0x200a
    ||| code == 0x2028
    ||| code == 0x2029
    ||| code == 0x202f
    ||| code == 0x205f
    ||| code == 0x3000
}

/// `text` without the whitespace at its end.
pub open spec fn trim_end(text: Seq<char>) -> Seq<char>
    decreases text.len(),
{
    if text.len() > 0 && is_whitespace(text.last()) {
        trim_end(text.drop_last())
    } else {
        text
    }
}

/// The text that a decrypted frame holds: absent when the bytes are not
/// UTF-8, else the decoded characters without trailing whitespace.
pub open spec fn frame_text(block: Seq<u8>) -> Option<Seq<char>> {
    if valid_utf8(block) {
        Some(trim_end(decode_utf8(block)))
    } else {
        None
    }
}

/// Builds the frame for `payload`, truncating or padding it to the frame
/// width.
pub fn frame_payload(payload: &[u8]) -> (frame: Vec<u8>)
    ensures
        frame@ == pad_frame(payload@),
        frame@.len() == BLOCK_WIDTH,
{
    let mut frame: Vec<u8> = Vec::new();
    let mut i: usize = 0;
    while i < BLOCK_WIDTH
        invariant
            i <= BLOCK_WIDTH,
            frame@.len() == i,
            forall|j: int| 0 <= j < i ==> frame@[j] == pad_frame(payload@)[j],
        decreases BLOCK_WIDTH - i,
    {
        if i < payload.len() {
            frame.push(payload[i]);
        } else {
            frame.push(PAD);
        }
        i = i + 1;
    }
    assert(frame@ =~= pad_frame(payload@));
    frame
}

/// Tells whether `c` is whitespace.
pub fn char_is_whitespace(c: char) -> (b: bool)
    ensures
        b == is_whitespace(c),
{
    let code: u32 = c as u32;
    (0x09 <= code && code <= 0x0d) || code == 0x20 || code == 0x85 || code == 0xa0 || code
        == 0x1680 || (0x2000 <= code && code <= 0x200a) || code == 0x2028 || code == 0x2029
        || code == 0x202f || code == 0x205f || code == 0x3000
}

/// Whitespace appended to a text is trimmed away again.
pub proof fn lemma_trim_end_ignores_spaces(text: Seq<char>, n: nat)
    ensures
        trim_end(text + Seq::new(n, |i: int| ' ')) == trim_end(text),
    decreases n,
{
    let padded = text + Seq::new(n, |i: int| ' ');
    if n == 0 {
        assert(padded =~= text);
    } else {
        assert(padded.last() == ' ');
        assert(padded.drop_last() =~= text + Seq::new((n - 1) as nat, |i: int| ' '));
        lemma_trim_end_ignores_spaces(text, (n - 1) as nat);
    }
}

/// Padding is invisible to the reader: a payload that fits the frame reads
/// back as the text that the payload itself holds, trailing whitespace
/// trimmed, and as nothing where the payload is not UTF-8.
pub proof fn lemma_padding_is_invisible(payload: Seq<u8>)
    requires
        payload.len() <= BLOCK_WIDTH,
    ensures
        frame_text(pad_frame(payload)) == frame_text(payload),
{
    let len = payload.len() as int;
    let n = (BLOCK_WIDTH - payload.len()) as nat;
    let pad_bytes = Seq::new(n, |i: int| PAD);
    let pad_chars = Seq::new(n, |i: int| ' ');
    let whole = pad_frame(payload);
    assert(whole =~= payload + pad_bytes);
    assert(whole.subrange(0, len) =~= payload);
    assert(whole.subrange(len, whole.len() as int) =~= pad_bytes);
    assert(pad_bytes =~= encode_utf8(pad_chars)) by {
        assert(is_ascii_chars(pad_chars));
        is_ascii_chars_encode_utf8(pad_chars);
    }
    encode_utf8_valid_utf8(pad_chars);
    encode_utf8_decode_utf8(pad_chars);
    if valid_utf8(payload) {
        valid_utf8_concat(payload, pad_bytes);
    }
    if valid_utf8(whole) {
        if n == 0 {
            is_char_boundary_start_end_of_seq(whole);
        } else {
            is_char_boundary_iff_not_is_continuation_byte(whole, len);
        }
        valid_utf8_split(whole, len);
        decode_utf8_split(whole, len);
        lemma_trim_end_ignores_spaces(decode_utf8(payload), n);
    }
}

/// Copies `text` without the whitespace at its end.
pub fn trim_trailing(text: &str) -> (trimmed: String)
    ensures
        trimmed@ == trim_end(text@),
{
    let mut n: usize = text.unicode_len();
    assert(text@.take(n as int) =~= text@);
    while n > 0 && char_is_whitespace(text.get_char(n - 1))
        invariant
            n <= text@.len(),
            trim_end(text@) == trim_end(text@.take(n as int)),
        decreases n,
    {
        proof {
            assert(text@.take(n as int).drop_last() =~= text@.take(n - 1));
        }
        n = n - 1;
    }
    String::from_str(text.substring_char(0, n))
}

/// Calls `String::from_utf8` of the standard library. Its contract is
/// taken on trust: the call gives a string exactly when the bytes are valid
/// UTF-8, and the string then holds the characters that the bytes encode.
#[verifier::external_body]
fn string_from_utf8(bytes: Vec<u8>) -> (text: Option<String>)
    ensures
        text is Some <==> valid_utf8(bytes@),
        text matches Some(s) ==> s@ == decode_utf8(bytes@),
{
    match String::from_utf8(bytes) {
        Ok(s) => Some(s),
        Err(_) => None,
    }
}

/// Reads the text out of a decrypted frame. Undecodable bytes give no text;
/// that is not an error, the frame is simply to be skipped.
pub fn read_frame(block: Vec<u8>) -> (text: Option<String>)
    ensures
        text.deep_view() == frame_text(block@),
{
    match string_from_utf8(block) {
        Some(s) => Some(trim_trailing(s.as_str())),
        None => None,
    }
}

} // verus!
