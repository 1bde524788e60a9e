//! Text conversions that are done by code outside this crate.

use encoding::all::ISO_8859_1;
use encoding::{DecoderTrap, EncoderTrap, Encoding};
use vstd::prelude::*;

verus! {

/// The text that a run of Latin-1 bytes stands for: each byte is the
/// character with the same code.
pub open spec fn latin1_chars(bytes: Seq<u8>) -> Seq<char> {
    Seq::new(bytes.len(), |i: int| bytes[i] as char)
}

/// The Latin-1 bytes of a text whose characters all have a code below 256.
pub open spec fn latin1_bytes(text: Seq<char>) -> Seq<u8> {
    Seq::new(text.len(), |i: int| text[i] as u8)
}

/// Every character of the text has a Latin-1 code.
pub open spec fn is_latin1(text: Seq<char>) -> bool {
    forall|i: int| 0 <= i < text.len() ==> (#[trigger] text[i]) as int <= 0xff
}

/// What `char::is_alphanumeric` answers for a character.
pub uninterp spec fn is_alphanumeric(c: char) -> bool;

/// The first character of what `char::to_uppercase` yields for a character.
pub uninterp spec fn uppercase_head(c: char) -> char;

/// Calls `Encoding::decode` on `encoding::all::ISO_8859_1` with
/// `DecoderTrap::Ignore`.
///
/// Trusted: the decoder writes, for every input byte in turn, the character
/// whose code is that byte, and never reports an error.
#[verifier::external_body]
pub(crate) fn decode_latin1(bytes: &[u8]) -> (text: String)
    ensures
        text@ == latin1_chars(bytes@),
{
    ISO_8859_1.decode(bytes, DecoderTrap::Ignore).unwrap()
}

/// Calls `Encoding::encode` on `encoding::all::ISO_8859_1` with
/// `EncoderTrap::Strict`.
///
/// Trusted: the encoder writes one byte per character, the character's code,
/// and fails exactly when some character has a code above 255.
#[verifier::external_body]
pub(crate) fn encode_latin1(text: &str) -> (bytes: Option<Vec<u8>>)
    ensures
        bytes is Some <==> is_latin1(text@),
        bytes is Some ==> bytes->0@ == latin1_bytes(text@),
{
    match ISO_8859_1.encode(text, EncoderTrap::Strict) {
        Ok(b) => Some(b),
        Err(_) => None,
    }
}

/// Calls `char::is_alphanumeric`.
///
/// Trusted: the answer depends on the character alone.
#[verifier::external_body]
pub(crate) fn char_is_alphanumeric(c: char) -> (b: bool)
    ensures
        b == is_alphanumeric(c),
{
    c.is_alphanumeric()
}

/// Calls `char::to_uppercase` and takes the first character it yields.
///
/// Trusted: the mapping depends on the character alone and yields at least
/// one character.
#[verifier::external_body]
pub(crate) fn char_uppercase_head(c: char) -> (u: char)
    ensures
        u == uppercase_head(c),
{
    c.to_uppercase().next().unwrap_or(c)
}

/// A character with a Latin-1 code is the character of its byte.
pub proof fn lemma_latin1_char(c: char)
    requires
        c as int <= 0xff,
    ensures
        (c as u8) as char == c,
        (c as u8) as int == c as int,
{
}

/// A byte is the byte of its Latin-1 character.
pub proof fn lemma_latin1_byte(b: u8)
    ensures
        (b as char) as u8 == b,
        (b as char) as int == b as int,
{
}

/// Decoding Latin-1 bytes and encoding the text again gives the bytes back.
pub proof fn lemma_latin1_round_trip(bytes: Seq<u8>)
    ensures
        is_latin1(latin1_chars(bytes)),
        latin1_bytes(latin1_chars(bytes)) == bytes,
{
    let text = latin1_chars(bytes);
    assert forall|i: int| 0 <= i < text.len() implies (#[trigger] text[i]) as int <= 0xff by {
        lemma_latin1_byte(bytes[i]);
    }
    assert forall|i: int| 0 <= i < bytes.len() implies latin1_bytes(text)[i] == bytes[i] by {
        lemma_latin1_byte(bytes[i]);
    }
    assert(latin1_bytes(text) =~= bytes);
}

/// Encoding a Latin-1 text and decoding the bytes again gives the text back.
pub proof fn lemma_latin1_text_round_trip(text: Seq<char>)
    requires
        is_latin1(text),
    ensures
        latin1_chars(latin1_bytes(text)) == text,
{
    assert forall|i: int| 0 <= i < text.len() implies latin1_chars(latin1_bytes(text))[i]
        == text[i] by {
        lemma_latin1_char(text[i]);
    }
    assert(latin1_chars(latin1_bytes(text)) =~= text);
}

} // verus!
