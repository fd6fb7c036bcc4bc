//! Text that the standard library produces or reads for the codec.
use vstd::prelude::*;
use vstd::string::StringSliceAdditionalSpecFns;
use vstd::utf8::{decode_utf8, encode_utf8, valid_utf8};
use crate::number::integer_value;

verus! {

/// What `String::from_utf8_lossy` makes of bytes that are not well-formed
/// UTF-8: their text with each malformed part replaced by U+FFFD.
pub uninterp spec fn lossy_text(bytes: Seq<u8>) -> Seq<char>;

/// The text that a payload carries: the text that the bytes encode where they
/// are well-formed UTF-8, and what a lossy conversion makes of them otherwise.
pub open spec fn text_of(bytes: Seq<u8>) -> Seq<char> {
    if valid_utf8(bytes) {
        decode_utf8(bytes)
    } else {
        lossy_text(bytes)
    }
}

/// Trusted wrapper around `String::from_utf8_lossy`. As its documentation says,
/// well-formed UTF-8 comes back as the text it encodes; of malformed input the
/// contract says no more than the name [`lossy_text`].
#[verifier::external_body]
pub(crate) fn text_from_bytes(bytes: &[u8]) -> (text: String)
    ensures
        valid_utf8(bytes@) ==> text@ == decode_utf8(bytes@),
        !valid_utf8(bytes@) ==> text@ == lossy_text(bytes@),
{
    String::from_utf8_lossy(bytes).into_owned()
}

/// Trusted wrapper around `str::parse::<i64>`. As the documentation of
/// `i64::from_str` says, the text has to be an optional `+` or `-` followed by
/// decimal digits only, at least one, and the number has to fit; then the
/// result is that number, and every other text is an error.
#[verifier::external_body]
pub(crate) fn parse_integer(text: &str) -> (r: Result<i64, std::num::ParseIntError>)
    ensures
        match r {
            Ok(v) => integer_value(text.spec_bytes()) == Some(v),
            Err(_) => integer_value(text.spec_bytes()) is None,
        },
{
    text.parse::<i64>()
}

/// Bytes below 128 only.
pub open spec fn is_ascii_bytes(bytes: Seq<u8>) -> bool {
    forall|i: int| 0 <= i < bytes.len() ==> #[trigger] bytes[i] < 128
}

/// Text that was encoded reads back as itself.
pub proof fn lemma_text_of_encoded(text: Seq<char>)
    ensures
        text_of(encode_utf8(text)) == text,
{
    vstd::utf8::encode_utf8_valid_utf8(text);
    vstd::utf8::encode_utf8_decode_utf8(text);
}

/// Plain ASCII is well-formed UTF-8: it is the encoding of the text it carries.
pub proof fn lemma_text_of_ascii(bytes: Seq<u8>)
    requires
        is_ascii_bytes(bytes),
    ensures
        valid_utf8(bytes),
        encode_utf8(text_of(bytes)) == bytes,
{
    let chars = Seq::new(bytes.len(), |i: int| bytes[i] as char);
    assert(vstd::utf8::is_ascii_chars(chars));
    vstd::utf8::is_ascii_chars_encode_utf8(chars);
    assert(encode_utf8(chars) =~= bytes);
    vstd::utf8::encode_utf8_valid_utf8(chars);
    vstd::utf8::decode_utf8_encode_utf8(bytes);
}

} // verus!
