//! Charset decoding for input that is not UTF-8, done by `encoding_rs`.
//! `decode_line` is the one decode that rendering and matching share.

use std::borrow::Cow;
use vstd::prelude::*;
use crate::text::{chars_of, eq_lit};

verus! {

#[verifier::external_type_specification]
#[verifier::external_body]
pub struct ExEncodingRs(encoding_rs::Encoding);

/// The canonical name of the encoding that `encoding_rs::Encoding::for_label`
/// finds for `label`, or `None` for a label the Encoding Standard does not
/// define.
pub uninterp spec fn label_encoding(label: Seq<u8>) -> Option<Seq<char>>;

/// The text that `encoding_rs::Encoding::decode` gives for `bytes` with the
/// encoding named `encoding`.
pub uninterp spec fn decoded_text(encoding: Seq<char>, bytes: Seq<u8>) -> Seq<char>;

/// The UTF-8 byte order mark.
pub open spec fn utf8_bom() -> Seq<u8> {
    seq![0xEFu8, 0xBBu8, 0xBFu8]
}

/// A character encoding, known by its canonical name. (Named apart from
/// `encoding_rs::Encoding`, which it holds.)
#[derive(Debug, Clone, Copy)]
pub struct TextEncoding {
    enc: &'static encoding_rs::Encoding,
    name: &'static str,
}

impl View for TextEncoding {
    type V = Seq<char>;

    closed spec fn view(&self) -> Seq<char> {
        self.name@
    }
}

/// `encoding_rs::UTF_8` and its name, which its source gives as "UTF-8".
#[verifier::external_body]
fn utf8_encoding() -> (e: TextEncoding)
    ensures
        e@ == "UTF-8"@,
{
    TextEncoding { enc: encoding_rs::UTF_8, name: encoding_rs::UTF_8.name() }
}

/// `encoding_rs::Encoding::for_label`, with the found encoding's name.
#[verifier::external_body]
fn encoding_for_label(label: &[u8]) -> (r: Option<TextEncoding>)
    ensures
        r is Some <==> label_encoding(label@) is Some,
        r matches Some(e) ==> label_encoding(label@) == Some(e@),
{
    encoding_rs::Encoding::for_label(label).map(|e| TextEncoding { enc: e, name: e.name() })
}

/// `encoding_rs::Encoding::decode` of `bytes` with `enc`, without the flags
/// it also returns. Its documentation promises that valid UTF-8 without a
/// byte order mark decodes, as UTF-8, to the text it encodes.
#[verifier::external_body]
fn decode_with(enc: TextEncoding, bytes: &[u8]) -> (r: Cow<'_, str>)
    ensures
        r@ == decoded_text(enc@, bytes@),
        enc@ == "UTF-8"@ && vstd::utf8::valid_utf8(bytes@) && !(bytes@.len() >= 3 && bytes@.take(3) == utf8_bom())
            ==> r@ == vstd::utf8::decode_utf8(bytes@),
{
    let (cow, _, _) = enc.enc.decode(bytes);
    cow
}

impl TextEncoding {
    /// UTF-8.
    pub fn utf8() -> (e: TextEncoding)
        ensures
            e@ == "UTF-8"@,
    {
        utf8_encoding()
    }

    /// Whether this is UTF-8.
    pub fn is_utf8(&self) -> (r: bool)
        ensures
            r == (self@ == "UTF-8"@),
    {
        let v = chars_of(self.name);
        eq_lit(v.as_slice(), "UTF-8")
    }

    /// The encoding's canonical name.
    pub fn label(&self) -> (s: &'static str)
        ensures
            s@ == self@,
    {
        self.name
    }
}

impl Default for TextEncoding {
    fn default() -> (e: TextEncoding)
        ensures
            e@ == "UTF-8"@,
    {
        TextEncoding::utf8()
    }
}

/// The encoding a WHATWG label names (`utf-8`, `latin1`, `windows-1252`,
/// `shift_jis`, …; case and surrounding whitespace do not matter), or
/// `None` for an unknown label.
pub fn parse_label(label: &str) -> (r: Option<TextEncoding>)
    ensures
        r is Some <==> label_encoding(vstd::utf8::encode_utf8(label@)) is Some,
        r matches Some(e) ==> label_encoding(vstd::utf8::encode_utf8(label@)) == Some(e@),
{
    let bytes = label.as_bytes();
    encoding_for_label(bytes)
}

/// The text of one line's bytes in `enc`. Malformed sequences become
/// U+FFFD; single-byte charsets never fail.
pub fn decode_line(bytes: &[u8], enc: TextEncoding) -> (r: Cow<'_, str>)
    ensures
        r@ == decoded_text(enc@, bytes@),
        enc@ == "UTF-8"@ && vstd::utf8::valid_utf8(bytes@) && !(bytes@.len() >= 3 && bytes@.take(3) == utf8_bom())
            ==> r@ == vstd::utf8::decode_utf8(bytes@),
{
    decode_with(enc, bytes)
}

} // verus!
