//! Codecs of the `encoding` crate, the registry that resolves a name to one,
//! and strict and lossy decoding and encoding through them.

use vstd::prelude::*;
use vstd::string::*;
use encoding::types::{DecoderTrap, EncoderTrap, EncodingRef};

verus! {

/// The codec object of the `encoding` crate. Its type is a trait object,
/// which cannot be declared here, so it is held opaque.
#[verifier::external_body]
pub struct Handle {
    enc: EncodingRef,
}

/// A codec, known by its canonical name: the `encoding` crate names each of
/// its built-in codecs uniquely.
pub struct Codec {
    name: String,
    handle: Handle,
}

impl View for Codec {
    type V = Seq<char>;

    closed spec fn view(&self) -> Seq<char> {
        self.name@
    }
}

/// Canonical name of the codec that a WHATWG label selects, if any.
pub uninterp spec fn whatwg_lookup(label: Seq<char>) -> Option<Seq<char>>;

/// The WHATWG name of the codec with a given canonical name, if it has one.
pub uninterp spec fn whatwg_name_of(codec: Seq<char>) -> Option<Seq<char>>;

/// Text that a strict decode gives, or the reason it fails.
pub uninterp spec fn strict_decoding(codec: Seq<char>, bytes: Seq<u8>) -> Result<Seq<char>, Seq<char>>;

/// Bytes that a strict encode gives, or the reason it fails.
pub uninterp spec fn strict_encoding(codec: Seq<char>, text: Seq<char>) -> Result<Seq<u8>, Seq<char>>;

/// Text that a decode with replacement characters gives.
pub uninterp spec fn lossy_decoding(codec: Seq<char>, bytes: Seq<u8>) -> Seq<char>;

/// The lower-case form of a text.
pub uninterp spec fn lower_of(s: Seq<char>) -> Seq<char>;

/// Views of a text-or-message result.
pub open spec fn text_result(r: Result<String, String>) -> Result<Seq<char>, Seq<char>> {
    match r {
        Ok(t) => Ok(t@),
        Err(e) => Err(e@),
    }
}

/// Views of a bytes-or-message result.
pub open spec fn bytes_result(r: Result<Vec<u8>, String>) -> Result<Seq<u8>, Seq<char>> {
    match r {
        Ok(b) => Ok(b@),
        Err(e) => Err(e@),
    }
}

/// Relies on encoding::label::encoding_from_whatwg_label, for the codec that a
/// label selects, and on Encoding::name, for that codec's canonical name.
#[verifier::external_body]
fn lookup_label(label: &str) -> (r: Option<Codec>)
    ensures
        r matches Some(c) ==> whatwg_lookup(label@) == Some(c@),
        r is None ==> whatwg_lookup(label@) is None,
{
    encoding::label::encoding_from_whatwg_label(label).map(
        |enc| Codec { name: enc.name().to_string(), handle: Handle { enc } },
    )
}

/// Relies on encoding::all::UTF_16LE, the little-endian UTF-16 codec, whose
/// Encoding::name is "utf-16le".
#[verifier::external_body]
fn utf_16le() -> (r: Codec)
    ensures
        r@ == "utf-16le"@,
{
    let enc: EncodingRef = encoding::all::UTF_16LE;
    Codec { name: enc.name().to_string(), handle: Handle { enc } }
}

/// Relies on Encoding::whatwg_name.
#[verifier::external_body]
fn whatwg_name(c: &Codec) -> (r: Option<String>)
    ensures
        r matches Some(n) ==> whatwg_name_of(c@) == Some(n@),
        r is None ==> whatwg_name_of(c@) is None,
{
    c.handle.enc.whatwg_name().map(|n| n.to_string())
}

/// Relies on Encoding::decode with DecoderTrap::Strict, which fails on the
/// first byte sequence the codec cannot map.
#[verifier::external_body]
fn decode_strict(c: &Codec, bytes: &[u8]) -> (r: Result<String, String>)
    ensures
        text_result(r) == strict_decoding(c@, bytes@),
{
    c.handle.enc.decode(bytes, DecoderTrap::Strict).map_err(|e| e.into_owned())
}

/// Relies on Encoding::decode with DecoderTrap::Replace, whose trap writes
/// U+FFFD and always lets the decode go on, so it never fails.
#[verifier::external_body]
fn decode_lossy(c: &Codec, bytes: &[u8]) -> (r: Result<String, String>)
    ensures
        r is Ok,
        r is Ok ==> r->Ok_0@ == lossy_decoding(c@, bytes@),
{
    c.handle.enc.decode(bytes, DecoderTrap::Replace).map_err(|e| e.into_owned())
}

/// Relies on Encoding::encode with EncoderTrap::Strict, which fails on the
/// first character the codec cannot map.
#[verifier::external_body]
fn encode_strict(c: &Codec, text: &str) -> (r: Result<Vec<u8>, String>)
    ensures
        bytes_result(r) == strict_encoding(c@, text@),
{
    c.handle.enc.encode(text, EncoderTrap::Strict).map_err(|e| e.into_owned())
}

/// Relies on str::to_lowercase: the result depends on the characters alone.
#[verifier::external_body]
fn lowercase(s: &str) -> (r: String)
    ensures
        r@ == lower_of(s@),
{
    s.to_lowercase()
}

/// The codec that an already lower-cased name selects: "utf16" is taken as
/// little-endian UTF-16, any other name as a WHATWG label.
pub open spec fn resolve(lowered: Seq<char>) -> Option<Seq<char>> {
    if lowered == "utf16"@ {
        Some("utf-16le"@)
    } else {
        whatwg_lookup(lowered)
    }
}

/// Resolves a codec name, without regard to case.
pub fn get_encoding(name: &str) -> (r: Option<Codec>)
    ensures
        r matches Some(c) ==> resolve(lower_of(name@)) == Some(c@),
        r is None ==> resolve(lower_of(name@)) is None,
{
    let lowered = lowercase(name);
    let alias = String::from_str("utf16");
    if lowered == alias {
        Some(utf_16le())
    } else {
        lookup_label(lowered.as_str())
    }
}

impl Codec {
    /// The canonical name of the codec.
    pub fn name(&self) -> (r: &str)
        ensures
            r@ == self@,
    {
        self.name.as_str()
    }

    /// The name shown in reports: the codec's WHATWG name, or empty text if it
    /// has none.
    pub fn display_name(&self) -> (r: String)
        ensures
            r@ == match whatwg_name_of(self@) {
                Some(n) => n,
                None => Seq::empty(),
            },
    {
        match whatwg_name(self) {
            Some(n) => n,
            None => String::new(),
        }
    }

    /// Decodes `bytes`, failing on the first sequence the codec cannot map.
    pub fn decode(&self, bytes: &[u8]) -> (r: Result<String, String>)
        ensures
            text_result(r) == strict_decoding(self@, bytes@),
    {
        decode_strict(self, bytes)
    }

    /// Decodes `bytes`, putting U+FFFD in place of what the codec cannot map.
    pub fn decode_replacing(&self, bytes: &[u8]) -> (r: String)
        ensures
            r@ == lossy_decoding(self@, bytes@),
    {
        match decode_lossy(self, bytes) {
            Ok(t) => t,
            Err(e) => e,
        }
    }

    /// Encodes `text`, failing on the first character the codec cannot map.
    pub fn encode(&self, text: &str) -> (r: Result<Vec<u8>, String>)
        ensures
            bytes_result(r) == strict_encoding(self@, text@),
    {
        encode_strict(self, text)
    }
}

} // verus!
