use vstd::prelude::*;
use vstd::string::StringSliceAdditionalSpecFns;
use crate::mutations::ContentType;
use crate::text::{escape_chars, escape_text, lemma_escape_chars_len, copy_range};

verus! {

#[verifier::external_type_specification]
#[verifier::external_body]
pub struct ExEncoding(encoding_rs::Encoding);

/// The canonical name of the UTF-8 encoding, as `encoding_rs` spells it:
/// the bytes of `"UTF-8"`.
pub open spec fn utf8_name() -> Seq<u8> {
    seq![85u8, 84u8, 70u8, 45u8, 56u8]
}

/// What `encoding_rs::Encoding::encode` returns for a string, as a function
/// of the encoding's canonical name and the input characters: the encoded
/// bytes, with unmappable characters replaced by numeric character
/// references.
pub uninterp spec fn encoded_content(encoding_name: Seq<u8>, s: Seq<char>) -> Seq<u8>;

/// Whether `encoding_rs::Encoding::encode` maps every character of the input
/// directly, without numeric-character-reference replacement.
pub uninterp spec fn encode_faithful(encoding_name: Seq<u8>, s: Seq<char>) -> bool;

/// What `encoding_rs::Encoding::decode_without_bom_handling` returns for a
/// byte sequence, as a function of the encoding's canonical name and the
/// bytes.
pub uninterp spec fn decoded_content(encoding_name: Seq<u8>, bytes: Seq<u8>) -> Seq<char>;

/// The document's output encoding, fixed for the lifetime of one processing
/// pipeline instance: the opaque `encoding_rs` handle paired with its
/// canonical name. All constructors keep the two in step, so contracts can
/// speak of the encoding through its name alone.
pub struct DocumentEncoding {
    name: Vec<u8>,
    handle: &'static encoding_rs::Encoding,
}

impl DocumentEncoding {
    /// The canonical name of the encoding.
    pub closed spec fn name_view(&self) -> Seq<u8> {
        self.name@
    }

    pub open spec fn is_utf8(&self) -> bool {
        self.name_view() == utf8_name()
    }

    /// Relies on encoding_rs::Encoding::name: the canonical name identifies
    /// the encoding.
    #[verifier::external_body]
    pub fn new(encoding: &'static encoding_rs::Encoding) -> (r: DocumentEncoding)
        ensures
            r.name_view().len() > 0,
    {
        DocumentEncoding { name: encoding.name().as_bytes().to_vec(), handle: encoding }
    }

    /// Relies on encoding_rs::UTF_8: its canonical name is "UTF-8".
    #[verifier::external_body]
    pub fn utf8() -> (r: DocumentEncoding)
        ensures
            r.name_view() == utf8_name(),
    {
        DocumentEncoding {
            name: encoding_rs::UTF_8.name().as_bytes().to_vec(),
            handle: encoding_rs::UTF_8,
        }
    }

    /// The canonical name of the encoding, as bytes.
    pub fn name_bytes(&self) -> (r: &Vec<u8>)
        ensures
            r@ == self.name_view(),
    {
        &self.name
    }

    /// A second handle to the same encoding.
    pub fn duplicate(&self) -> (r: DocumentEncoding)
        ensures
            r.name_view() == self.name_view(),
    {
        DocumentEncoding {
            name: copy_range(self.name.as_slice(), 0, self.name.len()),
            handle: self.handle,
        }
    }
}

/// Relies on encoding_rs::Encoding::encode: for one encoding the result is a
/// function of the input characters alone; the returned flag reports whether
/// any character was unmappable and replaced with a numeric character
/// reference; encoding to UTF-8 returns exactly the string's UTF-8 bytes with
/// no replacements; empty input encodes to empty output with no replacements.
#[verifier::external_body]
pub(crate) fn encode_strict(d: &DocumentEncoding, s: &str) -> (r: Option<Vec<u8>>)
    requires
        s@.len() <= 0x1000_0000,
    ensures
        (r is Some) == encode_faithful(d.name_view(), s@),
        r is Some ==> r.unwrap()@ == encoded_content(d.name_view(), s@),
        d.is_utf8() ==> r is Some && r.unwrap()@ == s.spec_bytes(),
        s@.len() == 0 ==> r is Some && r.unwrap()@.len() == 0,
{
    let (bytes, _, had_replacements) = d.handle.encode(s);
    if had_replacements {
        None
    } else {
        Some(bytes.into_owned())
    }
}

/// Relies on encoding_rs::Encoding::encode, as `encode_strict` does; this
/// variant keeps the numeric-character-reference replacements.
#[verifier::external_body]
pub(crate) fn encode_lossy(d: &DocumentEncoding, s: &str) -> (r: Vec<u8>)
    requires
        s@.len() <= 0x1000_0000,
    ensures
        r@ == encoded_content(d.name_view(), s@),
        d.is_utf8() ==> r@ == s.spec_bytes(),
        s@.len() == 0 ==> r@.len() == 0,
{
    let (bytes, _, _) = d.handle.encode(s);
    bytes.into_owned()
}

/// Relies on encoding_rs::Encoding::decode_without_bom_handling: for one
/// encoding the decoded string is a function of the input bytes alone; empty
/// input decodes to the empty string; decoding under UTF-8 inverts UTF-8
/// encoding (valid UTF-8 input is returned as the identical text).
#[verifier::external_body]
pub(crate) fn decode_bytes(d: &DocumentEncoding, bytes: &[u8]) -> (r: String)
    requires
        bytes@.len() <= 0x1000_0000,
    ensures
        r@ == decoded_content(d.name_view(), bytes@),
        bytes@.len() == 0 ==> r@.len() == 0,
        d.is_utf8() ==> forall|s: Seq<char>|
            bytes@ == encoded_content(utf8_name(), s) ==> r@ == s,
{
    let (s, _) = d.handle.decode_without_bom_handling(bytes);
    s.into_owned()
}

/// Relies on String's FromIterator impl: collecting characters yields the
/// string of exactly those characters.
#[verifier::external_body]
pub(crate) fn string_from_chars(v: Vec<char>) -> (r: String)
    ensures
        r@ == v@,
{
    v.into_iter().collect()
}

/// The bytes an insertion of `s` with the given content type contributes to
/// the output: literal text is escaped and then encoded, markup is encoded
/// verbatim.
pub open spec fn spec_content_bytes(encoding_name: Seq<u8>, s: Seq<char>, ty: ContentType) -> Seq<u8> {
    match ty {
        ContentType::Html => encoded_content(encoding_name, s),
        ContentType::Text => encoded_content(encoding_name, escape_chars(s)),
    }
}

/// Escapes (for literal text) and encodes one piece of inserted content.
pub(crate) fn content_to_bytes(d: &DocumentEncoding, content: &str, ty: ContentType) -> (r: Vec<
    u8,
>)
    requires
        content@.len() <= 0x0020_0000,
    ensures
        r@ == spec_content_bytes(d.name_view(), content@, ty),
{
    match ty {
        ContentType::Html => encode_lossy(d, content),
        ContentType::Text => {
            let escaped = escape_text(content);
            proof {
                lemma_escape_chars_len(content@);
            }
            let s = string_from_chars(escaped);
            encode_lossy(d, s.as_str())
        },
    }
}

} // verus!
