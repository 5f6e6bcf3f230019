//! Trusted boundary to the outside encoders and decoders: JSON and CBOR
//! serialization, charset decoding, and HTML-to-text rendering.
//!
//! Each wrapper makes one outside call; what the engine needs of the
//! result is stated over named functions of the arguments, and everything
//! that follows the call is verified against those names.

use vstd::prelude::*;

verus! {

#[verifier::external_type_specification]
#[verifier::external_body]
pub struct ExJsonValue(serde_json::Value);

#[verifier::external_type_specification]
#[verifier::external_body]
pub struct ExJsonError(serde_json::Error);

#[verifier::external_type_specification]
#[verifier::external_body]
pub struct ExCborError(serde_cbor::Error);

/// Whether these bytes parse as one JSON value.
pub uninterp spec fn json_parses(bytes: Seq<u8>) -> bool;

/// Relies on `serde_json::from_slice`: parses the bytes as a single JSON
/// value, succeeding exactly on well-formed JSON for the value type.
#[verifier::external_body]
pub(crate) fn json_from_slice(bytes: &[u8]) -> (r: Result<serde_json::Value, serde_json::Error>)
    ensures
        (r is Ok) == json_parses(bytes@),
{
    serde_json::from_slice(bytes)
}

/// Relies on `serde_json::to_vec`: serializes the value as JSON bytes.
/// A value tree holds only string-keyed maps and finite numbers, so
/// serialization to an in-memory buffer always succeeds.  Nothing more
/// is claimed: the parser behind `json_parses` refuses deep nesting that
/// the serializer accepts, so re-parsing is not owed for every value.
#[verifier::external_body]
pub(crate) fn json_to_vec(v: &serde_json::Value) -> (r: Result<Vec<u8>, serde_json::Error>)
    ensures
        r is Ok,
{
    serde_json::to_vec(v)
}

/// Relies on `serde_cbor::to_vec`: serializes the value as CBOR bytes.
/// Every variant of the value tree has a CBOR encoding and the writer
/// is an in-memory buffer, so serialization always succeeds.
#[verifier::external_body]
pub(crate) fn cbor_to_vec(v: &serde_json::Value) -> (r: Result<Vec<u8>, serde_cbor::Error>)
    ensures
        r is Ok,
{
    serde_cbor::to_vec(v)
}

/// Whether `encoding_rs` knows a charset under this label.
pub uninterp spec fn charset_supported(label: Seq<char>) -> bool;

/// The text and the canonical name of the encoding actually used when
/// bytes are decoded under this label; both depend on the label and the
/// bytes alone.
pub uninterp spec fn decoded_pair(label: Seq<char>, bytes: Seq<u8>) -> (Seq<char>, Seq<char>);

/// Relies on `encoding_rs::Encoding::for_label` and `Encoding::decode`:
/// looks the label up among the registered encodings and, when it is
/// known, decodes the whole byte buffer to text, malformed sequences
/// replaced; `decode` also reports the encoding actually used (it may
/// differ from the label's by BOM sniffing), whose canonical name is
/// returned beside the text.
#[verifier::external_body]
pub(crate) fn decode_bytes(label: &str, bytes: &[u8]) -> (r: Option<(String, String)>)
    requires
        bytes@.len() < usize::MAX / 4,
    ensures
        (r is Some) == charset_supported(label@),
        r matches Some((text, used)) ==> text@ == decoded_pair(label@, bytes@).0 && used@
            == decoded_pair(label@, bytes@).1,
{
    match encoding_rs::Encoding::for_label(label.as_bytes()) {
        None => None,
        Some(enc) => {
            let (text, used, _) = enc.decode(bytes);
            Some((text.into_owned(), used.name().to_string()))
        },
    }
}

/// The lossy UTF-8 reading of these bytes.
pub uninterp spec fn utf8_lossy_of(bytes: Seq<u8>) -> Seq<char>;

/// Relies on `String::from_utf8_lossy`: decodes the bytes as UTF-8,
/// replacing invalid sequences with the replacement character.
#[verifier::external_body]
pub(crate) fn utf8_lossy(bytes: &[u8]) -> (r: String)
    ensures
        r@ == utf8_lossy_of(bytes@),
{
    String::from_utf8_lossy(bytes).into_owned()
}

/// The text of one chunk under a charset label: decoded under the named
/// charset when the label is known, read as lossy UTF-8 otherwise.
pub open spec fn spec_chunk_text(enc: Seq<char>, bytes: Seq<u8>) -> Seq<char> {
    if charset_supported(enc) {
        decoded_pair(enc, bytes).0
    } else {
        utf8_lossy_of(bytes)
    }
}

/// Decodes one chunk under a charset label, falling back to lossy UTF-8
/// for an unrecognized label.
pub fn decode_chunk(enc: &str, bytes: &[u8]) -> (r: String)
    requires
        bytes@.len() < usize::MAX / 4,
    ensures
        r@ == spec_chunk_text(enc@, bytes@),
{
    match decode_bytes(enc, bytes) {
        Some((text, _)) => text,
        None => utf8_lossy(bytes),
    }
}

/// The markdown-flavoured rendering of an HTML document at a wrap width,
/// where the renderer accepts it.
pub uninterp spec fn html_markdown_of(bytes: Seq<u8>, width: nat) -> Option<Seq<char>>;

/// Relies on `html2text::config::plain` and `Config::string_from_read`:
/// parses the bytes as HTML and renders them as plain text with
/// markdown-style markup, wrapped to `width` columns.
#[verifier::external_body]
pub(crate) fn render_html_markdown(bytes: &[u8], width: usize) -> (r: Option<String>)
    requires
        width >= 1,
    ensures
        (r is Some) == (html_markdown_of(bytes@, width as nat) is Some),
        r matches Some(s) ==> html_markdown_of(bytes@, width as nat) == Some(s@),
{
    html2text::config::plain().string_from_read(bytes, width).ok()
}

/// The undecorated plain-text rendering of an HTML document at a wrap
/// width, where the renderer accepts it.
pub uninterp spec fn html_plain_of(bytes: Seq<u8>, width: nat) -> Option<Seq<char>>;

/// Relies on `html2text::config::with_decorator` with a
/// `TrivialDecorator` and `Config::string_from_read`: parses the bytes
/// as HTML and renders them as undecorated text wrapped to `width`
/// columns.
#[verifier::external_body]
pub(crate) fn render_html_plain(bytes: &[u8], width: usize) -> (r: Option<String>)
    requires
        width >= 1,
    ensures
        (r is Some) == (html_plain_of(bytes@, width as nat) is Some),
        r matches Some(s) ==> html_plain_of(bytes@, width as nat) == Some(s@),
{
    html2text::config::with_decorator(
        html2text::render::text_renderer::TrivialDecorator::new(),
    ).string_from_read(bytes, width).ok()
}

/// The rich-markup rendering of an HTML document at a wrap width, where
/// the renderer accepts it.
pub uninterp spec fn html_rich_of(bytes: Seq<u8>, width: nat) -> Option<Seq<char>>;

/// Relies on `html2text::config::rich` and `Config::string_from_read`:
/// parses the bytes as HTML and renders them with rich markup wrapped to
/// `width` columns.
#[verifier::external_body]
pub(crate) fn render_html_rich(bytes: &[u8], width: usize) -> (r: Option<String>)
    requires
        width >= 1,
    ensures
        (r is Some) == (html_rich_of(bytes@, width as nat) is Some),
        r matches Some(s) ==> html_rich_of(bytes@, width as nat) == Some(s@),
{
    html2text::config::rich().string_from_read(bytes, width).ok()
}

} // verus!
