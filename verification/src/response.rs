//! A fully buffered response: status, final URL, headers, cookies and
//! the whole body, with text decoding under a lazily resolved, cached
//! charset, JSON decoding, and best-effort HTML-to-text renderings.

use vstd::prelude::*;

use crate::codec::{
    charset_supported, decode_bytes, decoded_pair, html_markdown_of, html_plain_of, html_rich_of,
    json_from_slice, json_parses, render_html_markdown, render_html_plain, render_html_rich,
};
use crate::encoding::{
    content_type_key, get_encoding_from_case_insensitive_headers, get_encoding_from_content,
    spec_resolved_encoding, utf8_name,
};
use crate::errors::ErrorKind;
use crate::headers::CaseInsensitiveHeaderMap;
use crate::maps::StringMap;

verus! {

/// The width HTML renderings are wrapped to.
pub const HTML_RENDER_WIDTH: usize = 100;

/// A response whose whole body sits in memory.  `encoding` is empty
/// until first resolved, and afterwards caches the resolution; a text
/// decode may later refine it to the canonical name of the encoding
/// actually used.
pub struct Response {
    pub content: Vec<u8>,
    pub cookies: StringMap,
    pub encoding: String,
    pub headers: CaseInsensitiveHeaderMap,
    pub status_code: u16,
    pub url: String,
}

impl Response {
    /// The charset this response decodes with: the cached one, else the
    /// full resolution over headers and body.
    pub open spec fn effective_encoding(self) -> Seq<char> {
        if self.encoding@.len() > 0 {
            self.encoding@
        } else {
            spec_resolved_encoding(self.headers.spec_get(content_type_key()), self.content@)
        }
    }

    /// Everything but the cached encoding is as it was.
    pub open spec fn same_but_encoding(self, other: Self) -> bool {
        &&& self.content@ == other.content@
        &&& self.cookies == other.cookies
        &&& self.headers == other.headers
        &&& self.status_code == other.status_code
        &&& self.url == other.url
    }

    /// Resolves the charset, caching it on first use: a charset the
    /// headers declare, else one found in the body, else `utf-8`.
    pub fn get_encoding(&mut self) -> (r: String)
        ensures
            final(self).same_but_encoding(*old(self)),
            r@ == old(self).effective_encoding(),
            final(self).encoding@ == old(self).effective_encoding(),
    {
        if !self.encoding.as_str().is_empty() {
            return self.encoding.clone();
        }
        let resolved = match get_encoding_from_case_insensitive_headers(&self.headers) {
            Some(e) => e,
            None => match get_encoding_from_content(self.content.as_slice()) {
                Some(e) => e,
                None => {
                    proof {
                        reveal_strlit("utf-8");
                        assert("utf-8"@ =~= utf8_name());
                    }
                    "utf-8".to_owned()
                },
            },
        };
        self.encoding = resolved.clone();
        resolved
    }

    /// Decodes the body as text under the resolved charset, caching the
    /// canonical name of the encoding actually used (a refinement, not
    /// an error).  An unsupported charset name is a decoding error.
    pub fn text(&mut self) -> (r: Result<String, ErrorKind>)
        requires
            old(self).content@.len() < usize::MAX / 4,
        ensures
            final(self).same_but_encoding(*old(self)),
            charset_supported(old(self).effective_encoding()) ==> (r matches Ok(t) && t@
                == decoded_pair(old(self).effective_encoding(), old(self).content@).0
                && final(self).encoding@ == decoded_pair(
                old(self).effective_encoding(),
                old(self).content@,
            ).1),
            !charset_supported(old(self).effective_encoding()) ==> r == Err::<String, ErrorKind>(
                ErrorKind::DecodingError,
            ) && final(self).encoding@ == old(self).effective_encoding(),
    {
        let enc = self.get_encoding();
        match decode_bytes(enc.as_str(), self.content.as_slice()) {
            Some((text, used)) => {
                self.encoding = used;
                Ok(text)
            },
            None => Err(ErrorKind::DecodingError),
        }
    }

    /// Parses the body as one JSON value; succeeds exactly on
    /// well-formed JSON.
    pub fn json(&self) -> (r: Result<serde_json::Value, ErrorKind>)
        ensures
            (r is Ok) == json_parses(self.content@),
            r is Err ==> r == Err::<serde_json::Value, ErrorKind>(ErrorKind::DecodingError),
    {
        match json_from_slice(self.content.as_slice()) {
            Ok(v) => Ok(v),
            Err(_) => Err(ErrorKind::DecodingError),
        }
    }

    /// The body rendered from HTML with markdown-style markup.
    pub fn text_markdown(&self) -> (r: Result<String, ErrorKind>)
        ensures
            (r is Ok) == (html_markdown_of(self.content@, HTML_RENDER_WIDTH as nat) is Some),
            r matches Ok(t) ==> html_markdown_of(self.content@, HTML_RENDER_WIDTH as nat) == Some(
                t@,
            ),
            r is Err ==> r == Err::<String, ErrorKind>(ErrorKind::RequestError),
    {
        match render_html_markdown(self.content.as_slice(), HTML_RENDER_WIDTH) {
            Some(t) => Ok(t),
            None => Err(ErrorKind::RequestError),
        }
    }

    /// The body rendered from HTML as undecorated plain text.
    pub fn text_plain(&self) -> (r: Result<String, ErrorKind>)
        ensures
            (r is Ok) == (html_plain_of(self.content@, HTML_RENDER_WIDTH as nat) is Some),
            r matches Ok(t) ==> html_plain_of(self.content@, HTML_RENDER_WIDTH as nat) == Some(t@),
            r is Err ==> r == Err::<String, ErrorKind>(ErrorKind::RequestError),
    {
        match render_html_plain(self.content.as_slice(), HTML_RENDER_WIDTH) {
            Some(t) => Ok(t),
            None => Err(ErrorKind::RequestError),
        }
    }

    /// The body rendered from HTML with rich markup.
    pub fn text_rich(&self) -> (r: Result<String, ErrorKind>)
        ensures
            (r is Ok) == (html_rich_of(self.content@, HTML_RENDER_WIDTH as nat) is Some),
            r matches Ok(t) ==> html_rich_of(self.content@, HTML_RENDER_WIDTH as nat) == Some(t@),
            r is Err ==> r == Err::<String, ErrorKind>(ErrorKind::RequestError),
    {
        match render_html_rich(self.content.as_slice(), HTML_RENDER_WIDTH) {
            Some(t) => Ok(t),
            None => Err(ErrorKind::RequestError),
        }
    }
}

} // verus!
