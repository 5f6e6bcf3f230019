//! Charset resolution for response bodies.
//!
//! The charset of a body is resolved in this order, first match winning:
//! a `charset=` parameter of the `Content-Type` header; `utf-8` for a bare
//! `application/json` media type; a `charset=` marker within the first
//! 2048 body bytes; `utf-8` as the universal fallback.

use vstd::prelude::*;

use crate::headers::CaseInsensitiveHeaderMap;
use crate::text::{
    has_prefix, lower_seq, lower_str, push_char, split_seq, split_str, strs_view, trim_spaces,
    trim_spaces_str, unquote, unquote_str,
};

verus! {

/// The header consulted for the declared charset.
pub open spec fn content_type_key() -> Seq<char> {
    seq!['c', 'o', 'n', 't', 'e', 'n', 't', '-', 't', 'y', 'p', 'e']
}

/// The parameter that declares a charset.
pub open spec fn charset_prefix() -> Seq<char> {
    seq!['c', 'h', 'a', 'r', 's', 'e', 't', '=']
}

/// The media type that implies `utf-8` with no declared charset.
pub open spec fn json_media() -> Seq<char> {
    seq!['a', 'p', 'p', 'l', 'i', 'c', 'a', 't', 'i', 'o', 'n', '/', 'j', 's', 'o', 'n']
}

/// The universal fallback charset name.
pub open spec fn utf8_name() -> Seq<char> {
    seq!['u', 't', 'f', '-', '8']
}

/// The charset declared by the first `charset=` parameter among the
/// `;`-separated pieces, trimmed, lower-cased and unquoted; `None` when
/// no piece declares one.
pub open spec fn charset_from_params(pieces: Seq<Seq<char>>) -> Option<Seq<char>>
    decreases pieces.len(),
{
    if pieces.len() == 0 {
        None
    } else {
        let t = lower_seq(trim_spaces(pieces[0]));
        if t.len() >= charset_prefix().len() && t.take(charset_prefix().len() as int)
            == charset_prefix() {
            Some(unquote(t.skip(charset_prefix().len() as int)))
        } else {
            charset_from_params(pieces.drop_first())
        }
    }
}

/// The charset resolved from a `Content-Type` header value, if any:
/// a `charset=` parameter wins; a bare `application/json` media type
/// means `utf-8`; anything else declares nothing.
pub open spec fn spec_header_encoding(ct: Option<Seq<char>>) -> Option<Seq<char>> {
    match ct {
        None => None,
        Some(s) => {
            let pieces = split_seq(s, ';');
            match charset_from_params(pieces.drop_first()) {
                Some(cs) => Some(cs),
                None => if trim_spaces(pieces[0]) == json_media() {
                    Some(utf8_name())
                } else {
                    None
                },
            }
        },
    }
}

/// Resolves the charset declared by the headers, consulting the
/// `Content-Type` header as `spec_header_encoding` describes.
pub fn get_encoding_from_case_insensitive_headers(headers: &CaseInsensitiveHeaderMap) -> (r:
    Option<String>)
    ensures
        r matches Some(v) ==> spec_header_encoding(headers.spec_get(content_type_key())) == Some(
            v@,
        ),
        r is None ==> spec_header_encoding(headers.spec_get(content_type_key())) is None,
{
    proof {
        reveal_strlit("content-type");
        assert("content-type"@ =~= content_type_key());
    }
    let ct = match headers.get_value("content-type") {
        None => {
            return None;
        },
        Some(ct) => ct,
    };
    let pieces = split_str(ct.as_str(), ';');
    let ghost all = split_seq(ct@, ';');
    proof {
        crate::text::lemma_split_seq_nonempty(ct@, ';');
    }
    let n = pieces.len();
    let mut i: usize = 1;
    while i < n
        invariant
            1 <= i <= n,
            n == all.len(),
            strs_view(pieces@) == all,
            pieces@.len() == n,
            all == split_seq(ct@, ';'),
            headers.spec_get(content_type_key()) == Some(ct@),
            charset_from_params(all.drop_first()) == charset_from_params(all.skip(i as int)),
        decreases n - i,
    {
        let t = lower_str(trim_spaces_str(pieces[i].as_str()));
        proof {
            reveal_strlit("charset=");
            assert("charset="@ =~= charset_prefix());
        }
        if has_prefix(t.as_str(), "charset=") {
            let tn = t.as_str().unicode_len();
            let tail = t.as_str().substring_char(8, tn);
            let cs = unquote_str(tail);
            let r = cs.to_owned();
            proof {
                let rest = all.skip(i as int);
                assert(rest[0] == all[i as int]);
                assert(t@ == lower_seq(trim_spaces(rest[0])));
                assert(t@.skip(8) =~= tail@);
                assert(charset_from_params(rest) == Some(unquote(t@.skip(8))));
            }
            return Some(r);
        }
        proof {
            let rest = all.skip(i as int);
            assert(rest[0] == all[i as int]);
            assert(t@ == lower_seq(trim_spaces(rest[0])));
            assert(rest.drop_first() =~= all.skip(i + 1));
            assert(charset_from_params(rest) == charset_from_params(all.skip(i + 1)));
        }
        i = i + 1;
    }
    proof {
        assert(all.skip(n as int) =~= Seq::<Seq<char>>::empty());
        assert(charset_from_params(all.drop_first()) is None);
    }
    let media = trim_spaces_str(pieces[0].as_str());
    proof {
        reveal_strlit("application/json");
        assert("application/json"@ =~= json_media());
        assert(strs_view(pieces@)[0] == pieces@[0]@);
    }
    if crate::text::str_eq(media, "application/json") {
        proof {
            reveal_strlit("utf-8");
            assert("utf-8"@ =~= utf8_name());
        }
        return Some("utf-8".to_owned());
    }
    None
}

/// The charset of a fully buffered body: the one the headers declare,
/// else the one found inside the body, else `utf-8`.
pub open spec fn spec_resolved_encoding(ct: Option<Seq<char>>, body: Seq<u8>) -> Seq<char> {
    match spec_header_encoding(ct) {
        Some(e) => e,
        None => match spec_content_encoding(body) {
            Some(e) => e,
            None => utf8_name(),
        },
    }
}

/// The charset a streaming response decodes with: the one the headers
/// declare, else `utf-8`.  The body is not consulted, since it is not
/// yet available to sniff.
pub open spec fn spec_stream_encoding(ct: Option<Seq<char>>) -> Seq<char> {
    match spec_header_encoding(ct) {
        Some(e) => e,
        None => utf8_name(),
    }
}

/// Resolves the charset of a streaming response from its headers alone.
pub fn resolve_stream_encoding(headers: &CaseInsensitiveHeaderMap) -> (r: String)
    ensures
        r@ == spec_stream_encoding(headers.spec_get(content_type_key())),
{
    match get_encoding_from_case_insensitive_headers(headers) {
        Some(e) => e,
        None => {
            proof {
                reveal_strlit("utf-8");
                assert("utf-8"@ =~= utf8_name());
            }
            "utf-8".to_owned()
        },
    }
}

/// Bytes decoded as one character each, the byte's own code point.
pub open spec fn latin1(bs: Seq<u8>) -> Seq<char> {
    bs.map_values(|b: u8| b as char)
}

/// The `charset=` marker as bytes (ASCII `charset=`).
pub open spec fn charset_prefix_bytes() -> Seq<u8> {
    seq![99u8, 104u8, 97u8, 114u8, 115u8, 101u8, 116u8, 61u8]
}

/// Whether a byte ends an in-body charset name: space, double quote or
/// `>`.
pub open spec fn is_terminator(b: u8) -> bool {
    b == 32 || b == 34 || b == 62
}

/// First start position of `pat` inside `w`.
pub open spec fn find_sub(w: Seq<u8>, pat: Seq<u8>) -> Option<int>
    decreases w.len(),
{
    if pat.len() == 0 {
        Some(0)
    } else if w.len() < pat.len() {
        None
    } else if w.take(pat.len() as int) == pat {
        Some(0)
    } else {
        match find_sub(w.drop_first(), pat) {
            None => None,
            Some(i) => Some(i + 1),
        }
    }
}

/// First terminator position in `rem` at or after position 1: the byte
/// right after `charset=` never ends the name, so a quoted name keeps
/// its opening quote until `unquote` strips it.
pub open spec fn find_term_at(rem: Seq<u8>, j: int) -> Option<int>
    decreases rem.len() - j,
{
    if j < 1 || j >= rem.len() {
        None
    } else if is_terminator(rem[j]) {
        Some(j)
    } else {
        find_term_at(rem, j + 1)
    }
}

/// The sniffing window: at most the first 2048 body bytes.
pub open spec fn sniff_window(bytes: Seq<u8>) -> Seq<u8> {
    if bytes.len() <= 2048 {
        bytes
    } else {
        bytes.take(2048)
    }
}

/// The charset declared inside the body, if any: the bytes after the
/// first `charset=` within the sniffing window, up to the first
/// terminator, unquoted and lower-cased.
pub open spec fn spec_content_encoding(bytes: Seq<u8>) -> Option<Seq<char>> {
    let w = sniff_window(bytes);
    match find_sub(w, charset_prefix_bytes()) {
        None => None,
        Some(i) => {
            let rem = w.skip(i + charset_prefix_bytes().len());
            match find_term_at(rem, 1) {
                None => None,
                Some(e) => Some(lower_seq(unquote(latin1(rem.take(e))))),
            }
        },
    }
}

/// Scans at most the first 2048 body bytes for a `charset=` marker and
/// returns the declared name, unquoted and lower-cased.
pub fn get_encoding_from_content(raw_bytes: &[u8]) -> (r: Option<String>)
    ensures
        r matches Some(v) ==> spec_content_encoding(raw_bytes@) == Some(v@),
        r is None ==> spec_content_encoding(raw_bytes@) is None,
{
    let len = raw_bytes.len();
    let max: usize = if len < 2048 {
        len
    } else {
        2048
    };
    let ghost w = sniff_window(raw_bytes@);
    proof {
        assert(w =~= raw_bytes@.subrange(0, max as int));
    }
    if max < 8 {
        proof {
            lemma_find_sub_none(w, charset_prefix_bytes());
        }
        return None;
    }
    let mut i: usize = 0;
    let mut start: Option<usize> = None;
    while i <= max - 8 && start.is_none()
        invariant
            i <= max - 8 + 1,
            8 <= max <= raw_bytes@.len(),
            w == raw_bytes@.subrange(0, max as int),
            charset_prefix_bytes().len() == 8,
            start matches Some(s) ==> i == s && s + 8 <= max && w.subrange(s as int, s + 8)
                == charset_prefix_bytes() && forall|k: int|
                0 <= k < s ==> #[trigger] w.subrange(k, k + 8) != charset_prefix_bytes(),
            start is None ==> forall|k: int|
                0 <= k < i ==> #[trigger] w.subrange(k, k + 8) != charset_prefix_bytes(),
        decreases max - i + if start is None {
            1int
        } else {
            0int
        },
    {
        let mut j: usize = 0;
        let mut matched = true;
        while j < 8 && matched
            invariant
                j <= 8,
                i + 8 <= max <= raw_bytes@.len(),
                w == raw_bytes@.subrange(0, max as int),
                charset_prefix_bytes().len() == 8,
                matched ==> forall|t: int|
                    0 <= t < j ==> w.subrange(i as int, i + 8)[t] == charset_prefix_bytes()[t],
                !matched ==> w.subrange(i as int, i + 8) != charset_prefix_bytes(),
            decreases 8 - j + if matched {
                1int
            } else {
                0int
            },
        {
            let b = raw_bytes[i + j];
            let expect: u8 = charset_byte(j);
            proof {
                assert(w.subrange(i as int, i + 8)[j as int] == raw_bytes@[i + j]);
            }
            if b != expect {
                matched = false;
            } else {
                j = j + 1;
            }
        }
        if matched {
            proof {
                assert(w.subrange(i as int, i + 8) =~= charset_prefix_bytes());
            }
            start = Some(i);
        } else {
            i = i + 1;
        }
    }
    let s = match start {
        None => {
            proof {
                assert(forall|k: int|
                    0 <= k <= w.len() - 8 ==> #[trigger] w.subrange(k, k + 8)
                        != charset_prefix_bytes());
                lemma_find_sub_no_match(w, charset_prefix_bytes());
            }
            return None;
        },
        Some(s) => s,
    };
    proof {
        lemma_find_sub_first(w, charset_prefix_bytes(), s as int);
    }
    let ghost rem = w.skip(s + 8);
    let rem_start = s + 8;
    proof {
        assert(rem =~= raw_bytes@.subrange(rem_start as int, max as int));
    }
    let rem_len = max - rem_start;
    let mut e: usize = 1;
    while e < rem_len && raw_bytes[rem_start + e] != 32 && raw_bytes[rem_start + e] != 34
        && raw_bytes[rem_start + e] != 62
        invariant
            1 <= e <= rem_len || (rem_len < 1 && e == 1),
            rem_start + rem_len == max <= raw_bytes@.len(),
            rem == raw_bytes@.subrange(rem_start as int, max as int),
            rem.len() == rem_len,
            forall|k: int| 1 <= k < e ==> !is_terminator(rem[k]),
        decreases rem_len - e,
    {
        e = e + 1;
    }
    if e >= rem_len {
        proof {
            lemma_find_term_none(rem, 1);
        }
        return None;
    }
    proof {
        assert(is_terminator(rem[e as int]));
        lemma_find_term_first(rem, e as int);
    }
    let mut name = String::new();
    let mut k: usize = 0;
    while k < e
        invariant
            k <= e,
            e < rem_len,
            rem_start + rem_len == max <= raw_bytes@.len(),
            rem == raw_bytes@.subrange(rem_start as int, max as int),
            rem.len() == rem_len,
            name@ == latin1(rem.take(e as int)).take(k as int),
        decreases e - k,
    {
        let b = raw_bytes[rem_start + k];
        push_char(&mut name, b as char);
        proof {
            assert(latin1(rem.take(e as int)).take(k + 1) =~= latin1(rem.take(e as int)).take(
                k as int,
            ).push(rem[k as int] as char));
        }
        k = k + 1;
    }
    proof {
        assert(latin1(rem.take(e as int)).take(e as int) =~= latin1(rem.take(e as int)));
    }
    let unq = unquote_str(name.as_str());
    let low = lower_str(unq);
    Some(low)
}

/// The byte at position `j` of the `charset=` marker.
fn charset_byte(j: usize) -> (r: u8)
    requires
        j < 8,
    ensures
        r == charset_prefix_bytes()[j as int],
{
    match j {
        0 => 99,
        1 => 104,
        2 => 97,
        3 => 114,
        4 => 115,
        5 => 101,
        6 => 116,
        _ => 61,
    }
}

proof fn lemma_find_sub_none(w: Seq<u8>, pat: Seq<u8>)
    requires
        w.len() < pat.len(),
    ensures
        find_sub(w, pat) is None,
{
}

proof fn lemma_sub_drop_first(w: Seq<u8>, pat: Seq<u8>, k: int)
    requires
        0 <= k,
        k + 1 + pat.len() <= w.len(),
    ensures
        w.drop_first().subrange(k, k + pat.len()) == w.subrange(k + 1, k + 1 + pat.len()),
{
    assert(w.drop_first().subrange(k, k + pat.len()) =~= w.subrange(k + 1, k + 1 + pat.len()));
}

proof fn lemma_find_sub_no_match(w: Seq<u8>, pat: Seq<u8>)
    requires
        pat.len() > 0,
        forall|k: int| 0 <= k <= w.len() - pat.len() ==> #[trigger] w.subrange(k, k + pat.len())
            != pat,
    ensures
        find_sub(w, pat) is None,
    decreases w.len(),
{
    if w.len() >= pat.len() {
        assert(w.subrange(0, 0 + pat.len() as int) != pat);
        assert(w.take(pat.len() as int) =~= w.subrange(0, 0 + pat.len() as int));
        assert forall|k: int| 0 <= k <= w.drop_first().len() - pat.len() implies #[trigger] w
            .drop_first().subrange(k, k + pat.len()) != pat by {
            lemma_sub_drop_first(w, pat, k);
            assert(w.subrange(k + 1, k + 1 + pat.len()) != pat);
        }
        lemma_find_sub_no_match(w.drop_first(), pat);
    }
}

proof fn lemma_find_sub_first(w: Seq<u8>, pat: Seq<u8>, s: int)
    requires
        pat.len() > 0,
        0 <= s,
        s + pat.len() <= w.len(),
        w.subrange(s, s + pat.len()) == pat,
        forall|k: int| 0 <= k < s ==> #[trigger] w.subrange(k, k + pat.len()) != pat,
    ensures
        find_sub(w, pat) == Some(s),
    decreases s,
{
    if s == 0 {
        assert(w.take(pat.len() as int) =~= w.subrange(0, pat.len() as int));
    } else {
        assert(w.subrange(0, 0 + pat.len() as int) != pat);
        assert(w.take(pat.len() as int) =~= w.subrange(0, 0 + pat.len() as int));
        lemma_sub_drop_first(w, pat, s - 1);
        assert(w.drop_first().subrange(s - 1, s - 1 + pat.len()) == w.subrange(s, s + pat.len()));
        assert forall|k: int| 0 <= k < s - 1 implies #[trigger] w.drop_first().subrange(
            k,
            k + pat.len(),
        ) != pat by {
            lemma_sub_drop_first(w, pat, k);
            assert(w.subrange(k + 1, k + 1 + pat.len()) != pat);
        }
        lemma_find_sub_first(w.drop_first(), pat, s - 1);
    }
}

proof fn lemma_find_term_none(rem: Seq<u8>, j: int)
    requires
        1 <= j,
        forall|k: int| j <= k < rem.len() ==> !is_terminator(rem[k]),
    ensures
        find_term_at(rem, j) is None,
    decreases rem.len() - j,
{
    if j < rem.len() {
        lemma_find_term_none(rem, j + 1);
    }
}

proof fn lemma_find_term_first(rem: Seq<u8>, e: int)
    requires
        1 <= e < rem.len(),
        is_terminator(rem[e]),
        forall|k: int| 1 <= k < e ==> !is_terminator(rem[k]),
    ensures
        find_term_at(rem, 1) == Some(e),
{
    lemma_find_term_step(rem, 1, e);
}

proof fn lemma_find_term_step(rem: Seq<u8>, j: int, e: int)
    requires
        1 <= j <= e < rem.len(),
        is_terminator(rem[e]),
        forall|k: int| j <= k < e ==> !is_terminator(rem[k]),
    ensures
        find_term_at(rem, j) == Some(e),
    decreases e - j,
{
    if j < e {
        lemma_find_term_step(rem, j + 1, e);
    }
}

} // verus!
