//! Request construction: the description a caller submits, the
//! client-level defaults, and the transport-ready request built from the
//! two.
//!
//! Request-level values override client-level values field by field;
//! headers and cookies are merged with request-level names overwriting
//! client-level names of the same case-insensitive spelling.  At most
//! one supplied body wins, in a fixed priority order, and only on
//! mutating methods.

use vstd::prelude::*;

use crate::headers::{spec_insert, spec_insert_all, CaseInsensitiveHeaderMap};
use crate::maps::{cookie_string, CookiesTraits, StringMap};
use crate::text::{contains_seq, lower_seq, str_contains, str_eq};

verus! {

/// The request methods the engine recognizes.  The set is closed by
/// design: a token outside it (an extension method, a misspelling) is
/// rejected at build time rather than sent.
#[derive(Clone, Copy, Debug, PartialEq, Eq, Structural)]
pub enum Method {
    Get,
    Post,
    Put,
    Patch,
    Delete,
    Head,
    Options,
}

/// The method named by a token, exact match.
pub open spec fn spec_parse_method(s: Seq<char>) -> Option<Method> {
    if s == "GET"@ {
        Some(Method::Get)
    } else if s == "POST"@ {
        Some(Method::Post)
    } else if s == "PUT"@ {
        Some(Method::Put)
    } else if s == "PATCH"@ {
        Some(Method::Patch)
    } else if s == "DELETE"@ {
        Some(Method::Delete)
    } else if s == "HEAD"@ {
        Some(Method::Head)
    } else if s == "OPTIONS"@ {
        Some(Method::Options)
    } else {
        None
    }
}

/// Body fields take effect only on these methods.
pub open spec fn spec_is_mutating(m: Method) -> bool {
    m is Post || m is Put || m is Patch
}

impl Method {
    /// Parses a method token; an unrecognized token is a build error.
    pub fn parse(s: &str) -> (r: Option<Method>)
        ensures
            r == spec_parse_method(s@),
    {
        if str_eq(s, "GET") {
            Some(Method::Get)
        } else if str_eq(s, "POST") {
            Some(Method::Post)
        } else if str_eq(s, "PUT") {
            Some(Method::Put)
        } else if str_eq(s, "PATCH") {
            Some(Method::Patch)
        } else if str_eq(s, "DELETE") {
            Some(Method::Delete)
        } else if str_eq(s, "HEAD") {
            Some(Method::Head)
        } else if str_eq(s, "OPTIONS") {
            Some(Method::Options)
        } else {
            None
        }
    }

    /// Whether body fields take effect on this method.
    pub fn is_mutating(&self) -> (r: bool)
        ensures
            r == spec_is_mutating(*self),
    {
        matches!(self, Method::Post | Method::Put | Method::Patch)
    }
}

/// What a caller submits for one request.  `form` and `json` describe
/// the body alternatives; `files` maps multipart field names to file
/// paths, which the transport streams.
pub struct RequestDescription {
    pub method: String,
    pub url: String,
    pub params: Option<StringMap>,
    pub headers: Option<CaseInsensitiveHeaderMap>,
    pub cookies: Option<StringMap>,
    pub content: Option<Vec<u8>>,
    pub form: Option<StringMap>,
    pub json: Option<serde_json::Value>,
    pub files: Option<Vec<(String, String)>>,
    pub auth: Option<(String, Option<String>)>,
    pub auth_bearer: Option<String>,
    pub timeout_millis: Option<u64>,
}

impl RequestDescription {
    pub open spec fn wf(self) -> bool {
        &&& (self.headers matches Some(h) ==> h.wf())
        &&& (self.params matches Some(p) ==> p.wf())
        &&& (self.cookies matches Some(c) ==> c.wf())
        &&& (self.form matches Some(f) ==> f.wf())
    }
}

/// The client-level defaults that request construction consults.
pub struct ClientDefaults {
    pub headers: CaseInsensitiveHeaderMap,
    pub params: Option<StringMap>,
    pub auth: Option<(String, Option<String>)>,
    pub auth_bearer: Option<String>,
    pub timeout_millis: Option<u64>,
}

impl ClientDefaults {
    pub open spec fn wf(self) -> bool {
        &&& self.headers.wf()
        &&& (self.params matches Some(p) ==> p.wf())
    }

    /// A client with no defaults set.
    pub fn new() -> (r: Self)
        ensures
            r.wf(),
            r.headers.model() == Seq::<(Seq<char>, Seq<char>)>::empty(),
            r.params is None,
            r.auth is None,
            r.auth_bearer is None,
            r.timeout_millis is None,
    {
        ClientDefaults {
            headers: CaseInsensitiveHeaderMap::new(),
            params: None,
            auth: None,
            auth_bearer: None,
            timeout_millis: None,
        }
    }
}

/// The body a transport request carries, after precedence is applied.
pub enum RequestBody {
    Empty,
    Bytes(Vec<u8>),
    Form(Vec<(String, String)>),
    Json(serde_json::Value),
    Cbor(serde_json::Value),
    Multipart(Vec<(String, String)>),
}

/// The authentication a transport request carries; basic wins over
/// bearer when both are supplied.
pub enum AuthScheme {
    NoAuth,
    Basic { username: String, password: Option<String> },
    Bearer { token: String },
}

/// A transport-ready request: everything the transport needs, as plain
/// values, with the headers merged and validated.
pub struct TransportRequest {
    pub method: Method,
    pub url: String,
    pub params: Vec<(String, String)>,
    pub headers: Vec<(String, String)>,
    pub body: RequestBody,
    pub auth: AuthScheme,
    pub timeout_millis: Option<u64>,
}

/// Why a request could not be built.  These are surfaced immediately and
/// never retried.
#[derive(Debug)]
pub enum BuildError {
    /// The method token is none the engine recognizes.
    UnknownMethod,
    /// A merged header name is not valid wire syntax; the name is
    /// carried.
    InvalidHeaderName(String),
    /// A merged header value is not valid wire syntax; the name of the
    /// offending header is carried.
    InvalidHeaderValue(String),
}

/// A character allowed in a header name: an RFC 7230 token character.
pub open spec fn valid_header_name_char(c: char) -> bool {
    ||| ('a' <= c && c <= 'z')
    ||| ('A' <= c && c <= 'Z')
    ||| ('0' <= c && c <= '9')
    ||| c == '!' || c == '#' || c == '$' || c == '%' || c == '&' || c == '\'' || c == '*'
    ||| c == '+' || c == '-' || c == '.' || c == '^' || c == '_' || c == '`' || c == '|'
    ||| c == '~'
}

pub open spec fn valid_header_name(s: Seq<char>) -> bool {
    s.len() > 0 && forall|i: int| 0 <= i < s.len() ==> valid_header_name_char(s[i])
}

/// A character allowed in a header value: horizontal tab, a visible
/// ASCII character, space, or anything beyond ASCII.
pub open spec fn valid_header_value_char(c: char) -> bool {
    c == '\t' || (' ' <= c && c <= '~') || (c as int) >= 0x80
}

pub open spec fn valid_header_value(s: Seq<char>) -> bool {
    forall|i: int| 0 <= i < s.len() ==> valid_header_value_char(s[i])
}

/// Every merged header is valid wire syntax.
pub open spec fn all_headers_valid(entries: Seq<(Seq<char>, Seq<char>)>) -> bool {
    forall|i: int|
        0 <= i < entries.len() ==> valid_header_name(#[trigger] entries[i].0)
            && valid_header_value(entries[i].1)
}

pub fn check_header_name(s: &str) -> (r: bool)
    ensures
        r == valid_header_name(s@),
{
    let n = s.unicode_len();
    if n == 0 {
        return false;
    }
    let mut i: usize = 0;
    while i < n
        invariant
            i <= n,
            n == s@.len(),
            forall|j: int| 0 <= j < i ==> valid_header_name_char(s@[j]),
        decreases n - i,
    {
        let c = s.get_char(i);
        let ok = (c >= 'a' && c <= 'z') || (c >= 'A' && c <= 'Z') || (c >= '0' && c <= '9') || c
            == '!' || c == '#' || c == '$' || c == '%' || c == '&' || c == '\'' || c == '*' || c
            == '+' || c == '-' || c == '.' || c == '^' || c == '_' || c == '`' || c == '|' || c
            == '~';
        if !ok {
            return false;
        }
        i = i + 1;
    }
    true
}

pub fn check_header_value(s: &str) -> (r: bool)
    ensures
        r == valid_header_value(s@),
{
    let n = s.unicode_len();
    let mut i: usize = 0;
    while i < n
        invariant
            i <= n,
            n == s@.len(),
            forall|j: int| 0 <= j < i ==> valid_header_value_char(s@[j]),
        decreases n - i,
    {
        let c = s.get_char(i);
        let ok = c == '\t' || (c >= ' ' && c <= '~') || (c as u32) >= 0x80;
        if !ok {
            return false;
        }
        i = i + 1;
    }
    true
}

/// The headers a request effectively carries, before any body-dependent
/// `Content-Type`: client defaults, then request headers merged over
/// them, then the request cookies as one `Cookie` header.
pub open spec fn spec_merged_headers(
    defaults: Seq<(Seq<char>, Seq<char>)>,
    req_headers: Option<Seq<(Seq<char>, Seq<char>)>>,
    cookies: Option<Seq<(Seq<char>, Seq<char>)>>,
) -> Seq<(Seq<char>, Seq<char>)> {
    let merged = match req_headers {
        Some(h) => spec_insert_all(defaults, h),
        None => defaults,
    };
    match cookies {
        Some(c) => spec_insert(merged, "Cookie"@, cookie_string(c)),
        None => merged,
    }
}

/// Whether the effective `Accept` header asks for CBOR.
pub open spec fn spec_accepts_cbor(merged: Seq<(Seq<char>, Seq<char>)>) -> bool {
    match crate::headers::lookup(merged, lower_seq("accept"@)) {
        Some(v) => contains_seq(v, "application/cbor"@),
        None => false,
    }
}

/// The body the request carries: at most one supplied field wins.  Body
/// fields are ignored on non-mutating methods; otherwise raw bytes beat a form map,
/// a form map beats a structured value, and a structured value beats
/// multipart files.  A structured value goes as CBOR exactly when the
/// effective `Accept` header asks for it.
pub open spec fn spec_body_choice(
    m: Method,
    has_content: bool,
    has_form: bool,
    has_json: bool,
    has_files: bool,
    accepts_cbor: bool,
) -> BodyChoice {
    if !spec_is_mutating(m) {
        BodyChoice::NoBody
    } else if has_content {
        BodyChoice::FromContent
    } else if has_form {
        BodyChoice::FromForm
    } else if has_json {
        if accepts_cbor {
            BodyChoice::FromJsonAsCbor
        } else {
            BodyChoice::FromJson
        }
    } else if has_files {
        BodyChoice::FromFiles
    } else {
        BodyChoice::NoBody
    }
}

/// Which supplied body field wins.
#[derive(Clone, Copy, Debug, PartialEq, Eq, Structural)]
pub enum BodyChoice {
    NoBody,
    FromContent,
    FromForm,
    FromJson,
    FromJsonAsCbor,
    FromFiles,
}

/// The variant the built body has under a choice.
pub open spec fn body_matches_choice(b: RequestBody, c: BodyChoice) -> bool {
    match c {
        BodyChoice::NoBody => b is Empty,
        BodyChoice::FromContent => b is Bytes,
        BodyChoice::FromForm => b is Form,
        BodyChoice::FromJson => b is Json,
        BodyChoice::FromJsonAsCbor => b is Cbor,
        BodyChoice::FromFiles => b is Multipart,
    }
}

/// The query parameters a request effectively carries: its own, else the
/// client's, else none.
pub open spec fn spec_effective_params(
    req: Option<StringMap>,
    def: Option<StringMap>,
) -> Seq<(Seq<char>, Seq<char>)> {
    match req {
        Some(p) => p.model(),
        None => match def {
            Some(p) => p.model(),
            None => Seq::<(Seq<char>, Seq<char>)>::empty(),
        },
    }
}

/// The model of a request's optional headers and cookies.
pub open spec fn opt_headers_model(h: Option<CaseInsensitiveHeaderMap>) -> Option<
    Seq<(Seq<char>, Seq<char>)>,
> {
    match h {
        Some(m) => Some(m.model()),
        None => None,
    }
}

pub open spec fn opt_map_model(m: Option<StringMap>) -> Option<Seq<(Seq<char>, Seq<char>)>> {
    match m {
        Some(m) => Some(m.model()),
        None => None,
    }
}

/// The winning body choice of a description under a method and the
/// effective `Accept` header.
pub open spec fn spec_choice_of(desc: RequestDescription, m: Method, accepts_cbor: bool) -> BodyChoice {
    spec_body_choice(
        m,
        desc.content is Some,
        desc.form is Some,
        desc.json is Some,
        desc.files is Some,
        accepts_cbor,
    )
}

/// The headers the built request finally carries: the merged headers,
/// and `Content-Type: application/cbor` over them when the body goes as
/// CBOR.
pub open spec fn spec_final_headers(desc: RequestDescription, defaults: ClientDefaults) -> Seq<
    (Seq<char>, Seq<char>),
>
    recommends
        spec_parse_method(desc.method@) is Some,
{
    let merged = spec_merged_headers(
        defaults.headers.model(),
        opt_headers_model(desc.headers),
        opt_map_model(desc.cookies),
    );
    let choice = spec_choice_of(
        desc,
        spec_parse_method(desc.method@).unwrap(),
        spec_accepts_cbor(merged),
    );
    if choice is FromJsonAsCbor {
        spec_insert(merged, "Content-Type"@, "application/cbor"@)
    } else {
        merged
    }
}

/// Builds the transport-ready request from a description and the
/// client's defaults.  Succeeds exactly when the method token is
/// recognized and every effective header is valid wire syntax; fails
/// immediately, never retried, otherwise.
#[verifier::rlimit(60)]
pub fn build_request(desc: RequestDescription, defaults: ClientDefaults) -> (r: Result<
    TransportRequest,
    BuildError,
>)
    requires
        desc.wf(),
        defaults.wf(),
    ensures
        (r is Ok) == (spec_parse_method(desc.method@) is Some && all_headers_valid(
            spec_final_headers(desc, defaults),
        )),
        (r matches Err(e) && e is UnknownMethod) == (spec_parse_method(desc.method@) is None),
        r matches Err(BuildError::InvalidHeaderName(n)) ==> !valid_header_name(n@) && exists|i: int|
            0 <= i < spec_final_headers(desc, defaults).len() && (#[trigger] spec_final_headers(
                desc,
                defaults,
            )[i]).0 == n@,
        r matches Err(BuildError::InvalidHeaderValue(n)) ==> exists|i: int|
            0 <= i < spec_final_headers(desc, defaults).len() && (#[trigger] spec_final_headers(
                desc,
                defaults,
            )[i]).0 == n@ && !valid_header_value(spec_final_headers(desc, defaults)[i].1),
        r matches Ok(t) ==> {
            &&& t.method == spec_parse_method(desc.method@).unwrap()
            &&& t.url == desc.url
            &&& crate::headers::pairs_view(t.params@) == spec_effective_params(
                desc.params,
                defaults.params,
            )
            &&& crate::headers::pairs_view(t.headers@) == spec_final_headers(desc, defaults)
            &&& body_matches_choice(
                t.body,
                spec_choice_of(
                    desc,
                    spec_parse_method(desc.method@).unwrap(),
                    spec_accepts_cbor(
                        spec_merged_headers(
                            defaults.headers.model(),
                            opt_headers_model(desc.headers),
                            opt_map_model(desc.cookies),
                        ),
                    ),
                ),
            )
            &&& (t.body matches RequestBody::Bytes(b) ==> desc.content matches Some(c) && b@
                == c@)
            &&& (t.body matches RequestBody::Form(f) ==> desc.form matches Some(fm)
                && crate::headers::pairs_view(f@) == fm.model())
            &&& (t.body matches RequestBody::Json(v) ==> desc.json == Some(v))
            &&& (t.body matches RequestBody::Cbor(v) ==> desc.json == Some(v))
            &&& (t.body matches RequestBody::Multipart(fs) ==> desc.files matches Some(x) && fs@
                == x@)
            &&& t.auth == spec_effective_auth(
                desc.auth,
                desc.auth_bearer,
                defaults.auth,
                defaults.auth_bearer,
            )
            &&& t.timeout_millis == (if desc.timeout_millis is Some {
                desc.timeout_millis
            } else {
                defaults.timeout_millis
            })
        },
{
    let RequestDescription {
        method: method_token,
        url,
        params,
        headers,
        cookies,
        content,
        form,
        json,
        files,
        auth,
        auth_bearer,
        timeout_millis,
    } = desc;
    let method = match Method::parse(method_token.as_str()) {
        None => {
            return Err(BuildError::UnknownMethod);
        },
        Some(m) => m,
    };
    let mut merged = defaults.headers.duplicate();
    proof {
        assert(merged.wf());
    }
    match &headers {
        Some(h) => merged.merge_from(h),
        None => (),
    }
    match &cookies {
        Some(c) => {
            let cookie_value = c.to_string();
            merged.insert("Cookie".to_owned(), cookie_value);
        },
        None => (),
    }
    let ghost merged_model = merged.model();
    let accepts_cbor = match merged.get_value("accept") {
        Some(v) => str_contains(v.as_str(), "application/cbor"),
        None => false,
    };
    let has_content = content.is_some();
    let has_form = form.is_some();
    let has_json = json.is_some();
    let body = if !method.is_mutating() {
        RequestBody::Empty
    } else if has_content {
        RequestBody::Bytes(content.unwrap())
    } else if has_form {
        let f = form.unwrap();
        RequestBody::Form(f.items())
    } else if has_json {
        let v = json.unwrap();
        if accepts_cbor {
            RequestBody::Cbor(v)
        } else {
            RequestBody::Json(v)
        }
    } else if files.is_some() {
        RequestBody::Multipart(files.unwrap())
    } else {
        RequestBody::Empty
    };
    match &body {
        RequestBody::Cbor(_) => {
            merged.insert("Content-Type".to_owned(), "application/cbor".to_owned());
        },
        _ => (),
    }
    let items = merged.items();
    let ghost final_model = merged.model();
    proof {
        assert(merged_model == spec_merged_headers(
            defaults.headers.model(),
            opt_headers_model(desc.headers),
            opt_map_model(desc.cookies),
        ));
        assert(accepts_cbor == spec_accepts_cbor(merged_model));
        assert(spec_parse_method(desc.method@) == Some(method));
        assert(final_model == spec_final_headers(desc, defaults));
    }
    let n = items.len();
    let mut i: usize = 0;
    while i < n
        invariant
            i <= n,
            n == items@.len(),
            crate::headers::pairs_view(items@) == final_model,
            spec_parse_method(desc.method@) == Some(method),
            final_model == spec_final_headers(desc, defaults),
            forall|j: int| 0 <= j < i ==> valid_header_name((#[trigger] items@[j]).0@)
                && valid_header_value(items@[j].1@),
        decreases n - i,
    {
        if !check_header_name(items[i].0.as_str()) {
            proof {
                assert(spec_final_headers(desc, defaults)[i as int].0 == items@[i as int].0@);
                assert(!all_headers_valid(spec_final_headers(desc, defaults)));
            }
            return Err(BuildError::InvalidHeaderName(items[i].0.clone()));
        }
        if !check_header_value(items[i].1.as_str()) {
            proof {
                assert(spec_final_headers(desc, defaults)[i as int].0 == items@[i as int].0@);
                assert(!all_headers_valid(spec_final_headers(desc, defaults)));
            }
            return Err(BuildError::InvalidHeaderValue(items[i].0.clone()));
        }
        i = i + 1;
    }
    proof {
        assert forall|j: int|
            0 <= j < final_model.len() implies valid_header_name(
            (#[trigger] final_model[j]).0,
        ) && valid_header_value(final_model[j].1) by {
            assert(final_model[j].0 == items@[j].0@);
            assert(final_model[j].1 == items@[j].1@);
        }
        assert(all_headers_valid(spec_final_headers(desc, defaults)));
    }
    let params_vec: Vec<(String, String)> = match params {
        Some(p) => p.items(),
        None => match defaults.params {
            Some(p) => p.items(),
            None => Vec::new(),
        },
    };
    proof {
        if params is None && defaults.params is None {
            assert(crate::headers::pairs_view(Seq::<(String, String)>::empty()) =~= Seq::<
                (Seq<char>, Seq<char>),
            >::empty());
        }
    }
    let auth_eff = match auth {
        Some((username, password)) => AuthScheme::Basic { username, password },
        None => match defaults.auth {
            Some((username, password)) => AuthScheme::Basic { username, password },
            None => match auth_bearer {
                Some(token) => AuthScheme::Bearer { token },
                None => match defaults.auth_bearer {
                    Some(token) => AuthScheme::Bearer { token },
                    None => AuthScheme::NoAuth,
                },
            },
        },
    };
    let timeout_eff = if timeout_millis.is_some() {
        timeout_millis
    } else {
        defaults.timeout_millis
    };
    Ok(
        TransportRequest {
            method,
            url,
            params: params_vec,
            headers: items,
            body,
            auth: auth_eff,
            timeout_millis: timeout_eff,
        },
    )
}

/// The bytes a structured body goes over the wire as: its JSON or CBOR
/// serialization, which always succeeds; a body of any other variant
/// has no structured bytes.
pub fn encode_structured(body: &RequestBody) -> (r: Option<Vec<u8>>)
    ensures
        (r is Some) == (body is Json || body is Cbor),
{
    match body {
        RequestBody::Json(v) => match crate::codec::json_to_vec(v) {
            Ok(b) => Some(b),
            Err(_) => None,
        },
        RequestBody::Cbor(v) => match crate::codec::cbor_to_vec(v) {
            Ok(b) => Some(b),
            Err(_) => None,
        },
        _ => None,
    }
}

/// The effective authentication: request-level over client-level, and
/// basic over bearer.
pub open spec fn spec_effective_auth(
    req_auth: Option<(String, Option<String>)>,
    req_bearer: Option<String>,
    def_auth: Option<(String, Option<String>)>,
    def_bearer: Option<String>,
) -> AuthScheme {
    let auth = if req_auth is Some {
        req_auth
    } else {
        def_auth
    };
    let bearer = if req_bearer is Some {
        req_bearer
    } else {
        def_bearer
    };
    match auth {
        Some((username, password)) => AuthScheme::Basic { username, password },
        None => match bearer {
            Some(token) => AuthScheme::Bearer { token },
            None => AuthScheme::NoAuth,
        },
    }
}

} // verus!
