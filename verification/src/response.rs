//! The responses given to denied requests: their status, headers and body,
//! computed here and sent by the web layer.

use vstd::prelude::*;
use vstd::string::StringSliceAdditionalSpecFns;
use vstd::string::StringExecFns;
use vstd::utf8::encode_utf8;
use crate::form::{ascii_chars, str_eq};
use crate::redirect::{
    has_explicit_redirect, redirect_query, redirect_url, uri_display, uri_parts,
    url_with_redirect_query,
};

verus! {

/// Header pairs as characters.
pub type HeadersView = Seq<(Seq<char>, Seq<char>)>;

/// The characters of header pairs.
pub open spec fn pairs_view(s: Seq<(String, String)>) -> HeadersView {
    s.map_values(|p: (String, String)| (p.0@, p.1@))
}

/// A response to send: status code, headers in the order they are set
/// (a later header replaces an earlier one of the same name), and body.
pub struct PlannedResponse {
    pub status: u16,
    pub headers: Vec<(String, String)>,
    pub body: String,
}

/// The view of a planned response.
pub type ResponseView = (u16, HeadersView, Seq<char>);

impl View for PlannedResponse {
    type V = ResponseView;

    open spec fn view(&self) -> ResponseView {
        (self.status, pairs_view(self.headers@), self.body@)
    }
}

/// A response with no headers.
fn plain_response(status: u16, body: &str) -> (r: PlannedResponse)
    ensures
        r@ == (status, Seq::<(Seq<char>, Seq<char>)>::empty(), body@),
{
    let r = PlannedResponse { status, headers: Vec::new(), body: String::from_str(body) };
    assert(pairs_view(r.headers@) =~= Seq::<(Seq<char>, Seq<char>)>::empty());
    r
}

/// The handler used by default for unauthenticated requests.
#[derive(Clone, Copy, Debug)]
pub struct DefaultUnauthenticated;

impl DefaultUnauthenticated {
    /// `401 Unauthorized` with body `Unauthorized`.
    pub fn respond(&self) -> (r: PlannedResponse)
        ensures
            r@ == (401u16, Seq::<(Seq<char>, Seq<char>)>::empty(), "Unauthorized"@),
    {
        plain_response(401, "Unauthorized")
    }
}

/// The handler used by default for authenticated but unauthorized requests.
#[derive(Clone, Copy, Debug)]
pub struct DefaultUnauthorized;

impl DefaultUnauthorized {
    /// `403 Forbidden` with body `Forbidden`.
    pub fn respond(&self) -> (r: PlannedResponse)
        ensures
            r@ == (403u16, Seq::<(Seq<char>, Seq<char>)>::empty(), "Forbidden"@),
    {
        plain_response(403, "Forbidden")
    }
}

/// The handler for requests that carry no auth session.
#[derive(Clone, Copy, Debug)]
pub struct InternalErrorFallback;

impl InternalErrorFallback {
    /// `500 Internal Server Error` with body `Internal server error`.
    pub fn respond(&self) -> (r: PlannedResponse)
        ensures
            r@ == (500u16, Seq::<(Seq<char>, Seq<char>)>::empty(), "Internal server error"@),
    {
        plain_response(500, "Internal server error")
    }
}

/// The response of a redirect handler whose login URL is `login` and
/// redirect field `field`, to a request for `target`: `307 Temporary
/// Redirect` to the redirect URL, or `500 Internal Server Error` when the
/// login URL does not parse.
pub open spec fn redirect_response(login: Seq<char>, field: Seq<char>, target: Seq<char>) -> ResponseView {
    match uri_parts(login) {
        Some(p) => (
            307u16,
            seq![("location"@, redirect_url(p, field, target))],
            "Redirecting..."@,
        ),
        None => (500u16, Seq::empty(), "Internal Server Error"@),
    }
}

/// The redirect answer carries the whole requested URI. A login URL that
/// does not parse gives `500`. Otherwise the answer is `307` with a single
/// `location` header: the login URL as it is when it already names the
/// field, and otherwise the login URL with a query whose first `&`-separated
/// pair form-decodes to the field and to exactly the requested URI (its
/// query included), followed by `&` and the login URL's own query if it had
/// one.
pub proof fn lemma_redirect_carries_request_uri(login: Seq<char>, field: Seq<char>, target: Seq<char>)
    ensures
        uri_parts(login) is None ==> redirect_response(login, field, target).0 == 500,
        uri_parts(login) matches Some(p) ==> ({
            let r = redirect_response(login, field, target);
            let q = redirect_query(field, target, p.3);
            let qb = encode_utf8(q);
            let end = crate::form::find_or_len(qb, 38);
            let pair = qb.subrange(0, end);
            let eq = crate::form::find_or_len(pair, 61);
            &&& r.0 == 307
            &&& r.1.len() == 1
            &&& r.1[0].0 == "location"@
            &&& has_explicit_redirect(p, field) ==> r.1[0].1 == uri_display(p)
            &&& !has_explicit_redirect(p, field) ==> r.1[0].1 == uri_display(
                (p.0, p.1, p.2, Some(q)),
            )
            &&& eq < end
            &&& crate::form::form_decode(pair.subrange(0, eq)) == encode_utf8(field)
            &&& crate::form::form_decode(pair.subrange(eq + 1, end)) == encode_utf8(target)
            &&& qb.subrange(end, qb.len() as int) == match p.3 {
                Some(e) => seq![38u8] + encode_utf8(e),
                None => Seq::<u8>::empty(),
            }
        }),
{
    if let Some(p) = uri_parts(login) {
        crate::redirect::lemma_redirect_query_carries_target(field, target, p.3);
        let qb = encode_utf8(redirect_query(field, target, p.3));
        let end = crate::form::find_or_len(qb, 38);
        crate::form::lemma_find_or_len(qb, 38);
        let pair = qb.subrange(0, end);
        assert(pair.subrange(0, crate::form::find_or_len(pair, 61)) == crate::form::pair_key(pair));
        assert(pair.subrange(crate::form::find_or_len(pair, 61) + 1, end) =~= qb.subrange(
            crate::form::find_or_len(pair, 61) + 1,
            end,
        ));
    }
}

/// A handler that redirects to a login URL, carrying the requested URI in a
/// query parameter.
#[derive(Clone, Debug)]
pub struct RedirectHandler {
    /// The name of the query parameter that carries the redirect target
    /// (`next` when unset).
    pub redirect_field: Option<String>,
    /// The login URL (`/signin` when unset).
    pub login_url: Option<String>,
}

/// The login URL a redirect handler uses.
pub open spec fn effective_login_url(h: RedirectHandler) -> Seq<char> {
    match h.login_url {
        Some(u) => u@,
        None => "/signin"@,
    }
}

/// The redirect field a redirect handler uses.
pub open spec fn effective_redirect_field(h: RedirectHandler) -> Seq<char> {
    match h.redirect_field {
        Some(f) => f@,
        None => "next"@,
    }
}

impl RedirectHandler {
    /// A handler with neither login URL nor redirect field set.
    pub fn new() -> (r: Self)
        ensures
            r.redirect_field is None,
            r.login_url is None,
    {
        RedirectHandler { redirect_field: None, login_url: None }
    }

    /// Sets the name of the query parameter that carries the redirect target.
    pub fn redirect_field(self, field: &str) -> (r: Self)
        ensures
            r.redirect_field matches Some(f) && f@ == field@,
            r.login_url == self.login_url,
    {
        RedirectHandler { redirect_field: Some(String::from_str(field)), login_url: self.login_url }
    }

    /// Sets the login URL that unauthenticated users are redirected to.
    pub fn login_url(self, url: &str) -> (r: Self)
        ensures
            r.login_url matches Some(u) && u@ == url@,
            r.redirect_field == self.redirect_field,
    {
        RedirectHandler { redirect_field: self.redirect_field, login_url: Some(String::from_str(url)) }
    }

    /// The response to a request for `request_uri`.
    pub fn respond(&self, request_uri: &str) -> (r: PlannedResponse)
        ensures
            r@ == redirect_response(
                effective_login_url(*self),
                effective_redirect_field(*self),
                request_uri@,
            ),
    {
        let login: &str = match &self.login_url {
            Some(u) => u.as_str(),
            None => "/signin",
        };
        let field: &str = match &self.redirect_field {
            Some(f) => f.as_str(),
            None => "next",
        };
        match url_with_redirect_query(login, field, request_uri) {
            Ok(url) => {
                let mut headers: Vec<(String, String)> = Vec::new();
                headers.push((String::from_str("location"), url));
                let r = PlannedResponse {
                    status: 307,
                    headers,
                    body: String::from_str("Redirecting..."),
                };
                assert(pairs_view(r.headers@) =~= seq![
                    ("location"@, redirect_url(uri_parts(login@)->0, field@, request_uri@)),
                ]);
                r
            },
            Err(_) => plain_response(500, "Internal Server Error"),
        }
    }
}

impl Default for RedirectHandler {
    fn default() -> (r: Self)
        ensures
            r.redirect_field is None,
            r.login_url is None,
    {
        RedirectHandler::new()
    }
}

/// What `http::HeaderName::from_bytes` maps a byte of a header name to: the
/// lower-case form of a token character, or 0 for a byte that may not
/// appear in a header name.
pub open spec fn header_name_char(b: u8) -> u8 {
    if 65 <= b <= 90 {
        (b + 32) as u8
    } else if (33 <= b <= 39) || b == 42 || b == 43 || b == 45 || b == 46 || (48 <= b <= 57) || (94
        <= b <= 122) || b == 124 || b == 126 {
        b
    } else {
        0
    }
}

/// Whether `http::HeaderName::from_bytes` accepts the bytes: between 1 and
/// 65535 of them, each a header name character.
pub open spec fn header_name_valid(b: Seq<u8>) -> bool {
    1 <= b.len() <= 65535 && forall|i: int| 0 <= i < b.len() ==> header_name_char(#[trigger] b[i])
        != 0
}

/// The normalized (lower-case) header name for accepted bytes.
pub open spec fn header_name_normal(b: Seq<u8>) -> Seq<char> {
    ascii_chars(b.map_values(|x: u8| header_name_char(x)))
}

/// Whether `http::HeaderValue` accepts a byte: a tab, or any byte from
/// space upwards except DEL.
pub open spec fn header_value_byte(b: u8) -> bool {
    (b >= 32 && b != 127) || b == 9
}

/// Whether `http::HeaderValue::from_str` accepts the text.
pub open spec fn header_value_valid(v: Seq<char>) -> bool {
    forall|i: int| 0 <= i < encode_utf8(v).len() ==> header_value_byte(#[trigger] encode_utf8(v)[i])
}

/// Parses a header name with `http::HeaderName::from_bytes` (re-exported by
/// Actix Web) and returns the name as `HeaderName::as_str` gives it. The
/// contract restates what the source does: names of 1 to 65535 bytes, all
/// of them in its table of header name characters, are accepted and
/// lower-cased through that table; everything else is refused.
#[verifier::external_body]
fn parse_header_name(name: &str) -> (r: Option<String>)
    ensures
        match r {
            Some(s) => header_name_valid(name.spec_bytes()) && s@ == header_name_normal(
                name.spec_bytes(),
            ),
            None => !header_name_valid(name.spec_bytes()),
        },
{
    match actix_web::http::header::HeaderName::from_bytes(name.as_bytes()) {
        Ok(h) => Some(h.as_str().to_string()),
        Err(_) => None,
    }
}

/// Whether `http::HeaderValue::from_str` (re-exported by Actix Web) accepts
/// the text. The contract restates the source: every byte must be a tab or
/// at least a space and not DEL.
#[verifier::external_body]
fn accepts_header_value(value: &str) -> (r: bool)
    ensures
        r == header_value_valid(value@),
{
    actix_web::http::header::HeaderValue::from_str(value).is_ok()
}

/// The headers of a simple response that survive validation, in order:
/// each pair whose name and value are accepted, with its name normalized.
pub open spec fn valid_headers(h: HeadersView) -> HeadersView
    decreases h.len(),
{
    if h.len() == 0 {
        Seq::empty()
    } else {
        let rest = valid_headers(h.drop_last());
        let (n, v) = h.last();
        if header_name_valid(encode_utf8(n)) && header_value_valid(v) {
            rest.push((header_name_normal(encode_utf8(n)), v))
        } else {
            rest
        }
    }
}

/// Every custom header whose name and value are acceptable is sent, in the
/// order given, with its name normalized; no other custom header is sent.
/// That is, the custom headers of a simple response are the input headers
/// filtered by acceptability and then normalized, and they follow the
/// content type (when that is acceptable).
pub proof fn lemma_every_accepted_header_is_sent(content_type: Seq<char>, h: HeadersView)
    ensures
        ({
            let accepted = |p: (Seq<char>, Seq<char>)|
                header_name_valid(encode_utf8(p.0)) && header_value_valid(p.1);
            let normalized = |p: (Seq<char>, Seq<char>)| (header_name_normal(encode_utf8(p.0)), p.1);
            &&& valid_headers(h) == h.filter(accepted).map_values(normalized)
            &&& simple_headers(content_type, h) == (if header_value_valid(content_type) {
                seq![("content-type"@, content_type)]
            } else {
                Seq::empty()
            }) + h.filter(accepted).map_values(normalized)
        }),
    decreases h.len(),
{
    let accepted = |p: (Seq<char>, Seq<char>)|
        header_name_valid(encode_utf8(p.0)) && header_value_valid(p.1);
    let normalized = |p: (Seq<char>, Seq<char>)| (header_name_normal(encode_utf8(p.0)), p.1);
    reveal(Seq::filter);
    if h.len() == 0 {
        assert(h.filter(accepted) =~= Seq::<(Seq<char>, Seq<char>)>::empty());
        assert(h.filter(accepted).map_values(normalized) =~= Seq::<(Seq<char>, Seq<char>)>::empty());
    } else {
        lemma_every_accepted_header_is_sent(content_type, h.drop_last());
        let f = h.drop_last().filter(accepted);
        if accepted(h.last()) {
            assert(h.filter(accepted) == f.push(h.last()));
            assert(f.push(h.last()).map_values(normalized) =~= f.map_values(normalized).push(
                normalized(h.last()),
            ));
        } else {
            assert(h.filter(accepted) == f);
        }
    }
}

/// The headers of a simple response: its content type when that is an
/// acceptable header value, then its valid custom headers.
pub open spec fn simple_headers(content_type: Seq<char>, headers: HeadersView) -> HeadersView {
    let ct: HeadersView = if header_value_valid(content_type) {
        seq![("content-type"@, content_type)]
    } else {
        Seq::empty()
    };
    ct + valid_headers(headers)
}

/// The first index of a header named `name` (compared exactly), or the
/// number of headers.
pub open spec fn header_index(h: HeadersView, name: Seq<char>) -> int
    decreases h.len(),
{
    if h.len() == 0 {
        0
    } else if h[0].0 == name {
        0
    } else {
        1 + header_index(h.subrange(1, h.len() as int), name)
    }
}

/// Sets header `name` to `value`: a header of that exact name is replaced
/// in place, otherwise the pair is appended.
pub open spec fn insert_header(h: HeadersView, name: Seq<char>, value: Seq<char>) -> HeadersView {
    if header_index(h, name) < h.len() {
        h.update(header_index(h, name), (name, value))
    } else {
        h.push((name, value))
    }
}

/// Sets each header of `added` in turn.
pub open spec fn insert_headers(h: HeadersView, added: HeadersView) -> HeadersView
    decreases added.len(),
{
    if added.len() == 0 {
        h
    } else {
        insert_headers(insert_header(h, added[0].0, added[0].1), added.subrange(1, added.len() as int))
    }
}

proof fn lemma_header_index_unique(h: HeadersView, name: Seq<char>, k: int)
    requires
        0 <= k <= h.len(),
        k < h.len() ==> h[k].0 == name,
        forall|j: int| 0 <= j < k ==> h[j].0 != name,
    ensures
        header_index(h, name) == k,
    decreases h.len(),
{
    if h.len() > 0 && h[0].0 != name {
        let t = h.subrange(1, h.len() as int);
        assert forall|j: int| 0 <= j < k - 1 implies t[j].0 != name by {
            assert(t[j] == h[j + 1]);
        }
        lemma_header_index_unique(t, name, k - 1);
    }
}

/// A handler that answers with a fixed status, body, content type and
/// custom headers.
#[derive(Clone, Debug)]
pub struct SimpleResponseHandler {
    /// The HTTP status code.
    pub status_code: u16,
    /// The response body.
    pub body: String,
    /// The value of the `Content-Type` header.
    pub content_type: String,
    /// Custom headers, names unique.
    pub headers: Vec<(String, String)>,
}

/// The body of the simple error page with the given title and message.
pub open spec fn error_page_body(title: Seq<char>, message: Seq<char>) -> Seq<char> {
    "<!DOCTYPE html>\n<html>\n<head>\n    <title>"@ + title
        + "</title>\n    <style>\n        body { font-family: Arial, sans-serif; margin: 40px; }\n        .error { background: #f8f9fa; border-left: 4px solid #dc3545; padding: 20px; }\n        h1 { color: #dc3545; }\n    </style>\n</head>\n<body>\n    <div class=\"error\">\n        <h1>"@
        + title + "</h1>\n        <p>"@ + message + "</p>\n    </div>\n</body>\n</html>"@
}

impl SimpleResponseHandler {
    /// `401`, body `Authentication required`, content type `text/plain`, no
    /// custom headers.
    pub fn new() -> (r: Self)
        ensures
            r.status_code == 401,
            r.body@ == "Authentication required"@,
            r.content_type@ == "text/plain"@,
            r.headers@.len() == 0,
    {
        SimpleResponseHandler {
            status_code: 401,
            body: String::from_str("Authentication required"),
            content_type: String::from_str("text/plain"),
            headers: Vec::new(),
        }
    }

    /// Sets the status code.
    pub fn status_code(self, status: u16) -> (r: Self)
        requires
            100 <= status <= 999,
        ensures
            r.status_code == status,
            r.body == self.body,
            r.content_type == self.content_type,
            r.headers == self.headers,
    {
        SimpleResponseHandler { status_code: status, ..self }
    }

    /// Sets the body.
    pub fn body(self, body: &str) -> (r: Self)
        ensures
            r.status_code == self.status_code,
            r.body@ == body@,
            r.content_type == self.content_type,
            r.headers == self.headers,
    {
        SimpleResponseHandler { body: String::from_str(body), ..self }
    }

    /// Sets the content type.
    pub fn content_type(self, content_type: &str) -> (r: Self)
        ensures
            r.status_code == self.status_code,
            r.body == self.body,
            r.content_type@ == content_type@,
            r.headers == self.headers,
    {
        SimpleResponseHandler { content_type: String::from_str(content_type), ..self }
    }

    /// Sets a custom header, replacing one of the same name.
    pub fn header(self, name: &str, value: &str) -> (r: Self)
        ensures
            r.status_code == self.status_code,
            r.body == self.body,
            r.content_type == self.content_type,
            pairs_view(r.headers@) == insert_header(pairs_view(self.headers@), name@, value@),
    {
        let mut headers = self.headers;
        set_header(&mut headers, name, value);
        SimpleResponseHandler { headers, ..self }
    }

    /// Sets several custom headers, in order.
    pub fn headers(self, added: Vec<(String, String)>) -> (r: Self)
        ensures
            r.status_code == self.status_code,
            r.body == self.body,
            r.content_type == self.content_type,
            pairs_view(r.headers@) == insert_headers(pairs_view(self.headers@), pairs_view(added@)),
    {
        let mut headers = self.headers;
        let n = added.len();
        let ghost start = pairs_view(headers@);
        let ghost av = pairs_view(added@);
        assert(av.subrange(0, av.len() as int) =~= av);
        for i in 0..n
            invariant
                n == added@.len(),
                av == pairs_view(added@),
                insert_headers(start, av) == insert_headers(
                    pairs_view(headers@),
                    av.subrange(i as int, av.len() as int),
                ),
        {
            let ghost rest = av.subrange(i as int, av.len() as int);
            set_header(&mut headers, added[i].0.as_str(), added[i].1.as_str());
            assert(rest.subrange(1, rest.len() as int) =~= av.subrange(i + 1, av.len() as int));
        }
        assert(av.subrange(n as int, av.len() as int) =~= Seq::<(Seq<char>, Seq<char>)>::empty());
        SimpleResponseHandler { headers, ..self }
    }

    /// An HTML response: content type `text/html; charset=utf-8`.
    pub fn html(status: u16, body: &str) -> (r: Self)
        requires
            100 <= status <= 999,
        ensures
            r.status_code == status,
            r.body@ == body@,
            r.content_type@ == "text/html; charset=utf-8"@,
            r.headers@.len() == 0,
    {
        SimpleResponseHandler::new().status_code(status).content_type(
            "text/html; charset=utf-8",
        ).body(body)
    }

    /// A plain text response: content type `text/plain; charset=utf-8`.
    pub fn text(status: u16, body: &str) -> (r: Self)
        requires
            100 <= status <= 999,
        ensures
            r.status_code == status,
            r.body@ == body@,
            r.content_type@ == "text/plain; charset=utf-8"@,
            r.headers@.len() == 0,
    {
        SimpleResponseHandler::new().status_code(status).content_type(
            "text/plain; charset=utf-8",
        ).body(body)
    }

    /// An XML response: content type `application/xml`.
    pub fn xml(status: u16, body: &str) -> (r: Self)
        requires
            100 <= status <= 999,
        ensures
            r.status_code == status,
            r.body@ == body@,
            r.content_type@ == "application/xml"@,
            r.headers@.len() == 0,
    {
        SimpleResponseHandler::new().status_code(status).content_type("application/xml").body(body)
    }

    /// A simple HTML error page showing `title` and `message`.
    pub fn error_page(status: u16, title: &str, message: &str) -> (r: Self)
        requires
            100 <= status <= 999,
        ensures
            r.status_code == status,
            r.body@ == error_page_body(title@, message@),
            r.content_type@ == "text/html; charset=utf-8"@,
            r.headers@.len() == 0,
    {
        let mut html = String::from_str("<!DOCTYPE html>\n<html>\n<head>\n    <title>");
        html.append(title);
        html.append(
            "</title>\n    <style>\n        body { font-family: Arial, sans-serif; margin: 40px; }\n        .error { background: #f8f9fa; border-left: 4px solid #dc3545; padding: 20px; }\n        h1 { color: #dc3545; }\n    </style>\n</head>\n<body>\n    <div class=\"error\">\n        <h1>",
        );
        html.append(title);
        html.append("</h1>\n        <p>");
        html.append(message);
        html.append("</p>\n    </div>\n</body>\n</html>");
        SimpleResponseHandler::html(status, html.as_str())
    }

    /// The response this handler gives: its status and body, its content
    /// type when that is an acceptable header value, and each custom header
    /// whose name and value are acceptable, with the name normalized.
    pub fn respond(&self) -> (r: PlannedResponse)
        ensures
            r@ == (
                self.status_code,
                simple_headers(self.content_type@, pairs_view(self.headers@)),
                self.body@,
            ),
    {
        let mut out: Vec<(String, String)> = Vec::new();
        if accepts_header_value(self.content_type.as_str()) {
            out.push((String::from_str("content-type"), self.content_type.clone()));
        }
        let ghost ct = pairs_view(out@);
        let ghost hv = pairs_view(self.headers@);
        let n = self.headers.len();
        assert(hv.subrange(0, 0) =~= Seq::<(Seq<char>, Seq<char>)>::empty());
        assert(ct + Seq::<(Seq<char>, Seq<char>)>::empty() =~= ct);
        for i in 0..n
            invariant
                n == self.headers@.len(),
                hv == pairs_view(self.headers@),
                pairs_view(out@) == ct + valid_headers(hv.subrange(0, i as int)),
        {
            let name = self.headers[i].0.as_str();
            let value = self.headers[i].1.as_str();
            let parsed = parse_header_name(name);
            let ghost before = pairs_view(out@);
            assert(hv.subrange(0, i + 1).drop_last() =~= hv.subrange(0, i as int));
            assert(hv.subrange(0, i + 1).last() == hv[i as int]);
            if let Some(normal) = parsed {
                if accepts_header_value(value) {
                    out.push((normal, self.headers[i].1.clone()));
                    assert(pairs_view(out@) =~= before.push(
                        (header_name_normal(encode_utf8(hv[i as int].0)), hv[i as int].1),
                    ));
                    assert(ct + valid_headers(hv.subrange(0, i as int)).push(
                        (header_name_normal(encode_utf8(hv[i as int].0)), hv[i as int].1),
                    ) =~= (ct + valid_headers(hv.subrange(0, i as int))).push(
                        (header_name_normal(encode_utf8(hv[i as int].0)), hv[i as int].1),
                    ));
                }
            }
        }
        assert(hv.subrange(0, n as int) =~= hv);
        PlannedResponse { status: self.status_code, headers: out, body: self.body.clone() }
    }
}

impl Default for SimpleResponseHandler {
    fn default() -> (r: Self)
        ensures
            r.status_code == 401,
            r.body@ == "Authentication required"@,
            r.content_type@ == "text/plain"@,
            r.headers@.len() == 0,
    {
        SimpleResponseHandler::new()
    }
}

/// Sets header `name` to `value` in `headers` (see [`insert_header`]).
fn set_header(headers: &mut Vec<(String, String)>, name: &str, value: &str)
    ensures
        pairs_view(final(headers)@) == insert_header(pairs_view(old(headers)@), name@, value@),
{
    let ghost hv = pairs_view(headers@);
    let n = headers.len();
    let mut i: usize = 0;
    while i < n && !str_eq(headers[i].0.as_str(), name)
        invariant
            n == headers@.len(),
            i <= n,
            hv == pairs_view(headers@),
            forall|j: int| 0 <= j < i ==> hv[j].0 != name@,
        decreases n - i,
    {
        i = i + 1;
    }
    proof {
        lemma_header_index_unique(hv, name@, i as int);
    }
    let pair = (String::from_str(name), String::from_str(value));
    if i < n {
        headers.set(i, pair);
        assert(pairs_view(headers@) =~= hv.update(i as int, (name@, value@)));
    } else {
        headers.push(pair);
        assert(pairs_view(headers@) =~= hv.push((name@, value@)));
    }
}

} // verus!
