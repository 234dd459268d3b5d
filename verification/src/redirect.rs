//! Construction of the login URL that an unauthenticated request is sent
//! to, carrying the URI the user agent asked for in a query parameter.

use vstd::prelude::*;
use vstd::string::StringSliceAdditionalSpecFns;
use crate::form::{
    append_form_encoded, ascii_chars, form_encode, push_char, query_contains_key,
    query_has_key,
};

verus! {

/// The components of a URI as `http::Uri` parses them: scheme, authority,
/// path and query, each as it is displayed.
pub struct UriParts {
    pub scheme: Option<String>,
    pub authority: Option<String>,
    pub path: String,
    pub query: Option<String>,
}

/// The characters of an optional string.
pub open spec fn opt_chars(s: Option<String>) -> Option<Seq<char>> {
    match s {
        Some(t) => Some(t@),
        None => None,
    }
}

/// The view of parsed URI components: scheme, authority, path and query.
pub type UriPartsView = (Option<Seq<char>>, Option<Seq<char>>, Seq<char>, Option<Seq<char>>);

impl View for UriParts {
    type V = UriPartsView;

    open spec fn view(&self) -> UriPartsView {
        (opt_chars(self.scheme), opt_chars(self.authority), self.path@, opt_chars(self.query))
    }
}

/// What `http::Uri`'s parser makes of a string: `None` when it rejects it,
/// otherwise the scheme, authority, path and query of the parsed URI.
pub uninterp spec fn uri_parts(s: Seq<char>) -> Option<UriPartsView>;

/// Parses `url` with `<http::Uri as FromStr>::from_str` (re-exported by
/// Actix Web) and hands back its scheme, authority, path and query as
/// strings. The contract claims only that the outcome is `uri_parts` of the
/// input; what `http` accepts is not restated.
#[verifier::external_body]
fn parse_uri(url: &str) -> (r: Option<UriParts>)
    ensures
        match r {
            Some(p) => uri_parts(url@) == Some(p@),
            None => uri_parts(url@) is None,
        },
{
    match url.parse::<actix_web::http::Uri>() {
        Ok(uri) => Some(
            UriParts {
                scheme: uri.scheme_str().map(str::to_string),
                authority: uri.authority().map(|a| a.as_str().to_string()),
                path: uri.path().to_string(),
                query: uri.query().map(str::to_string),
            },
        ),
        Err(_) => None,
    }
}

/// The text `http::Uri` displays for the given components:
/// `scheme://`, authority, path, then `?query`.
pub open spec fn uri_display(p: UriPartsView) -> Seq<char> {
    let scheme = match p.0 {
        Some(s) => s + seq![':', '/', '/'],
        None => Seq::empty(),
    };
    let authority = match p.1 {
        Some(a) => a,
        None => Seq::empty(),
    };
    let query = match p.3 {
        Some(q) => seq!['?'] + q,
        None => Seq::empty(),
    };
    scheme + authority + p.2 + query
}

/// The query that carries the redirect target: the encoded field, `=`, the
/// encoded target, then `&` and the login URL's own query, if it has one.
pub open spec fn redirect_query(field: Seq<char>, target: Seq<char>, existing: Option<Seq<char>>) -> Seq<
    char,
> {
    let pair = ascii_chars(form_encode(vstd::utf8::encode_utf8(field))) + seq!['='] + ascii_chars(
        form_encode(vstd::utf8::encode_utf8(target)),
    );
    match existing {
        Some(q) => pair + seq!['&'] + q,
        None => pair,
    }
}

/// Whether the login URL already names a redirect target under `field`.
pub open spec fn has_explicit_redirect(p: UriPartsView, field: Seq<char>) -> bool {
    match p.3 {
        Some(q) => query_has_key(vstd::utf8::encode_utf8(q), vstd::utf8::encode_utf8(field)),
        None => false,
    }
}

/// The redirect URL built from a parsed login URL: the login URL itself when
/// its query already names the field, otherwise the login URL with
/// `field=target` put first in its query.
pub open spec fn redirect_url(p: UriPartsView, field: Seq<char>, target: Seq<char>) -> Seq<char> {
    if has_explicit_redirect(p, field) {
        uri_display(p)
    } else {
        uri_display((p.0, p.1, p.2, Some(redirect_query(field, target, p.3))))
    }
}

/// Appends the characters of `t` to `s`.
fn append_str(s: &mut String, t: &str)
    ensures
        final(s)@ == old(s)@ + t@,
{
    s.append(t);
}

/// The text `http::Uri` displays for the given components.
pub fn display_uri_parts(p: &UriParts) -> (r: String)
    ensures
        r@ == uri_display(p@),
{
    let mut out = String::new();
    if let Some(scheme) = &p.scheme {
        append_str(&mut out, scheme.as_str());
        push_char(&mut out, ':');
        push_char(&mut out, '/');
        push_char(&mut out, '/');
    }
    if let Some(authority) = &p.authority {
        append_str(&mut out, authority.as_str());
    }
    append_str(&mut out, p.path.as_str());
    if let Some(query) = &p.query {
        push_char(&mut out, '?');
        append_str(&mut out, query.as_str());
    }
    proof {
        let v = p@;
        let scheme = match v.0 {
            Some(s) => s + seq![':', '/', '/'],
            None => Seq::<char>::empty(),
        };
        let authority = match v.1 {
            Some(a) => a,
            None => Seq::<char>::empty(),
        };
        let query = match v.3 {
            Some(q) => seq!['?'] + q,
            None => Seq::<char>::empty(),
        };
        assert(out@ =~= scheme + authority + v.2 + query);
    }
    out
}

/// The redirect URL for a parsed login URL (see [`redirect_url`]).
pub fn redirect_url_from_parts(p: &UriParts, redirect_field: &str, redirect_uri: &str) -> (r:
    String)
    ensures
        r@ == redirect_url(p@, redirect_field@, redirect_uri@),
        has_explicit_redirect(p@, redirect_field@) ==> r@ == uri_display(p@),
{
    let explicit = match &p.query {
        Some(q) => query_contains_key(q.as_str(), redirect_field),
        None => false,
    };
    if explicit {
        return display_uri_parts(p);
    }
    let mut query = String::new();
    append_form_encoded(&mut query, redirect_field);
    push_char(&mut query, '=');
    append_form_encoded(&mut query, redirect_uri);
    if let Some(existing) = &p.query {
        push_char(&mut query, '&');
        append_str(&mut query, existing.as_str());
    }
    proof {
        let e = ascii_chars(form_encode(vstd::utf8::encode_utf8(redirect_field@)));
        let t = ascii_chars(form_encode(vstd::utf8::encode_utf8(redirect_uri@)));
        match p@.3 {
            Some(q) => {
                assert(query@ =~= e + seq!['='] + t + seq!['&'] + q);
            },
            None => {
                assert(query@ =~= e + seq!['='] + t);
            },
        }
    }
    let built = UriParts {
        scheme: p.scheme.clone(),
        authority: p.authority.clone(),
        path: p.path.clone(),
        query: Some(query),
    };
    display_uri_parts(&built)
}

/// Why a redirect URL could not be built.
#[derive(Debug, Clone, Copy, PartialEq, Eq)]
pub enum RedirectError {
    /// The login URL is not a URI that `http::Uri` accepts.
    InvalidLoginUrl,
}

/// Builds the URL that sends the user agent to `login_url`, carrying
/// `redirect_uri` under the query parameter `redirect_field`.
///
/// A login URL whose query already holds `redirect_field` is kept as it is;
/// otherwise `redirect_field=redirect_uri` (form-encoded) comes first in its
/// query, followed by the query it already had. A login URL that does not
/// parse as a URI is refused.
pub fn url_with_redirect_query(login_url: &str, redirect_field: &str, redirect_uri: &str) -> (r:
    Result<String, RedirectError>)
    ensures
        match uri_parts(login_url@) {
            None => r == Err::<String, RedirectError>(RedirectError::InvalidLoginUrl),
            Some(p) => r is Ok && r->Ok_0@ == redirect_url(p, redirect_field@, redirect_uri@),
        },
{
    match parse_uri(login_url) {
        Some(parts) => Ok(redirect_url_from_parts(&parts, redirect_field, redirect_uri)),
        None => Err(RedirectError::InvalidLoginUrl),
    }
}


/// A login URL that already names the redirect field, in any pair of its
/// query and not only the first, is kept exactly as it is; a login URL whose
/// query names the field in none of its pairs (or that has no query) gets
/// the pair `field=target` put first in its query.
pub proof fn lemma_explicit_redirect_anywhere_is_kept(
    p: UriPartsView,
    field: Seq<char>,
    target: Seq<char>,
)
    ensures
        ({
            let named = p.3 matches Some(q) && exists|s: int, e: int|
                crate::form::pair_with_key_at(
                    vstd::utf8::encode_utf8(q),
                    s,
                    e,
                    vstd::utf8::encode_utf8(field),
                );
            &&& has_explicit_redirect(p, field) <==> named
            &&& named ==> redirect_url(p, field, target) == uri_display(p)
            &&& !named ==> redirect_url(p, field, target) == uri_display(
                (p.0, p.1, p.2, Some(redirect_query(field, target, p.3))),
            )
        }),
{
    if let Some(q) = p.3 {
        crate::form::lemma_query_has_key_iff_some_pair(
            vstd::utf8::encode_utf8(q),
            vstd::utf8::encode_utf8(field),
        );
    }
}

/// When the login URL does not already name a redirect target, the query of
/// the built URL begins with the redirect field: its first pair decodes to
/// the field and the target, so the URL carries the redirect under that
/// field whatever query the login URL had.
pub proof fn lemma_redirect_query_carries_target(
    field: Seq<char>,
    target: Seq<char>,
    existing: Option<Seq<char>>,
)
    ensures
        ({
            let q = vstd::utf8::encode_utf8(redirect_query(field, target, existing));
            let fb = vstd::utf8::encode_utf8(field);
            let tb = vstd::utf8::encode_utf8(target);
            let end = (form_encode(fb).len() + 1 + form_encode(tb).len()) as int;
            &&& crate::form::find_or_len(q, 38) == end
            &&& crate::form::form_decode(crate::form::pair_key(q.subrange(0, end))) == fb
            &&& crate::form::form_decode(q.subrange(form_encode(fb).len() + 1int, end)) == tb
            &&& query_has_key(q, fb)
            &&& crate::form::find_or_len(q.subrange(0, end), 61) == form_encode(fb).len()
            &&& q.subrange(end, q.len() as int) == match existing {
                Some(e) => seq![38u8] + vstd::utf8::encode_utf8(e),
                None => Seq::<u8>::empty(),
            }
        }),
{
    let fb = vstd::utf8::encode_utf8(field);
    let tb = vstd::utf8::encode_utf8(target);
    let ef = form_encode(fb);
    let et = form_encode(tb);
    crate::form::lemma_form_encode_safe(fb);
    crate::form::lemma_form_encode_safe(tb);
    crate::form::lemma_encode_ascii_chars(ef);
    crate::form::lemma_encode_ascii_chars(et);
    crate::form::lemma_encode_ascii_chars(seq![61u8]);
    crate::form::lemma_encode_ascii_chars(seq![38u8]);
    assert(ascii_chars(seq![61u8]) =~= seq!['=']);
    assert(ascii_chars(seq![38u8]) =~= seq!['&']);
    let pair = ascii_chars(ef) + seq!['='] + ascii_chars(et);
    crate::form::lemma_encode_utf8_add(ascii_chars(ef), seq!['=']);
    crate::form::lemma_encode_utf8_add(ascii_chars(ef) + seq!['='], ascii_chars(et));
    assert(vstd::utf8::encode_utf8(pair) == ef + seq![61u8] + et);
    match existing {
        Some(q) => {
            crate::form::lemma_encode_utf8_add(pair, seq!['&']);
            crate::form::lemma_encode_utf8_add(pair + seq!['&'], q);
            let rest = seq![38u8] + vstd::utf8::encode_utf8(q);
            assert(vstd::utf8::encode_utf8(redirect_query(field, target, existing)) =~= ef + seq![
                61u8,
            ] + et + rest);
            crate::form::lemma_leading_pair(fb, tb, rest);
        },
        None => {
            assert(vstd::utf8::encode_utf8(redirect_query(field, target, existing)) =~= ef + seq![
                61u8,
            ] + et + Seq::<u8>::empty());
            crate::form::lemma_leading_pair(fb, tb, Seq::<u8>::empty());
        },
    }
}

} // verus!
