use actix_login::form::{append_form_encoded, form_decode_range, query_contains_key, str_eq};
use actix_login::redirect::{url_with_redirect_query, RedirectError};

fn url(login: &str, field: &str, target: &str) -> String {
    url_with_redirect_query(login, field, target).expect("login URL should parse")
}

#[test]
fn redirect_to_login_url() {
    assert_eq!(url("/login", "next", "/"), "/login?next=%2F");
}

#[test]
fn redirect_uri_query_is_encoded() {
    assert_eq!(
        url("/login", "next", "/?foo=bar&foo=baz"),
        "/login?next=%2F%3Ffoo%3Dbar%26foo%3Dbaz"
    );
}

#[test]
fn login_url_query_follows_redirect_field() {
    assert_eq!(
        url("/login?foo=bar&foo=baz", "next", "/"),
        "/login?next=%2F&foo=bar&foo=baz"
    );
    assert_eq!(
        url("/login?foo=bar&foo=baz", "next", "/?a=b&a=c"),
        "/login?next=%2F%3Fa%3Db%26a%3Dc&foo=bar&foo=baz"
    );
}

#[test]
fn custom_redirect_field() {
    assert_eq!(url("/signin", "next_uri", "/"), "/signin?next_uri=%2F");
}

#[test]
fn explicit_redirect_is_preserved() {
    assert_eq!(
        url("/login?next_url=%2Fdashboard", "next_url", "/"),
        "/login?next_url=%2Fdashboard"
    );
    assert_eq!(url("/login?next=%2Fdashboard", "next", "/"), "/login?next=%2Fdashboard");
    assert_eq!(url("/login?next=%2Fkeep", "next", "/other"), "/login?next=%2Fkeep");
}

#[test]
fn nested_path_is_encoded() {
    assert_eq!(url("/login", "next", "/nested/foo"), "/login?next=%2Fnested%2Ffoo");
}

#[test]
fn invalid_login_url_is_refused() {
    assert_eq!(
        url_with_redirect_query("http://[::1", "next", "/"),
        Err(RedirectError::InvalidLoginUrl)
    );
}

#[test]
fn absolute_login_url_keeps_scheme_and_host() {
    assert_eq!(
        url("https://auth.example.com/login", "next", "/a b"),
        "https://auth.example.com/login?next=%2Fa+b"
    );
}

#[test]
fn encoded_key_matches_decoded_field() {
    assert!(query_contains_key("a=1&ne%78t=2", "next"));
    assert!(query_contains_key("&&next", "next"));
    assert!(!query_contains_key("nextx=1&x=next", "next"));
    assert!(query_contains_key("my+field=1", "my field"));
    assert!(!query_contains_key("", "next"));
}

#[test]
fn form_encoding_exact_values() {
    let mut out = String::new();
    append_form_encoded(&mut out, "a b/c?d=e&f*-._~é");
    assert_eq!(out, "a+b%2Fc%3Fd%3De%26f*-._%7E%C3%A9");
}

#[test]
fn form_decoding_undoes_encoding() {
    let text = "x y/ü&=%+";
    let mut out = String::new();
    append_form_encoded(&mut out, text);
    let bytes = out.as_bytes();
    let decoded = form_decode_range(bytes, 0, bytes.len());
    assert_eq!(decoded, text.as_bytes().to_vec());
    let raw = b"%zz%4";
    assert_eq!(form_decode_range(raw, 0, raw.len()), raw.to_vec());
}

#[test]
fn string_equality() {
    assert!(str_eq("abc", "abc"));
    assert!(!str_eq("abc", "abd"));
    assert!(!str_eq("ab", "abc"));
}
