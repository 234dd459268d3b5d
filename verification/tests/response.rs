use actix_login::response::{
    DefaultUnauthenticated, DefaultUnauthorized, InternalErrorFallback, PlannedResponse,
    RedirectHandler, SimpleResponseHandler,
};

fn header<'a>(r: &'a PlannedResponse, name: &str) -> Option<&'a str> {
    r.headers
        .iter()
        .rev()
        .find(|(n, _)| n == name)
        .map(|(_, v)| v.as_str())
}

#[test]
fn test_default_response() {
    let r = SimpleResponseHandler::new().respond();
    assert_eq!(r.status, 401);
    assert_eq!(r.body, "Authentication required");
    assert_eq!(header(&r, "content-type"), Some("text/plain"));
}

#[test]
fn test_custom_headers() {
    let r = SimpleResponseHandler::new()
        .header("X-Custom-Header", "custom-value")
        .respond();
    assert_eq!(header(&r, "x-custom-header"), Some("custom-value"));
}

#[test]
fn test_redirect_handler_invalid_login_url() {
    let r = RedirectHandler::new().login_url("http://[::1").respond("/");
    assert_eq!(r.status, 500);
    assert_eq!(r.body, "Internal Server Error");
    assert!(r.headers.is_empty());
}

#[test]
fn test_redirect_handler_uses_request_uri() {
    let r = RedirectHandler::new().login_url("/login").respond("/return");
    assert_eq!(r.status, 307);
    assert_eq!(header(&r, "location"), Some("/login?next=%2Freturn"));
    assert_eq!(r.body, "Redirecting...");
}

#[test]
fn test_redirect_handler_defaults() {
    let r = RedirectHandler::new().respond("/");
    assert_eq!(r.status, 307);
    assert_eq!(header(&r, "location"), Some("/signin?next=%2F"));
}

#[test]
fn test_redirect_handler_preserves_existing_redirect_param() {
    let r = RedirectHandler::new().login_url("/login?next=%2Fkeep").respond("/");
    assert_eq!(r.status, 307);
    assert_eq!(header(&r, "location"), Some("/login?next=%2Fkeep"));
}

#[test]
fn redirect_handler_field_and_url_in_any_order() {
    let a = RedirectHandler::new()
        .redirect_field("next_uri")
        .login_url("/signin")
        .respond("/");
    let b = RedirectHandler::new()
        .login_url("/signin")
        .redirect_field("next_uri")
        .respond("/");
    assert_eq!(header(&a, "location"), Some("/signin?next_uri=%2F"));
    assert_eq!(header(&b, "location"), Some("/signin?next_uri=%2F"));
}

#[test]
fn test_simple_response_handler_invalid_headers_ignored() {
    let r = SimpleResponseHandler::new()
        .content_type("\n")
        .header("bad header", "value")
        .header("X-Good", "ok")
        .respond();
    assert!(header(&r, "content-type").is_none());
    assert!(header(&r, "bad header").is_none());
    assert_eq!(header(&r, "x-good"), Some("ok"));
    assert_eq!(r.headers.len(), 1);
}

#[test]
fn invalid_header_value_is_ignored() {
    let r = SimpleResponseHandler::new()
        .header("X-Bad", "a\u{7f}b")
        .header("X-Tab", "a\tb")
        .respond();
    assert!(header(&r, "x-bad").is_none());
    assert_eq!(header(&r, "x-tab"), Some("a\tb"));
}

#[test]
fn test_simple_response_handler_error_page() {
    let h = SimpleResponseHandler::error_page(401, "Denied", "No access");
    let r = h.respond();
    assert_eq!(r.status, 401);
    assert_eq!(header(&r, "content-type"), Some("text/html; charset=utf-8"));
    assert!(r.body.starts_with("<!DOCTYPE html>"));
    assert!(r.body.contains("<title>Denied</title>"));
    assert!(r.body.contains("<h1>Denied</h1>"));
    assert!(r.body.contains("<p>No access</p>"));
}

#[test]
fn simple_constructors_set_content_type() {
    assert_eq!(SimpleResponseHandler::text(410, "test").content_type, "text/plain; charset=utf-8");
    assert_eq!(SimpleResponseHandler::text(410, "test").status_code, 410);
    assert_eq!(SimpleResponseHandler::xml(200, "<a/>").content_type, "application/xml");
    assert_eq!(SimpleResponseHandler::html(200, "<p/>").body, "<p/>");
}

#[test]
fn header_replaces_same_name() {
    let h = SimpleResponseHandler::new().header("X-A", "1").header("X-B", "2").header("X-A", "3");
    assert_eq!(
        h.headers,
        vec![("X-A".to_string(), "3".to_string()), ("X-B".to_string(), "2".to_string())]
    );
    let h = h.headers(vec![("X-B".to_string(), "4".to_string()), ("X-C".to_string(), "5".to_string())]);
    assert_eq!(h.headers.len(), 3);
    assert_eq!(h.headers[1].1, "4");
}

#[test]
fn default_handlers() {
    let r = DefaultUnauthenticated.respond();
    assert_eq!((r.status, r.body.as_str()), (401, "Unauthorized"));
    let r = DefaultUnauthorized.respond();
    assert_eq!((r.status, r.body.as_str()), (403, "Forbidden"));
    let r = InternalErrorFallback.respond();
    assert_eq!((r.status, r.body.as_str()), (500, "Internal server error"));
}
