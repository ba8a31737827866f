//! Tests for the message accessors: metadata lookups, roles, cookies,
//! query parameters and pagination.

use wafer_guest::types::RequestAction;
use wafer_guest::{Action, Message, Response, WaferError};

fn request() -> Message {
    let mut m = Message::new("http.request", b"body-bytes".to_vec());
    m.set_meta("req.action", "retrieve");
    m.set_meta("req.resource", "/items/9");
    m.set_meta("req.content_type", "text/plain");
    m.set_meta("req.client.ip", "10.0.0.9");
    m.set_meta("req.param.id", "9");
    m.set_meta("req.query.page", "3");
    m.set_meta("req.query.page_size", "20");
    m.set_meta("auth.user_id", "u-1");
    m.set_meta("auth.user_email", "u@example.test");
    m.set_meta("auth.user_roles", "editor,admin,viewer");
    m.set_meta("http.header.X-Trace", "abc");
    m.set_meta("http.header.Cookie", "session=xyz; theme=dark");
    m
}

#[test]
fn simple_accessors() {
    let m = request();
    assert_eq!(m.action(), "retrieve");
    assert_eq!(m.path(), "/items/9");
    assert_eq!(m.content_type(), "text/plain");
    assert_eq!(m.remote_addr(), "10.0.0.9");
    assert_eq!(m.user_id(), "u-1");
    assert_eq!(m.user_email(), "u@example.test");
    assert_eq!(m.body(), b"body-bytes");
    assert_eq!(m.get_meta("missing"), "");
}

#[test]
fn prefixed_accessors() {
    let m = request();
    assert_eq!(m.var("id"), "9");
    assert_eq!(m.var("other"), "");
    assert_eq!(m.query("page"), "3");
    assert_eq!(m.header("X-Trace"), "abc");
}

#[test]
fn roles_and_admin() {
    let m = request();
    assert_eq!(m.user_roles(), vec!["editor", "admin", "viewer"]);
    assert!(m.is_admin());
    let mut plain = Message::new("x", Vec::new());
    assert!(plain.user_roles().is_empty());
    assert!(!plain.is_admin());
    plain.set_meta("auth.user_roles", "viewer");
    assert!(!plain.is_admin());
}

#[test]
fn cookies() {
    let m = request();
    assert_eq!(m.cookie("session"), "xyz");
    assert_eq!(m.cookie("theme"), "dark");
    assert_eq!(m.cookie("missing"), "");
    let plain = Message::new("x", Vec::new());
    assert_eq!(plain.cookie("session"), "");
}

#[test]
fn query_params_strip_the_prefix() {
    let m = request();
    let params = m.query_params();
    assert_eq!(
        params,
        vec![
            ("page".to_string(), "3".to_string()),
            ("page_size".to_string(), "20".to_string())
        ]
    );
}

#[test]
fn pagination() {
    let m = request();
    assert_eq!(m.pagination_params(10), (3, 20, 40));
    let mut d = Message::new("x", Vec::new());
    assert_eq!(d.pagination_params(10), (1, 10, 0));
    d.set_meta("req.query.page", "0");
    d.set_meta("req.query.page_size", "500");
    assert_eq!(d.pagination_params(25), (1, 25, 0));
    d.set_meta("req.query.page", "oops");
    assert_eq!(d.pagination_params(25).0, 1);
}

#[test]
fn outcome_constructors() {
    let m = Message::new("x", Vec::new());
    let c = m.clone().cont();
    assert_eq!(c.action, Action::Continue);
    assert!(c.message.is_some() && c.response.is_none() && c.error.is_none());

    let r = m.clone().respond(Response::new(b"ok".to_vec()));
    assert_eq!(r.action, Action::Respond);
    assert_eq!(r.response.unwrap().data, b"ok".to_vec());

    let d = m.clone().drop_msg();
    assert_eq!(d.action, Action::Drop);

    let e = m.err(WaferError::new("nope", "rejected"));
    assert_eq!(e.action, Action::Error);
    assert_eq!(e.error.unwrap().code, "nope");
}

#[test]
fn token_enums_parse_and_print() {
    assert_eq!(RequestAction::parse("create"), Some(RequestAction::Create));
    assert_eq!(RequestAction::parse("CREATE"), None);
    assert_eq!(RequestAction::Delete.as_str(), "delete");
    assert_eq!(Action::parse("drop"), Action::Drop);
    assert_eq!(Action::parse("unknown-tag"), Action::Continue);
    assert_eq!(Action::Respond.as_str(), "respond");
}

#[test]
fn wafer_error_builders() {
    let e = WaferError::new("conflict", "already there").with_meta("resp.status", "409");
    assert_eq!(e.code, "conflict");
    assert_eq!(e.meta.get("resp.status").unwrap(), "409");
    assert_eq!(e.display_string(), "conflict: already there");
}
