//! Tests for the response helpers and the service clients, including
//! the reply-interpretation paths driven with crafted host outcomes.

use wafer_guest::helpers::{
    err_bad_request, err_conflict, err_forbidden, err_internal, err_not_found, err_unauthorized,
    err_validation, error, json_respond, new_response, respond, ErrorCode, ResponseBuilder,
};
use wafer_guest::json::Json;
use wafer_guest::services::config::{interpret_config_get, interpret_config_set, ConfigClient};
use wafer_guest::services::crypto::{interpret_claims_reply, interpret_text_reply, CryptoClient};
use wafer_guest::services::database;
use wafer_guest::services::logger::LoggerClient;
use wafer_guest::services::network::{interpret_network_reply, NetworkClient, Request};
use wafer_guest::services::storage::{interpret_storage_get, StorageClient};
use wafer_guest::{Action, Context, Message, MetaMap, Response, Result_, WaferError};

fn msg() -> Message {
    Message::new("req", Vec::new())
}

fn reply_with(data: &[u8], meta: &[(&str, &str)]) -> Result_ {
    let mut m = MetaMap::new();
    for (k, v) in meta {
        m.insert(k.to_string(), v.to_string());
    }
    Result_ {
        action: Action::Respond,
        response: Some(Response { data: data.to_vec(), meta: m }),
        error: None,
        message: None,
    }
}

fn error_reply(code: &str) -> Result_ {
    Result_ {
        action: Action::Error,
        response: None,
        error: Some(WaferError::new(code, "failed")),
        message: None,
    }
}

#[test]
fn respond_builds_status_and_content_type() {
    let r = respond(msg(), 201, b"made".to_vec(), "text/plain");
    assert_eq!(r.action, Action::Respond);
    let p = r.response.unwrap();
    assert_eq!(p.data, b"made".to_vec());
    assert_eq!(p.meta.get("resp.status").unwrap(), "201");
    assert_eq!(p.meta.get("resp.content_type").unwrap(), "text/plain");

    let bare = respond(msg(), 204, Vec::new(), "");
    assert!(bare.response.unwrap().meta.get("resp.content_type").is_none());
}

#[test]
fn error_builds_code_and_status() {
    let r = error(msg(), 418, ErrorCode::Internal, "teapot");
    assert_eq!(r.action, Action::Error);
    let e = r.error.unwrap();
    assert_eq!(e.code, "internal");
    assert_eq!(e.message, "teapot");
    assert_eq!(e.meta.get("resp.status").unwrap(), "418");
}

#[test]
fn error_shorthands() {
    let cases = [
        (err_bad_request(msg(), "m"), "invalid_argument", "400"),
        (err_unauthorized(msg(), "m"), "unauthenticated", "401"),
        (err_forbidden(msg(), "m"), "permission_denied", "403"),
        (err_not_found(msg(), "m"), "not_found", "404"),
        (err_conflict(msg(), "m"), "already_exists", "409"),
        (err_validation(msg(), "m"), "invalid_argument", "422"),
        (err_internal(msg(), "m"), "internal", "500"),
    ];
    for (r, code, status) in cases {
        let e = r.error.unwrap();
        assert_eq!(e.code, code);
        assert_eq!(e.meta.get("resp.status").unwrap(), status);
    }
}

#[test]
fn response_builder_chains() {
    let r = ResponseBuilder::new(msg(), 200)
        .set_header("X-Request-Id", "abc123")
        .set_cookie("session=xyz")
        .set_cookie("theme=dark")
        .body(b"done".to_vec(), "text/html");
    let p = r.response.unwrap();
    assert_eq!(p.meta.get("resp.status").unwrap(), "200");
    assert_eq!(p.meta.get("resp.header.X-Request-Id").unwrap(), "abc123");
    assert_eq!(p.meta.get("resp.set_cookie.0").unwrap(), "session=xyz");
    assert_eq!(p.meta.get("resp.set_cookie.1").unwrap(), "theme=dark");
    assert_eq!(p.meta.get("resp.content_type").unwrap(), "text/html");
    assert_eq!(p.data, b"done".to_vec());
}

#[test]
fn json_responses() {
    let r = json_respond(msg(), 200, &Json::Obj(vec![("ok".to_string(), Json::Bool(true))]));
    let p = r.response.unwrap();
    assert_eq!(p.data, br#"{"ok":true}"#.to_vec());
    assert_eq!(p.meta.get("resp.content_type").unwrap(), "application/json");

    let r2 = new_response(msg(), 200).json(&Json::Int(5));
    assert_eq!(r2.response.unwrap().data, b"5".to_vec());
}

#[test]
fn config_client_against_inert_context() {
    let ctx = Context::new();
    let c = ConfigClient::new(&ctx);
    assert!(c.get("anything").is_none());
    assert_eq!(c.get_default("anything", "fallback"), "fallback");
    assert!(c.set("k", "v").is_ok());
}

#[test]
fn config_interpretation_of_host_replies() {
    assert_eq!(interpret_config_get(reply_with(b"value", &[])), Some("value".to_string()));
    assert!(interpret_config_get(error_reply("internal")).is_none());
    assert!(interpret_config_set(error_reply("internal")).is_err());
    assert!(interpret_config_set(reply_with(b"", &[])).is_ok());
}

#[test]
fn crypto_client_against_inert_context() {
    let ctx = Context::new();
    let c = CryptoClient::new(&ctx);
    assert_eq!(c.hash("pw").unwrap_err().code, "no_response");
    assert!(c.compare_hash("pw", "h").is_ok());
    assert_eq!(c.sign(&Json::Obj(vec![]), 60).unwrap_err().code, "no_response");
    assert_eq!(c.verify("token").unwrap_err().code, "no_response");
}

#[test]
fn crypto_interpretation_of_host_replies() {
    let ok = interpret_text_reply(reply_with(b"hashed", &[]), "fallback").unwrap();
    assert_eq!(ok, "hashed");
    assert_eq!(interpret_text_reply(error_reply("denied"), "fallback").unwrap_err().code, "denied");
    let claims = interpret_claims_reply(reply_with(br#"{"sub":"u-1"}"#, &[])).unwrap();
    assert_eq!(wafer_guest::json::json_emit(&claims), r#"{"sub":"u-1"}"#);
    assert_eq!(
        interpret_claims_reply(reply_with(b"not json", &[])).unwrap_err().code,
        "decode_error"
    );
}

#[test]
fn storage_client_and_interpretation() {
    let ctx = Context::new();
    let s = StorageClient::new(&ctx);
    assert!(s.put("b", "k", b"data", "text/plain").is_ok());
    assert!(s.delete("b", "k").is_ok());
    assert_eq!(s.get("b", "k").unwrap_err().code, "no_response");

    let obj = interpret_storage_get(
        reply_with(b"bytes", &[("content_type", "text/plain")]),
        "the-key",
    )
    .unwrap();
    assert_eq!(obj.data, b"bytes".to_vec());
    assert_eq!(obj.info.key, "the-key");
    assert_eq!(obj.info.size, 5);
    assert_eq!(obj.info.content_type, "text/plain");
}

#[test]
fn network_client_and_interpretation() {
    let ctx = Context::new();
    let n = NetworkClient::new(&ctx);
    assert_eq!(n.get("http://example.test/").unwrap_err().code, "no_response");
    assert_eq!(
        n.post_json("http://example.test/", &Json::Null).unwrap_err().code,
        "no_response"
    );
    assert_eq!(
        n.do_request(&Request {
            method: "PUT".to_string(),
            url: "http://example.test/x".to_string(),
            headers: vec![],
            body: Some(b"payload".to_vec()),
        })
        .unwrap_err()
        .code,
        "no_response"
    );

    let reply = reply_with(
        br#"{"status_code":200,"headers":[["Content-Type","text/plain"]],"body":"aGVsbG8="}"#,
        &[],
    );
    let resp = interpret_network_reply(reply).unwrap();
    assert_eq!(resp.status_code, 200);
    assert_eq!(resp.headers, vec![("Content-Type".to_string(), "text/plain".to_string())]);
    assert_eq!(resp.body, b"hello".to_vec());

    assert_eq!(
        interpret_network_reply(reply_with(b"{}", &[])).unwrap_err().code,
        "decode_error"
    );
}

#[test]
fn logger_is_fire_and_forget() {
    let ctx = Context::new();
    let l = LoggerClient::new(&ctx);
    l.debug("d");
    l.info("i");
    l.warn("w");
    l.error("e");
    l.info_with("fields", Json::Obj(vec![("n".to_string(), Json::Int(1))]));
    l.debug_with("fields", Json::Null);
    l.warn_with("fields", Json::Null);
    l.error_with("fields", Json::Null);
}

#[test]
fn database_conversions() {
    let rec = database::record_from_wit(database::DbRecord {
        id: "r1".to_string(),
        data: r#"{"title":"x","count":3}"#.to_string(),
    });
    assert_eq!(rec.id, "r1");
    assert_eq!(rec.data.len(), 2);
    assert_eq!(rec.data[0].0, "title");

    let degenerate = database::record_from_wit(database::DbRecord {
        id: "r2".to_string(),
        data: "not json".to_string(),
    });
    assert!(degenerate.data.is_empty());

    let f = database::convert_filter(&database::Filter {
        field: "age".to_string(),
        operator: database::FilterOp::Gte,
        value: Json::Int(21),
    });
    assert_eq!(f.field, "age");
    assert_eq!(f.operator, database::FilterOp::Gte);
    assert_eq!(f.value, "21");

    let e = database::convert_wit_error(database::DbErrorCode::NotFound);
    assert_eq!(e.kind, "not_found");
    assert_eq!(e.display_string(), "not_found: record not found");

    assert!(database::delete(Ok(())).is_ok());
    assert_eq!(database::delete(Err(database::DbErrorCode::Internal)).unwrap_err().kind, "internal");
    assert_eq!(database::count(Ok(7)).unwrap(), 7);
    let got = database::get(Ok(database::DbRecord { id: "a".to_string(), data: "{}".to_string() }))
        .unwrap();
    assert_eq!(got.id, "a");
}
