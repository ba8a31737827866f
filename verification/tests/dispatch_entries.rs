//! Tests for the dispatch entry points, driving a small block through
//! the byte-level boundary protocol.

use wafer_guest::codec::decode_outcome;
use wafer_guest::dispatch::{describe, handle, lifecycle};
use wafer_guest::helpers::respond;
use wafer_guest::{
    Action, Block, BlockInfo, Context, InstanceMode, LifecycleEvent, LifecycleType, Message,
    Result_, WaferError,
};

struct EchoBlock;

impl Block for EchoBlock {
    fn info(&self) -> BlockInfo {
        BlockInfo {
            name: "echo".to_string(),
            version: "1.0.0".to_string(),
            interface: "transform".to_string(),
            summary: "echoes the payload back".to_string(),
            instance_mode: InstanceMode::PerNode,
            allowed_modes: vec![InstanceMode::PerNode],
        }
    }

    fn handle(&self, _ctx: &Context, msg: &mut Message) -> Result_ {
        let body = msg.data.clone();
        respond(msg.clone(), 200, body, "application/octet-stream")
    }

    fn lifecycle(&self, _ctx: &Context, event: LifecycleEvent) -> Result<(), WaferError> {
        match event.event_type {
            LifecycleType::Stop => Err(WaferError::new("refused", "cannot stop")),
            _ => Ok(()),
        }
    }
}

#[test]
fn describe_reports_identity() {
    let out = describe(&EchoBlock);
    let text = String::from_utf8(out).unwrap();
    assert!(text.contains(r#""name":"echo""#));
    assert!(text.contains(r#""instance_mode":"per-node""#));
}

#[test]
fn handle_echoes_through_the_wire() {
    let ctx = Context::new();
    let input = br#"{"kind":"ping","data":"aGVsbG8=","meta":[]}"#;
    let out = handle(&EchoBlock, &ctx, input);
    let text = String::from_utf8(out).unwrap();
    let o = decode_outcome(&text).unwrap();
    assert_eq!(o.action, Action::Respond);
    let resp = o.response.unwrap();
    assert_eq!(resp.data, b"hello".to_vec());
    assert_eq!(resp.meta.get("resp.status").unwrap(), "200");
}

#[test]
fn malformed_message_yields_decode_error_outcome() {
    let ctx = Context::new();
    let out = handle(&EchoBlock, &ctx, b"this is not a record");
    let text = String::from_utf8(out).unwrap();
    let o = decode_outcome(&text).unwrap();
    assert_eq!(o.action, Action::Error);
    let e = o.error.unwrap();
    assert_eq!(e.code, "decode_error");
    assert!(!e.message.is_empty());
    assert!(o.response.is_none());
}

#[test]
fn invalid_utf8_yields_decode_error_outcome() {
    let ctx = Context::new();
    let out = handle(&EchoBlock, &ctx, &[0xFF, 0xFE, 0x00]);
    let o = decode_outcome(&String::from_utf8(out).unwrap()).unwrap();
    assert_eq!(o.action, Action::Error);
    assert_eq!(o.error.unwrap().code, "decode_error");
}

#[test]
fn lifecycle_acknowledges_known_events() {
    let ctx = Context::new();
    let out = lifecycle(&EchoBlock, &ctx, br#"{"type":"init","data":""}"#);
    assert_eq!(String::from_utf8(out).unwrap(), r#"{"action":"continue"}"#);
}

#[test]
fn lifecycle_surfaces_block_errors() {
    let ctx = Context::new();
    let out = lifecycle(&EchoBlock, &ctx, br#"{"type":"stop","data":""}"#);
    let o = decode_outcome(&String::from_utf8(out).unwrap()).unwrap();
    assert_eq!(o.action, Action::Error);
    assert_eq!(o.error.unwrap().code, "refused");
}

#[test]
fn unknown_lifecycle_type_acknowledged_as_success() {
    let ctx = Context::new();
    let out = lifecycle(&EchoBlock, &ctx, br#"{"type":"hibernate","data":""}"#);
    assert_eq!(String::from_utf8(out).unwrap(), r#"{"action":"continue"}"#);
}

#[test]
fn malformed_lifecycle_yields_decode_error_outcome() {
    let ctx = Context::new();
    let out = lifecycle(&EchoBlock, &ctx, b"{{{");
    let o = decode_outcome(&String::from_utf8(out).unwrap()).unwrap();
    assert_eq!(o.action, Action::Error);
    assert_eq!(o.error.unwrap().code, "decode_error");
}

#[test]
fn context_is_inert_without_a_host() {
    let ctx = Context::default();
    let reply = ctx.send(&Message::new("anything", Vec::new()));
    assert_eq!(reply.action, Action::Continue);
    assert!(reply.response.is_none() && reply.error.is_none() && reply.message.is_none());
    assert_eq!(ctx.capabilities_raw(), b"[]".to_vec());
    assert!(!ctx.is_cancelled());
}
