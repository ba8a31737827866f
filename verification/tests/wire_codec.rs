//! Tests for the wire codec: record round trips, the metadata fold, the
//! outcome invariant, and the forward-compatibility fallbacks.

use wafer_guest::codec::{
    decode_block_info, decode_lifecycle, decode_message, decode_outcome, encode_info,
    encode_lifecycle_event, encode_message, encode_result,
};
use wafer_guest::{
    Action, BlockInfo, InstanceMode, LifecycleEvent, LifecycleType, Message, MetaMap, Response,
    Result_, WaferError,
};

#[test]
fn ping_encodes_to_canonical_record() {
    let m = Message::new("ping", Vec::new());
    assert_eq!(encode_message(&m), r#"{"kind":"ping","data":"","meta":[]}"#);
}

#[test]
fn ping_reencodes_byte_identical() {
    let m = Message::new("ping", Vec::new());
    let first = encode_message(&m);
    let decoded = decode_message(&first).unwrap();
    let second = encode_message(&decoded);
    assert_eq!(first, second);
}

#[test]
fn message_round_trip_with_payload_and_meta() {
    let mut m = Message::new("work", b"\x00\x01binary\xFF".to_vec());
    m.set_meta("req.action", "create");
    m.set_meta("req.resource", "/items");
    let text = encode_message(&m);
    let back = decode_message(&text).unwrap();
    assert_eq!(back.kind, "work");
    assert_eq!(back.data, b"\x00\x01binary\xFF".to_vec());
    assert_eq!(back.get_meta("req.action"), "create");
    assert_eq!(back.get_meta("req.resource"), "/items");
    assert_eq!(encode_message(&back), text);
}

#[test]
fn message_decode_accepts_field_order_and_blanks() {
    let text = " { \"meta\" : [ ] , \"kind\" : \"ping\" , \"data\" : \"\" } ";
    let m = decode_message(text).unwrap();
    assert_eq!(m.kind, "ping");
    assert_eq!(m.data.len(), 0);
    assert_eq!(m.meta.len(), 0);
}

#[test]
fn message_decode_defaults_optional_fields() {
    let m = decode_message(r#"{"kind":"ping"}"#).unwrap();
    assert_eq!(m.kind, "ping");
    assert_eq!(m.data.len(), 0);
    assert_eq!(m.meta.len(), 0);
}

#[test]
fn message_decode_rejects_bad_records() {
    assert!(decode_message("").is_err());
    assert!(decode_message("not json").is_err());
    assert!(decode_message("[1,2]").is_err());
    assert!(decode_message(r#"{"data":""}"#).is_err());
    assert!(decode_message(r#"{"kind":7}"#).is_err());
    assert!(decode_message(r#"{"kind":"x","data":"!!"}"#).is_err());
    assert!(decode_message(r#"{"kind":"x","meta":[["a"]]}"#).is_err());
    assert!(decode_message(r#"{"kind":"x","extra":1}"#).is_err());
}

#[test]
fn duplicate_meta_key_keeps_last_value() {
    let text = r#"{"kind":"x","data":"","meta":[["a","1"],["b","2"],["a","3"]]}"#;
    let m = decode_message(text).unwrap();
    assert_eq!(m.meta.len(), 2);
    assert_eq!(m.get_meta("a"), "3");
    assert_eq!(m.get_meta("b"), "2");
}

#[test]
fn unique_meta_round_trips_unchanged() {
    let mut meta = MetaMap::new();
    meta.insert("k1".to_string(), "v1".to_string());
    meta.insert("k2".to_string(), "v2".to_string());
    let pairs = meta.to_pairs();
    let folded = MetaMap::from_pairs(&pairs);
    assert_eq!(folded.to_pairs(), pairs);
}

#[test]
fn meta_insert_overwrites_in_place() {
    let mut meta = MetaMap::new();
    meta.insert("a".to_string(), "1".to_string());
    meta.insert("b".to_string(), "2".to_string());
    meta.insert("a".to_string(), "3".to_string());
    assert_eq!(
        meta.to_pairs(),
        vec![("a".to_string(), "3".to_string()), ("b".to_string(), "2".to_string())]
    );
    assert_eq!(meta.get("a").unwrap(), "3");
    assert!(meta.get("missing").is_none());
    assert!(meta.contains_key("b"));
}

#[test]
fn outcome_respond_scenario() {
    let text = r#"{"action":"respond","response":{"data":"aGVsbG8=","meta":[["resp.status","200"]]}}"#;
    let o = decode_outcome(text).unwrap();
    assert_eq!(o.action, Action::Respond);
    let resp = o.response.expect("respond outcome carries a response");
    assert_eq!(resp.data, b"hello".to_vec());
    assert_eq!(resp.meta.get("resp.status").unwrap(), "200");
    assert!(o.error.is_none());
}

#[test]
fn outcome_all_four_tags_round_trip_well_formed() {
    let continue_text = encode_result(&Result_ {
        action: Action::Continue,
        response: None,
        error: None,
        message: None,
    });
    assert_eq!(continue_text, r#"{"action":"continue"}"#);
    let o = decode_outcome(&continue_text).unwrap();
    assert_eq!(o.action, Action::Continue);
    assert!(o.response.is_none() && o.error.is_none());

    let drop_text =
        encode_result(&Result_ { action: Action::Drop, response: None, error: None, message: None });
    assert_eq!(drop_text, r#"{"action":"drop"}"#);
    let o = decode_outcome(&drop_text).unwrap();
    assert_eq!(o.action, Action::Drop);
    assert!(o.response.is_none() && o.error.is_none());

    let respond_text = encode_result(&Result_ {
        action: Action::Respond,
        response: Some(Response::new(b"ok".to_vec())),
        error: None,
        message: None,
    });
    assert_eq!(respond_text, r#"{"action":"respond","response":{"data":"b2s="}}"#);
    let o = decode_outcome(&respond_text).unwrap();
    assert_eq!(o.action, Action::Respond);
    assert!(o.response.is_some() && o.error.is_none());

    let error_text = encode_result(&Result_ {
        action: Action::Error,
        response: None,
        error: Some(WaferError::new("internal", "boom")),
        message: None,
    });
    assert_eq!(error_text, r#"{"action":"error","error":{"code":"internal","message":"boom"}}"#);
    let o = decode_outcome(&error_text).unwrap();
    assert_eq!(o.action, Action::Error);
    assert!(o.error.is_some() && o.response.is_none());
}

#[test]
fn encoder_discards_field_conflicting_with_tag() {
    // A continue outcome that accidentally carries both auxiliary fields:
    // the encoder keeps neither, so the wire never carries a conflict.
    let r = Result_ {
        action: Action::Continue,
        response: Some(Response::new(b"x".to_vec())),
        error: Some(WaferError::new("internal", "x")),
        message: None,
    };
    assert_eq!(encode_result(&r), r#"{"action":"continue"}"#);
}

#[test]
fn unknown_action_tag_decodes_to_continue() {
    let o = decode_outcome(r#"{"action":"warble"}"#).unwrap();
    assert_eq!(o.action, Action::Continue);
    assert!(o.response.is_none() && o.error.is_none());
}

#[test]
fn mismatched_outcome_becomes_invalid_outcome_error() {
    // respond without a response is a protocol bug: the receiving side
    // turns it into an error outcome with a distinct code.
    let o = decode_outcome(r#"{"action":"respond"}"#).unwrap();
    assert_eq!(o.action, Action::Error);
    assert_eq!(o.error.unwrap().code, "invalid_outcome");

    // so is a record carrying both auxiliary fields.
    let text = r#"{"action":"respond","response":{"data":""},"error":{"code":"internal","message":"x"}}"#;
    let o = decode_outcome(text).unwrap();
    assert_eq!(o.action, Action::Error);
    assert_eq!(o.error.unwrap().code, "invalid_outcome");
}

#[test]
fn block_info_round_trip() {
    let bi = BlockInfo {
        name: "demo".to_string(),
        version: "0.1.0".to_string(),
        interface: "transform".to_string(),
        summary: "a demo block".to_string(),
        instance_mode: InstanceMode::Singleton,
        allowed_modes: vec![InstanceMode::PerNode, InstanceMode::Singleton],
    };
    let text = encode_info(&bi);
    assert_eq!(
        text,
        r#"{"name":"demo","version":"0.1.0","interface":"transform","summary":"a demo block","instance_mode":"singleton","allowed_modes":["per-node","singleton"]}"#
    );
    let back = decode_block_info(&text).unwrap();
    assert_eq!(back.name, "demo");
    assert_eq!(back.instance_mode, InstanceMode::Singleton);
    assert_eq!(back.allowed_modes, vec![InstanceMode::PerNode, InstanceMode::Singleton]);
}

#[test]
fn block_info_defaults_and_rejects_unknown_mode() {
    let bi = decode_block_info(r#"{"name":"a","version":"b","interface":"c","summary":"d"}"#)
        .unwrap();
    assert_eq!(bi.instance_mode, InstanceMode::PerNode);
    assert!(bi.allowed_modes.is_empty());
    assert!(decode_block_info(
        r#"{"name":"a","version":"b","interface":"c","summary":"d","instance_mode":"sideways"}"#
    )
    .is_err());
}

#[test]
fn lifecycle_event_round_trip() {
    let e = LifecycleEvent { event_type: LifecycleType::Init, data: b"conf".to_vec() };
    let text = encode_lifecycle_event(&e);
    assert_eq!(text, r#"{"type":"init","data":"Y29uZg=="}"#);
    let w = decode_lifecycle(&text).unwrap();
    assert_eq!(w.event_type, "init");
    assert_eq!(w.data, b"conf".to_vec());
    let back = LifecycleEvent::from_wasm(w).unwrap();
    assert_eq!(back.event_type, LifecycleType::Init);
}

#[test]
fn unknown_lifecycle_type_is_rejected_by_conversion() {
    let w = decode_lifecycle(r#"{"type":"hibernate","data":""}"#).unwrap();
    assert!(LifecycleEvent::from_wasm(w).is_none());
}
