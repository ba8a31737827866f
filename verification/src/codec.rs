//! The wire codec: how messages, outcomes, block identity and lifecycle
//! events travel across the isolation boundary.
//!
//! Each entity has a wire-level twin (`WasmMessage`, `WasmResult`, ...)
//! whose shape matches the boundary's JSON records field for field:
//! binary payloads are embedded as base64 text, metadata as an ordered
//! array of `[key, value]` pairs.  Decoding folds the pairs into a
//! key-unique mapping (a later duplicate overwrites), falls back to
//! `Continue` for an unknown action token, and turns a record whose
//! auxiliary fields disagree with its action tag into an `Error` outcome
//! with the distinct code `invalid_outcome` — the receiving side never
//! holds an outcome that violates the action invariant.

use vstd::prelude::*;
use crate::base64::base64_decode;
use crate::base64::base64_encode;
use crate::base64::dec64;
use crate::base64::enc64;
use crate::json::emit;
use crate::json::jarr_of;
use crate::json::jobj_of;
use crate::json::json_emit;
use crate::json::jval_of;
use crate::json::DecodeError;
use crate::json::JVal;
use crate::json::Json;
use crate::meta::spec_fold;
use crate::meta::MetaMap;
use crate::types::action_str;
use crate::types::clone_bytes;
use crate::types::instance_mode_str;
use crate::types::lifecycle_type_str;
use crate::types::outcome_wf;
use crate::types::spec_parse_action;
use crate::types::spec_parse_lifecycle_type;
use crate::types::Action;
use crate::types::BlockInfo;
use crate::types::InstanceMode;
use crate::types::LifecycleEvent;
use crate::types::Message;
use crate::types::Response;
use crate::types::Result_;
use crate::types::WaferError;

verus! {

// ---------------------------------------------------------------------
// Wire-level twins of the entities
// ---------------------------------------------------------------------
/// The wire shape of a message: `{kind, data, meta}`.
#[derive(Debug)]
pub struct WasmMessage {
    pub kind: String,
    pub data: Vec<u8>,
    pub meta: Vec<(String, String)>,
}

/// The wire shape of an outcome: `{action, response?, error?}`.
#[derive(Debug)]
pub struct WasmResult {
    pub action: String,
    pub response: Option<WasmResponse>,
    pub error: Option<WasmError>,
}

/// The wire shape of a response: `{data, meta?}`.
#[derive(Debug)]
pub struct WasmResponse {
    pub data: Vec<u8>,
    pub meta: Vec<(String, String)>,
}

/// The wire shape of a structured error: `{code, message, meta?}`.
#[derive(Debug)]
pub struct WasmError {
    pub code: String,
    pub message: String,
    pub meta: Vec<(String, String)>,
}

/// The wire shape of a block identity record.
#[derive(Debug)]
pub struct WasmBlockInfo {
    pub name: String,
    pub version: String,
    pub interface: String,
    pub summary: String,
    pub instance_mode: String,
    pub allowed_modes: Vec<String>,
}

/// The wire shape of a lifecycle event: `{type, data}`.
#[derive(Debug)]
pub struct WasmLifecycleEvent {
    pub event_type: String,
    pub data: Vec<u8>,
}

// ---------------------------------------------------------------------
// The JSON shape of each record
// ---------------------------------------------------------------------
/// Metadata pairs as a JSON array of two-element string arrays.
pub open spec fn meta_pairs_jval(ps: Seq<(Seq<char>, Seq<char>)>) -> Seq<JVal>
    decreases ps.len(),
{
    if ps.len() == 0 {
        Seq::empty()
    } else {
        seq![JVal::Arr(seq![JVal::Str(ps[0].0), JVal::Str(ps[0].1)])] + meta_pairs_jval(ps.skip(1))
    }
}

/// A sequence of strings as JSON string values.
pub open spec fn strs_jval(ss: Seq<Seq<char>>) -> Seq<JVal>
    decreases ss.len(),
{
    if ss.len() == 0 {
        Seq::empty()
    } else {
        seq![JVal::Str(ss[0])] + strs_jval(ss.skip(1))
    }
}

/// The tokens of a sequence of instance modes.
pub open spec fn modes_strs(ms: Seq<InstanceMode>) -> Seq<Seq<char>>
    decreases ms.len(),
{
    if ms.len() == 0 {
        Seq::empty()
    } else {
        seq![instance_mode_str(ms[0])] + modes_strs(ms.skip(1))
    }
}

/// The JSON record of a message.
pub open spec fn message_jval(
    kind: Seq<char>,
    data: Seq<u8>,
    meta: Seq<(Seq<char>, Seq<char>)>,
) -> JVal {
    JVal::Obj(
        seq![
            ("kind"@, JVal::Str(kind)),
            ("data"@, JVal::Str(enc64(data))),
            ("meta"@, JVal::Arr(meta_pairs_jval(meta))),
        ],
    )
}

/// The JSON record of a response; empty metadata is omitted.
pub open spec fn response_jval(data: Seq<u8>, meta: Seq<(Seq<char>, Seq<char>)>) -> JVal {
    JVal::Obj(
        seq![("data"@, JVal::Str(enc64(data)))] + if meta.len() == 0 {
            Seq::empty()
        } else {
            seq![("meta"@, JVal::Arr(meta_pairs_jval(meta)))]
        },
    )
}

/// The JSON record of a structured error; empty metadata is omitted.
pub open spec fn error_jval(
    code: Seq<char>,
    message: Seq<char>,
    meta: Seq<(Seq<char>, Seq<char>)>,
) -> JVal {
    JVal::Obj(
        seq![("code"@, JVal::Str(code)), ("message"@, JVal::Str(message))] + if meta.len() == 0 {
            Seq::empty()
        } else {
            seq![("meta"@, JVal::Arr(meta_pairs_jval(meta)))]
        },
    )
}

/// The JSON record of an outcome; absent auxiliary fields are omitted
/// entirely, never written as null.
pub open spec fn outcome_jval(
    action: Seq<char>,
    resp: Option<(Seq<u8>, Seq<(Seq<char>, Seq<char>)>)>,
    err: Option<(Seq<char>, Seq<char>, Seq<(Seq<char>, Seq<char>)>)>,
) -> JVal {
    JVal::Obj(
        seq![("action"@, JVal::Str(action))] + (match resp {
            Some(p) => seq![("response"@, response_jval(p.0, p.1))],
            None => Seq::empty(),
        }) + (match err {
            Some(e) => seq![("error"@, error_jval(e.0, e.1, e.2))],
            None => Seq::empty(),
        }),
    )
}

/// The JSON record of a block identity.
pub open spec fn info_jval(
    name: Seq<char>,
    version: Seq<char>,
    interface: Seq<char>,
    summary: Seq<char>,
    instance_mode: Seq<char>,
    allowed_modes: Seq<Seq<char>>,
) -> JVal {
    JVal::Obj(
        seq![
            ("name"@, JVal::Str(name)),
            ("version"@, JVal::Str(version)),
            ("interface"@, JVal::Str(interface)),
            ("summary"@, JVal::Str(summary)),
            ("instance_mode"@, JVal::Str(instance_mode)),
            ("allowed_modes"@, JVal::Arr(strs_jval(allowed_modes))),
        ],
    )
}

/// The JSON record of a lifecycle event.
pub open spec fn lifecycle_jval(event_type: Seq<char>, data: Seq<u8>) -> JVal {
    JVal::Obj(seq![("type"@, JVal::Str(event_type)), ("data"@, JVal::Str(enc64(data)))])
}

// ---------------------------------------------------------------------
// Conversions between entities and their wire twins
// ---------------------------------------------------------------------
impl Message {
    /// Read a wire message into the data model, folding the metadata
    /// pairs into a key-unique mapping (a later duplicate overwrites).
    pub fn from_wasm(wm: WasmMessage) -> (m: Message)
        ensures
            m.kind@ == wm.kind@,
            m.data@ == wm.data@,
            m.meta@ == spec_fold(wm.meta.deep_view()),
    {
        let meta = MetaMap::from_pairs(&wm.meta);
        Message { kind: wm.kind, data: wm.data, meta }
    }

    /// Write this message in its wire shape, metadata in stored order.
    pub fn to_wasm(&self) -> (wm: WasmMessage)
        ensures
            wm.kind@ == self.kind@,
            wm.data@ == self.data@,
            wm.meta.deep_view() == self.meta@,
    {
        WasmMessage {
            kind: self.kind.clone(),
            data: clone_bytes(&self.data),
            meta: self.meta.to_pairs(),
        }
    }
}

/// Whether the auxiliary fields present on a wire outcome agree with its
/// action tag.
pub open spec fn consistent_wire(a: Action, has_resp: bool, has_err: bool) -> bool {
    match a {
        Action::Respond => has_resp && !has_err,
        Action::Error => has_err && !has_resp,
        Action::Continue => !has_resp && !has_err,
        Action::Drop => !has_resp && !has_err,
    }
}

impl Result_ {
    /// Write this outcome in its wire shape.  Only the auxiliary field
    /// matching the action tag is written; a conflicting field is
    /// silently discarded, so the wire never carries both.
    pub fn to_wasm(&self) -> (wr: WasmResult)
        ensures
            wr.action@ == action_str(self.action),
            wr.response matches Some(w) <==> (self.action == Action::Respond
                && self.response is Some),
            match self.response {
                Some(p) => self.action == Action::Respond ==> (wr.response matches Some(w)
                    && w.data@ == p.data@ && w.meta.deep_view() == p.meta@),
                None => true,
            },
            wr.error matches Some(w) <==> (self.action == Action::Error && self.error is Some),
            match self.error {
                Some(p) => self.action == Action::Error ==> (wr.error matches Some(w) && w.code@
                    == p.code@ && w.message@ == p.message@ && w.meta.deep_view() == p.meta@),
                None => true,
            },
            !(wr.response is Some && wr.error is Some),
    {
        let action = String::from_str(self.action.as_str());
        let response = if matches!(self.action, Action::Respond) {
            match &self.response {
                Some(p) => Some(
                    WasmResponse { data: clone_bytes(&p.data), meta: p.meta.to_pairs() },
                ),
                None => None,
            }
        } else {
            None
        };
        let error = if matches!(self.action, Action::Error) {
            match &self.error {
                Some(e) => Some(
                    WasmError {
                        code: e.code.clone(),
                        message: e.message.clone(),
                        meta: e.meta.to_pairs(),
                    },
                ),
                None => None,
            }
        } else {
            None
        };
        WasmResult { action, response, error }
    }

    /// Read a wire outcome into the data model.  An unknown action token
    /// falls back to `Continue`; a record whose auxiliary fields do not
    /// match its action tag becomes an `Error` outcome with the code
    /// `invalid_outcome`; the result always satisfies the outcome
    /// invariant.
    pub fn from_wasm(wr: WasmResult) -> (r: Result_)
        ensures
            outcome_wf(r),
            r.message is None,
            consistent_wire(
                spec_parse_action(wr.action@),
                wr.response is Some,
                wr.error is Some,
            ) ==> {
                &&& r.action == spec_parse_action(wr.action@)
                &&& match wr.response {
                    Some(w) => r.response matches Some(p) && p.data@ == w.data@ && p.meta@
                        == spec_fold(w.meta.deep_view()),
                    None => r.response is None,
                }
                &&& match wr.error {
                    Some(w) => r.error matches Some(e) && e.code@ == w.code@ && e.message@
                        == w.message@ && e.meta@ == spec_fold(w.meta.deep_view()),
                    None => r.error is None,
                }
            },
            !consistent_wire(spec_parse_action(wr.action@), wr.response is Some, wr.error is Some)
                ==> {
                &&& r.action == Action::Error
                &&& r.response is None
                &&& r.error matches Some(e) && e.code@ == "invalid_outcome"@ && e.meta@ == Seq::<
                    (Seq<char>, Seq<char>),
                >::empty()
            },
    {
        let a = Action::parse(wr.action.as_str());
        let ok = match a {
            Action::Respond => wr.response.is_some() && wr.error.is_none(),
            Action::Error => wr.error.is_some() && wr.response.is_none(),
            Action::Continue => wr.response.is_none() && wr.error.is_none(),
            Action::Drop => wr.response.is_none() && wr.error.is_none(),
        };
        if !ok {
            return Result_::error(
                WaferError::new(
                    "invalid_outcome",
                    "wire outcome carries fields that do not match its action tag",
                ),
            );
        }
        let response = match wr.response {
            Some(w) => Some(Response { data: w.data, meta: MetaMap::from_pairs(&w.meta) }),
            None => None,
        };
        let error = match wr.error {
            Some(w) => Some(
                WaferError { code: w.code, message: w.message, meta: MetaMap::from_pairs(&w.meta) },
            ),
            None => None,
        };
        Result_ { action: a, response, error, message: None }
    }
}

impl BlockInfo {
    /// Write this identity record in its wire shape.
    pub fn to_wasm(&self) -> (wi: WasmBlockInfo)
        ensures
            wi.name@ == self.name@,
            wi.version@ == self.version@,
            wi.interface@ == self.interface@,
            wi.summary@ == self.summary@,
            wi.instance_mode@ == instance_mode_str(self.instance_mode),
            wi.allowed_modes.deep_view() == modes_strs(self.allowed_modes@),
    {
        let mut allowed: Vec<String> = Vec::new();
        let n = self.allowed_modes.len();
        let mut i: usize = 0;
        proof {
            assert(self.allowed_modes@.skip(0) =~= self.allowed_modes@);
        }
        while i < n
            invariant
                i <= n,
                n == self.allowed_modes@.len(),
                modes_strs(self.allowed_modes@) == allowed.deep_view() + modes_strs(
                    self.allowed_modes@.skip(i as int),
                ),
            decreases n - i,
        {
            let ghost pre = allowed.deep_view();
            proof {
                assert(self.allowed_modes@.skip(i as int)[0] == self.allowed_modes@[i as int]);
                assert(self.allowed_modes@.skip(i as int).skip(1) =~= self.allowed_modes@.skip(
                    i as int + 1,
                ));
            }
            allowed.push(String::from_str(self.allowed_modes[i].as_str()));
            proof {
                assert(allowed.deep_view() =~= pre.push(
                    instance_mode_str(self.allowed_modes@[i as int]),
                ));
                assert(pre.push(instance_mode_str(self.allowed_modes@[i as int])) + modes_strs(
                    self.allowed_modes@.skip(i as int + 1),
                ) =~= pre + modes_strs(self.allowed_modes@.skip(i as int)));
            }
            i += 1;
        }
        proof {
            assert(self.allowed_modes@.skip(n as int) =~= Seq::<InstanceMode>::empty());
            assert(allowed.deep_view() + Seq::<Seq<char>>::empty() =~= allowed.deep_view());
        }
        WasmBlockInfo {
            name: self.name.clone(),
            version: self.version.clone(),
            interface: self.interface.clone(),
            summary: self.summary.clone(),
            instance_mode: String::from_str(self.instance_mode.as_str()),
            allowed_modes: allowed,
        }
    }
}

impl LifecycleEvent {
    /// Read a wire lifecycle event, rejecting an unknown event type (the
    /// caller acknowledges those as success).
    pub fn from_wasm(wle: WasmLifecycleEvent) -> (r: Option<LifecycleEvent>)
        ensures
            match spec_parse_lifecycle_type(wle.event_type@) {
                Some(t) => r matches Some(e) && e.event_type == t && e.data@ == wle.data@,
                None => r is None,
            },
    {
        match crate::types::LifecycleType::parse(wle.event_type.as_str()) {
            Some(t) => Some(LifecycleEvent { event_type: t, data: wle.data }),
            None => None,
        }
    }

    /// Write this event in its wire shape.
    pub fn to_wasm(&self) -> (w: WasmLifecycleEvent)
        ensures
            w.event_type@ == lifecycle_type_str(self.event_type),
            w.data@ == self.data@,
    {
        WasmLifecycleEvent {
            event_type: String::from_str(self.event_type.as_str()),
            data: clone_bytes(&self.data),
        }
    }
}

// ---------------------------------------------------------------------
// Encoding
// ---------------------------------------------------------------------
/// The metadata pairs of a mapping as JSON values.
pub fn meta_pairs_json(pairs: &Vec<(String, String)>) -> (r: Vec<Json>)
    ensures
        jarr_of(r@) == meta_pairs_jval(pairs.deep_view()),
{
    let n = pairs.len();
    let mut out: Vec<Json> = Vec::new();
    let mut i: usize = 0;
    proof {
        assert(pairs.deep_view().skip(0) =~= pairs.deep_view());
        assert(jarr_of(out@) =~= Seq::<JVal>::empty());
    }
    while i < n
        invariant
            i <= n,
            n == pairs.deep_view().len(),
            meta_pairs_jval(pairs.deep_view()) == jarr_of(out@) + meta_pairs_jval(
                pairs.deep_view().skip(i as int),
            ),
        decreases n - i,
    {
        let ghost pre = out@;
        proof {
            assert(pairs.deep_view().skip(i as int)[0] == pairs.deep_view()[i as int]);
            assert(pairs.deep_view().skip(i as int).skip(1) =~= pairs.deep_view().skip(
                i as int + 1,
            ));
            assert(pairs.deep_view()[i as int] == (pairs@[i as int].0@, pairs@[i as int].1@));
        }
        let k = pairs[i].0.clone();
        let v = pairs[i].1.clone();
        let mut cell: Vec<Json> = Vec::new();
        cell.push(Json::Str(k));
        cell.push(Json::Str(v));
        proof {
            crate::json::lemma_jarr_index(cell@);
            assert(cell@[0] == Json::Str(pairs[i as int].0) && cell@[1] == Json::Str(
                pairs[i as int].1,
            ));
            assert(jarr_of(cell@) =~= seq![
                JVal::Str(pairs.deep_view()[i as int].0),
                JVal::Str(pairs.deep_view()[i as int].1),
            ]);
        }
        out.push(Json::Arr(cell));
        proof {
            crate::json::lemma_jarr_index(pre);
            crate::json::lemma_jarr_index(out@);
            assert(out@ =~= pre.push(Json::Arr(cell)));
            assert(jarr_of(out@) =~= jarr_of(pre).push(
                JVal::Arr(
                    seq![
                        JVal::Str(pairs.deep_view()[i as int].0),
                        JVal::Str(pairs.deep_view()[i as int].1),
                    ],
                ),
            ));
            assert(jarr_of(pre).push(
                JVal::Arr(
                    seq![
                        JVal::Str(pairs.deep_view()[i as int].0),
                        JVal::Str(pairs.deep_view()[i as int].1),
                    ],
                ),
            ) + meta_pairs_jval(pairs.deep_view().skip(i as int + 1)) =~= jarr_of(pre)
                + meta_pairs_jval(pairs.deep_view().skip(i as int)));
        }
        i += 1;
    }
    proof {
        assert(pairs.deep_view().skip(n as int) =~= Seq::<(Seq<char>, Seq<char>)>::empty());
        assert(jarr_of(out@) + Seq::<JVal>::empty() =~= jarr_of(out@));
    }
    out
}

/// Encode a wire message as JSON text.
pub fn encode_wasm_message(wm: &WasmMessage) -> (r: String)
    ensures
        r@ == emit(message_jval(wm.kind@, wm.data@, wm.meta.deep_view())),
{
    let mut members: Vec<(String, Json)> = Vec::new();
    members.push((String::from_str("kind"), Json::Str(wm.kind.clone())));
    members.push((String::from_str("data"), Json::Str(base64_encode(wm.data.as_slice()))));
    members.push((String::from_str("meta"), Json::Arr(meta_pairs_json(&wm.meta))));
    let j = Json::Obj(members);
    proof {
        let ms = j->Obj_0@;
        crate::json::lemma_jobj_index(ms);
        assert(jobj_of(ms) =~= message_jval(wm.kind@, wm.data@, wm.meta.deep_view())->Obj_0);
    }
    json_emit(&j)
}

/// Encode a message as JSON text, via its wire shape.
pub fn encode_message(m: &Message) -> (r: String)
    ensures
        r@ == emit(message_jval(m.kind@, m.data@, m.meta@)),
{
    let wm = m.to_wasm();
    encode_wasm_message(&wm)
}

// ---------------------------------------------------------------------
// The fields a JSON record decodes to
// ---------------------------------------------------------------------
/// The value of the first member named `k`.
pub open spec fn jfield(ms: Seq<(Seq<char>, JVal)>, k: Seq<char>) -> Option<JVal>
    decreases ms.len(),
{
    if ms.len() == 0 {
        None
    } else if ms[0].0 == k {
        Some(ms[0].1)
    } else {
        jfield(ms.skip(1), k)
    }
}

/// Every member name is one of the allowed field names.
pub open spec fn keys_among(ms: Seq<(Seq<char>, JVal)>, allowed: Seq<Seq<char>>) -> bool {
    forall|i: int| 0 <= i < ms.len() ==> allowed.contains((#[trigger] ms[i]).0)
}

/// A JSON array of `[key, value]` string pairs, as pairs.
pub open spec fn jval_pairs(items: Seq<JVal>) -> Option<Seq<(Seq<char>, Seq<char>)>>
    decreases items.len(),
{
    if items.len() == 0 {
        Some(Seq::empty())
    } else {
        match items[0] {
            JVal::Arr(cell) => if cell.len() == 2 {
                match (cell[0], cell[1]) {
                    (JVal::Str(k), JVal::Str(v)) => match jval_pairs(items.skip(1)) {
                        Some(r) => Some(seq![(k, v)] + r),
                        None => None,
                    },
                    _ => None,
                }
            } else {
                None
            },
            _ => None,
        }
    }
}

/// A JSON array of strings, as strings.
pub open spec fn jval_strs(items: Seq<JVal>) -> Option<Seq<Seq<char>>>
    decreases items.len(),
{
    if items.len() == 0 {
        Some(Seq::empty())
    } else {
        match items[0] {
            JVal::Str(s) => match jval_strs(items.skip(1)) {
                Some(r) => Some(seq![s] + r),
                None => None,
            },
            _ => None,
        }
    }
}

/// An optional base64 payload field: absent means empty, present must be
/// a string of alphabet characters.
pub open spec fn opt_data_field(ms: Seq<(Seq<char>, JVal)>, k: Seq<char>) -> Option<Seq<u8>> {
    match jfield(ms, k) {
        None => Some(Seq::empty()),
        Some(JVal::Str(d)) => dec64(d),
        Some(_) => None,
    }
}

/// An optional metadata field: absent means no pairs, present must be an
/// array of `[key, value]` string pairs.
pub open spec fn opt_meta_field(ms: Seq<(Seq<char>, JVal)>, k: Seq<char>) -> Option<
    Seq<(Seq<char>, Seq<char>)>,
> {
    match jfield(ms, k) {
        None => Some(Seq::empty()),
        Some(JVal::Arr(items)) => jval_pairs(items),
        Some(_) => None,
    }
}

/// The fields of a message record: the kind string, the decoded payload,
/// and the metadata pairs in wire order.
pub open spec fn msg_fields_of(v: JVal) -> Option<(Seq<char>, Seq<u8>, Seq<(Seq<char>, Seq<char>)>)> {
    match v {
        JVal::Obj(ms) => if !keys_among(ms, seq!["kind"@, "data"@, "meta"@]) {
            None
        } else {
            match jfield(ms, "kind"@) {
                Some(JVal::Str(kind)) => match (opt_data_field(ms, "data"@), opt_meta_field(
                    ms,
                    "meta"@,
                )) {
                    (Some(d), Some(mp)) => Some((kind, d, mp)),
                    _ => None,
                },
                _ => None,
            }
        },
        _ => None,
    }
}

/// The fields of a response record.
pub open spec fn resp_fields_of(v: JVal) -> Option<(Seq<u8>, Seq<(Seq<char>, Seq<char>)>)> {
    match v {
        JVal::Obj(ms) => if !keys_among(ms, seq!["data"@, "meta"@]) {
            None
        } else {
            match (opt_data_field(ms, "data"@), opt_meta_field(ms, "meta"@)) {
                (Some(d), Some(mp)) => Some((d, mp)),
                _ => None,
            }
        },
        _ => None,
    }
}

/// The fields of a structured-error record.
pub open spec fn err_fields_of(v: JVal) -> Option<
    (Seq<char>, Seq<char>, Seq<(Seq<char>, Seq<char>)>),
> {
    match v {
        JVal::Obj(ms) => if !keys_among(ms, seq!["code"@, "message"@, "meta"@]) {
            None
        } else {
            match (jfield(ms, "code"@), jfield(ms, "message"@), opt_meta_field(ms, "meta"@)) {
                (Some(JVal::Str(c)), Some(JVal::Str(m)), Some(mp)) => Some((c, m, mp)),
                _ => None,
            }
        },
        _ => None,
    }
}

/// The fields of an outcome record: the action token and the auxiliary
/// records that are present.
pub open spec fn outcome_fields_of(v: JVal) -> Option<
    (
        Seq<char>,
        Option<(Seq<u8>, Seq<(Seq<char>, Seq<char>)>)>,
        Option<(Seq<char>, Seq<char>, Seq<(Seq<char>, Seq<char>)>)>,
    ),
> {
    match v {
        JVal::Obj(ms) => if !keys_among(ms, seq!["action"@, "response"@, "error"@]) {
            None
        } else {
            match jfield(ms, "action"@) {
                Some(JVal::Str(a)) => {
                    let resp = match jfield(ms, "response"@) {
                        None => Some(None),
                        Some(x) => match resp_fields_of(x) {
                            Some(f) => Some(Some(f)),
                            None => None,
                        },
                    };
                    let err = match jfield(ms, "error"@) {
                        None => Some(None),
                        Some(x) => match err_fields_of(x) {
                            Some(f) => Some(Some(f)),
                            None => None,
                        },
                    };
                    match (resp, err) {
                        (Some(r), Some(e)) => Some((a, r, e)),
                        _ => None,
                    }
                },
                _ => None,
            }
        },
        _ => None,
    }
}

/// The fields of a block identity record; the mode fields default to the
/// empty token and no modes.
pub open spec fn info_fields_of(v: JVal) -> Option<
    (Seq<char>, Seq<char>, Seq<char>, Seq<char>, Seq<char>, Seq<Seq<char>>),
> {
    match v {
        JVal::Obj(ms) => if !keys_among(
            ms,
            seq![
                "name"@,
                "version"@,
                "interface"@,
                "summary"@,
                "instance_mode"@,
                "allowed_modes"@,
            ],
        ) {
            None
        } else {
            match (jfield(ms, "name"@), jfield(ms, "version"@), jfield(ms, "interface"@), jfield(
                ms,
                "summary"@,
            )) {
                (
                    Some(JVal::Str(name)),
                    Some(JVal::Str(version)),
                    Some(JVal::Str(interface)),
                    Some(JVal::Str(summary)),
                ) => {
                    let mode = match jfield(ms, "instance_mode"@) {
                        None => Some(Seq::<char>::empty()),
                        Some(JVal::Str(m)) => Some(m),
                        Some(_) => None,
                    };
                    let modes = match jfield(ms, "allowed_modes"@) {
                        None => Some(Seq::<Seq<char>>::empty()),
                        Some(JVal::Arr(items)) => jval_strs(items),
                        Some(_) => None,
                    };
                    match (mode, modes) {
                        (Some(m), Some(am)) => Some((name, version, interface, summary, m, am)),
                        _ => None,
                    }
                },
                _ => None,
            }
        },
        _ => None,
    }
}

/// The fields of a lifecycle event record.
pub open spec fn lc_fields_of(v: JVal) -> Option<(Seq<char>, Seq<u8>)> {
    match v {
        JVal::Obj(ms) => if !keys_among(ms, seq!["type"@, "data"@]) {
            None
        } else {
            match (jfield(ms, "type"@), opt_data_field(ms, "data"@)) {
                (Some(JVal::Str(t)), Some(d)) => Some((t, d)),
                _ => None,
            }
        },
        _ => None,
    }
}

/// What a message text decodes to.
pub open spec fn spec_decode_message(s: Seq<char>) -> Option<
    (Seq<char>, Seq<u8>, Seq<(Seq<char>, Seq<char>)>),
> {
    match crate::json::sp_json(s) {
        None => None,
        Some(v) => msg_fields_of(v),
    }
}

/// What an outcome text decodes to.
pub open spec fn spec_decode_outcome(s: Seq<char>) -> Option<
    (
        Seq<char>,
        Option<(Seq<u8>, Seq<(Seq<char>, Seq<char>)>)>,
        Option<(Seq<char>, Seq<char>, Seq<(Seq<char>, Seq<char>)>)>,
    ),
> {
    match crate::json::sp_json(s) {
        None => None,
        Some(v) => outcome_fields_of(v),
    }
}

/// What a block identity text decodes to.
pub open spec fn spec_decode_info(s: Seq<char>) -> Option<
    (Seq<char>, Seq<char>, Seq<char>, Seq<char>, Seq<char>, Seq<Seq<char>>),
> {
    match crate::json::sp_json(s) {
        None => None,
        Some(v) => info_fields_of(v),
    }
}

/// What a lifecycle event text decodes to.
pub open spec fn spec_decode_lifecycle(s: Seq<char>) -> Option<(Seq<char>, Seq<u8>)> {
    match crate::json::sp_json(s) {
        None => None,
        Some(v) => lc_fields_of(v),
    }
}

// ---------------------------------------------------------------------
// Decoding
// ---------------------------------------------------------------------
/// Read an array of `[key, value]` string pairs.
pub fn conv_pairs(items: &Vec<Json>) -> (r: Result<Vec<(String, String)>, DecodeError>)
    ensures
        r matches Ok(v) ==> jval_pairs(jarr_of(items@)) == Some(v.deep_view()),
        r is Err ==> jval_pairs(jarr_of(items@)) is None,
{
    let ghost iv = jarr_of(items@);
    proof {
        crate::json::lemma_jarr_index(items@);
        assert(iv.skip(0) =~= iv);
    }
    let n = items.len();
    let mut out: Vec<(String, String)> = Vec::new();
    let mut i: usize = 0;
    while i < n
        invariant
            i <= n,
            n == items@.len(),
            iv == jarr_of(items@),
            iv.len() == n,
            forall|w: int| 0 <= w < n ==> iv[w] == jval_of(items@[w]),
            match jval_pairs(iv.skip(i as int)) {
                Some(rest) => jval_pairs(iv) == Some(out.deep_view() + rest),
                None => jval_pairs(iv) is None,
            },
        decreases n - i,
    {
        proof {
            assert(iv.skip(i as int)[0] == iv[i as int]);
            assert(iv.skip(i as int).skip(1) =~= iv.skip(i as int + 1));
        }
        let ghost pre = out.deep_view();
        match &items[i] {
            Json::Arr(cell) => {
                proof {
                    crate::json::lemma_jarr_index(cell@);
                }
                if cell.len() != 2 {
                    return Err(DecodeError::new("metadata entry is not a pair"));
                }
                match (&cell[0], &cell[1]) {
                    (Json::Str(k), Json::Str(v)) => {
                        out.push((k.clone(), v.clone()));
                        proof {
                            assert(out.deep_view() =~= pre.push((k@, v@)));
                            assert(forall|rest: Seq<(Seq<char>, Seq<char>)>|
                                pre + (seq![(k@, v@)] + rest) =~= #[trigger] (pre.push((k@, v@))
                                    + rest));
                        }
                    },
                    _ => {
                        return Err(DecodeError::new("metadata entry is not a string pair"));
                    },
                }
            },
            _ => {
                return Err(DecodeError::new("metadata entry is not a pair"));
            },
        }
        i += 1;
    }
    proof {
        assert(iv.skip(n as int) =~= Seq::<JVal>::empty());
        assert(out.deep_view() + Seq::<(Seq<char>, Seq<char>)>::empty() =~= out.deep_view());
    }
    Ok(out)
}

/// Read an array of strings.
fn conv_strs(items: &Vec<Json>) -> (r: Result<Vec<String>, DecodeError>)
    ensures
        r matches Ok(v) ==> jval_strs(jarr_of(items@)) == Some(v.deep_view()),
        r is Err ==> jval_strs(jarr_of(items@)) is None,
{
    let ghost iv = jarr_of(items@);
    proof {
        crate::json::lemma_jarr_index(items@);
        assert(iv.skip(0) =~= iv);
    }
    let n = items.len();
    let mut out: Vec<String> = Vec::new();
    let mut i: usize = 0;
    while i < n
        invariant
            i <= n,
            n == items@.len(),
            iv == jarr_of(items@),
            iv.len() == n,
            forall|w: int| 0 <= w < n ==> iv[w] == jval_of(items@[w]),
            match jval_strs(iv.skip(i as int)) {
                Some(rest) => jval_strs(iv) == Some(out.deep_view() + rest),
                None => jval_strs(iv) is None,
            },
        decreases n - i,
    {
        proof {
            assert(iv.skip(i as int)[0] == iv[i as int]);
            assert(iv.skip(i as int).skip(1) =~= iv.skip(i as int + 1));
        }
        let ghost pre = out.deep_view();
        match &items[i] {
            Json::Str(s2) => {
                out.push(s2.clone());
                proof {
                    assert(out.deep_view() =~= pre.push(s2@));
                    assert(forall|rest: Seq<Seq<char>>|
                        pre + (seq![s2@] + rest) =~= #[trigger] (pre.push(s2@) + rest));
                }
            },
            _ => {
                return Err(DecodeError::new("expected a string"));
            },
        }
        i += 1;
    }
    proof {
        assert(iv.skip(n as int) =~= Seq::<JVal>::empty());
        assert(out.deep_view() + Seq::<Seq<char>>::empty() =~= out.deep_view());
    }
    Ok(out)
}

/// Read a message record from a JSON value.
fn wasm_message_of_json(j: &Json) -> (r: Result<WasmMessage, DecodeError>)
    ensures
        r matches Ok(wm) ==> msg_fields_of(j@) == Some((wm.kind@, wm.data@, wm.meta.deep_view())),
        r is Err ==> msg_fields_of(j@) is None,
{
    let ms: &Vec<(String, Json)> = match j {
        Json::Obj(ms) => ms,
        _ => {
            return Err(DecodeError::new("expected an object"));
        },
    };
    let ghost msv = jobj_of(ms@);
    let ghost allowed = seq!["kind"@, "data"@, "meta"@];
    proof {
        crate::json::lemma_jobj_index(ms@);
        assert(j@ == JVal::Obj(msv));
        assert(msv.skip(0) =~= msv);
    }
    let n = ms.len();
    let mut kind: Option<String> = None;
    let mut data_s: Option<String> = None;
    let mut meta_v: Option<Vec<(String, String)>> = None;
    let mut i: usize = 0;
    while i < n
        invariant
            i <= n,
            n == ms@.len(),
            j@ == JVal::Obj(msv),
            msv == jobj_of(ms@),
            msv.len() == n,
            allowed == seq!["kind"@, "data"@, "meta"@],
            forall|w: int| 0 <= w < n ==> msv[w] == (ms@[w].0@, jval_of(ms@[w].1)),
            forall|w: int| 0 <= w < i ==> allowed.contains((#[trigger] msv[w]).0),
            match kind {
                Some(ks) => jfield(msv, "kind"@) == Some(JVal::Str(ks@)),
                None => jfield(msv, "kind"@) == jfield(msv.skip(i as int), "kind"@),
            },
            match data_s {
                Some(ds) => jfield(msv, "data"@) == Some(JVal::Str(ds@)),
                None => jfield(msv, "data"@) == jfield(msv.skip(i as int), "data"@),
            },
            match meta_v {
                Some(mv) => jfield(msv, "meta"@) matches Some(x) && x matches JVal::Arr(items)
                    && jval_pairs(items) == Some(mv.deep_view()),
                None => jfield(msv, "meta"@) == jfield(msv.skip(i as int), "meta"@),
            },
        decreases n - i,
    {
        proof {
            assert(msv.skip(i as int)[0] == msv[i as int]);
            assert(msv.skip(i as int).skip(1) =~= msv.skip(i as int + 1));
            reveal_strlit("kind");
            reveal_strlit("data");
            reveal_strlit("meta");
            assert("kind"@[0] == 'k' && "data"@[0] == 'd' && "meta"@[0] == 'm');
            assert("kind"@ != "data"@ && "kind"@ != "meta"@ && "data"@ != "meta"@);
        }
        let key = &ms[i].0;
        if crate::text::str_eq(key.as_str(), "kind") {
            proof {
                assert(allowed.contains(msv[i as int].0)) by {
                    assert(allowed[0] == "kind"@);
                }
            }
            if kind.is_none() {
                match &ms[i].1 {
                    Json::Str(s2) => {
                        kind = Some(s2.clone());
                    },
                    _ => {
                        return Err(DecodeError::new("kind is not a string"));
                    },
                }
            }
        } else if crate::text::str_eq(key.as_str(), "data") {
            proof {
                assert(allowed.contains(msv[i as int].0)) by {
                    assert(allowed[1] == "data"@);
                }
            }
            if data_s.is_none() {
                match &ms[i].1 {
                    Json::Str(s2) => {
                        data_s = Some(s2.clone());
                    },
                    _ => {
                        return Err(DecodeError::new("data is not a string"));
                    },
                }
            }
        } else if crate::text::str_eq(key.as_str(), "meta") {
            proof {
                assert(allowed.contains(msv[i as int].0)) by {
                    assert(allowed[2] == "meta"@);
                }
            }
            if meta_v.is_none() {
                match &ms[i].1 {
                    Json::Arr(items) => {
                        match conv_pairs(items) {
                            Ok(v) => {
                                meta_v = Some(v);
                            },
                            Err(e) => {
                                return Err(e);
                            },
                        }
                    },
                    _ => {
                        return Err(DecodeError::new("meta is not an array"));
                    },
                }
            }
        } else {
            proof {
                assert(!allowed.contains(msv[i as int].0)) by {
                    assert(forall|w: int| 0 <= w < 3 ==> allowed[w] != key@);
                }
            }
            return Err(DecodeError::new("unknown field in message"));
        }
        i += 1;
    }
    proof {
        assert(msv.skip(n as int) =~= Seq::<(Seq<char>, JVal)>::empty());
        assert(keys_among(msv, allowed));
    }
    let kind = match kind {
        Some(k) => k,
        None => {
            return Err(DecodeError::new("missing kind"));
        },
    };
    let data = match data_s {
        None => Vec::new(),
        Some(ds) => match base64_decode(ds.as_str()) {
            Ok(d) => d,
            Err(_) => {
                return Err(DecodeError::new("payload is not valid base64"));
            },
        },
    };
    let meta = match meta_v {
        None => Vec::new(),
        Some(v) => v,
    };
    proof {
        if meta_v is None {
            assert(meta.deep_view() =~= Seq::<(Seq<char>, Seq<char>)>::empty());
        }
    }
    Ok(WasmMessage { kind, data, meta })
}

/// The JSON values of a sequence of strings.
fn strs_json(ss: &Vec<String>) -> (r: Vec<Json>)
    ensures
        jarr_of(r@) == strs_jval(ss.deep_view()),
{
    let n = ss.len();
    let mut out: Vec<Json> = Vec::new();
    let mut i: usize = 0;
    proof {
        assert(ss.deep_view().skip(0) =~= ss.deep_view());
        assert(jarr_of(out@) =~= Seq::<JVal>::empty());
    }
    while i < n
        invariant
            i <= n,
            n == ss.deep_view().len(),
            strs_jval(ss.deep_view()) == jarr_of(out@) + strs_jval(ss.deep_view().skip(i as int)),
        decreases n - i,
    {
        let ghost pre = out@;
        proof {
            assert(ss.deep_view().skip(i as int)[0] == ss.deep_view()[i as int]);
            assert(ss.deep_view().skip(i as int).skip(1) =~= ss.deep_view().skip(i as int + 1));
            assert(ss.deep_view()[i as int] == ss@[i as int]@);
        }
        out.push(Json::Str(ss[i].clone()));
        proof {
            crate::json::lemma_jarr_index(pre);
            crate::json::lemma_jarr_index(out@);
            assert(out@ =~= pre.push(Json::Str(ss[i as int])));
            assert(jarr_of(out@) =~= jarr_of(pre).push(JVal::Str(ss.deep_view()[i as int])));
            assert(jarr_of(pre).push(JVal::Str(ss.deep_view()[i as int])) + strs_jval(
                ss.deep_view().skip(i as int + 1),
            ) =~= jarr_of(pre) + strs_jval(ss.deep_view().skip(i as int)));
        }
        i += 1;
    }
    proof {
        assert(ss.deep_view().skip(n as int) =~= Seq::<Seq<char>>::empty());
        assert(jarr_of(out@) + Seq::<JVal>::empty() =~= jarr_of(out@));
    }
    out
}

/// The JSON record of a wire response.
fn response_json(w: &WasmResponse) -> (r: Json)
    ensures
        r@ == response_jval(w.data@, w.meta.deep_view()),
{
    let mut members: Vec<(String, Json)> = Vec::new();
    members.push((String::from_str("data"), Json::Str(base64_encode(w.data.as_slice()))));
    if w.meta.len() > 0 {
        members.push((String::from_str("meta"), Json::Arr(meta_pairs_json(&w.meta))));
    }
    let j = Json::Obj(members);
    proof {
        crate::json::lemma_jobj_index(j->Obj_0@);
        assert(jobj_of(j->Obj_0@) =~= response_jval(w.data@, w.meta.deep_view())->Obj_0);
    }
    j
}

/// The JSON record of a wire error.
fn error_json(w: &WasmError) -> (r: Json)
    ensures
        r@ == error_jval(w.code@, w.message@, w.meta.deep_view()),
{
    let mut members: Vec<(String, Json)> = Vec::new();
    members.push((String::from_str("code"), Json::Str(w.code.clone())));
    members.push((String::from_str("message"), Json::Str(w.message.clone())));
    if w.meta.len() > 0 {
        members.push((String::from_str("meta"), Json::Arr(meta_pairs_json(&w.meta))));
    }
    let j = Json::Obj(members);
    proof {
        crate::json::lemma_jobj_index(j->Obj_0@);
        assert(jobj_of(j->Obj_0@) =~= error_jval(w.code@, w.message@, w.meta.deep_view())->Obj_0);
    }
    j
}

/// The auxiliary response fields a wire outcome carries.
pub open spec fn wasm_resp_fields(o: Option<WasmResponse>) -> Option<
    (Seq<u8>, Seq<(Seq<char>, Seq<char>)>),
> {
    match o {
        Some(w) => Some((w.data@, w.meta.deep_view())),
        None => None,
    }
}

/// The auxiliary error fields a wire outcome carries.
pub open spec fn wasm_err_fields(o: Option<WasmError>) -> Option<
    (Seq<char>, Seq<char>, Seq<(Seq<char>, Seq<char>)>),
> {
    match o {
        Some(w) => Some((w.code@, w.message@, w.meta.deep_view())),
        None => None,
    }
}

/// Encode a wire outcome as JSON text.
pub fn encode_wasm_result(wr: &WasmResult) -> (r: String)
    ensures
        r@ == emit(
            outcome_jval(wr.action@, wasm_resp_fields(wr.response), wasm_err_fields(wr.error)),
        ),
{
    let mut members: Vec<(String, Json)> = Vec::new();
    members.push((String::from_str("action"), Json::Str(wr.action.clone())));
    match &wr.response {
        Some(w) => {
            members.push((String::from_str("response"), response_json(w)));
        },
        None => {},
    }
    match &wr.error {
        Some(w) => {
            members.push((String::from_str("error"), error_json(w)));
        },
        None => {},
    }
    let j = Json::Obj(members);
    proof {
        crate::json::lemma_jobj_index(j->Obj_0@);
        assert(jobj_of(j->Obj_0@) =~= outcome_jval(
            wr.action@,
            wasm_resp_fields(wr.response),
            wasm_err_fields(wr.error),
        )->Obj_0);
    }
    json_emit(&j)
}

/// The response fields an outcome writes to the wire: those it carries,
/// when its action tag is `Respond`.
pub open spec fn norm_resp(r: Result_) -> Option<(Seq<u8>, Seq<(Seq<char>, Seq<char>)>)> {
    if r.action == Action::Respond {
        match r.response {
            Some(p) => Some((p.data@, p.meta@)),
            None => None,
        }
    } else {
        None
    }
}

/// The error fields an outcome writes to the wire: those it carries,
/// when its action tag is `Error`.
pub open spec fn norm_err(r: Result_) -> Option<(Seq<char>, Seq<char>, Seq<(Seq<char>, Seq<char>)>)> {
    if r.action == Action::Error {
        match r.error {
            Some(e) => Some((e.code@, e.message@, e.meta@)),
            None => None,
        }
    } else {
        None
    }
}

/// Encode an outcome as JSON text: the exact lowercase action token, and
/// only the auxiliary field that matches it.
pub fn encode_result(r: &Result_) -> (t: String)
    ensures
        t@ == emit(outcome_jval(action_str(r.action), norm_resp(*r), norm_err(*r))),
{
    let wr = r.to_wasm();
    proof {
        assert(wasm_resp_fields(wr.response) == norm_resp(*r));
        assert(wasm_err_fields(wr.error) == norm_err(*r));
    }
    encode_wasm_result(&wr)
}

/// Encode a wire identity record as JSON text.
pub fn encode_wasm_info(wi: &WasmBlockInfo) -> (r: String)
    ensures
        r@ == emit(
            info_jval(
                wi.name@,
                wi.version@,
                wi.interface@,
                wi.summary@,
                wi.instance_mode@,
                wi.allowed_modes.deep_view(),
            ),
        ),
{
    let mut members: Vec<(String, Json)> = Vec::new();
    members.push((String::from_str("name"), Json::Str(wi.name.clone())));
    members.push((String::from_str("version"), Json::Str(wi.version.clone())));
    members.push((String::from_str("interface"), Json::Str(wi.interface.clone())));
    members.push((String::from_str("summary"), Json::Str(wi.summary.clone())));
    members.push((String::from_str("instance_mode"), Json::Str(wi.instance_mode.clone())));
    members.push((String::from_str("allowed_modes"), Json::Arr(strs_json(&wi.allowed_modes))));
    let j = Json::Obj(members);
    proof {
        crate::json::lemma_jobj_index(j->Obj_0@);
        assert(jobj_of(j->Obj_0@) =~= info_jval(
            wi.name@,
            wi.version@,
            wi.interface@,
            wi.summary@,
            wi.instance_mode@,
            wi.allowed_modes.deep_view(),
        )->Obj_0);
    }
    json_emit(&j)
}

/// Encode a block identity as JSON text, via its wire shape.
pub fn encode_info(bi: &BlockInfo) -> (r: String)
    ensures
        r@ == emit(
            info_jval(
                bi.name@,
                bi.version@,
                bi.interface@,
                bi.summary@,
                instance_mode_str(bi.instance_mode),
                modes_strs(bi.allowed_modes@),
            ),
        ),
{
    let wi = bi.to_wasm();
    encode_wasm_info(&wi)
}

/// Encode a wire lifecycle event as JSON text.
pub fn encode_wasm_lifecycle(w: &WasmLifecycleEvent) -> (r: String)
    ensures
        r@ == emit(lifecycle_jval(w.event_type@, w.data@)),
{
    let mut members: Vec<(String, Json)> = Vec::new();
    members.push((String::from_str("type"), Json::Str(w.event_type.clone())));
    members.push((String::from_str("data"), Json::Str(base64_encode(w.data.as_slice()))));
    let j = Json::Obj(members);
    proof {
        crate::json::lemma_jobj_index(j->Obj_0@);
        assert(jobj_of(j->Obj_0@) =~= lifecycle_jval(w.event_type@, w.data@)->Obj_0);
    }
    json_emit(&j)
}

/// Encode a lifecycle event as JSON text, via its wire shape.
pub fn encode_lifecycle_event(e: &LifecycleEvent) -> (r: String)
    ensures
        r@ == emit(lifecycle_jval(lifecycle_type_str(e.event_type), e.data@)),
{
    let w = e.to_wasm();
    encode_wasm_lifecycle(&w)
}

/// Read a response record from a JSON value.
fn wasm_response_of_json(j: &Json) -> (r: Result<WasmResponse, DecodeError>)
    ensures
        r matches Ok(w) ==> resp_fields_of(j@) == Some((w.data@, w.meta.deep_view())),
        r is Err ==> resp_fields_of(j@) is None,
{
    let ms: &Vec<(String, Json)> = match j {
        Json::Obj(ms) => ms,
        _ => {
            return Err(DecodeError::new("response is not an object"));
        },
    };
    let ghost msv = jobj_of(ms@);
    let ghost allowed = seq!["data"@, "meta"@];
    proof {
        crate::json::lemma_jobj_index(ms@);
        assert(j@ == JVal::Obj(msv));
        assert(msv.skip(0) =~= msv);
    }
    let n = ms.len();
    let mut data_s: Option<String> = None;
    let mut meta_v: Option<Vec<(String, String)>> = None;
    let mut i: usize = 0;
    while i < n
        invariant
            i <= n,
            n == ms@.len(),
            j@ == JVal::Obj(msv),
            msv == jobj_of(ms@),
            msv.len() == n,
            allowed == seq!["data"@, "meta"@],
            forall|w: int| 0 <= w < n ==> msv[w] == (ms@[w].0@, jval_of(ms@[w].1)),
            forall|w: int| 0 <= w < i ==> allowed.contains((#[trigger] msv[w]).0),
            match data_s {
                Some(ds) => jfield(msv, "data"@) == Some(JVal::Str(ds@)),
                None => jfield(msv, "data"@) == jfield(msv.skip(i as int), "data"@),
            },
            match meta_v {
                Some(mv) => jfield(msv, "meta"@) matches Some(x) && x matches JVal::Arr(items)
                    && jval_pairs(items) == Some(mv.deep_view()),
                None => jfield(msv, "meta"@) == jfield(msv.skip(i as int), "meta"@),
            },
        decreases n - i,
    {
        proof {
            assert(msv.skip(i as int)[0] == msv[i as int]);
            assert(msv.skip(i as int).skip(1) =~= msv.skip(i as int + 1));
            reveal_strlit("data");
            reveal_strlit("meta");
            assert("data"@[0] == 'd' && "meta"@[0] == 'm');
            assert("data"@ != "meta"@);
        }
        let key = &ms[i].0;
        if crate::text::str_eq(key.as_str(), "data") {
            proof {
                assert(allowed.contains(msv[i as int].0)) by {
                    assert(allowed[0] == "data"@);
                }
            }
            if data_s.is_none() {
                match &ms[i].1 {
                    Json::Str(s2) => {
                        data_s = Some(s2.clone());
                    },
                    _ => {
                        return Err(DecodeError::new("data is not a string"));
                    },
                }
            }
        } else if crate::text::str_eq(key.as_str(), "meta") {
            proof {
                assert(allowed.contains(msv[i as int].0)) by {
                    assert(allowed[1] == "meta"@);
                }
            }
            if meta_v.is_none() {
                match &ms[i].1 {
                    Json::Arr(items) => {
                        match conv_pairs(items) {
                            Ok(v) => {
                                meta_v = Some(v);
                            },
                            Err(e) => {
                                return Err(e);
                            },
                        }
                    },
                    _ => {
                        return Err(DecodeError::new("meta is not an array"));
                    },
                }
            }
        } else {
            proof {
                assert(!allowed.contains(msv[i as int].0)) by {
                    assert(forall|w: int| 0 <= w < 2 ==> allowed[w] != key@);
                }
            }
            return Err(DecodeError::new("unknown field in response"));
        }
        i += 1;
    }
    proof {
        assert(msv.skip(n as int) =~= Seq::<(Seq<char>, JVal)>::empty());
        assert(keys_among(msv, allowed));
    }
    let data = match data_s {
        None => Vec::new(),
        Some(ds) => match base64_decode(ds.as_str()) {
            Ok(d) => d,
            Err(_) => {
                return Err(DecodeError::new("response payload is not valid base64"));
            },
        },
    };
    let meta = match meta_v {
        None => Vec::new(),
        Some(v) => v,
    };
    proof {
        if meta_v is None {
            assert(meta.deep_view() =~= Seq::<(Seq<char>, Seq<char>)>::empty());
        }
    }
    Ok(WasmResponse { data, meta })
}

/// Read a structured-error record from a JSON value.
fn wasm_error_of_json(j: &Json) -> (r: Result<WasmError, DecodeError>)
    ensures
        r matches Ok(w) ==> err_fields_of(j@) == Some((w.code@, w.message@, w.meta.deep_view())),
        r is Err ==> err_fields_of(j@) is None,
{
    let ms: &Vec<(String, Json)> = match j {
        Json::Obj(ms) => ms,
        _ => {
            return Err(DecodeError::new("error is not an object"));
        },
    };
    let ghost msv = jobj_of(ms@);
    let ghost allowed = seq!["code"@, "message"@, "meta"@];
    proof {
        crate::json::lemma_jobj_index(ms@);
        assert(j@ == JVal::Obj(msv));
        assert(msv.skip(0) =~= msv);
    }
    let n = ms.len();
    let mut code: Option<String> = None;
    let mut message: Option<String> = None;
    let mut meta_v: Option<Vec<(String, String)>> = None;
    let mut i: usize = 0;
    while i < n
        invariant
            i <= n,
            n == ms@.len(),
            j@ == JVal::Obj(msv),
            msv == jobj_of(ms@),
            msv.len() == n,
            allowed == seq!["code"@, "message"@, "meta"@],
            forall|w: int| 0 <= w < n ==> msv[w] == (ms@[w].0@, jval_of(ms@[w].1)),
            forall|w: int| 0 <= w < i ==> allowed.contains((#[trigger] msv[w]).0),
            match code {
                Some(cs) => jfield(msv, "code"@) == Some(JVal::Str(cs@)),
                None => jfield(msv, "code"@) == jfield(msv.skip(i as int), "code"@),
            },
            match message {
                Some(s2) => jfield(msv, "message"@) == Some(JVal::Str(s2@)),
                None => jfield(msv, "message"@) == jfield(msv.skip(i as int), "message"@),
            },
            match meta_v {
                Some(mv) => jfield(msv, "meta"@) matches Some(x) && x matches JVal::Arr(items)
                    && jval_pairs(items) == Some(mv.deep_view()),
                None => jfield(msv, "meta"@) == jfield(msv.skip(i as int), "meta"@),
            },
        decreases n - i,
    {
        proof {
            assert(msv.skip(i as int)[0] == msv[i as int]);
            assert(msv.skip(i as int).skip(1) =~= msv.skip(i as int + 1));
            reveal_strlit("code");
            reveal_strlit("message");
            reveal_strlit("meta");
            assert("code"@[0] == 'c' && "message"@[1] == 'e' && "meta"@[1] == 'e');
            assert("message"@.len() == 7 && "meta"@.len() == 4);
            assert("code"@ != "message"@ && "code"@ != "meta"@ && "message"@ != "meta"@);
        }
        let key = &ms[i].0;
        if crate::text::str_eq(key.as_str(), "code") {
            proof {
                assert(allowed.contains(msv[i as int].0)) by {
                    assert(allowed[0] == "code"@);
                }
            }
            if code.is_none() {
                match &ms[i].1 {
                    Json::Str(s2) => {
                        code = Some(s2.clone());
                    },
                    _ => {
                        return Err(DecodeError::new("code is not a string"));
                    },
                }
            }
        } else if crate::text::str_eq(key.as_str(), "message") {
            proof {
                assert(allowed.contains(msv[i as int].0)) by {
                    assert(allowed[1] == "message"@);
                }
            }
            if message.is_none() {
                match &ms[i].1 {
                    Json::Str(s2) => {
                        message = Some(s2.clone());
                    },
                    _ => {
                        return Err(DecodeError::new("message is not a string"));
                    },
                }
            }
        } else if crate::text::str_eq(key.as_str(), "meta") {
            proof {
                assert(allowed.contains(msv[i as int].0)) by {
                    assert(allowed[2] == "meta"@);
                }
            }
            if meta_v.is_none() {
                match &ms[i].1 {
                    Json::Arr(items) => {
                        match conv_pairs(items) {
                            Ok(v) => {
                                meta_v = Some(v);
                            },
                            Err(e) => {
                                return Err(e);
                            },
                        }
                    },
                    _ => {
                        return Err(DecodeError::new("meta is not an array"));
                    },
                }
            }
        } else {
            proof {
                assert(!allowed.contains(msv[i as int].0)) by {
                    assert(forall|w: int| 0 <= w < 3 ==> allowed[w] != key@);
                }
            }
            return Err(DecodeError::new("unknown field in error"));
        }
        i += 1;
    }
    proof {
        assert(msv.skip(n as int) =~= Seq::<(Seq<char>, JVal)>::empty());
        assert(keys_among(msv, allowed));
    }
    let code = match code {
        Some(c) => c,
        None => {
            return Err(DecodeError::new("missing code"));
        },
    };
    let message = match message {
        Some(m) => m,
        None => {
            return Err(DecodeError::new("missing message"));
        },
    };
    let meta = match meta_v {
        None => Vec::new(),
        Some(v) => v,
    };
    proof {
        if meta_v is None {
            assert(meta.deep_view() =~= Seq::<(Seq<char>, Seq<char>)>::empty());
        }
    }
    Ok(WasmError { code, message, meta })
}

/// Read an outcome record from a JSON value.
fn wasm_result_of_json(j: &Json) -> (r: Result<WasmResult, DecodeError>)
    ensures
        r matches Ok(wr) ==> (outcome_fields_of(j@) matches Some(f) && f.0 == wr.action@ && f.1
            == wasm_resp_fields(wr.response) && f.2 == wasm_err_fields(wr.error)),
        r is Err ==> outcome_fields_of(j@) is None,
{
    let ms: &Vec<(String, Json)> = match j {
        Json::Obj(ms) => ms,
        _ => {
            return Err(DecodeError::new("outcome is not an object"));
        },
    };
    let ghost msv = jobj_of(ms@);
    let ghost allowed = seq!["action"@, "response"@, "error"@];
    proof {
        crate::json::lemma_jobj_index(ms@);
        assert(j@ == JVal::Obj(msv));
        assert(msv.skip(0) =~= msv);
    }
    let n = ms.len();
    let mut action: Option<String> = None;
    let mut resp: Option<WasmResponse> = None;
    let mut err: Option<WasmError> = None;
    let mut i: usize = 0;
    while i < n
        invariant
            i <= n,
            n == ms@.len(),
            j@ == JVal::Obj(msv),
            msv == jobj_of(ms@),
            msv.len() == n,
            allowed == seq!["action"@, "response"@, "error"@],
            forall|w: int| 0 <= w < n ==> msv[w] == (ms@[w].0@, jval_of(ms@[w].1)),
            forall|w: int| 0 <= w < i ==> allowed.contains((#[trigger] msv[w]).0),
            match action {
                Some(a) => jfield(msv, "action"@) == Some(JVal::Str(a@)),
                None => jfield(msv, "action"@) == jfield(msv.skip(i as int), "action"@),
            },
            match resp {
                Some(w) => jfield(msv, "response"@) matches Some(x) && resp_fields_of(x) == Some(
                    (w.data@, w.meta.deep_view()),
                ),
                None => jfield(msv, "response"@) == jfield(msv.skip(i as int), "response"@),
            },
            match err {
                Some(w) => jfield(msv, "error"@) matches Some(x) && err_fields_of(x) == Some(
                    (w.code@, w.message@, w.meta.deep_view()),
                ),
                None => jfield(msv, "error"@) == jfield(msv.skip(i as int), "error"@),
            },
        decreases n - i,
    {
        proof {
            assert(msv.skip(i as int)[0] == msv[i as int]);
            assert(msv.skip(i as int).skip(1) =~= msv.skip(i as int + 1));
            reveal_strlit("action");
            reveal_strlit("response");
            reveal_strlit("error");
            assert("action"@[0] == 'a' && "response"@[0] == 'r' && "error"@[0] == 'e');
            assert("action"@ != "response"@ && "action"@ != "error"@ && "response"@ != "error"@);
        }
        let key = &ms[i].0;
        if crate::text::str_eq(key.as_str(), "action") {
            proof {
                assert(allowed.contains(msv[i as int].0)) by {
                    assert(allowed[0] == "action"@);
                }
            }
            if action.is_none() {
                match &ms[i].1 {
                    Json::Str(s2) => {
                        action = Some(s2.clone());
                    },
                    _ => {
                        return Err(DecodeError::new("action is not a string"));
                    },
                }
            }
        } else if crate::text::str_eq(key.as_str(), "response") {
            proof {
                assert(allowed.contains(msv[i as int].0)) by {
                    assert(allowed[1] == "response"@);
                }
            }
            if resp.is_none() {
                match wasm_response_of_json(&ms[i].1) {
                    Ok(w) => {
                        resp = Some(w);
                    },
                    Err(e) => {
                        return Err(e);
                    },
                }
            }
        } else if crate::text::str_eq(key.as_str(), "error") {
            proof {
                assert(allowed.contains(msv[i as int].0)) by {
                    assert(allowed[2] == "error"@);
                }
            }
            if err.is_none() {
                match wasm_error_of_json(&ms[i].1) {
                    Ok(w) => {
                        err = Some(w);
                    },
                    Err(e) => {
                        return Err(e);
                    },
                }
            }
        } else {
            proof {
                assert(!allowed.contains(msv[i as int].0)) by {
                    assert(forall|w: int| 0 <= w < 3 ==> allowed[w] != key@);
                }
            }
            return Err(DecodeError::new("unknown field in outcome"));
        }
        i += 1;
    }
    proof {
        assert(msv.skip(n as int) =~= Seq::<(Seq<char>, JVal)>::empty());
        assert(keys_among(msv, allowed));
    }
    let action = match action {
        Some(a) => a,
        None => {
            return Err(DecodeError::new("missing action"));
        },
    };
    Ok(WasmResult { action, response: resp, error: err })
}

/// Decode an outcome text into the data model: an unknown action token
/// falls back to `Continue`, and a record whose auxiliary fields do not
/// match its tag becomes an `Error` outcome with the code
/// `invalid_outcome`, so a decoded outcome always satisfies the action
/// invariant.
pub fn decode_outcome(s: &str) -> (r: Result<Result_, DecodeError>)
    ensures
        r matches Ok(o) ==> (spec_decode_outcome(s@) matches Some(f) && outcome_wf(o)
            && o.message is None && (consistent_wire(
            spec_parse_action(f.0),
            f.1 is Some,
            f.2 is Some,
        ) ==> {
            &&& o.action == spec_parse_action(f.0)
            &&& match f.1 {
                Some(p) => o.response matches Some(rp) && rp.data@ == p.0 && rp.meta@ == spec_fold(
                    p.1,
                ),
                None => o.response is None,
            }
            &&& match f.2 {
                Some(e) => o.error matches Some(re) && re.code@ == e.0 && re.message@ == e.1
                    && re.meta@ == spec_fold(e.2),
                None => o.error is None,
            }
        }) && (!consistent_wire(spec_parse_action(f.0), f.1 is Some, f.2 is Some) ==> {
            &&& o.action == Action::Error
            &&& o.response is None
            &&& o.error matches Some(e) && e.code@ == "invalid_outcome"@
        })),
        r is Err ==> spec_decode_outcome(s@) is None,
{
    let j = match crate::json::json_parse(s) {
        Ok(j) => j,
        Err(e) => {
            return Err(e);
        },
    };
    let wr = match wasm_result_of_json(&j) {
        Ok(wr) => wr,
        Err(e) => {
            return Err(e);
        },
    };
    Ok(Result_::from_wasm(wr))
}

/// Read an identity record from a JSON value.
fn wasm_info_of_json(j: &Json) -> (r: Result<WasmBlockInfo, DecodeError>)
    ensures
        r matches Ok(wi) ==> info_fields_of(j@) == Some(
            (
                wi.name@,
                wi.version@,
                wi.interface@,
                wi.summary@,
                wi.instance_mode@,
                wi.allowed_modes.deep_view(),
            ),
        ),
        r is Err ==> info_fields_of(j@) is None,
{
    let ms: &Vec<(String, Json)> = match j {
        Json::Obj(ms) => ms,
        _ => {
            return Err(DecodeError::new("identity record is not an object"));
        },
    };
    let ghost msv = jobj_of(ms@);
    let ghost allowed = seq![
        "name"@,
        "version"@,
        "interface"@,
        "summary"@,
        "instance_mode"@,
        "allowed_modes"@,
    ];
    proof {
        crate::json::lemma_jobj_index(ms@);
        assert(j@ == JVal::Obj(msv));
        assert(msv.skip(0) =~= msv);
    }
    let n = ms.len();
    let mut name: Option<String> = None;
    let mut version: Option<String> = None;
    let mut interface: Option<String> = None;
    let mut summary: Option<String> = None;
    let mut mode: Option<String> = None;
    let mut modes: Option<Vec<String>> = None;
    let mut i: usize = 0;
    while i < n
        invariant
            i <= n,
            n == ms@.len(),
            j@ == JVal::Obj(msv),
            msv == jobj_of(ms@),
            msv.len() == n,
            allowed == seq![
                "name"@,
                "version"@,
                "interface"@,
                "summary"@,
                "instance_mode"@,
                "allowed_modes"@,
            ],
            forall|w: int| 0 <= w < n ==> msv[w] == (ms@[w].0@, jval_of(ms@[w].1)),
            forall|w: int| 0 <= w < i ==> allowed.contains((#[trigger] msv[w]).0),
            match name {
                Some(v) => jfield(msv, "name"@) == Some(JVal::Str(v@)),
                None => jfield(msv, "name"@) == jfield(msv.skip(i as int), "name"@),
            },
            match version {
                Some(v) => jfield(msv, "version"@) == Some(JVal::Str(v@)),
                None => jfield(msv, "version"@) == jfield(msv.skip(i as int), "version"@),
            },
            match interface {
                Some(v) => jfield(msv, "interface"@) == Some(JVal::Str(v@)),
                None => jfield(msv, "interface"@) == jfield(msv.skip(i as int), "interface"@),
            },
            match summary {
                Some(v) => jfield(msv, "summary"@) == Some(JVal::Str(v@)),
                None => jfield(msv, "summary"@) == jfield(msv.skip(i as int), "summary"@),
            },
            match mode {
                Some(v) => jfield(msv, "instance_mode"@) == Some(JVal::Str(v@)),
                None => jfield(msv, "instance_mode"@) == jfield(
                    msv.skip(i as int),
                    "instance_mode"@,
                ),
            },
            match modes {
                Some(v) => jfield(msv, "allowed_modes"@) matches Some(x) && x matches JVal::Arr(
                    items,
                ) && jval_strs(items) == Some(v.deep_view()),
                None => jfield(msv, "allowed_modes"@) == jfield(
                    msv.skip(i as int),
                    "allowed_modes"@,
                ),
            },
        decreases n - i,
    {
        proof {
            assert(msv.skip(i as int)[0] == msv[i as int]);
            assert(msv.skip(i as int).skip(1) =~= msv.skip(i as int + 1));
            reveal_strlit("name");
            reveal_strlit("version");
            reveal_strlit("interface");
            reveal_strlit("summary");
            reveal_strlit("instance_mode");
            reveal_strlit("allowed_modes");
            assert("name"@.len() == 4 && "version"@.len() == 7 && "interface"@.len() == 9
                && "summary"@.len() == 7 && "instance_mode"@.len() == 13 && "allowed_modes"@.len()
                == 13);
            assert("version"@[0] == 'v' && "summary"@[0] == 's');
            assert("instance_mode"@[0] == 'i' && "allowed_modes"@[0] == 'a');
        }
        let key = &ms[i].0;
        if crate::text::str_eq(key.as_str(), "name") {
            proof {
                assert(allowed.contains(msv[i as int].0)) by {
                    assert(allowed[0] == "name"@);
                }
            }
            if name.is_none() {
                match &ms[i].1 {
                    Json::Str(s2) => {
                        name = Some(s2.clone());
                    },
                    _ => {
                        return Err(DecodeError::new("name is not a string"));
                    },
                }
            }
        } else if crate::text::str_eq(key.as_str(), "version") {
            proof {
                assert(allowed.contains(msv[i as int].0)) by {
                    assert(allowed[1] == "version"@);
                }
            }
            if version.is_none() {
                match &ms[i].1 {
                    Json::Str(s2) => {
                        version = Some(s2.clone());
                    },
                    _ => {
                        return Err(DecodeError::new("version is not a string"));
                    },
                }
            }
        } else if crate::text::str_eq(key.as_str(), "interface") {
            proof {
                assert(allowed.contains(msv[i as int].0)) by {
                    assert(allowed[2] == "interface"@);
                }
            }
            if interface.is_none() {
                match &ms[i].1 {
                    Json::Str(s2) => {
                        interface = Some(s2.clone());
                    },
                    _ => {
                        return Err(DecodeError::new("interface is not a string"));
                    },
                }
            }
        } else if crate::text::str_eq(key.as_str(), "summary") {
            proof {
                assert(allowed.contains(msv[i as int].0)) by {
                    assert(allowed[3] == "summary"@);
                }
            }
            if summary.is_none() {
                match &ms[i].1 {
                    Json::Str(s2) => {
                        summary = Some(s2.clone());
                    },
                    _ => {
                        return Err(DecodeError::new("summary is not a string"));
                    },
                }
            }
        } else if crate::text::str_eq(key.as_str(), "instance_mode") {
            proof {
                assert(allowed.contains(msv[i as int].0)) by {
                    assert(allowed[4] == "instance_mode"@);
                }
            }
            if mode.is_none() {
                match &ms[i].1 {
                    Json::Str(s2) => {
                        mode = Some(s2.clone());
                    },
                    _ => {
                        return Err(DecodeError::new("instance_mode is not a string"));
                    },
                }
            }
        } else if crate::text::str_eq(key.as_str(), "allowed_modes") {
            proof {
                assert(allowed.contains(msv[i as int].0)) by {
                    assert(allowed[5] == "allowed_modes"@);
                }
            }
            if modes.is_none() {
                match &ms[i].1 {
                    Json::Arr(items) => {
                        match conv_strs(items) {
                            Ok(v) => {
                                modes = Some(v);
                            },
                            Err(e) => {
                                return Err(e);
                            },
                        }
                    },
                    _ => {
                        return Err(DecodeError::new("allowed_modes is not an array"));
                    },
                }
            }
        } else {
            proof {
                assert(!allowed.contains(msv[i as int].0)) by {
                    assert(forall|w: int| 0 <= w < 6 ==> allowed[w] != key@);
                }
            }
            return Err(DecodeError::new("unknown field in identity record"));
        }
        i += 1;
    }
    proof {
        assert(msv.skip(n as int) =~= Seq::<(Seq<char>, JVal)>::empty());
        assert(keys_among(msv, allowed));
    }
    let name = match name {
        Some(v) => v,
        None => {
            return Err(DecodeError::new("missing name"));
        },
    };
    let version = match version {
        Some(v) => v,
        None => {
            return Err(DecodeError::new("missing version"));
        },
    };
    let interface = match interface {
        Some(v) => v,
        None => {
            return Err(DecodeError::new("missing interface"));
        },
    };
    let summary = match summary {
        Some(v) => v,
        None => {
            return Err(DecodeError::new("missing summary"));
        },
    };
    let instance_mode = match mode {
        Some(v) => v,
        None => {
            proof {
                reveal_strlit("");
            }
            String::from_str("")
        },
    };
    let allowed_modes = match modes {
        Some(v) => v,
        None => Vec::new(),
    };
    proof {
        if modes is None {
            assert(allowed_modes.deep_view() =~= Seq::<Seq<char>>::empty());
        }
    }
    Ok(WasmBlockInfo { name, version, interface, summary, instance_mode, allowed_modes })
}

/// Decode a block identity text into the data model.  Each mode token
/// must name a known instance mode (the empty token means the default).
pub fn decode_block_info(s: &str) -> (r: Result<BlockInfo, DecodeError>)
    ensures
        r matches Ok(bi) ==> (spec_decode_info(s@) matches Some(f) && bi.name@ == f.0 && bi.version@
            == f.1 && bi.interface@ == f.2 && bi.summary@ == f.3
            && crate::types::spec_parse_instance_mode(f.4) == Some(bi.instance_mode)
            && bi.allowed_modes@.len() == f.5.len() && (forall|w: int|
            0 <= w < f.5.len() ==> crate::types::spec_parse_instance_mode(#[trigger] f.5[w])
                == Some(bi.allowed_modes@[w]))),
        r is Err ==> (match spec_decode_info(s@) {
            None => true,
            Some(f) => crate::types::spec_parse_instance_mode(f.4) is None || (exists|w: int|
                0 <= w < f.5.len() && crate::types::spec_parse_instance_mode(#[trigger] f.5[w])
                    is None),
        }),
{
    let j = match crate::json::json_parse(s) {
        Ok(j) => j,
        Err(e) => {
            return Err(e);
        },
    };
    let wi = match wasm_info_of_json(&j) {
        Ok(wi) => wi,
        Err(e) => {
            return Err(e);
        },
    };
    let instance_mode = match InstanceMode::parse(wi.instance_mode.as_str()) {
        Some(m) => m,
        None => {
            return Err(DecodeError::new("unknown instance mode"));
        },
    };
    let n = wi.allowed_modes.len();
    let mut allowed_modes: Vec<InstanceMode> = Vec::new();
    let mut i: usize = 0;
    while i < n
        invariant
            i <= n,
            n == wi.allowed_modes.deep_view().len(),
            allowed_modes@.len() == i,
            spec_decode_info(s@) == Some(
                (
                    wi.name@,
                    wi.version@,
                    wi.interface@,
                    wi.summary@,
                    wi.instance_mode@,
                    wi.allowed_modes.deep_view(),
                ),
            ),
            forall|w: int|
                0 <= w < i ==> crate::types::spec_parse_instance_mode(
                    #[trigger] wi.allowed_modes.deep_view()[w],
                ) == Some(allowed_modes@[w]),
        decreases n - i,
    {
        proof {
            assert(wi.allowed_modes.deep_view()[i as int] == wi.allowed_modes@[i as int]@);
        }
        match InstanceMode::parse(wi.allowed_modes[i].as_str()) {
            Some(m) => {
                allowed_modes.push(m);
            },
            None => {
                proof {
                    assert(crate::types::spec_parse_instance_mode(
                        wi.allowed_modes.deep_view()[i as int],
                    ) is None);
                }
                return Err(DecodeError::new("unknown instance mode"));
            },
        }
        i += 1;
    }
    Ok(
        BlockInfo {
            name: wi.name,
            version: wi.version,
            interface: wi.interface,
            summary: wi.summary,
            instance_mode,
            allowed_modes,
        },
    )
}

/// Read a lifecycle event record from a JSON value.
fn wasm_lifecycle_of_json(j: &Json) -> (r: Result<WasmLifecycleEvent, DecodeError>)
    ensures
        r matches Ok(w) ==> lc_fields_of(j@) == Some((w.event_type@, w.data@)),
        r is Err ==> lc_fields_of(j@) is None,
{
    let ms: &Vec<(String, Json)> = match j {
        Json::Obj(ms) => ms,
        _ => {
            return Err(DecodeError::new("lifecycle event is not an object"));
        },
    };
    let ghost msv = jobj_of(ms@);
    let ghost allowed = seq!["type"@, "data"@];
    proof {
        crate::json::lemma_jobj_index(ms@);
        assert(j@ == JVal::Obj(msv));
        assert(msv.skip(0) =~= msv);
    }
    let n = ms.len();
    let mut ty: Option<String> = None;
    let mut data_s: Option<String> = None;
    let mut i: usize = 0;
    while i < n
        invariant
            i <= n,
            n == ms@.len(),
            j@ == JVal::Obj(msv),
            msv == jobj_of(ms@),
            msv.len() == n,
            allowed == seq!["type"@, "data"@],
            forall|w: int| 0 <= w < n ==> msv[w] == (ms@[w].0@, jval_of(ms@[w].1)),
            forall|w: int| 0 <= w < i ==> allowed.contains((#[trigger] msv[w]).0),
            match ty {
                Some(v) => jfield(msv, "type"@) == Some(JVal::Str(v@)),
                None => jfield(msv, "type"@) == jfield(msv.skip(i as int), "type"@),
            },
            match data_s {
                Some(ds) => jfield(msv, "data"@) == Some(JVal::Str(ds@)),
                None => jfield(msv, "data"@) == jfield(msv.skip(i as int), "data"@),
            },
        decreases n - i,
    {
        proof {
            assert(msv.skip(i as int)[0] == msv[i as int]);
            assert(msv.skip(i as int).skip(1) =~= msv.skip(i as int + 1));
            reveal_strlit("type");
            reveal_strlit("data");
            assert("type"@[0] == 't' && "data"@[0] == 'd');
            assert("type"@ != "data"@);
        }
        let key = &ms[i].0;
        if crate::text::str_eq(key.as_str(), "type") {
            proof {
                assert(allowed.contains(msv[i as int].0)) by {
                    assert(allowed[0] == "type"@);
                }
            }
            if ty.is_none() {
                match &ms[i].1 {
                    Json::Str(s2) => {
                        ty = Some(s2.clone());
                    },
                    _ => {
                        return Err(DecodeError::new("type is not a string"));
                    },
                }
            }
        } else if crate::text::str_eq(key.as_str(), "data") {
            proof {
                assert(allowed.contains(msv[i as int].0)) by {
                    assert(allowed[1] == "data"@);
                }
            }
            if data_s.is_none() {
                match &ms[i].1 {
                    Json::Str(s2) => {
                        data_s = Some(s2.clone());
                    },
                    _ => {
                        return Err(DecodeError::new("data is not a string"));
                    },
                }
            }
        } else {
            proof {
                assert(!allowed.contains(msv[i as int].0)) by {
                    assert(forall|w: int| 0 <= w < 2 ==> allowed[w] != key@);
                }
            }
            return Err(DecodeError::new("unknown field in lifecycle event"));
        }
        i += 1;
    }
    proof {
        assert(msv.skip(n as int) =~= Seq::<(Seq<char>, JVal)>::empty());
        assert(keys_among(msv, allowed));
    }
    let ty = match ty {
        Some(v) => v,
        None => {
            return Err(DecodeError::new("missing type"));
        },
    };
    let data = match data_s {
        None => Vec::new(),
        Some(ds) => match base64_decode(ds.as_str()) {
            Ok(d) => d,
            Err(_) => {
                return Err(DecodeError::new("event payload is not valid base64"));
            },
        },
    };
    Ok(WasmLifecycleEvent { event_type: ty, data })
}

/// Decode a lifecycle event text into its wire shape; the caller decides
/// what an unknown event type means.
pub fn decode_lifecycle(s: &str) -> (r: Result<WasmLifecycleEvent, DecodeError>)
    ensures
        r matches Ok(w) ==> spec_decode_lifecycle(s@) == Some((w.event_type@, w.data@)),
        r is Err ==> spec_decode_lifecycle(s@) is None,
{
    let j = match crate::json::json_parse(s) {
        Ok(j) => j,
        Err(e) => {
            return Err(e);
        },
    };
    wasm_lifecycle_of_json(&j)
}

// ---------------------------------------------------------------------
// The wire codec round trips
// ---------------------------------------------------------------------
/// Reading back emitted metadata pairs gives exactly those pairs.
proof fn lemma_jval_pairs_inverse(ps: Seq<(Seq<char>, Seq<char>)>)
    ensures
        jval_pairs(meta_pairs_jval(ps)) == Some(ps),
    decreases ps.len(),
{
    let items = meta_pairs_jval(ps);
    if ps.len() == 0 {
        assert(items =~= Seq::<JVal>::empty());
        assert(Seq::<(Seq<char>, Seq<char>)>::empty() =~= ps);
    } else {
        lemma_jval_pairs_inverse(ps.skip(1));
        let cell = seq![JVal::Str(ps[0].0), JVal::Str(ps[0].1)];
        assert(items[0] == JVal::Arr(cell));
        assert(items.skip(1) =~= meta_pairs_jval(ps.skip(1)));
        assert(cell[0] == JVal::Str(ps[0].0) && cell[1] == JVal::Str(ps[0].1));
        assert(seq![(ps[0].0, ps[0].1)] + ps.skip(1) =~= ps);
    }
}

/// Reading back emitted strings gives exactly those strings.
proof fn lemma_jval_strs_inverse(ss: Seq<Seq<char>>)
    ensures
        jval_strs(strs_jval(ss)) == Some(ss),
    decreases ss.len(),
{
    let items = strs_jval(ss);
    if ss.len() == 0 {
        assert(items =~= Seq::<JVal>::empty());
        assert(Seq::<Seq<char>>::empty() =~= ss);
    } else {
        lemma_jval_strs_inverse(ss.skip(1));
        assert(items[0] == JVal::Str(ss[0]));
        assert(items.skip(1) =~= strs_jval(ss.skip(1)));
        assert(seq![ss[0]] + ss.skip(1) =~= ss);
    }
}

/// Emitted metadata pairs are well-formed values.
proof fn lemma_meta_pairs_wf(ps: Seq<(Seq<char>, Seq<char>)>)
    ensures
        crate::json::jarr_wf(meta_pairs_jval(ps)),
    decreases ps.len(),
{
    reveal_with_fuel(crate::json::jarr_wf, 4);
    let items = meta_pairs_jval(ps);
    if ps.len() == 0 {
        assert(items =~= Seq::<JVal>::empty());
    } else {
        lemma_meta_pairs_wf(ps.skip(1));
        let cell = seq![JVal::Str(ps[0].0), JVal::Str(ps[0].1)];
        assert(items[0] == JVal::Arr(cell));
        assert(crate::json::jarr_wf(cell)) by {
            assert(cell.skip(1) =~= seq![JVal::Str(ps[0].1)]);
            assert(cell.skip(1).skip(1) =~= Seq::<JVal>::empty());
        }
        assert(items.skip(1) =~= meta_pairs_jval(ps.skip(1)));
    }
}

/// Emitted strings are well-formed values.
proof fn lemma_strs_wf(ss: Seq<Seq<char>>)
    ensures
        crate::json::jarr_wf(strs_jval(ss)),
    decreases ss.len(),
{
    reveal_with_fuel(crate::json::jarr_wf, 2);
    let items = strs_jval(ss);
    if ss.len() == 0 {
        assert(items =~= Seq::<JVal>::empty());
    } else {
        lemma_strs_wf(ss.skip(1));
        assert(items[0] == JVal::Str(ss[0]));
        assert(items.skip(1) =~= strs_jval(ss.skip(1)));
    }
}

/// A two-member tail of an object member sequence, for field lookups.
proof fn lemma_jobj_wf_members(ms: Seq<(Seq<char>, JVal)>)
    requires
        forall|w: int| 0 <= w < ms.len() ==> crate::json::jval_wf((#[trigger] ms[w]).1),
    ensures
        crate::json::jobj_wf(ms),
    decreases ms.len(),
{
    if ms.len() > 0 {
        assert(crate::json::jval_wf(ms[0].1));
        assert(forall|w: int|
            0 <= w < ms.skip(1).len() ==> crate::json::jval_wf((#[trigger] ms.skip(1)[w]).1)) by {
            assert(forall|w: int|
                0 <= w < ms.skip(1).len() ==> #[trigger] ms.skip(1)[w] == ms[w + 1]);
        }
        lemma_jobj_wf_members(ms.skip(1));
    }
}

/// A message record decodes back to exactly the fields it was built
/// from: the encode/decode round trip of the message codec.
#[verifier::rlimit(100)]
pub proof fn lemma_message_codec_round_trip(
    kind: Seq<char>,
    data: Seq<u8>,
    meta: Seq<(Seq<char>, Seq<char>)>,
)
    ensures
        spec_decode_message(emit(message_jval(kind, data, meta))) == Some((kind, data, meta)),
{
    reveal_with_fuel(jfield, 4);
    let jv = message_jval(kind, data, meta);
    let ms = jv->Obj_0;
    assert(crate::json::jval_wf(jv)) by {
        lemma_meta_pairs_wf(meta);
        lemma_jobj_wf_members(ms);
    }
    crate::json::lemma_emit_parse_round_trip(jv);
    reveal_strlit("kind");
    reveal_strlit("data");
    reveal_strlit("meta");
    assert("kind"@[0] == 'k' && "data"@[0] == 'd' && "meta"@[0] == 'm');
    assert("kind"@ != "data"@ && "kind"@ != "meta"@ && "data"@ != "meta"@);
    let allowed = seq!["kind"@, "data"@, "meta"@];
    assert(keys_among(ms, allowed)) by {
        assert forall|w: int| 0 <= w < ms.len() implies allowed.contains((#[trigger] ms[w]).0) by {
            if w == 0 {
                assert(allowed[0] == ms[0].0);
            } else if w == 1 {
                assert(allowed[1] == ms[1].0);
            } else {
                assert(allowed[2] == ms[2].0);
            }
        }
    }
    assert(ms.skip(1) =~= seq![("data"@, JVal::Str(enc64(data))), ("meta"@, JVal::Arr(
        meta_pairs_jval(meta),
    ))]);
    assert(ms.skip(1).skip(1) =~= seq![("meta"@, JVal::Arr(meta_pairs_jval(meta)))]);
    assert(jfield(ms, "kind"@) == Some(JVal::Str(kind)));
    assert(jfield(ms, "data"@) == Some(JVal::Str(enc64(data))));
    assert(jfield(ms, "meta"@) == Some(JVal::Arr(meta_pairs_jval(meta))));
    crate::base64::lemma_base64_round_trip(data);
    lemma_jval_pairs_inverse(meta);
}

/// Encoding a decoded message again gives byte-identical text, when the
/// metadata was key-unique: re-encoding is the identity on canonical
/// records.
pub proof fn lemma_message_reencode_identical(
    kind: Seq<char>,
    data: Seq<u8>,
    meta: Seq<(Seq<char>, Seq<char>)>,
)
    requires
        crate::meta::keys_unique(meta),
    ensures
        match spec_decode_message(emit(message_jval(kind, data, meta))) {
            Some(f) => emit(message_jval(f.0, f.1, crate::meta::spec_fold(f.2))) == emit(
                message_jval(kind, data, meta),
            ),
            None => false,
        },
{
    lemma_message_codec_round_trip(kind, data, meta);
    crate::meta::lemma_fold_identity(meta);
}

/// A response record decodes back to exactly its fields.
#[verifier::rlimit(100)]
proof fn lemma_resp_fields_inverse(data: Seq<u8>, meta: Seq<(Seq<char>, Seq<char>)>)
    ensures
        resp_fields_of(response_jval(data, meta)) == Some((data, meta)),
        crate::json::jval_wf(response_jval(data, meta)),
{
    reveal_with_fuel(jfield, 3);
    let jv = response_jval(data, meta);
    let ms = jv->Obj_0;
    reveal_strlit("data");
    reveal_strlit("meta");
    assert("data"@[0] == 'd' && "meta"@[0] == 'm');
    assert("data"@ != "meta"@);
    assert(crate::json::jval_wf(jv)) by {
        lemma_meta_pairs_wf(meta);
        lemma_jobj_wf_members(ms);
    }
    let allowed = seq!["data"@, "meta"@];
    assert(keys_among(ms, allowed)) by {
        assert forall|w: int| 0 <= w < ms.len() implies allowed.contains((#[trigger] ms[w]).0) by {
            if w == 0 {
                assert(allowed[0] == ms[0].0);
            } else {
                assert(allowed[1] == ms[1].0);
            }
        }
    }
    crate::base64::lemma_base64_round_trip(data);
    if meta.len() == 0 {
        assert(ms =~= seq![("data"@, JVal::Str(enc64(data)))]);
        assert(ms.skip(1) =~= Seq::<(Seq<char>, JVal)>::empty());
        assert(jfield(ms, "data"@) == Some(JVal::Str(enc64(data))));
        assert(jfield(ms, "meta"@) is None);
        assert(Seq::<(Seq<char>, Seq<char>)>::empty() =~= meta);
    } else {
        assert(ms =~= seq![
            ("data"@, JVal::Str(enc64(data))),
            ("meta"@, JVal::Arr(meta_pairs_jval(meta))),
        ]);
        assert(ms.skip(1) =~= seq![("meta"@, JVal::Arr(meta_pairs_jval(meta)))]);
        assert(jfield(ms, "data"@) == Some(JVal::Str(enc64(data))));
        assert(jfield(ms, "meta"@) == Some(JVal::Arr(meta_pairs_jval(meta))));
        lemma_jval_pairs_inverse(meta);
    }
}

/// A structured-error record decodes back to exactly its fields.
#[verifier::rlimit(100)]
proof fn lemma_err_fields_inverse(
    code: Seq<char>,
    message: Seq<char>,
    meta: Seq<(Seq<char>, Seq<char>)>,
)
    ensures
        err_fields_of(error_jval(code, message, meta)) == Some((code, message, meta)),
        crate::json::jval_wf(error_jval(code, message, meta)),
{
    reveal_with_fuel(jfield, 4);
    let jv = error_jval(code, message, meta);
    let ms = jv->Obj_0;
    reveal_strlit("code");
    reveal_strlit("message");
    reveal_strlit("meta");
    assert("code"@[0] == 'c' && "message"@[1] == 'e' && "meta"@[1] == 'e');
    assert("message"@.len() == 7 && "meta"@.len() == 4);
    assert("code"@ != "message"@ && "code"@ != "meta"@ && "message"@ != "meta"@);
    assert(crate::json::jval_wf(jv)) by {
        lemma_meta_pairs_wf(meta);
        lemma_jobj_wf_members(ms);
    }
    let allowed = seq!["code"@, "message"@, "meta"@];
    assert(keys_among(ms, allowed)) by {
        assert forall|w: int| 0 <= w < ms.len() implies allowed.contains((#[trigger] ms[w]).0) by {
            if w == 0 {
                assert(allowed[0] == ms[0].0);
            } else if w == 1 {
                assert(allowed[1] == ms[1].0);
            } else {
                assert(allowed[2] == ms[2].0);
            }
        }
    }
    if meta.len() == 0 {
        assert(ms =~= seq![("code"@, JVal::Str(code)), ("message"@, JVal::Str(message))]);
        assert(ms.skip(1) =~= seq![("message"@, JVal::Str(message))]);
        assert(ms.skip(1).skip(1) =~= Seq::<(Seq<char>, JVal)>::empty());
        assert(jfield(ms, "code"@) == Some(JVal::Str(code)));
        assert(jfield(ms, "message"@) == Some(JVal::Str(message)));
        assert(jfield(ms, "meta"@) is None);
        assert(Seq::<(Seq<char>, Seq<char>)>::empty() =~= meta);
    } else {
        assert(ms =~= seq![
            ("code"@, JVal::Str(code)),
            ("message"@, JVal::Str(message)),
            ("meta"@, JVal::Arr(meta_pairs_jval(meta))),
        ]);
        assert(ms.skip(1) =~= seq![
            ("message"@, JVal::Str(message)),
            ("meta"@, JVal::Arr(meta_pairs_jval(meta))),
        ]);
        assert(ms.skip(1).skip(1) =~= seq![("meta"@, JVal::Arr(meta_pairs_jval(meta)))]);
        assert(jfield(ms, "code"@) == Some(JVal::Str(code)));
        assert(jfield(ms, "message"@) == Some(JVal::Str(message)));
        assert(jfield(ms, "meta"@) == Some(JVal::Arr(meta_pairs_jval(meta))));
        lemma_jval_pairs_inverse(meta);
    }
}

/// An outcome record decodes back to exactly the action token and
/// auxiliary fields it was built from: the encode/decode round trip of
/// the outcome codec, for each of the four action tags and any other
/// token.
#[verifier::rlimit(100)]
pub proof fn lemma_outcome_codec_round_trip(
    action: Seq<char>,
    resp: Option<(Seq<u8>, Seq<(Seq<char>, Seq<char>)>)>,
    err: Option<(Seq<char>, Seq<char>, Seq<(Seq<char>, Seq<char>)>)>,
)
    ensures
        spec_decode_outcome(emit(outcome_jval(action, resp, err))) == Some((action, resp, err)),
{
    reveal_with_fuel(jfield, 4);
    let jv = outcome_jval(action, resp, err);
    let ms = jv->Obj_0;
    reveal_strlit("action");
    reveal_strlit("response");
    reveal_strlit("error");
    assert("action"@[0] == 'a' && "response"@[0] == 'r' && "error"@[0] == 'e');
    assert("action"@ != "response"@ && "action"@ != "error"@ && "response"@ != "error"@);
    let rm: Seq<(Seq<char>, JVal)> = match resp {
        Some(p) => seq![("response"@, response_jval(p.0, p.1))],
        None => Seq::empty(),
    };
    let em: Seq<(Seq<char>, JVal)> = match err {
        Some(e) => seq![("error"@, error_jval(e.0, e.1, e.2))],
        None => Seq::empty(),
    };
    assert(ms == seq![("action"@, JVal::Str(action))] + rm + em);
    match resp {
        Some(p) => lemma_resp_fields_inverse(p.0, p.1),
        None => (),
    }
    match err {
        Some(e) => lemma_err_fields_inverse(e.0, e.1, e.2),
        None => (),
    }
    assert(crate::json::jval_wf(jv)) by {
        lemma_jobj_wf_members(ms);
    }
    crate::json::lemma_emit_parse_round_trip(jv);
    let allowed = seq!["action"@, "response"@, "error"@];
    assert(keys_among(ms, allowed)) by {
        assert forall|w: int| 0 <= w < ms.len() implies allowed.contains((#[trigger] ms[w]).0) by {
            if ms[w].0 == "action"@ {
                assert(allowed[0] == ms[w].0);
            } else if ms[w].0 == "response"@ {
                assert(allowed[1] == ms[w].0);
            } else {
                assert(allowed[2] == ms[w].0);
            }
        }
    }
    assert(jfield(ms, "action"@) == Some(JVal::Str(action)));
    match (resp, err) {
        (Some(p), Some(e)) => {
            assert(ms.skip(1) =~= rm + em);
            assert(ms.skip(1).skip(1) =~= em);
            assert(jfield(ms, "response"@) == Some(response_jval(p.0, p.1)));
            assert(jfield(ms, "error"@) == Some(error_jval(e.0, e.1, e.2)));
        },
        (Some(p), None) => {
            assert(ms.skip(1) =~= rm);
            assert(ms.skip(1).skip(1) =~= Seq::<(Seq<char>, JVal)>::empty());
            assert(jfield(ms, "response"@) == Some(response_jval(p.0, p.1)));
            assert(jfield(ms, "error"@) is None);
        },
        (None, Some(e)) => {
            assert(ms.skip(1) =~= em);
            assert(ms.skip(1).skip(1) =~= Seq::<(Seq<char>, JVal)>::empty());
            assert(jfield(ms, "response"@) is None);
            assert(jfield(ms, "error"@) == Some(error_jval(e.0, e.1, e.2)));
        },
        (None, None) => {
            assert(ms.skip(1) =~= Seq::<(Seq<char>, JVal)>::empty());
            assert(jfield(ms, "response"@) is None);
            assert(jfield(ms, "error"@) is None);
        },
    }
}

/// A block identity record decodes back to exactly its fields.
#[verifier::rlimit(100)]
pub proof fn lemma_info_codec_round_trip(
    name: Seq<char>,
    version: Seq<char>,
    interface: Seq<char>,
    summary: Seq<char>,
    instance_mode: Seq<char>,
    allowed_modes: Seq<Seq<char>>,
)
    ensures
        spec_decode_info(
            emit(info_jval(name, version, interface, summary, instance_mode, allowed_modes)),
        ) == Some((name, version, interface, summary, instance_mode, allowed_modes)),
{
    reveal_with_fuel(jfield, 7);
    let jv = info_jval(name, version, interface, summary, instance_mode, allowed_modes);
    let ms = jv->Obj_0;
    reveal_strlit("name");
    reveal_strlit("version");
    reveal_strlit("interface");
    reveal_strlit("summary");
    reveal_strlit("instance_mode");
    reveal_strlit("allowed_modes");
    assert("name"@.len() == 4 && "version"@.len() == 7 && "interface"@.len() == 9
        && "summary"@.len() == 7 && "instance_mode"@.len() == 13 && "allowed_modes"@.len() == 13);
    assert("version"@[0] == 'v' && "summary"@[0] == 's' && "instance_mode"@[0] == 'i'
        && "allowed_modes"@[0] == 'a' && "interface"@[0] == 'i' && "interface"@[1] == 'n'
        && "instance_mode"@[1] == 'n');
    assert(crate::json::jval_wf(jv)) by {
        lemma_strs_wf(allowed_modes);
        lemma_jobj_wf_members(ms);
    }
    crate::json::lemma_emit_parse_round_trip(jv);
    let allowed = seq![
        "name"@,
        "version"@,
        "interface"@,
        "summary"@,
        "instance_mode"@,
        "allowed_modes"@,
    ];
    assert(keys_among(ms, allowed)) by {
        assert forall|w: int| 0 <= w < ms.len() implies allowed.contains((#[trigger] ms[w]).0) by {
            if w == 0 {
                assert(allowed[0] == ms[0].0);
            } else if w == 1 {
                assert(allowed[1] == ms[1].0);
            } else if w == 2 {
                assert(allowed[2] == ms[2].0);
            } else if w == 3 {
                assert(allowed[3] == ms[3].0);
            } else if w == 4 {
                assert(allowed[4] == ms[4].0);
            } else {
                assert(allowed[5] == ms[5].0);
            }
        }
    }
    assert(ms.skip(1) =~= seq![
        ("version"@, JVal::Str(version)),
        ("interface"@, JVal::Str(interface)),
        ("summary"@, JVal::Str(summary)),
        ("instance_mode"@, JVal::Str(instance_mode)),
        ("allowed_modes"@, JVal::Arr(strs_jval(allowed_modes))),
    ]);
    assert(ms.skip(1).skip(1) =~= seq![
        ("interface"@, JVal::Str(interface)),
        ("summary"@, JVal::Str(summary)),
        ("instance_mode"@, JVal::Str(instance_mode)),
        ("allowed_modes"@, JVal::Arr(strs_jval(allowed_modes))),
    ]);
    assert(ms.skip(1).skip(1).skip(1) =~= seq![
        ("summary"@, JVal::Str(summary)),
        ("instance_mode"@, JVal::Str(instance_mode)),
        ("allowed_modes"@, JVal::Arr(strs_jval(allowed_modes))),
    ]);
    assert(ms.skip(1).skip(1).skip(1).skip(1) =~= seq![
        ("instance_mode"@, JVal::Str(instance_mode)),
        ("allowed_modes"@, JVal::Arr(strs_jval(allowed_modes))),
    ]);
    assert(ms.skip(1).skip(1).skip(1).skip(1).skip(1) =~= seq![
        ("allowed_modes"@, JVal::Arr(strs_jval(allowed_modes))),
    ]);
    assert(jfield(ms, "name"@) == Some(JVal::Str(name)));
    assert(jfield(ms, "version"@) == Some(JVal::Str(version)));
    assert(jfield(ms, "interface"@) == Some(JVal::Str(interface)));
    assert(jfield(ms, "summary"@) == Some(JVal::Str(summary)));
    assert(jfield(ms, "instance_mode"@) == Some(JVal::Str(instance_mode)));
    assert(jfield(ms, "allowed_modes"@) == Some(JVal::Arr(strs_jval(allowed_modes))));
    lemma_jval_strs_inverse(allowed_modes);
}

/// A well-formed outcome writes a wire record whose auxiliary fields
/// agree with its tag, and whose tag token reads back as itself: the
/// action invariant survives encoding and decoding, for each of the
/// four tags.
pub proof fn lemma_outcome_wire_invariant(r: Result_)
    requires
        outcome_wf(r),
    ensures
        spec_parse_action(action_str(r.action)) == r.action,
        consistent_wire(r.action, norm_resp(r) is Some, norm_err(r) is Some),
        (norm_resp(r) is Some) == (r.response is Some),
        (norm_err(r) is Some) == (r.error is Some),
        !(norm_resp(r) is Some && norm_err(r) is Some),
{
    crate::types::lemma_action_token_round_trip(r.action);
}

/// A record with an action token the library does not know, and no
/// auxiliary fields, decodes to a plain `Continue` outcome: the
/// forward-compatibility fallback for tags introduced by newer hosts.
pub proof fn lemma_unknown_tag_decodes_to_continue(tok: Seq<char>)
    requires
        tok != "continue"@,
        tok != "respond"@,
        tok != "drop"@,
        tok != "error"@,
    ensures
        spec_parse_action(tok) == Action::Continue,
        spec_decode_outcome(emit(outcome_jval(tok, None, None))) == Some(
            (
                tok,
                None::<(Seq<u8>, Seq<(Seq<char>, Seq<char>)>)>,
                None::<(Seq<char>, Seq<char>, Seq<(Seq<char>, Seq<char>)>)>,
            ),
        ),
        consistent_wire(spec_parse_action(tok), false, false),
{
    lemma_outcome_codec_round_trip(tok, None, None);
}

/// A lifecycle event record decodes back to exactly its fields.
#[verifier::rlimit(100)]
pub proof fn lemma_lifecycle_codec_round_trip(event_type: Seq<char>, data: Seq<u8>)
    ensures
        spec_decode_lifecycle(emit(lifecycle_jval(event_type, data))) == Some((event_type, data)),
{
    reveal_with_fuel(jfield, 3);
    let jv = lifecycle_jval(event_type, data);
    let ms = jv->Obj_0;
    reveal_strlit("type");
    reveal_strlit("data");
    assert("type"@[0] == 't' && "data"@[0] == 'd');
    assert("type"@ != "data"@);
    assert(crate::json::jval_wf(jv)) by {
        lemma_jobj_wf_members(ms);
    }
    crate::json::lemma_emit_parse_round_trip(jv);
    let allowed = seq!["type"@, "data"@];
    assert(keys_among(ms, allowed)) by {
        assert forall|w: int| 0 <= w < ms.len() implies allowed.contains((#[trigger] ms[w]).0) by {
            if w == 0 {
                assert(allowed[0] == ms[0].0);
            } else {
                assert(allowed[1] == ms[1].0);
            }
        }
    }
    assert(ms.skip(1) =~= seq![("data"@, JVal::Str(enc64(data)))]);
    assert(jfield(ms, "type"@) == Some(JVal::Str(event_type)));
    assert(jfield(ms, "data"@) == Some(JVal::Str(enc64(data))));
    crate::base64::lemma_base64_round_trip(data);
}

/// Decode a message text into the data model.  The payload must be valid
/// base64 and every field must have the declared shape; the metadata
/// pairs are folded into a key-unique mapping with a later duplicate
/// overwriting an earlier one.
pub fn decode_message(s: &str) -> (r: Result<Message, DecodeError>)
    ensures
        r matches Ok(m) ==> (spec_decode_message(s@) matches Some(f) && m.kind@ == f.0 && m.data@
            == f.1 && m.meta@ == spec_fold(f.2)),
        r is Err ==> spec_decode_message(s@) is None,
{
    let j = match crate::json::json_parse(s) {
        Ok(j) => j,
        Err(e) => {
            return Err(e);
        },
    };
    let wm = match wasm_message_of_json(&j) {
        Ok(wm) => wm,
        Err(e) => {
            return Err(e);
        },
    };
    Ok(Message::from_wasm(wm))
}

} // verus!
