//! Network service client for outbound HTTP requests.

use vstd::prelude::*;
use crate::base64::base64_encode;
use crate::codec::jfield;
use crate::codec::jval_pairs;
use crate::codec::keys_among;
use crate::codec::opt_data_field;
use crate::codec::opt_meta_field;
use crate::context::Context;
use crate::json::jobj_of;
use crate::json::json_parse;
use crate::json::jval_of;
use crate::json::sp_json;
use crate::json::DecodeError;
use crate::json::JVal;
use crate::json::Json;
use crate::text::bytes_chars;
use crate::text::str_from_utf8;
use crate::types::Action;
use crate::types::Message;
use crate::types::Result_;
use crate::types::WaferError;

verus! {

/// An outbound network request: a method, a URL, header pairs, and an
/// optional body.
#[derive(Debug)]
pub struct Request {
    pub method: String,
    pub url: String,
    pub headers: Vec<(String, String)>,
    pub body: Option<Vec<u8>>,
}

/// An outbound network response: the status code, header pairs, and the
/// body bytes.
#[derive(Debug)]
pub struct Response {
    pub status_code: u16,
    pub headers: Vec<(String, String)>,
    pub body: Vec<u8>,
}

/// The fields of a network response record: a status code in range,
/// optional header pairs, an optional base64 body.
pub open spec fn net_resp_fields_of(v: JVal) -> Option<
    (u16, Seq<(Seq<char>, Seq<char>)>, Seq<u8>),
> {
    match v {
        JVal::Obj(ms) => if !keys_among(ms, seq!["status_code"@, "headers"@, "body"@]) {
            None
        } else {
            match jfield(ms, "status_code"@) {
                Some(JVal::Int(n)) => if 0 <= n && n <= 65535 {
                    match (opt_meta_field(ms, "headers"@), opt_data_field(ms, "body"@)) {
                        (Some(h), Some(b)) => Some((n as u16, h, b)),
                        _ => None,
                    }
                } else {
                    None
                },
                _ => None,
            }
        },
        _ => None,
    }
}

/// Read a network response record from a JSON value.
fn response_of_json(j: &Json) -> (r: Result<Response, DecodeError>)
    ensures
        r matches Ok(resp) ==> net_resp_fields_of(j@) == Some(
            (resp.status_code, resp.headers.deep_view(), resp.body@),
        ),
        r is Err ==> net_resp_fields_of(j@) is None,
{
    let ms: &Vec<(String, Json)> = match j {
        Json::Obj(ms) => ms,
        _ => {
            return Err(DecodeError::new("network response is not an object"));
        },
    };
    let ghost msv = jobj_of(ms@);
    let ghost allowed = seq!["status_code"@, "headers"@, "body"@];
    proof {
        crate::json::lemma_jobj_index(ms@);
        assert(j@ == JVal::Obj(msv));
        assert(msv.skip(0) =~= msv);
    }
    let n = ms.len();
    let mut status: Option<i64> = None;
    let mut headers_v: Option<Vec<(String, String)>> = None;
    let mut body_s: Option<String> = None;
    let mut i: usize = 0;
    while i < n
        invariant
            i <= n,
            n == ms@.len(),
            j@ == JVal::Obj(msv),
            msv == jobj_of(ms@),
            msv.len() == n,
            allowed == seq!["status_code"@, "headers"@, "body"@],
            forall|w: int| 0 <= w < n ==> msv[w] == (ms@[w].0@, jval_of(ms@[w].1)),
            forall|w: int| 0 <= w < i ==> allowed.contains((#[trigger] msv[w]).0),
            match status {
                Some(v) => jfield(msv, "status_code"@) == Some(JVal::Int(v)),
                None => jfield(msv, "status_code"@) == jfield(msv.skip(i as int), "status_code"@),
            },
            match headers_v {
                Some(hv) => jfield(msv, "headers"@) matches Some(x) && x matches JVal::Arr(items)
                    && jval_pairs(items) == Some(hv.deep_view()),
                None => jfield(msv, "headers"@) == jfield(msv.skip(i as int), "headers"@),
            },
            match body_s {
                Some(bs) => jfield(msv, "body"@) == Some(JVal::Str(bs@)),
                None => jfield(msv, "body"@) == jfield(msv.skip(i as int), "body"@),
            },
        decreases n - i,
    {
        proof {
            assert(msv.skip(i as int)[0] == msv[i as int]);
            assert(msv.skip(i as int).skip(1) =~= msv.skip(i as int + 1));
            reveal_strlit("status_code");
            reveal_strlit("headers");
            reveal_strlit("body");
            assert("status_code"@[0] == 's' && "headers"@[0] == 'h' && "body"@[0] == 'b');
            assert("status_code"@ != "headers"@ && "status_code"@ != "body"@ && "headers"@
                != "body"@);
        }
        let key = &ms[i].0;
        if crate::text::str_eq(key.as_str(), "status_code") {
            proof {
                assert(allowed.contains(msv[i as int].0)) by {
                    assert(allowed[0] == "status_code"@);
                }
            }
            if status.is_none() {
                match &ms[i].1 {
                    Json::Int(v) => {
                        status = Some(*v);
                    },
                    _ => {
                        return Err(DecodeError::new("status_code is not a number"));
                    },
                }
            }
        } else if crate::text::str_eq(key.as_str(), "headers") {
            proof {
                assert(allowed.contains(msv[i as int].0)) by {
                    assert(allowed[1] == "headers"@);
                }
            }
            if headers_v.is_none() {
                match &ms[i].1 {
                    Json::Arr(items) => {
                        match crate::codec::conv_pairs(items) {
                            Ok(v) => {
                                headers_v = Some(v);
                            },
                            Err(e) => {
                                return Err(e);
                            },
                        }
                    },
                    _ => {
                        return Err(DecodeError::new("headers is not an array"));
                    },
                }
            }
        } else if crate::text::str_eq(key.as_str(), "body") {
            proof {
                assert(allowed.contains(msv[i as int].0)) by {
                    assert(allowed[2] == "body"@);
                }
            }
            if body_s.is_none() {
                match &ms[i].1 {
                    Json::Str(s2) => {
                        body_s = Some(s2.clone());
                    },
                    _ => {
                        return Err(DecodeError::new("body is not a string"));
                    },
                }
            }
        } else {
            proof {
                assert(!allowed.contains(msv[i as int].0)) by {
                    assert(forall|w: int| 0 <= w < 3 ==> allowed[w] != key@);
                }
            }
            return Err(DecodeError::new("unknown field in network response"));
        }
        i += 1;
    }
    proof {
        assert(msv.skip(n as int) =~= Seq::<(Seq<char>, JVal)>::empty());
        assert(keys_among(msv, allowed));
    }
    let status = match status {
        Some(v) => v,
        None => {
            return Err(DecodeError::new("missing status_code"));
        },
    };
    if status < 0 || status > 65535 {
        return Err(DecodeError::new("status_code out of range"));
    }
    let headers = match headers_v {
        None => Vec::new(),
        Some(v) => v,
    };
    let body = match body_s {
        None => Vec::new(),
        Some(bs) => match crate::base64::base64_decode(bs.as_str()) {
            Ok(d) => d,
            Err(_) => {
                return Err(DecodeError::new("body is not valid base64"));
            },
        },
    };
    proof {
        if headers_v is None {
            assert(headers.deep_view() =~= Seq::<(Seq<char>, Seq<char>)>::empty());
        }
    }
    Ok(Response { status_code: status as u16, headers, body })
}

/// What an outbound request makes of a host outcome: the error, a
/// `no_response` failure, or the reply payload read as a network
/// response record.
pub fn interpret_network_reply(result: Result_) -> (r: Result<Response, WaferError>)
    ensures
        result.action == Action::Error ==> r is Err,
        result.action != Action::Error && result.response is None ==> (r matches Err(e) && e.code@
            == "no_response"@),
        match result.response {
            Some(p) => result.action != Action::Error ==> (match bytes_chars(p.data@) {
                Some(cs) => (r matches Ok(resp) ==> (match sp_json(cs) {
                    Some(v) => net_resp_fields_of(v) == Some(
                        (resp.status_code, resp.headers.deep_view(), resp.body@),
                    ),
                    None => false,
                })),
                None => r matches Err(e) && e.code@ == "decode_error"@,
            }),
            None => true,
        },
{
    if result.action == Action::Error {
        return Err(
            match result.error {
                Some(e) => e,
                None => WaferError::new("unknown", "network request failed"),
            },
        );
    }
    let p = match result.response {
        Some(p) => p,
        None => {
            return Err(WaferError::new("no_response", "host returned no response data"));
        },
    };
    let s = match str_from_utf8(p.data.as_slice()) {
        Some(s) => s,
        None => {
            return Err(WaferError::new("decode_error", "reply is not valid text"));
        },
    };
    let j = match json_parse(s) {
        Ok(j) => j,
        Err(e) => {
            return Err(WaferError::new("decode_error", e.message.as_str()));
        },
    };
    match response_of_json(&j) {
        Ok(resp) => Ok(resp),
        Err(e) => Err(WaferError::new("decode_error", e.message.as_str())),
    }
}

/// Client for the host network service.
pub struct NetworkClient<'a> {
    ctx: &'a Context,
}

impl<'a> NetworkClient<'a> {
    /// Create a new network client bound to the given context.
    pub fn new(ctx: &'a Context) -> (c: Self) {
        NetworkClient { ctx }
    }

    /// Execute an outbound HTTP request.  With no host attached the
    /// reply carries no payload, so this reports `no_response`.
    pub fn do_request(&self, req: &Request) -> (r: Result<Response, WaferError>)
        ensures
            r matches Err(e) && e.code@ == "no_response"@,
    {
        let mut members: Vec<(String, Json)> = Vec::new();
        members.push((String::from_str("method"), Json::Str(req.method.clone())));
        members.push((String::from_str("url"), Json::Str(req.url.clone())));
        members.push((String::from_str("headers"), Json::Arr(crate::codec::meta_pairs_json(&req.headers))));
        match &req.body {
            Some(b) => {
                members.push((String::from_str("body"), Json::Str(base64_encode(b.as_slice()))));
            },
            None => {},
        }
        let body = crate::json::json_emit(&Json::Obj(members));
        let msg = Message::new("svc.network.do", body.as_str().as_bytes_vec());
        let result = self.ctx.send(&msg);
        interpret_network_reply(result)
    }

    /// Perform a GET request to the given URL.
    pub fn get(&self, url: &str) -> (r: Result<Response, WaferError>)
        ensures
            r matches Err(e) && e.code@ == "no_response"@,
    {
        self.do_request(
            &Request {
                method: String::from_str("GET"),
                url: String::from_str(url),
                headers: Vec::new(),
                body: None,
            },
        )
    }

    /// Perform a POST request with a JSON body.
    pub fn post_json(&self, url: &str, body: &Json) -> (r: Result<Response, WaferError>)
        ensures
            r matches Err(e) && e.code@ == "no_response"@,
    {
        let data = crate::json::json_emit(body);
        let mut headers: Vec<(String, String)> = Vec::new();
        headers.push((String::from_str("Content-Type"), String::from_str("application/json")));
        self.do_request(
            &Request {
                method: String::from_str("POST"),
                url: String::from_str(url),
                headers,
                body: Some(data.as_str().as_bytes_vec()),
            },
        )
    }
}

} // verus!
