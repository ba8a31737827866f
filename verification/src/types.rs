//! The in-memory data model of the boundary protocol: messages, outcomes,
//! structured errors, block identity and lifecycle events, together with
//! the request/response helper accessors blocks use on message metadata.

use vstd::prelude::*;
use crate::meta::MetaMap;
use crate::meta::seq_lookup;
use crate::meta::spec_insert;
use crate::meta::META_AUTH_USER_EMAIL;
use crate::meta::META_AUTH_USER_ID;
use crate::meta::META_AUTH_USER_ROLES;
use crate::meta::META_REQ_ACTION;
use crate::meta::META_REQ_CLIENT_IP;
use crate::meta::META_REQ_CONTENT_TYPE;
use crate::meta::META_REQ_PARAM_PREFIX;
use crate::meta::META_REQ_QUERY_PREFIX;
use crate::meta::META_REQ_RESOURCE;
use crate::text::chars_of_str;
use crate::text::spec_parse_usize;
use crate::text::spec_split;
use crate::text::spec_starts_with;
use crate::text::spec_trim;
use crate::text::parse_usize;
use crate::text::split_string;
use crate::text::str_concat;
use crate::text::str_eq;
use crate::text::string_from_chars;
use crate::text::trim_chars;

verus! {

// ---------------------------------------------------------------------
// Message
// ---------------------------------------------------------------------
/// One unit of work flowing through the processing pipeline: an operation
/// identifier, an opaque byte payload, and key-unique metadata.
#[derive(Debug)]
pub struct Message {
    pub kind: String,
    pub data: Vec<u8>,
    pub meta: MetaMap,
}

/// The metadata value under `k`, or the empty string when absent.
pub open spec fn spec_get_meta(m: Seq<(Seq<char>, Seq<char>)>, k: Seq<char>) -> Seq<char> {
    match seq_lookup(m, k) {
        Some(v) => v,
        None => Seq::empty(),
    }
}

/// The roles list: the comma-separated role names, or nothing when the
/// roles value is empty.
pub open spec fn spec_roles(m: Seq<(Seq<char>, Seq<char>)>) -> Seq<Seq<char>> {
    let roles = spec_get_meta(m, META_AUTH_USER_ROLES@);
    if roles.len() == 0 {
        Seq::empty()
    } else {
        spec_split(roles, ',')
    }
}

/// The index of the first `'='` in `p` at or after `i`, or `-1`.
pub open spec fn first_eq_at(p: Seq<char>, i: int) -> int
    decreases p.len() - i,
{
    if i < 0 || i >= p.len() {
        -1
    } else if p[i] == '=' {
        i
    } else {
        first_eq_at(p, i + 1)
    }
}

/// Scanning cookie parts for `name`: each part is trimmed and split at
/// its first `'='`; the value of the first part whose key matches is
/// returned, or the empty string.
pub open spec fn cookie_scan(parts: Seq<Seq<char>>, name: Seq<char>) -> Seq<char>
    decreases parts.len(),
{
    if parts.len() == 0 {
        Seq::empty()
    } else {
        let p = spec_trim(parts[0]);
        let e = first_eq_at(p, 0);
        if e >= 0 && p.take(e) == name {
            p.skip(e + 1)
        } else {
            cookie_scan(parts.skip(1), name)
        }
    }
}

/// The value of the named cookie inside a raw `Cookie` header value.
pub open spec fn spec_cookie(raw: Seq<char>, name: Seq<char>) -> Seq<char> {
    if raw.len() == 0 {
        Seq::empty()
    } else {
        cookie_scan(spec_split(raw, ';'), name)
    }
}

/// The entries of `m` whose key begins with `prefix`, with the prefix
/// stripped, in order.
pub open spec fn spec_prefixed_entries(
    m: Seq<(Seq<char>, Seq<char>)>,
    prefix: Seq<char>,
) -> Seq<(Seq<char>, Seq<char>)>
    decreases m.len(),
{
    if m.len() == 0 {
        Seq::empty()
    } else {
        let rest = spec_prefixed_entries(m.skip(1), prefix);
        if spec_starts_with(m[0].0, prefix) {
            seq![(m[0].0.skip(prefix.len() as int), m[0].1)] + rest
        } else {
            rest
        }
    }
}

/// The page selected by the query parameters: `page` when it parses to a
/// positive number, 1 otherwise.
pub open spec fn spec_page(m: Seq<(Seq<char>, Seq<char>)>) -> usize {
    match spec_parse_usize(spec_get_meta(m, META_REQ_QUERY_PREFIX@ + "page"@)) {
        Some(p) => if p > 0 {
            p
        } else {
            1
        },
        None => 1,
    }
}

/// The page size selected by the query parameters: `page_size` when it
/// parses to a number in `1..=100`, the given default otherwise.
pub open spec fn spec_page_size(m: Seq<(Seq<char>, Seq<char>)>, default_page_size: usize) -> usize {
    match spec_parse_usize(spec_get_meta(m, META_REQ_QUERY_PREFIX@ + "page_size"@)) {
        Some(p) => if 0 < p <= 100 {
            p
        } else {
            default_page_size
        },
        None => default_page_size,
    }
}

impl Message {
    /// Create a new message with the given kind and data and no
    /// metadata.
    pub fn new(kind: &str, data: Vec<u8>) -> (m: Message)
        ensures
            m.kind@ == kind@,
            m.data == data,
            m.meta@ == Seq::<(Seq<char>, Seq<char>)>::empty(),
    {
        Message { kind: String::from_str(kind), data, meta: MetaMap::new() }
    }

    /// Get a metadata value by key, returning an empty string if absent.
    pub fn get_meta(&self, key: &str) -> (r: &str)
        ensures
            r@ == spec_get_meta(self.meta@, key@),
    {
        match self.meta.get(key) {
            Some(v) => v.as_str(),
            None => {
                proof {
                    reveal_strlit("");
                }
                ""
            },
        }
    }

    /// Set a metadata key-value pair, overwriting any earlier value.
    pub fn set_meta(&mut self, key: &str, value: &str)
        ensures
            final(self).meta@ == spec_insert(old(self).meta@, key@, value@),
            final(self).kind == old(self).kind,
            final(self).data == old(self).data,
    {
        self.meta.insert(String::from_str(key), String::from_str(value));
    }

    /// Wrap this message in an outcome that passes it on to the next
    /// pipeline stage.
    pub fn cont(self) -> (r: Result_)
        ensures
            r.action == Action::Continue,
            r.response is None,
            r.error is None,
            r.message == Some(self),
    {
        Result_ { action: Action::Continue, response: None, error: None, message: Some(self) }
    }

    /// Wrap this message in an outcome that short-circuits the pipeline
    /// with a response.
    pub fn respond(self, r: Response) -> (res: Result_)
        ensures
            res.action == Action::Respond,
            res.response == Some(r),
            res.error is None,
            res.message == Some(self),
    {
        Result_ { action: Action::Respond, response: Some(r), error: None, message: Some(self) }
    }

    /// Wrap this message in an outcome that silently drops it.
    pub fn drop_msg(self) -> (r: Result_)
        ensures
            r.action == Action::Drop,
            r.response is None,
            r.error is None,
            r.message == Some(self),
    {
        Result_ { action: Action::Drop, response: None, error: None, message: Some(self) }
    }

    /// Wrap this message in an outcome that short-circuits the pipeline
    /// with a structured error.
    pub fn err(self, e: WaferError) -> (r: Result_)
        ensures
            r.action == Action::Error,
            r.response is None,
            r.error == Some(e),
            r.message == Some(self),
    {
        Result_ { action: Action::Error, response: None, error: Some(e), message: Some(self) }
    }

    /// A path variable extracted by the router.
    pub fn var(&self, name: &str) -> (r: &str)
        ensures
            r@ == spec_get_meta(self.meta@, META_REQ_PARAM_PREFIX@ + name@),
    {
        let key = str_concat(META_REQ_PARAM_PREFIX, name);
        match self.meta.get(key.as_str()) {
            Some(v) => v.as_str(),
            None => {
                proof {
                    reveal_strlit("");
                }
                ""
            },
        }
    }

    /// A query parameter value.
    pub fn query(&self, name: &str) -> (r: &str)
        ensures
            r@ == spec_get_meta(self.meta@, META_REQ_QUERY_PREFIX@ + name@),
    {
        let key = str_concat(META_REQ_QUERY_PREFIX, name);
        match self.meta.get(key.as_str()) {
            Some(v) => v.as_str(),
            None => {
                proof {
                    reveal_strlit("");
                }
                ""
            },
        }
    }

    /// A request header value.
    pub fn header(&self, name: &str) -> (r: &str)
        ensures
            r@ == spec_get_meta(self.meta@, "http.header."@ + name@),
    {
        let key = str_concat("http.header.", name);
        match self.meta.get(key.as_str()) {
            Some(v) => v.as_str(),
            None => {
                proof {
                    reveal_strlit("");
                }
                ""
            },
        }
    }

    /// The semantic request action (retrieve, create, update, delete,
    /// execute).
    pub fn action(&self) -> (r: &str)
        ensures
            r@ == spec_get_meta(self.meta@, META_REQ_ACTION@),
    {
        self.get_meta(META_REQ_ACTION)
    }

    /// The request resource path.
    pub fn path(&self) -> (r: &str)
        ensures
            r@ == spec_get_meta(self.meta@, META_REQ_RESOURCE@),
    {
        self.get_meta(META_REQ_RESOURCE)
    }

    /// The request content type.
    pub fn content_type(&self) -> (r: &str)
        ensures
            r@ == spec_get_meta(self.meta@, META_REQ_CONTENT_TYPE@),
    {
        self.get_meta(META_REQ_CONTENT_TYPE)
    }

    /// The authenticated user's ID.
    pub fn user_id(&self) -> (r: &str)
        ensures
            r@ == spec_get_meta(self.meta@, META_AUTH_USER_ID@),
    {
        self.get_meta(META_AUTH_USER_ID)
    }

    /// The authenticated user's email.
    pub fn user_email(&self) -> (r: &str)
        ensures
            r@ == spec_get_meta(self.meta@, META_AUTH_USER_EMAIL@),
    {
        self.get_meta(META_AUTH_USER_EMAIL)
    }

    /// The authenticated user's roles, split at commas.
    pub fn user_roles(&self) -> (r: Vec<String>)
        ensures
            r.deep_view() == spec_roles(self.meta@),
    {
        let roles = self.get_meta(META_AUTH_USER_ROLES);
        if roles.unicode_len() == 0 {
            let r = Vec::new();
            proof {
                assert(r.deep_view() =~= Seq::<Seq<char>>::empty());
            }
            r
        } else {
            split_string(roles, ',')
        }
    }

    /// Whether the authenticated user has the `admin` role.
    pub fn is_admin(&self) -> (r: bool)
        ensures
            r == spec_roles(self.meta@).contains("admin"@),
    {
        let roles = self.user_roles();
        let n = roles.len();
        let mut i: usize = 0;
        while i < n
            invariant
                i <= n,
                n == roles.len(),
                roles.deep_view() == spec_roles(self.meta@),
                forall|j: int| 0 <= j < i ==> roles.deep_view()[j] != "admin"@,
            decreases n - i,
        {
            proof {
                assert(roles.deep_view()[i as int] == roles[i as int]@);
            }
            if str_eq(roles[i].as_str(), "admin") {
                return true;
            }
            i += 1;
        }
        proof {
            if spec_roles(self.meta@).contains("admin"@) {
                let w = choose|w: int|
                    0 <= w < spec_roles(self.meta@).len() && spec_roles(self.meta@)[w] == "admin"@;
            }
        }
        false
    }

    /// All query parameters, with the query prefix stripped from the
    /// keys, in metadata order.
    pub fn query_params(&self) -> (r: Vec<(String, String)>)
        ensures
            r.deep_view() == spec_prefixed_entries(self.meta@, META_REQ_QUERY_PREFIX@),
    {
        let entries = self.meta.entries();
        let n = entries.len();
        let mut out: Vec<(String, String)> = Vec::new();
        let mut i: usize = 0;
        proof {
            assert(self.meta@.skip(0) =~= self.meta@);
        }
        while i < n
            invariant
                i <= n,
                n == self.meta@.len(),
                entries.deep_view() == self.meta@,
                spec_prefixed_entries(self.meta@, META_REQ_QUERY_PREFIX@) == out.deep_view()
                    + spec_prefixed_entries(self.meta@.skip(i as int), META_REQ_QUERY_PREFIX@),
            decreases n - i,
        {
            let ghost pre = out.deep_view();
            proof {
                assert(self.meta@.skip(i as int)[0] == self.meta@[i as int]);
                assert(self.meta@.skip(i as int).skip(1) =~= self.meta@.skip(i as int + 1));
                assert(self.meta@[i as int] == (entries[i as int].0@, entries[i as int].1@));
            }
            let key = &entries[i].0;
            if crate::text::str_starts_with(key.as_str(), META_REQ_QUERY_PREFIX) {
                let kc = chars_of_str(key.as_str());
                let plen = META_REQ_QUERY_PREFIX.unicode_len();
                let mut stripped: Vec<char> = Vec::new();
                let mut j: usize = plen;
                while j < kc.len()
                    invariant
                        plen <= j <= kc.len(),
                        kc@ == key@,
                        stripped@ =~= key@.subrange(plen as int, j as int),
                    decreases kc.len() - j,
                {
                    stripped.push(kc[j]);
                    j += 1;
                }
                proof {
                    assert(stripped@ =~= key@.skip(plen as int));
                }
                let sk = string_from_chars(&stripped);
                let sv = entries[i].1.clone();
                out.push((sk, sv));
                proof {
                    assert(out.deep_view() =~= pre.push((key@.skip(plen as int), entries[i as int].1@)));
                    assert(seq![(key@.skip(plen as int), entries[i as int].1@)]
                        + spec_prefixed_entries(self.meta@.skip(i as int + 1), META_REQ_QUERY_PREFIX@)
                        =~= spec_prefixed_entries(self.meta@.skip(i as int), META_REQ_QUERY_PREFIX@));
                    assert(pre.push((key@.skip(plen as int), entries[i as int].1@))
                        + spec_prefixed_entries(self.meta@.skip(i as int + 1), META_REQ_QUERY_PREFIX@)
                        =~= pre + spec_prefixed_entries(self.meta@.skip(i as int), META_REQ_QUERY_PREFIX@));
                }
            }
            i += 1;
        }
        proof {
            assert(self.meta@.skip(n as int) =~= Seq::<(Seq<char>, Seq<char>)>::empty());
            assert(out.deep_view() + Seq::<(Seq<char>, Seq<char>)>::empty() =~= out.deep_view());
        }
        out
    }

    /// A named cookie value from the `Cookie` header.
    pub fn cookie(&self, name: &str) -> (r: String)
        ensures
            r@ == spec_cookie(spec_get_meta(self.meta@, "http.header.Cookie"@), name@),
    {
        let raw = self.get_meta("http.header.Cookie");
        if raw.unicode_len() == 0 {
            proof {
                reveal_strlit("");
            }
            return String::from_str("");
        }
        let parts = split_string(raw, ';');
        let n = parts.len();
        let mut i: usize = 0;
        proof {
            assert(parts.deep_view().skip(0) =~= parts.deep_view());
        }
        while i < n
            invariant
                i <= n,
                n == parts.len(),
                raw@ == spec_get_meta(self.meta@, "http.header.Cookie"@),
                raw@.len() != 0,
                parts.deep_view() == spec_split(raw@, ';'),
                cookie_scan(spec_split(raw@, ';'), name@) == cookie_scan(
                    parts.deep_view().skip(i as int),
                    name@,
                ),
            decreases n - i,
        {
            proof {
                assert(parts.deep_view().skip(i as int)[0] == parts.deep_view()[i as int]);
                assert(parts.deep_view().skip(i as int).skip(1) =~= parts.deep_view().skip(
                    i as int + 1,
                ));
                assert(parts.deep_view()[i as int] == parts[i as int]@);
            }
            let pc = chars_of_str(parts[i].as_str());
            let t = trim_chars(&pc);
            let ghost tv = spec_trim(parts.deep_view()[i as int]);
            let m = t.len();
            let mut e: usize = 0;
            let mut found: bool = false;
            while e < m && !found
                invariant
                    e <= m,
                    m == t@.len(),
                    t@ == tv,
                    found ==> e < m && t@[e as int] == '=' && first_eq_at(tv, 0) == e,
                    !found ==> first_eq_at(tv, 0) == first_eq_at(tv, e as int),
                decreases m - e, (if found { 0int } else { 1int }),
            {
                if t[e] == '=' {
                    found = true;
                } else {
                    e += 1;
                }
            }
            if found {
                // compare the key part with `name`
                let nlen = name.unicode_len();
                let mut same: bool = nlen == e;
                let mut j: usize = 0;
                while j < e && same
                    invariant
                        j <= e < m,
                        m == t@.len(),
                        t@ == tv,
                        nlen == name@.len(),
                        same ==> nlen == e && forall|w: int| 0 <= w < j ==> tv[w] == name@[w],
                        !same ==> tv.take(first_eq_at(tv, 0)) != name@,
                        first_eq_at(tv, 0) == e,
                    decreases e - j, (if same { 1int } else { 0int }),
                {
                    if t[j] != name.get_char(j) {
                        proof {
                            assert(tv.take(e as int)[j as int] != name@[j as int]);
                        }
                        same = false;
                    } else {
                        j += 1;
                    }
                }
                if same {
                    proof {
                        assert(tv.take(e as int) =~= name@);
                        assert(first_eq_at(tv, 0) == e && tv.take(e as int) == name@);
                        assert(cookie_scan(parts.deep_view().skip(i as int), name@) == tv.skip(
                            e + 1,
                        ));
                    }
                    let mut val: Vec<char> = Vec::new();
                    let mut w: usize = e + 1;
                    while w < m
                        invariant
                            e + 1 <= w <= m,
                            m == t@.len(),
                            t@ == tv,
                            val@ =~= tv.subrange(e + 1, w as int),
                        decreases m - w,
                    {
                        val.push(t[w]);
                        w += 1;
                    }
                    proof {
                        assert(val@ =~= tv.skip(e + 1));
                    }
                    return string_from_chars(&val);
                }
            } else {
                proof {
                    assert(first_eq_at(tv, 0) == -1);
                }
            }
            i += 1;
        }
        proof {
            assert(parts.deep_view().skip(n as int) =~= Seq::<Seq<char>>::empty());
            reveal_strlit("");
        }
        String::from_str("")
    }

    /// The client's remote address.
    pub fn remote_addr(&self) -> (r: &str)
        ensures
            r@ == spec_get_meta(self.meta@, META_REQ_CLIENT_IP@),
    {
        self.get_meta(META_REQ_CLIENT_IP)
    }

    /// The raw request body.
    pub fn body(&self) -> (r: &[u8])
        ensures
            r@ == self.data@,
    {
        self.data.as_slice()
    }

    /// The page, page size and offset selected by the `page` and
    /// `page_size` query parameters; the offset saturates instead of
    /// overflowing.
    pub fn pagination_params(&self, default_page_size: usize) -> (r: (usize, usize, usize))
        ensures
            r.0 == spec_page(self.meta@),
            r.1 == spec_page_size(self.meta@, default_page_size),
            r.2 == if (r.0 - 1) * r.1 <= usize::MAX {
                ((r.0 - 1) * r.1) as usize
            } else {
                usize::MAX
            },
    {
        let page = match parse_usize(self.query("page")) {
            Some(p) => if p > 0 {
                p
            } else {
                1
            },
            None => 1,
        };
        let page_size = match parse_usize(self.query("page_size")) {
            Some(p) => if 0 < p && p <= 100 {
                p
            } else {
                default_page_size
            },
            None => default_page_size,
        };
        let offset = match (page - 1).checked_mul(page_size) {
            Some(o) => o,
            None => usize::MAX,
        };
        (page, page_size, offset)
    }
}

impl Message {
    /// Parse the payload as a JSON value.
    pub fn unmarshal(&self) -> (r: Result<crate::json::Json, crate::json::DecodeError>)
        ensures
            match crate::text::bytes_chars(self.data@) {
                Some(cs) => (r matches Ok(j) ==> crate::json::sp_json(cs) == Some(j@)) && (
                r is Err ==> crate::json::sp_json(cs) is None),
                None => r is Err,
            },
    {
        match crate::text::str_from_utf8(self.data.as_slice()) {
            Some(s) => crate::json::json_parse(s),
            None => Err(crate::json::DecodeError::new("payload is not valid text")),
        }
    }

    /// Parse the payload as a JSON value; a second name for
    /// [`unmarshal`](Self::unmarshal).
    pub fn decode(&self) -> (r: Result<crate::json::Json, crate::json::DecodeError>)
        ensures
            match crate::text::bytes_chars(self.data@) {
                Some(cs) => (r matches Ok(j) ==> crate::json::sp_json(cs) == Some(j@)) && (
                r is Err ==> crate::json::sp_json(cs) is None),
                None => r is Err,
            },
    {
        self.unmarshal()
    }

    /// Serialize a JSON value as the payload.
    pub fn set_data(&mut self, v: &crate::json::Json)
        ensures
            final(self).data@ == vstd::utf8::encode_utf8(crate::json::emit(v@)),
            final(self).kind == old(self).kind,
            final(self).meta == old(self).meta,
    {
        let t = crate::json::json_emit(v);
        self.data = t.as_str().as_bytes_vec();
    }
}

impl Clone for Message {
    /// An exact copy, field by field.
    fn clone(&self) -> (r: Self)
        ensures
            r.kind@ == self.kind@,
            r.data@ == self.data@,
            r.meta@ == self.meta@,
    {
        Message { kind: self.kind.clone(), data: clone_bytes(&self.data), meta: self.meta.clone() }
    }
}

/// An exact copy of a byte vector.
pub fn clone_bytes(v: &Vec<u8>) -> (r: Vec<u8>)
    ensures
        r@ == v@,
{
    let mut out: Vec<u8> = Vec::new();
    let n = v.len();
    let mut i: usize = 0;
    while i < n
        invariant
            i <= n,
            n == v@.len(),
            out@ =~= v@.take(i as int),
        decreases n - i,
    {
        out.push(v[i]);
        i += 1;
    }
    proof {
        assert(v@.take(n as int) =~= v@);
    }
    out
}

// ---------------------------------------------------------------------
// RequestAction
// ---------------------------------------------------------------------
/// Semantic request action (transport-agnostic).
#[derive(Debug, Clone, Copy, PartialEq, Eq, Hash, Structural)]
pub enum RequestAction {
    Retrieve,
    Create,
    Update,
    Delete,
    Execute,
}

/// The token for each request action.
pub open spec fn request_action_str(a: RequestAction) -> Seq<char> {
    match a {
        RequestAction::Retrieve => "retrieve"@,
        RequestAction::Create => "create"@,
        RequestAction::Update => "update"@,
        RequestAction::Delete => "delete"@,
        RequestAction::Execute => "execute"@,
    }
}

/// The request action named by a token, if any.
pub open spec fn spec_parse_request_action(s: Seq<char>) -> Option<RequestAction> {
    if s == "retrieve"@ {
        Some(RequestAction::Retrieve)
    } else if s == "create"@ {
        Some(RequestAction::Create)
    } else if s == "update"@ {
        Some(RequestAction::Update)
    } else if s == "delete"@ {
        Some(RequestAction::Delete)
    } else if s == "execute"@ {
        Some(RequestAction::Execute)
    } else {
        None
    }
}

impl RequestAction {
    /// The lowercase token of this action.
    pub fn as_str(&self) -> (r: &'static str)
        ensures
            r@ == request_action_str(*self),
    {
        match self {
            RequestAction::Retrieve => "retrieve",
            RequestAction::Create => "create",
            RequestAction::Update => "update",
            RequestAction::Delete => "delete",
            RequestAction::Execute => "execute",
        }
    }

    /// Parse a token into a request action.
    pub fn parse(s: &str) -> (r: Option<RequestAction>)
        ensures
            r == spec_parse_request_action(s@),
    {
        if str_eq(s, "retrieve") {
            Some(RequestAction::Retrieve)
        } else if str_eq(s, "create") {
            Some(RequestAction::Create)
        } else if str_eq(s, "update") {
            Some(RequestAction::Update)
        } else if str_eq(s, "delete") {
            Some(RequestAction::Delete)
        } else if str_eq(s, "execute") {
            Some(RequestAction::Execute)
        } else {
            None
        }
    }
}

// ---------------------------------------------------------------------
// Action
// ---------------------------------------------------------------------
/// What the pipeline does after a block processes a message.
#[derive(Debug, Clone, Copy, PartialEq, Eq, Hash, Structural)]
pub enum Action {
    Continue,
    Respond,
    Drop,
    Error,
}

/// The exact lowercase wire token of each action tag.
pub open spec fn action_str(a: Action) -> Seq<char> {
    match a {
        Action::Continue => "continue"@,
        Action::Respond => "respond"@,
        Action::Drop => "drop"@,
        Action::Error => "error"@,
    }
}

/// The action a wire token decodes to: unknown tokens fall back to
/// `Continue`, the forward-compatibility policy of the protocol.
pub open spec fn spec_parse_action(s: Seq<char>) -> Action {
    if s == "continue"@ {
        Action::Continue
    } else if s == "respond"@ {
        Action::Respond
    } else if s == "drop"@ {
        Action::Drop
    } else if s == "error"@ {
        Action::Error
    } else {
        Action::Continue
    }
}

/// Each action tag's exact token reads back as that tag: the tag
/// survives a trip over the wire.
pub proof fn lemma_action_token_round_trip(a: Action)
    ensures
        spec_parse_action(action_str(a)) == a,
{
    reveal_strlit("continue");
    reveal_strlit("respond");
    reveal_strlit("drop");
    reveal_strlit("error");
    assert("continue"@.len() == 8 && "respond"@.len() == 7 && "drop"@.len() == 4 && "error"@.len()
        == 5);
}

impl Action {
    /// The lowercase wire token of this action.
    pub fn as_str(&self) -> (r: &'static str)
        ensures
            r@ == action_str(*self),
    {
        match self {
            Action::Continue => "continue",
            Action::Respond => "respond",
            Action::Drop => "drop",
            Action::Error => "error",
        }
    }

    /// Parse a wire token; an unknown token yields `Continue`.
    pub fn parse(s: &str) -> (r: Action)
        ensures
            r == spec_parse_action(s@),
    {
        if str_eq(s, "continue") {
            Action::Continue
        } else if str_eq(s, "respond") {
            Action::Respond
        } else if str_eq(s, "drop") {
            Action::Drop
        } else if str_eq(s, "error") {
            Action::Error
        } else {
            Action::Continue
        }
    }
}

// ---------------------------------------------------------------------
// Response
// ---------------------------------------------------------------------
/// Data carried back to the caller when a block short-circuits the
/// pipeline.
#[derive(Debug)]
pub struct Response {
    pub data: Vec<u8>,
    pub meta: MetaMap,
}

impl Response {
    /// A response with the given payload and no metadata.
    pub fn new(data: Vec<u8>) -> (r: Response)
        ensures
            r.data == data,
            r.meta@ == Seq::<(Seq<char>, Seq<char>)>::empty(),
    {
        Response { data, meta: MetaMap::new() }
    }
}

impl Clone for Response {
    /// An exact copy, field by field.
    fn clone(&self) -> (r: Self)
        ensures
            r.data@ == self.data@,
            r.meta@ == self.meta@,
    {
        Response { data: clone_bytes(&self.data), meta: self.meta.clone() }
    }
}

// ---------------------------------------------------------------------
// WaferError
// ---------------------------------------------------------------------
/// A structured error: a machine-readable code, a human-readable
/// message, and auxiliary metadata.
#[derive(Debug)]
pub struct WaferError {
    pub code: String,
    pub message: String,
    pub meta: MetaMap,
}

impl WaferError {
    /// A new error with the given code and message and no metadata.
    pub fn new(code: &str, message: &str) -> (e: WaferError)
        ensures
            e.code@ == code@,
            e.message@ == message@,
            e.meta@ == Seq::<(Seq<char>, Seq<char>)>::empty(),
    {
        WaferError {
            code: String::from_str(code),
            message: String::from_str(message),
            meta: MetaMap::new(),
        }
    }

    /// This error with one more metadata key-value pair.
    pub fn with_meta(self, key: &str, value: &str) -> (e: WaferError)
        ensures
            e.code == self.code,
            e.message == self.message,
            e.meta@ == spec_insert(self.meta@, key@, value@),
    {
        let mut e = self;
        e.meta.insert(String::from_str(key), String::from_str(value));
        e
    }

    /// The `code: message` rendering of this error.
    pub fn display_string(&self) -> (r: String)
        ensures
            r@ == self.code@ + ": "@ + self.message@,
    {
        let mut s = str_concat(self.code.as_str(), ": ");
        s.append(self.message.as_str());
        s
    }
}

impl Clone for WaferError {
    /// An exact copy, field by field.
    fn clone(&self) -> (r: Self)
        ensures
            r.code@ == self.code@,
            r.message@ == self.message@,
            r.meta@ == self.meta@,
    {
        WaferError {
            code: self.code.clone(),
            message: self.message.clone(),
            meta: self.meta.clone(),
        }
    }
}

// ---------------------------------------------------------------------
// Result_
// ---------------------------------------------------------------------
/// The outcome of a block processing one message: exactly one of four
/// terminal actions, with the auxiliary data that action calls for.
#[derive(Debug)]
pub struct Result_ {
    pub action: Action,
    pub response: Option<Response>,
    pub error: Option<WaferError>,
    pub message: Option<Message>,
}

/// The outcome invariant: `Respond` carries a response and no error,
/// `Error` carries an error and no response, `Continue` and `Drop` carry
/// neither.
pub open spec fn outcome_wf(r: Result_) -> bool {
    match r.action {
        Action::Respond => r.response is Some && r.error is None,
        Action::Error => r.error is Some && r.response is None,
        Action::Continue => r.response is None && r.error is None,
        Action::Drop => r.response is None && r.error is None,
    }
}

impl Result_ {
    /// A continue outcome carrying the given message.
    pub fn continue_with(msg: Message) -> (r: Result_)
        ensures
            r.action == Action::Continue,
            r.response is None,
            r.error is None,
            r.message == Some(msg),
            outcome_wf(r),
    {
        Result_ { action: Action::Continue, response: None, error: None, message: Some(msg) }
    }

    /// An error outcome carrying the given error.
    pub fn error(err: WaferError) -> (r: Result_)
        ensures
            r.action == Action::Error,
            r.response is None,
            r.error == Some(err),
            r.message is None,
            outcome_wf(r),
    {
        Result_ { action: Action::Error, response: None, error: Some(err), message: None }
    }
}

// ---------------------------------------------------------------------
// BlockInfo and InstanceMode
// ---------------------------------------------------------------------
/// Controls how many block instances the runtime creates.
#[derive(Debug, Clone, Copy, PartialEq, Eq, Hash, Structural)]
pub enum InstanceMode {
    PerNode,
    Singleton,
    PerChain,
    PerExecution,
}

/// The token for each instance mode.
pub open spec fn instance_mode_str(m: InstanceMode) -> Seq<char> {
    match m {
        InstanceMode::PerNode => "per-node"@,
        InstanceMode::Singleton => "singleton"@,
        InstanceMode::PerChain => "per-chain"@,
        InstanceMode::PerExecution => "per-execution"@,
    }
}

/// The instance mode named by a token; the empty token means the
/// default, and an unknown token is rejected.
pub open spec fn spec_parse_instance_mode(s: Seq<char>) -> Option<InstanceMode> {
    if s == "per-node"@ || s.len() == 0 {
        Some(InstanceMode::PerNode)
    } else if s == "singleton"@ {
        Some(InstanceMode::Singleton)
    } else if s == "per-chain"@ {
        Some(InstanceMode::PerChain)
    } else if s == "per-execution"@ {
        Some(InstanceMode::PerExecution)
    } else {
        None
    }
}

impl InstanceMode {
    /// The token of this mode.
    pub fn as_str(&self) -> (r: &'static str)
        ensures
            r@ == instance_mode_str(*self),
    {
        match self {
            InstanceMode::PerNode => "per-node",
            InstanceMode::Singleton => "singleton",
            InstanceMode::PerChain => "per-chain",
            InstanceMode::PerExecution => "per-execution",
        }
    }

    /// Parse a token into an instance mode.
    pub fn parse(s: &str) -> (r: Option<InstanceMode>)
        ensures
            r == spec_parse_instance_mode(s@),
    {
        if str_eq(s, "per-node") || s.unicode_len() == 0 {
            Some(InstanceMode::PerNode)
        } else if str_eq(s, "singleton") {
            Some(InstanceMode::Singleton)
        } else if str_eq(s, "per-chain") {
            Some(InstanceMode::PerChain)
        } else if str_eq(s, "per-execution") {
            Some(InstanceMode::PerExecution)
        } else {
            None
        }
    }
}

/// A block's static identity: name, version, declared interface, a human
/// summary, and its declared replication modes.
#[derive(Debug)]
pub struct BlockInfo {
    pub name: String,
    pub version: String,
    pub interface: String,
    pub summary: String,
    pub instance_mode: InstanceMode,
    pub allowed_modes: Vec<InstanceMode>,
}

// ---------------------------------------------------------------------
// LifecycleEvent
// ---------------------------------------------------------------------
/// The kind of a lifecycle transition.
#[derive(Debug, Clone, Copy, PartialEq, Eq, Structural)]
pub enum LifecycleType {
    Init,
    Start,
    Stop,
}

/// The wire token for each lifecycle type.
pub open spec fn lifecycle_type_str(t: LifecycleType) -> Seq<char> {
    match t {
        LifecycleType::Init => "init"@,
        LifecycleType::Start => "start"@,
        LifecycleType::Stop => "stop"@,
    }
}

/// The lifecycle type named by a wire token; an unknown token is
/// rejected (and treated as success further up).
pub open spec fn spec_parse_lifecycle_type(s: Seq<char>) -> Option<LifecycleType> {
    if s == "init"@ {
        Some(LifecycleType::Init)
    } else if s == "start"@ {
        Some(LifecycleType::Start)
    } else if s == "stop"@ {
        Some(LifecycleType::Stop)
    } else {
        None
    }
}

impl LifecycleType {
    /// The wire token of this lifecycle type.
    pub fn as_str(&self) -> (r: &'static str)
        ensures
            r@ == lifecycle_type_str(*self),
    {
        match self {
            LifecycleType::Init => "init",
            LifecycleType::Start => "start",
            LifecycleType::Stop => "stop",
        }
    }

    /// Parse a wire token into a lifecycle type.
    pub fn parse(s: &str) -> (r: Option<LifecycleType>)
        ensures
            r == spec_parse_lifecycle_type(s@),
    {
        if str_eq(s, "init") {
            Some(LifecycleType::Init)
        } else if str_eq(s, "start") {
            Some(LifecycleType::Start)
        } else if str_eq(s, "stop") {
            Some(LifecycleType::Stop)
        } else {
            None
        }
    }
}

/// A lifecycle event sent by the host at a phase transition, with its
/// opaque payload.
#[derive(Debug)]
pub struct LifecycleEvent {
    pub event_type: LifecycleType,
    pub data: Vec<u8>,
}

impl Clone for LifecycleEvent {
    /// An exact copy, field by field.
    fn clone(&self) -> (r: Self)
        ensures
            r.event_type == self.event_type,
            r.data@ == self.data@,
    {
        LifecycleEvent { event_type: self.event_type, data: clone_bytes(&self.data) }
    }
}

} // verus!
