//! Key/value metadata attached to messages, responses and errors.
//!
//! On the wire, metadata travels as an ordered sequence of `[key, value]`
//! pairs; in memory it is always a key-unique mapping.  `MetaMap` keeps
//! its entries in insertion order and resolves a duplicate key by
//! overwriting the earlier value in place, never by keeping both.  The
//! laws at the bottom state how folding an arbitrary pair sequence into a
//! map behaves: the result is key-unique, a pair sequence that already is
//! key-unique folds to itself, and for a duplicated key the last value
//! written wins.

use vstd::prelude::*;
use crate::text::str_eq;

verus! {

pub const META_REQ_ACTION: &'static str = "req.action";

pub const META_REQ_RESOURCE: &'static str = "req.resource";

pub const META_REQ_PARAM_PREFIX: &'static str = "req.param.";

pub const META_REQ_QUERY_PREFIX: &'static str = "req.query.";

pub const META_REQ_CLIENT_IP: &'static str = "req.client.ip";

pub const META_REQ_CONTENT_TYPE: &'static str = "req.content_type";

pub const META_AUTH_USER_ID: &'static str = "auth.user_id";

pub const META_AUTH_USER_EMAIL: &'static str = "auth.user_email";

pub const META_AUTH_USER_ROLES: &'static str = "auth.user_roles";

pub const META_RESP_STATUS: &'static str = "resp.status";

pub const META_RESP_CONTENT_TYPE: &'static str = "resp.content_type";

pub const META_RESP_HEADER_PREFIX: &'static str = "resp.header.";

pub const META_RESP_COOKIE_PREFIX: &'static str = "resp.set_cookie.";

/// An entry sequence is key-unique: no two entries share a key.
pub open spec fn keys_unique(s: Seq<(Seq<char>, Seq<char>)>) -> bool {
    forall|i: int, j: int| 0 <= i < j < s.len() ==> (#[trigger] s[i]).0 != (#[trigger] s[j]).0
}

/// Whether some entry has the given key.
pub open spec fn seq_contains_key(s: Seq<(Seq<char>, Seq<char>)>, k: Seq<char>) -> bool {
    exists|i: int| 0 <= i < s.len() && (#[trigger] s[i]).0 == k
}

/// The value at the first entry with the given key, scanning from the
/// front.
pub open spec fn seq_lookup(s: Seq<(Seq<char>, Seq<char>)>, k: Seq<char>) -> Option<Seq<char>>
    decreases s.len(),
{
    if s.len() == 0 {
        None
    } else if s[0].0 == k {
        Some(s[0].1)
    } else {
        seq_lookup(s.skip(1), k)
    }
}

/// The value at the last entry with the given key, scanning from the
/// back.
pub open spec fn seq_lookup_last(s: Seq<(Seq<char>, Seq<char>)>, k: Seq<char>) -> Option<Seq<char>>
    decreases s.len(),
{
    if s.len() == 0 {
        None
    } else if s.last().0 == k {
        Some(s.last().1)
    } else {
        seq_lookup_last(s.drop_last(), k)
    }
}

/// Inserting into an entry sequence: an existing key has its value
/// replaced in place, a fresh key is appended.
pub open spec fn spec_insert(
    s: Seq<(Seq<char>, Seq<char>)>,
    k: Seq<char>,
    v: Seq<char>,
) -> Seq<(Seq<char>, Seq<char>)>
    decreases s.len(),
{
    if s.len() == 0 {
        seq![(k, v)]
    } else if s[0].0 == k {
        seq![(k, v)] + s.skip(1)
    } else {
        seq![s[0]] + spec_insert(s.skip(1), k, v)
    }
}

/// Folding an ordered pair sequence into a key-unique entry sequence,
/// inserting left to right so that a later duplicate overwrites.
pub open spec fn spec_fold(s: Seq<(Seq<char>, Seq<char>)>) -> Seq<(Seq<char>, Seq<char>)>
    decreases s.len(),
{
    if s.len() == 0 {
        Seq::empty()
    } else {
        spec_insert(spec_fold(s.drop_last()), s.last().0, s.last().1)
    }
}

/// A key-unique string-to-string mapping that remembers insertion order.
#[derive(Debug)]
pub struct MetaMap {
    entries: Vec<(String, String)>,
}

impl View for MetaMap {
    type V = Seq<(Seq<char>, Seq<char>)>;

    closed spec fn view(&self) -> Seq<(Seq<char>, Seq<char>)> {
        self.entries.deep_view()
    }
}

impl MetaMap {
    /// The well-formedness every `MetaMap` maintains: keys are unique.
    #[verifier::type_invariant]
    pub closed spec fn wf(self) -> bool {
        keys_unique(self@)
    }

    /// Every `MetaMap` held by executable code is key-unique; this lets
    /// a caller bring that fact into scope.
    pub fn keys_are_unique(&self)
        ensures
            keys_unique(self@),
    {
        proof {
            use_type_invariant(self);
        }
    }

    /// An empty mapping.
    pub fn new() -> (m: MetaMap)
        ensures
            m@ == Seq::<(Seq<char>, Seq<char>)>::empty(),
    {
        let m = MetaMap { entries: Vec::new() };
        proof {
            assert(m@ =~= Seq::<(Seq<char>, Seq<char>)>::empty());
        }
        m
    }

    /// The number of entries.
    pub fn len(&self) -> (n: usize)
        ensures
            n == self@.len(),
    {
        self.entries.len()
    }

    /// Read access to the entries, in insertion order.
    pub fn entries(&self) -> (r: &Vec<(String, String)>)
        ensures
            r.deep_view() == self@,
    {
        &self.entries
    }

    /// The value stored under `key`, if any.
    pub fn get(&self, key: &str) -> (r: Option<&String>)
        ensures
            match r {
                Some(v) => seq_lookup(self@, key@) == Some(v@),
                None => seq_lookup(self@, key@) is None,
            },
    {
        let n = self.entries.len();
        let mut i: usize = 0;
        proof {
            assert(self@.skip(0) =~= self@);
        }
        while i < n
            invariant
                i <= n,
                n == self@.len(),
                self@ == self.entries.deep_view(),
                seq_lookup(self@, key@) == seq_lookup(self@.skip(i as int), key@),
            decreases n - i,
        {
            proof {
                assert(self@.skip(i as int)[0] == self@[i as int]);
                assert(self@.skip(i as int).skip(1) =~= self@.skip(i as int + 1));
                assert(self@[i as int].0 == self.entries[i as int].0@);
            }
            if str_eq(self.entries[i].0.as_str(), key) {
                return Some(&self.entries[i].1);
            }
            i += 1;
        }
        proof {
            assert(self@.skip(n as int) =~= Seq::<(Seq<char>, Seq<char>)>::empty());
        }
        None
    }

    /// Whether `key` is present.
    pub fn contains_key(&self, key: &str) -> (r: bool)
        ensures
            r == seq_contains_key(self@, key@),
    {
        proof {
            lemma_lookup_contains(self@, key@);
        }
        match self.get(key) {
            Some(_) => true,
            None => false,
        }
    }

    /// Store `value` under `key`, overwriting in place if the key is
    /// already present, appending otherwise.
    pub fn insert(&mut self, key: String, value: String)
        ensures
            final(self)@ == spec_insert(old(self)@, key@, value@),
    {
        proof {
            use_type_invariant(&*self);
        }
        let mut v: Vec<(String, String)> = Vec::new();
        core::mem::swap(&mut v, &mut self.entries);
        let ghost pre = v.deep_view();
        let n = v.len();
        let mut i: usize = 0;
        while i < n
            invariant
                i <= n,
                n == pre.len(),
                pre == v.deep_view(),
                pre == old(self)@,
                keys_unique(pre),
                forall|j: int| 0 <= j < i ==> (#[trigger] pre[j]).0 != key@,
            decreases n - i,
        {
            proof {
                assert(pre[i as int].0 == v[i as int].0@);
            }
            if str_eq(v[i].0.as_str(), key.as_str()) {
                v.set(i, (key, value));
                proof {
                    assert(v.deep_view() =~= pre.update(i as int, (key@, value@)));
                    lemma_insert_is_update(pre, key@, value@, i as int);
                    assert(keys_unique(v.deep_view())) by {
                        lemma_insert_unique(pre, key@, value@);
                    }
                }
                self.entries = v;
                return ;
            }
            i += 1;
        }
        v.push((key, value));
        proof {
            assert(v.deep_view() =~= pre.push((key@, value@)));
            lemma_insert_is_push(pre, key@, value@);
            assert(keys_unique(v.deep_view())) by {
                lemma_insert_unique(pre, key@, value@);
            }
        }
        self.entries = v;
    }

    /// Build a mapping from an ordered pair sequence, later duplicate
    /// keys overwriting earlier ones.
    pub fn from_pairs(pairs: &Vec<(String, String)>) -> (m: MetaMap)
        ensures
            m@ == spec_fold(pairs.deep_view()),
    {
        let mut m = MetaMap::new();
        let n = pairs.len();
        let mut i: usize = 0;
        proof {
            assert(pairs.deep_view().take(0) =~= Seq::<(Seq<char>, Seq<char>)>::empty());
        }
        while i < n
            invariant
                i <= n,
                n == pairs.deep_view().len(),
                m@ == spec_fold(pairs.deep_view().take(i as int)),
            decreases n - i,
        {
            let k = pairs[i].0.clone();
            let v = pairs[i].1.clone();
            proof {
                assert(pairs.deep_view()[i as int] == (pairs[i as int].0@, pairs[i as int].1@));
                let p = pairs.deep_view().take(i + 1);
                assert(p.drop_last() =~= pairs.deep_view().take(i as int));
                assert(p.last() == pairs.deep_view()[i as int]);
            }
            m.insert(k, v);
            i += 1;
        }
        proof {
            assert(pairs.deep_view().take(n as int) =~= pairs.deep_view());
        }
        m
    }

    /// A copy of the entries as owned pairs, in order.
    pub fn to_pairs(&self) -> (r: Vec<(String, String)>)
        ensures
            r.deep_view() == self@,
    {
        let n = self.entries.len();
        let mut out: Vec<(String, String)> = Vec::new();
        let mut i: usize = 0;
        while i < n
            invariant
                i <= n,
                n == self@.len(),
                self@ == self.entries.deep_view(),
                out.deep_view() =~= self@.take(i as int),
            decreases n - i,
        {
            let k = self.entries[i].0.clone();
            let v = self.entries[i].1.clone();
            let ghost pre = out.deep_view();
            out.push((k, v));
            proof {
                assert(out.deep_view() =~= pre.push((k@, v@)));
                assert(self@[i as int] == (self.entries[i as int].0@, self.entries[i as int].1@));
                assert(out.deep_view() =~= self@.take(i as int + 1));
            }
            i += 1;
        }
        proof {
            assert(self@.take(n as int) =~= self@);
        }
        out
    }
}

impl Clone for MetaMap {
    /// An exact copy: the clone has the same entries.
    fn clone(&self) -> (r: Self)
        ensures
            r@ == self@,
    {
        proof {
            use_type_invariant(self);
        }
        let pairs = self.to_pairs();
        let r = MetaMap { entries: pairs };
        proof {
            assert(r@ =~= self@);
        }
        r
    }
}

/// A lookup succeeds exactly when the key is present.
pub proof fn lemma_lookup_contains(s: Seq<(Seq<char>, Seq<char>)>, k: Seq<char>)
    ensures
        seq_lookup(s, k) is Some <==> seq_contains_key(s, k),
    decreases s.len(),
{
    if s.len() > 0 {
        lemma_lookup_contains(s.skip(1), k);
        if s[0].0 == k {
        } else {
            assert forall|i: int| 0 <= i < s.len() && (#[trigger] s[i]).0 == k implies
                seq_contains_key(s.skip(1), k) by {
                assert(s.skip(1)[i - 1] == s[i]);
            }
            assert forall|i: int|
                0 <= i < s.skip(1).len() && (#[trigger] s.skip(1)[i]).0 == k implies
                seq_contains_key(s, k) by {
                assert(s[i + 1] == s.skip(1)[i]);
            }
        }
    }
}

/// When the first occurrence of `k` in a key-unique sequence is at `i`,
/// inserting `(k, v)` is updating index `i`.
proof fn lemma_insert_is_update(s: Seq<(Seq<char>, Seq<char>)>, k: Seq<char>, v: Seq<char>, i: int)
    requires
        0 <= i < s.len(),
        s[i].0 == k,
        forall|j: int| 0 <= j < i ==> (#[trigger] s[j]).0 != k,
    ensures
        spec_insert(s, k, v) == s.update(i, (k, v)),
    decreases i,
{
    if i == 0 {
        assert(spec_insert(s, k, v) == seq![(k, v)] + s.skip(1));
        assert(seq![(k, v)] + s.skip(1) =~= s.update(0, (k, v)));
    } else {
        assert(s.skip(1)[i - 1] == s[i]);
        assert(forall|j: int| 0 <= j < i - 1 ==> (#[trigger] s.skip(1)[j]).0 != k) by {
            assert(forall|j: int| 0 <= j < i - 1 ==> s.skip(1)[j] == s[j + 1]);
        }
        lemma_insert_is_update(s.skip(1), k, v, i - 1);
        assert(seq![s[0]] + s.skip(1).update(i - 1, (k, v)) =~= s.update(i, (k, v)));
    }
}

/// When `k` is absent, inserting `(k, v)` is appending.
pub proof fn lemma_insert_is_push(s: Seq<(Seq<char>, Seq<char>)>, k: Seq<char>, v: Seq<char>)
    requires
        forall|j: int| 0 <= j < s.len() ==> (#[trigger] s[j]).0 != k,
    ensures
        spec_insert(s, k, v) == s.push((k, v)),
    decreases s.len(),
{
    if s.len() == 0 {
        assert(seq![(k, v)] =~= s.push((k, v)));
    } else {
        assert(forall|j: int| 0 <= j < s.skip(1).len() ==> (#[trigger] s.skip(1)[j]).0 != k) by {
            assert(forall|j: int| 0 <= j < s.skip(1).len() ==> s.skip(1)[j] == s[j + 1]);
        }
        lemma_insert_is_push(s.skip(1), k, v);
        assert(seq![s[0]] + s.skip(1).push((k, v)) =~= s.push((k, v)));
    }
}

/// What a lookup sees after an insert: the inserted key now maps to the
/// new value, every other key is untouched.
pub proof fn lemma_insert_lookup(
    s: Seq<(Seq<char>, Seq<char>)>,
    k: Seq<char>,
    v: Seq<char>,
    q: Seq<char>,
)
    ensures
        seq_lookup(spec_insert(s, k, v), q) == if q == k {
            Some(v)
        } else {
            seq_lookup(s, q)
        },
    decreases s.len(),
{
    let t = spec_insert(s, k, v);
    if s.len() == 0 {
        assert(t == seq![(k, v)]);
        assert(t[0] == (k, v));
        assert(t.skip(1) =~= Seq::<(Seq<char>, Seq<char>)>::empty());
        if q == k {
            assert(seq_lookup(t, q) == Some(v));
        } else {
            assert(seq_lookup(t, q) == seq_lookup(t.skip(1), q));
        }
    } else if s[0].0 == k {
        assert(t == seq![(k, v)] + s.skip(1));
        assert(t[0] == (k, v));
        assert(t.skip(1) =~= s.skip(1));
        if q == k {
            assert(seq_lookup(t, q) == Some(v));
        } else {
            assert(seq_lookup(t, q) == seq_lookup(s.skip(1), q));
            assert(seq_lookup(s, q) == seq_lookup(s.skip(1), q));
        }
    } else {
        assert(t == seq![s[0]] + spec_insert(s.skip(1), k, v));
        assert(t[0] == s[0]);
        assert(t.len() > 0);
        assert(t.skip(1) =~= spec_insert(s.skip(1), k, v));
        lemma_insert_lookup(s.skip(1), k, v, q);
        if t[0].0 == q {
            assert(seq_lookup(t, q) == Some(s[0].1));
            assert(seq_lookup(s, q) == Some(s[0].1));
        } else {
            assert(seq_lookup(t, q) == seq_lookup(spec_insert(s.skip(1), k, v), q));
            assert(seq_lookup(s, q) == seq_lookup(s.skip(1), q));
        }
    }
}

/// Inserting preserves key-uniqueness.
pub proof fn lemma_insert_unique(s: Seq<(Seq<char>, Seq<char>)>, k: Seq<char>, v: Seq<char>)
    requires
        keys_unique(s),
    ensures
        keys_unique(spec_insert(s, k, v)),
    decreases s.len(),
{
    let t = spec_insert(s, k, v);
    if s.len() == 0 {
    } else if s[0].0 == k {
        assert(t =~= s.update(0, (k, v)));
        assert forall|i: int, j: int| 0 <= i < j < t.len() implies (#[trigger] t[i]).0 != (
        #[trigger] t[j]).0 by {
            assert(s[i].0 != s[j].0);
        }
    } else {
        assert(keys_unique(s.skip(1))) by {
            assert(forall|i: int|
                0 <= i < s.skip(1).len() ==> #[trigger] s.skip(1)[i] == s[i + 1]);
        }
        lemma_insert_unique(s.skip(1), k, v);
        lemma_insert_keys(s.skip(1), k, v);
        assert(t[0] == s[0]);
        assert(t.skip(1) =~= spec_insert(s.skip(1), k, v));
        assert forall|i: int, j: int| 0 <= i < j < t.len() implies (#[trigger] t[i]).0 != (
        #[trigger] t[j]).0 by {
            if i == 0 {
                assert(t[j] == t.skip(1)[j - 1]);
                let u = spec_insert(s.skip(1), k, v);
                assert(u[j - 1].0 == k || seq_contains_key(s.skip(1), u[j - 1].0));
                if u[j - 1].0 != k {
                    let w = choose|w: int|
                        0 <= w < s.skip(1).len() && (#[trigger] s.skip(1)[w]).0 == u[j - 1].0;
                    assert(s[w + 1] == s.skip(1)[w]);
                    assert(s[0].0 != s[w + 1].0);
                }
            } else {
                assert(t[i] == t.skip(1)[i - 1] && t[j] == t.skip(1)[j - 1]);
            }
        }
    }
}

/// Every key of an inserted sequence is the inserted key or one of the
/// original keys.
proof fn lemma_insert_keys(s: Seq<(Seq<char>, Seq<char>)>, k: Seq<char>, v: Seq<char>)
    ensures
        forall|i: int|
            0 <= i < spec_insert(s, k, v).len() ==> ((#[trigger] spec_insert(s, k, v)[i]).0 == k
                || seq_contains_key(s, spec_insert(s, k, v)[i].0)),
    decreases s.len(),
{
    let t = spec_insert(s, k, v);
    if s.len() == 0 {
    } else if s[0].0 == k {
        assert forall|i: int| 0 <= i < t.len() implies ((#[trigger] t[i]).0 == k
            || seq_contains_key(s, t[i].0)) by {
            if i > 0 {
                assert(t[i] == s.skip(1)[i - 1]);
                assert(s[i] == s.skip(1)[i - 1]);
            }
        }
    } else {
        lemma_insert_keys(s.skip(1), k, v);
        assert forall|i: int| 0 <= i < t.len() implies ((#[trigger] t[i]).0 == k
            || seq_contains_key(s, t[i].0)) by {
            if i == 0 {
                assert(t[0] == s[0]);
            } else {
                assert(t[i] == spec_insert(s.skip(1), k, v)[i - 1]);
                if t[i].0 != k {
                    let w = choose|w: int|
                        0 <= w < s.skip(1).len() && (#[trigger] s.skip(1)[w]).0 == t[i].0;
                    assert(s[w + 1] == s.skip(1)[w]);
                }
            }
        }
    }
}

/// Folding always yields a key-unique sequence: the in-memory model never
/// holds a duplicate key, whatever arrived on the wire.
pub proof fn lemma_fold_unique(s: Seq<(Seq<char>, Seq<char>)>)
    ensures
        keys_unique(spec_fold(s)),
    decreases s.len(),
{
    if s.len() == 0 {
    } else {
        lemma_fold_unique(s.drop_last());
        lemma_insert_unique(spec_fold(s.drop_last()), s.last().0, s.last().1);
    }
}

/// Folding a pair sequence that is already key-unique gives back exactly
/// that sequence: a round trip through the wire keeps a key-unique
/// mapping, entries and order intact.
pub proof fn lemma_fold_identity(s: Seq<(Seq<char>, Seq<char>)>)
    requires
        keys_unique(s),
    ensures
        spec_fold(s) == s,
    decreases s.len(),
{
    if s.len() > 0 {
        assert(keys_unique(s.drop_last())) by {
            assert(forall|i: int|
                0 <= i < s.drop_last().len() ==> #[trigger] s.drop_last()[i] == s[i]);
        }
        lemma_fold_identity(s.drop_last());
        assert(forall|j: int| 0 <= j < s.drop_last().len() ==> (#[trigger] s.drop_last()[j]).0
            != s.last().0);
        lemma_insert_is_push(s.drop_last(), s.last().0, s.last().1);
        assert(s.drop_last().push(s.last()) =~= s);
    }
}

/// After folding, each key holds the value of its last pair on the wire:
/// a later duplicate overwrites an earlier one.
pub proof fn lemma_fold_last_wins(s: Seq<(Seq<char>, Seq<char>)>, q: Seq<char>)
    ensures
        seq_lookup(spec_fold(s), q) == seq_lookup_last(s, q),
    decreases s.len(),
{
    if s.len() == 0 {
    } else {
        lemma_fold_last_wins(s.drop_last(), q);
        lemma_insert_lookup(spec_fold(s.drop_last()), s.last().0, s.last().1, q);
    }
}

} // verus!
