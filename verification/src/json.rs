//! A JSON document as plain values, with the lookups the Compose isolation
//! rules read: object members by key, strings, booleans and arrays.
use vstd::prelude::*;
use vstd::string::StringExecFns;

verus! {

/// A JSON value. An object keeps its members in the order the parser gave them.
#[derive(Debug)]
pub enum JsonValue {
    Null,
    Bool(bool),
    Number,
    Str(String),
    Array(Vec<JsonValue>),
    Object(Vec<(String, JsonValue)>),
}

/// `serde_json::Value`, which the parse below produces and converts.
#[verifier::external_type_specification]
#[verifier::external_body]
pub struct ExJsonDocument(serde_json::Value);

/// What `serde_json::from_slice::<serde_json::Value>` makes of `bytes`, as a
/// `JsonValue`: `None` when they are not one JSON document.
pub uninterp spec fn json_document(bytes: Seq<u8>) -> Option<JsonValue>;

/// Converts a parsed `serde_json::Value` variant by variant, numbers
/// becoming `Number` and object members kept in the order the map yields them.
#[verifier::external_body]
fn json_model(value: serde_json::Value) -> JsonValue {
    match value {
        serde_json::Value::Null => JsonValue::Null,
        serde_json::Value::Bool(flag) => JsonValue::Bool(flag),
        serde_json::Value::Number(_) => JsonValue::Number,
        serde_json::Value::String(text) => JsonValue::Str(text),
        serde_json::Value::Array(items) => JsonValue::Array(items.into_iter().map(json_model).collect()),
        serde_json::Value::Object(members) => JsonValue::Object(
            members.into_iter().map(|(key, item)| (key, json_model(item))).collect(),
        ),
    }
}

/// Calls `serde_json::from_slice::<serde_json::Value>` and converts the
/// document, with a parse error mapped to `None`. Trusted: the result is the
/// crate's parse of `bytes`, named `json_document`.
#[verifier::external_body]
pub(crate) fn parse_json(bytes: &[u8]) -> (r: Option<JsonValue>)
    ensures
        r == json_document(bytes@),
{
    match serde_json::from_slice::<serde_json::Value>(bytes) {
        Ok(value) => Some(json_model(value)),
        Err(_) => None,
    }
}

/// The value of the first member named `key` among `members`.
pub open spec fn member(members: Seq<(String, JsonValue)>, key: Seq<char>) -> Option<JsonValue>
    decreases members.len(),
{
    if members.len() == 0 {
        None
    } else if members[0].0@ == key {
        Some(members[0].1)
    } else {
        member(members.drop_first(), key)
    }
}

/// `Value::get(key)`: the member named `key` of an object; `None` for any other value.
pub open spec fn json_get(v: JsonValue, key: Seq<char>) -> Option<JsonValue> {
    match v {
        JsonValue::Object(members) => member(members@, key),
        _ => None,
    }
}

/// The text of a string value.
pub open spec fn json_str(v: Option<JsonValue>) -> Option<Seq<char>> {
    match v {
        Some(JsonValue::Str(s)) => Some(s@),
        _ => None,
    }
}

/// The value of a boolean.
pub open spec fn json_bool(v: Option<JsonValue>) -> Option<bool> {
    match v {
        Some(JsonValue::Bool(b)) => Some(b),
        _ => None,
    }
}

/// A value that is present and not empty: a non-empty array or object, or any
/// string, number or boolean. Absent values and `null` hold nothing.
pub open spec fn has_items(v: Option<JsonValue>) -> bool {
    match v {
        None => false,
        Some(JsonValue::Null) => false,
        Some(JsonValue::Array(items)) => items@.len() > 0,
        Some(JsonValue::Object(members)) => members@.len() > 0,
        Some(_) => true,
    }
}

impl JsonValue {
    /// `Value::get(key)`.
    #[verifier::loop_isolation(false)]
    pub fn get(&self, key: &str) -> (r: Option<&JsonValue>)
        ensures
            match r {
                Some(v) => json_get(*self, key@) == Some(*v),
                None => json_get(*self, key@) is None,
            },
    {
        match self {
            JsonValue::Object(members) => {
                let n = members.len();
                let wanted = String::from_str(key);
                let mut i: usize = 0;
                assert(members@.skip(0) == members@);
                while i < n
                    invariant
                        n == members@.len(),
                        i <= n,
                        member(members@, key@) == member(members@.skip(i as int), key@),
                    decreases n - i,
                {
                    assert(members@.skip(i as int).drop_first() == members@.skip(i + 1));
                    assert(members@.skip(i as int)[0] == members@[i as int]);
                    if members[i].0 == wanted {
                        return Some(&members[i].1);
                    }
                    i = i + 1;
                }
                None
            },
            _ => None,
        }
    }

    /// `Value::as_str`.
    pub fn as_str(&self) -> (r: Option<&str>)
        ensures
            match r {
                Some(s) => json_str(Some(*self)) == Some(s@),
                None => json_str(Some(*self)) is None,
            },
    {
        match self {
            JsonValue::Str(s) => Some(s.as_str()),
            _ => None,
        }
    }

    /// `Value::as_bool`.
    pub fn as_bool(&self) -> (r: Option<bool>)
        ensures
            r == json_bool(Some(*self)),
    {
        match self {
            JsonValue::Bool(b) => Some(*b),
            _ => None,
        }
    }
}

/// Whether a looked-up value is present and not empty.
pub fn value_has_items(v: Option<&JsonValue>) -> (r: bool)
    ensures
        r == has_items(
            match v {
                Some(x) => Some(*x),
                None => None,
            },
        ),
{
    match v {
        None => false,
        Some(JsonValue::Null) => false,
        Some(JsonValue::Array(items)) => items.len() > 0,
        Some(JsonValue::Object(members)) => members.len() > 0,
        Some(_) => true,
    }
}


// ---------------------------------------------------------------------------
// Adding configuration
// ---------------------------------------------------------------------------
/// One level of nesting fewer (never below 0).
pub open spec fn inner(n: nat) -> nat {
    if n == 0 {
        0
    } else {
        (n - 1) as nat
    }
}

/// `f` places the indices `0..small_len` among `0..big_len`, keeping their order.
pub open spec fn order_embedding(f: spec_fn(int) -> int, small_len: int, big_len: int) -> bool {
    &&& forall|i: int| 0 <= i < small_len ==> 0 <= #[trigger] f(i) < big_len
    &&& forall|i: int, j: int| 0 <= i < j < small_len ==> #[trigger] f(i) < #[trigger] f(j)
}

/// `f` places the members of `small` among those of `big`, in order and under
/// the same keys, and every other member of `big` has a key `small` does not use.
pub open spec fn member_embedding(
    big: Seq<(String, JsonValue)>,
    small: Seq<(String, JsonValue)>,
    f: spec_fn(int) -> int,
) -> bool {
    &&& order_embedding(f, small.len() as int, big.len() as int)
    &&& forall|i: int| 0 <= i < small.len() ==> big[#[trigger] f(i)].0@ == small[i].0@
    &&& forall|j: int, i: int|
        0 <= j < big.len() && 0 <= i < small.len() && #[trigger] big[j].0@ == #[trigger] small[i].0@
            ==> exists|k: int| 0 <= k < small.len() && #[trigger] f(k) == j
}

/// `big` is `small` with configuration added, down to `n` levels of nesting:
/// objects may gain members under new keys and arrays may gain elements,
/// anywhere among the old ones, while every old member and element stays, in
/// order, itself extended one level less deep; every other value is unchanged.
/// Adding configuration to a document `d` levels deep is `extends_at` with
/// `n` at least `d`.
pub open spec fn extends_at(big: JsonValue, small: JsonValue, n: nat) -> bool
    decreases n,
{
    if n == 0 {
        big == small
    } else {
        match small {
            JsonValue::Object(sm) => big matches JsonValue::Object(bm) && exists|f: spec_fn(int) -> int|
                #[trigger] member_embedding(bm@, sm@, f) && forall|i: int|
                    0 <= i < sm@.len() ==> extends_at(bm@[f(i)].1, sm@[i].1, (n - 1) as nat),
            JsonValue::Array(sa) => big matches JsonValue::Array(ba) && exists|f: spec_fn(int) -> int|
                #[trigger] order_embedding(f, sa@.len() as int, ba@.len() as int) && forall|i: int|
                    0 <= i < sa@.len() ==> extends_at(ba@[f(i)], sa@[i], (n - 1) as nat),
            _ => big == small,
        }
    }
}

/// The first member named `key` is at `i`.
pub proof fn lemma_member_first(ms: Seq<(String, JsonValue)>, key: Seq<char>, i: int)
    requires
        0 <= i < ms.len(),
        ms[i].0@ == key,
        forall|j: int| 0 <= j < i ==> ms[j].0@ != key,
    ensures
        member(ms, key) == Some(ms[i].1),
    decreases i,
{
    if i > 0 {
        let rest = ms.drop_first();
        assert(ms[0].0@ != key);
        assert forall|j: int| 0 <= j < i - 1 implies rest[j].0@ != key by {
            assert(rest[j] == ms[j + 1]);
        }
        lemma_member_first(rest, key, i - 1);
    }
}

/// Where the member that `member` finds lies.
pub proof fn lemma_member_index(ms: Seq<(String, JsonValue)>, key: Seq<char>) -> (i: int)
    requires
        member(ms, key) is Some,
    ensures
        0 <= i < ms.len(),
        ms[i].0@ == key,
        member(ms, key) == Some(ms[i].1),
        forall|j: int| 0 <= j < i ==> ms[j].0@ != key,
    decreases ms.len(),
{
    if ms[0].0@ == key {
        0
    } else {
        let rest = ms.drop_first();
        let k = lemma_member_index(rest, key);
        assert forall|j: int| 0 <= j < k + 1 implies ms[j].0@ != key by {
            if j > 0 {
                assert(ms[j] == rest[j - 1]);
            }
        }
        k + 1
    }
}

/// A member of an object that was extended is still there, extended.
pub proof fn lemma_member_kept(big: JsonValue, small: JsonValue, n: nat, i: int) -> (j: int)
    requires
        extends_at(big, small, n),
        small matches JsonValue::Object(sm) && 0 <= i < sm@.len(),
    ensures
        big matches JsonValue::Object(bm) && 0 <= j < bm@.len() && bm@[j].0@ == small->Object_0@[i].0@
            && extends_at(bm@[j].1, small->Object_0@[i].1, inner(n)),
{
    if n == 0 {
        i
    } else {
        let sm = small->Object_0@;
        let bm = big->Object_0@;
        let f = choose|f: spec_fn(int) -> int|
            #[trigger] member_embedding(bm, sm, f) && forall|k: int|
                0 <= k < sm.len() ==> extends_at(bm[f(k)].1, sm[k].1, (n - 1) as nat);
        f(i)
    }
}

/// An element of an array that was extended is still there, extended.
pub proof fn lemma_element_kept(big: JsonValue, small: JsonValue, n: nat, i: int) -> (j: int)
    requires
        extends_at(big, small, n),
        small matches JsonValue::Array(sa) && 0 <= i < sa@.len(),
    ensures
        big matches JsonValue::Array(ba) && 0 <= j < ba@.len() && extends_at(
            ba@[j],
            small->Array_0@[i],
            inner(n),
        ),
{
    if n == 0 {
        i
    } else {
        let sa = small->Array_0@;
        let ba = big->Array_0@;
        let f = choose|f: spec_fn(int) -> int|
            #[trigger] order_embedding(f, sa.len() as int, ba.len() as int) && forall|k: int|
                0 <= k < sa.len() ==> extends_at(ba[f(k)], sa[k], (n - 1) as nat);
        f(i)
    }
}

/// What a lookup by key finds in an extended value is the extension of what
/// it found before; strings and booleans are found unchanged, and a value
/// that held something still does.
pub proof fn lemma_lookup_kept(big: JsonValue, small: JsonValue, n: nat, key: Seq<char>)
    requires
        extends_at(big, small, n),
    ensures
        json_get(small, key) is Some ==> json_get(big, key) is Some && extends_at(
            json_get(big, key)->0,
            json_get(small, key)->0,
            inner(n),
        ),
        json_str(json_get(small, key)) is Some ==> json_str(json_get(big, key)) == json_str(
            json_get(small, key),
        ),
        json_bool(json_get(small, key)) is Some ==> json_bool(json_get(big, key)) == json_bool(
            json_get(small, key),
        ),
        has_items(json_get(small, key)) ==> has_items(json_get(big, key)),
{
    if json_get(small, key) is Some {
        if n == 0 {
            assert(big == small);
        } else {
            let sm = small->Object_0@;
            let bm = big->Object_0@;
            let f = choose|f: spec_fn(int) -> int|
                #[trigger] member_embedding(bm, sm, f) && forall|k: int|
                    0 <= k < sm.len() ==> extends_at(bm[f(k)].1, sm[k].1, (n - 1) as nat);
            let i0 = lemma_member_index(sm, key);
            let j0 = f(i0);
            assert forall|j: int| 0 <= j < j0 implies bm[j].0@ != key by {
                if bm[j].0@ == key {
                    assert(bm[j].0@ == sm[i0].0@);
                    let k = choose|k: int| 0 <= k < sm.len() && #[trigger] f(k) == j;
                    if k >= i0 {
                        if k > i0 {
                            assert(f(i0) < f(k));
                        }
                    }
                    assert(sm[k].0@ == key);
                }
            }
            lemma_member_first(bm, key, j0);
        }
        let v = json_get(small, key)->0;
        let w = json_get(big, key)->0;
        lemma_scalar_kept(w, v, inner(n));
        lemma_items_kept(w, v, inner(n));
    }
}

/// An extended string, boolean, number or null is unchanged.
pub proof fn lemma_scalar_kept(big: JsonValue, small: JsonValue, n: nat)
    requires
        extends_at(big, small, n),
    ensures
        small is Str || small is Bool || small is Number || small is Null ==> big == small,
{
}

/// An extended value that held something still does.
pub proof fn lemma_items_kept(big: JsonValue, small: JsonValue, n: nat)
    requires
        extends_at(big, small, n),
    ensures
        has_items(Some(small)) ==> has_items(Some(big)),
{
    if n > 0 && has_items(Some(small)) {
        if small is Array {
            lemma_element_kept(big, small, n, 0);
        }
        if small is Object {
            lemma_member_kept(big, small, n, 0);
        }
    }
}

} // verus!
