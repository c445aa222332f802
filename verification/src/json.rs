//! JSON values as plain data, and their text form.

use serde_json::Number;
use vstd::prelude::*;

use crate::text::str_eq;

verus! {

/// A JSON value. Whole numbers are integers; any other number is kept as its
/// decimal text. An object lists its members; of two members with one name the
/// later one counts.
#[derive(Debug)]
pub enum Json {
    Null,
    Bool(bool),
    Unsigned(u64),
    Negative(i64),
    Decimal(String),
    Text(String),
    Array(Vec<Json>),
    Object(Vec<(String, Json)>),
}

/// What a JSON value means.
pub enum JsonV {
    Null,
    Bool(bool),
    Int(int),
    Decimal(Seq<char>),
    Text(Seq<char>),
    Array(Seq<JsonV>),
    Object(Map<Seq<char>, JsonV>),
}

/// The members that a list of members stands for.
pub open spec fn members(s: Seq<(String, Json)>) -> Map<Seq<char>, JsonV>
    decreases s,
{
    if s.len() == 0 {
        Map::empty()
    } else {
        members(s.drop_last()).insert(s.last().0@, s.last().1@)
    }
}

/// The items that a list of values stands for.
pub open spec fn items(s: Seq<Json>) -> Seq<JsonV>
    decreases s,
{
    if s.len() == 0 {
        Seq::empty()
    } else {
        items(s.drop_last()).push(s.last()@)
    }
}

impl View for Json {
    type V = JsonV;

    open spec fn view(&self) -> JsonV
        decreases self,
    {
        match self {
            Json::Null => JsonV::Null,
            Json::Bool(b) => JsonV::Bool(*b),
            Json::Unsigned(n) => JsonV::Int(*n as int),
            Json::Negative(n) => JsonV::Int(*n as int),
            Json::Decimal(t) => JsonV::Decimal(t@),
            Json::Text(t) => JsonV::Text(t@),
            Json::Array(v) => JsonV::Array(items(v@)),
            Json::Object(v) => JsonV::Object(members(v@)),
        }
    }
}

impl JsonV {
    /// The member `k` of an object.
    pub open spec fn member(self, k: Seq<char>) -> Option<JsonV> {
        match self {
            JsonV::Object(m) => if m.contains_key(k) {
                Some(m[k])
            } else {
                None
            },
            _ => None,
        }
    }

    /// The value as an unsigned number.
    pub open spec fn unsigned(self) -> Option<u64> {
        match self {
            JsonV::Int(n) => if 0 <= n <= u64::MAX {
                Some(n as u64)
            } else {
                None
            },
            _ => None,
        }
    }

    /// The value as text.
    pub open spec fn text(self) -> Option<Seq<char>> {
        match self {
            JsonV::Text(t) => Some(t),
            _ => None,
        }
    }

    /// The value as a list.
    pub open spec fn list(self) -> Option<Seq<JsonV>> {
        match self {
            JsonV::Array(v) => Some(v),
            _ => None,
        }
    }

    /// The value as a set of members.
    pub open spec fn object(self) -> Option<Map<Seq<char>, JsonV>> {
        match self {
            JsonV::Object(m) => Some(m),
            _ => None,
        }
    }
}

/// A value that holds no number but machine integers and nests at most `depth`
/// arrays and objects in one another.
pub open spec fn plain_json(v: JsonV, depth: nat) -> bool
    decreases depth,
{
    match v {
        JsonV::Null => true,
        JsonV::Bool(_) => true,
        JsonV::Int(n) => i64::MIN <= n <= u64::MAX,
        JsonV::Decimal(_) => false,
        JsonV::Text(_) => true,
        JsonV::Array(s) => depth > 0 && forall|i: int|
            0 <= i < s.len() ==> plain_json(#[trigger] s[i], (depth - 1) as nat),
        JsonV::Object(m) => depth > 0 && forall|k: Seq<char>|
            m.contains_key(k) ==> plain_json(#[trigger] m[k], (depth - 1) as nat),
    }
}

pub proof fn lemma_items(s: Seq<Json>)
    ensures
        items(s).len() == s.len(),
        forall|i: int| 0 <= i < s.len() ==> #[trigger] items(s)[i] == s[i]@,
    decreases s.len(),
{
    reveal_with_fuel(items, 2);
    if s.len() > 0 {
        lemma_items(s.drop_last());
        assert forall|i: int| 0 <= i < s.len() implies #[trigger] items(s)[i] == s[i]@ by {
            if i < s.len() - 1 {
                assert(s.drop_last()[i] == s[i]);
            }
        }
    }
}

/// Members after position `i` that have another name say nothing of `k`.
proof fn lemma_members_take(s: Seq<(String, Json)>, i: int, k: Seq<char>)
    requires
        0 <= i <= s.len(),
        forall|j: int| i <= j < s.len() ==> (#[trigger] s[j]).0@ != k,
    ensures
        members(s).contains_key(k) == members(s.take(i)).contains_key(k),
        members(s).contains_key(k) ==> members(s)[k] == members(s.take(i))[k],
    decreases s.len(),
{
    reveal_with_fuel(members, 2);
    if i == s.len() {
        assert(s.take(i) =~= s);
    } else {
        let d = s.drop_last();
        assert forall|j: int| i <= j < d.len() implies (#[trigger] d[j]).0@ != k by {
            assert(s[j].0@ != k);
        }
        lemma_members_take(d, i, k);
        assert(d.take(i) =~= s.take(i));
        assert(s[s.len() - 1].0@ != k);
    }
}

/// The last member with a name is the one that counts.
proof fn lemma_member_found(s: Seq<(String, Json)>, i: int)
    requires
        0 <= i < s.len(),
        forall|j: int| i < j < s.len() ==> (#[trigger] s[j]).0@ != s[i].0@,
    ensures
        members(s).contains_key(s[i].0@),
        members(s)[s[i].0@] == s[i].1@,
{
    reveal_with_fuel(members, 2);
    lemma_members_take(s, i + 1, s[i].0@);
    let t = s.take(i + 1);
    assert(t.last() == s[i]);
}

/// With distinct names, each member is there with its value, and nothing else is.
pub proof fn lemma_members_distinct(s: Seq<(String, Json)>)
    requires
        forall|i: int, j: int|
            0 <= i < s.len() && 0 <= j < s.len() && i != j ==> (#[trigger] s[i]).0@ != (
            #[trigger] s[j]).0@,
    ensures
        forall|i: int|
            0 <= i < s.len() ==> {
                &&& members(s).contains_key((#[trigger] s[i]).0@)
                &&& members(s)[s[i].0@] == s[i].1@
            },
        forall|k: Seq<char>|
            members(s).contains_key(k) ==> exists|i: int|
                0 <= i < s.len() && (#[trigger] s[i]).0@ == k,
{
    assert forall|i: int| 0 <= i < s.len() implies {
        &&& members(s).contains_key((#[trigger] s[i]).0@)
        &&& members(s)[s[i].0@] == s[i].1@
    } by {
        lemma_member_found(s, i);
    }
    assert forall|k: Seq<char>| members(s).contains_key(k) implies exists|i: int|
        0 <= i < s.len() && (#[trigger] s[i]).0@ == k by {
        if forall|i: int| 0 <= i < s.len() ==> (#[trigger] s[i]).0@ != k {
            lemma_members_take(s, 0, k);
            assert(s.take(0).len() == 0);
        }
    }
}

/// An object of no members.
pub proof fn lemma_members_empty(s: Seq<(String, Json)>)
    requires
        s.len() == 0,
    ensures
        members(s) == Map::<Seq<char>, JsonV>::empty(),
{
}

/// Adds a member to a list of members.
pub fn put(list: &mut Vec<(String, Json)>, name: &str, value: Json)
    ensures
        members(final(list)@) == members(old(list)@).insert(name@, value@),
        final(list)@.len() == old(list)@.len() + 1,
{
    let ghost before = list@;
    list.push((name.to_owned(), value));
    proof {
        assert(list@.drop_last() =~= before);
    }
}

/// `list` names each of the members once.
pub open spec fn lists_members(list: Seq<(String, Json)>, m: Map<Seq<char>, JsonV>) -> bool {
    &&& members(list) == m
    &&& forall|i: int, j: int|
        0 <= i < list.len() && 0 <= j < list.len() && i != j ==> (#[trigger] list[i]).0@ != (
        #[trigger] list[j]).0@
}

/// Whether a member from position `from` on has the name.
fn named_from(list: &Vec<(String, Json)>, from: usize, name: &str) -> (r: bool)
    requires
        from <= list@.len(),
    ensures
        r == exists|j: int| from <= j < list@.len() && (#[trigger] list@[j]).0@ == name@,
{
    let mut j: usize = from;
    while j < list.len()
        invariant
            from <= j <= list@.len(),
            forall|i: int| from <= i < j ==> (#[trigger] list@[i]).0@ != name@,
        decreases list@.len() - j,
    {
        if str_eq(list[j].0.as_str(), name) {
            return true;
        }
        j += 1;
    }
    false
}

/// The members of an object, each name once: of several with one name, the last
/// is the one that counts.
pub fn distinct_members(list: &Vec<(String, Json)>) -> (r: Vec<(String, Json)>)
    ensures
        lists_members(r@, members(list@)),
{
    let mut r: Vec<(String, Json)> = Vec::new();
    let n: usize = list.len();
    let mut i: usize = 0;
    while i < n
        invariant
            n == list@.len(),
            i <= n,
            forall|a: int|
                0 <= a < r@.len() ==> exists|k: int|
                    {
                        &&& 0 <= k < i
                        &&& (#[trigger] list@[k]).0@ == (#[trigger] r@[a]).0@
                        &&& list@[k].1@ == r@[a].1@
                        &&& forall|j: int|
                            k < j < n ==> (#[trigger] list@[j]).0@ != list@[k].0@
                    },
            forall|k: int|
                0 <= k < i && (forall|j: int|
                    k < j < n ==> (#[trigger] list@[j]).0@ != list@[k].0@) ==> exists|a: int|
                    0 <= a < r@.len() && (#[trigger] r@[a]).0@ == (#[trigger] list@[k]).0@,
            forall|a: int, b: int|
                0 <= a < r@.len() && 0 <= b < r@.len() && a != b ==> (#[trigger] r@[a]).0@ != (
                #[trigger] r@[b]).0@,
        decreases n - i,
    {
        let ghost before = r@;
        if !named_from(list, i + 1, list[i].0.as_str()) {
            r.push((list[i].0.clone(), list[i].1.copy()));
            proof {
                let last = r@.len() - 1;
                assert(list@[i as int].0@ == r@[last].0@);
                assert forall|a: int| 0 <= a < before.len() implies (#[trigger] before[a]).0@
                    != list@[i as int].0@ by {
                    let k = choose|k: int|
                        {
                            &&& 0 <= k < i
                            &&& (#[trigger] list@[k]).0@ == before[a].0@
                            &&& list@[k].1@ == before[a].1@
                            &&& forall|j: int|
                                k < j < n ==> (#[trigger] list@[j]).0@ != list@[k].0@
                        };
                    assert(list@[i as int].0@ != list@[k].0@);
                }
                assert forall|a: int| 0 <= a < r@.len() implies exists|k: int|
                    {
                        &&& 0 <= k < i + 1
                        &&& (#[trigger] list@[k]).0@ == (#[trigger] r@[a]).0@
                        &&& list@[k].1@ == r@[a].1@
                        &&& forall|j: int|
                            k < j < n ==> (#[trigger] list@[j]).0@ != list@[k].0@
                    } by {
                    if a < last {
                        assert(r@[a] == before[a]);
                        let k = choose|k: int|
                            {
                                &&& 0 <= k < i
                                &&& (#[trigger] list@[k]).0@ == before[a].0@
                                &&& list@[k].1@ == before[a].1@
                                &&& forall|j: int|
                                    k < j < n ==> (#[trigger] list@[j]).0@ != list@[k].0@
                            };
                        assert(list@[k].0@ == r@[a].0@);
                    }
                }
                assert forall|k: int|
                    0 <= k < i + 1 && (forall|j: int|
                        k < j < n ==> (#[trigger] list@[j]).0@ != list@[k].0@) implies exists|a: int|
                    0 <= a < r@.len() && (#[trigger] r@[a]).0@ == (#[trigger] list@[k]).0@ by {
                    if k < i {
                        let a = choose|a: int|
                            0 <= a < before.len() && (#[trigger] before[a]).0@ == list@[k].0@;
                        assert(r@[a].0@ == list@[k].0@);
                    } else {
                        assert(r@[last].0@ == list@[k].0@);
                    }
                }
            }
        }
        i += 1;
    }
    proof {
        lemma_members_distinct(r@);
        assert forall|k: Seq<char>| #[trigger] members(r@).contains_key(k) implies members(
            list@,
        ).contains_key(k) && members(list@)[k] == members(r@)[k] by {
            let a = choose|a: int| 0 <= a < r@.len() && (#[trigger] r@[a]).0@ == k;
            let i = choose|i: int|
                {
                    &&& 0 <= i < n
                    &&& (#[trigger] list@[i]).0@ == r@[a].0@
                    &&& list@[i].1@ == r@[a].1@
                    &&& forall|j: int| i < j < n ==> (#[trigger] list@[j]).0@ != list@[i].0@
                };
            lemma_member_found(list@, i);
        }
        assert forall|k: Seq<char>| #[trigger] members(list@).contains_key(k) implies members(
            r@,
        ).contains_key(k) by {
            lemma_last_member(list@, k);
            let i = choose|i: int|
                0 <= i < n && (#[trigger] list@[i]).0@ == k && forall|j: int|
                    i < j < n ==> (#[trigger] list@[j]).0@ != k;
            let a = choose|a: int| 0 <= a < r@.len() && (#[trigger] r@[a]).0@ == list@[i].0@;
            assert(members(r@).contains_key(r@[a].0@));
        }
        assert(members(r@) =~= members(list@));
    }
    r
}

/// A member stands last of its name somewhere in the list.
proof fn lemma_last_member(s: Seq<(String, Json)>, k: Seq<char>)
    requires
        members(s).contains_key(k),
    ensures
        exists|i: int|
            0 <= i < s.len() && (#[trigger] s[i]).0@ == k && forall|j: int|
                i < j < s.len() ==> (#[trigger] s[j]).0@ != k,
    decreases s.len(),
{
    reveal_with_fuel(members, 2);
    if s.len() > 0 {
        if s.last().0@ == k {
            assert(s[s.len() - 1].0@ == k);
        } else {
            let d = s.drop_last();
            lemma_last_member(d, k);
            let i = choose|i: int|
                0 <= i < d.len() && (#[trigger] d[i]).0@ == k && forall|j: int|
                    i < j < d.len() ==> (#[trigger] d[j]).0@ != k;
            assert(s[i].0@ == k);
            assert forall|j: int| i < j < s.len() implies (#[trigger] s[j]).0@ != k by {
                if j < d.len() {
                    assert(d[j] == s[j]);
                }
            }
        }
    }
}

/// How deep `serde_json` lets arrays and objects nest in what it parses.
pub const MAX_NESTING: u8 = 127;

#[verifier::external_type_specification]
#[verifier::external_body]
pub struct ExValue(serde_json::Value);

/// What a `serde_json::Value` holds: integers as integers, any other number as
/// the text that `serde_json` writes for it.
pub uninterp spec fn value_contents(v: serde_json::Value) -> JsonV;

/// What `serde_json` reads in a text, `None` where it rejects the text.
pub uninterp spec fn json_parsed(text: Seq<u8>) -> Option<JsonV>;

/// How `serde_json` words its rejection of a text.
pub uninterp spec fn json_error(text: Seq<u8>) -> Seq<char>;

/// What is left of a value once std's `parse` has read its decimal numbers and
/// `serde_json` has taken them over.
pub uninterp spec fn json_normal(v: JsonV) -> JsonV;

/// The compact text that `serde_json` writes for a value.
pub uninterp spec fn json_bytes(v: JsonV) -> Seq<u8>;

/// `serde_json::from_slice`: reads a text, or rejects it and says why.
#[verifier::external_body]
fn parse_value(text: &[u8]) -> (r: Result<serde_json::Value, String>)
    ensures
        match r {
            Ok(v) => json_parsed(text@) == Some(value_contents(v)),
            Err(e) => json_parsed(text@) is None && e@ == json_error(text@),
        },
{
    serde_json::from_slice(text).map_err(|e: serde_json::Error| e.to_string())
}

/// Moves what a `serde_json::Value` holds into a [`Json`], item by item. A
/// `serde_json::Number` is asked by its `as_u64` and `as_i64` which kind of
/// number it is, and otherwise written by its `to_string`.
#[verifier::external_body]
fn from_value(v: serde_json::Value) -> (r: Json)
    ensures
        r@ == value_contents(v),
{
    match v {
        serde_json::Value::Null => Json::Null,
        serde_json::Value::Bool(b) => Json::Bool(b),
        serde_json::Value::Number(n) => match (n.as_u64(), n.as_i64()) {
            (Some(u), _) => Json::Unsigned(u),
            (_, Some(i)) => Json::Negative(i),
            _ => Json::Decimal(n.to_string()),
        },
        serde_json::Value::String(t) => Json::Text(t),
        serde_json::Value::Array(a) => Json::Array(a.into_iter().map(from_value).collect()),
        serde_json::Value::Object(o) => Json::Object(o.into_iter().map(|(k, x)| (k, from_value(x))).collect()),
    }
}

/// Moves a [`Json`] into a `serde_json::Value`, item by item. The text of a decimal
/// number is read by std's `parse`, whose result `serde_json::Number::from_f64`
/// takes as it is; what is no finite number becomes null. Where there are only
/// machine integers, nothing changes.
#[verifier::external_body]
fn to_value(j: &Json) -> (r: serde_json::Value)
    ensures
        value_contents(r) == json_normal(j@),
        plain_json(j@, MAX_NESTING as nat) ==> value_contents(r) == j@,
{
    match j {
        Json::Null => serde_json::Value::Null,
        Json::Bool(b) => serde_json::Value::Bool(*b),
        Json::Unsigned(n) => serde_json::Value::from(*n),
        Json::Negative(n) => serde_json::Value::from(*n),
        Json::Decimal(t) => {
            t.parse().ok().and_then(Number::from_f64).map(serde_json::Value::Number).unwrap_or_default()
        },
        Json::Text(t) => serde_json::Value::String(t.clone()),
        Json::Array(v) => serde_json::Value::Array(v.iter().map(to_value).collect()),
        Json::Object(v) => serde_json::Value::Object(v.iter().map(|(k, x)| (k.clone(), to_value(x))).collect()),
    }
}

/// `serde_json::to_vec`: writes a value as compact text, which cannot fail for
/// a `Value`. The text of a value of machine integers that does not nest too
/// deep is read back as that value.
#[verifier::external_body]
fn write_value(v: &serde_json::Value) -> (r: Vec<u8>)
    ensures
        r@ == json_bytes(value_contents(*v)),
        plain_json(value_contents(*v), MAX_NESTING as nat) ==> json_parsed(r@) == Some(
            value_contents(*v),
        ),
{
    serde_json::to_vec(v).unwrap_or_default()
}

impl Json {
    /// Reads a JSON text, or says what is wrong with it.
    pub fn parse(text: &[u8]) -> (r: Result<Json, String>)
        ensures
            match r {
                Ok(j) => json_parsed(text@) == Some(j@),
                Err(e) => json_parsed(text@) is None && e@ == json_error(text@),
            },
    {
        match parse_value(text) {
            Ok(v) => Ok(from_value(v)),
            Err(e) => Err(e),
        }
    }

    /// Writes the value as compact JSON text, from which [`Json::parse`] reads
    /// back a value of machine integers.
    pub fn to_bytes(&self) -> (r: Vec<u8>)
        ensures
            r@ == json_bytes(json_normal(self@)),
            plain_json(self@, MAX_NESTING as nat) ==> r@ == json_bytes(self@) && json_parsed(r@)
                == Some(self@),
    {
        write_value(&to_value(self))
    }

    /// The member `key` of an object; `None` for any other value.
    pub fn get(&self, key: &str) -> (r: Option<&Json>)
        ensures
            match r {
                Some(v) => self@.member(key@) == Some(v@),
                None => self@.member(key@) is None,
            },
    {
        match self {
            Json::Object(list) => {
                let mut i: usize = list.len();
                while i > 0
                    invariant
                        i <= list@.len(),
                        self@ == JsonV::Object(members(list@)),
                        forall|j: int| i <= j < list@.len() ==> (#[trigger] list@[j]).0@ != key@,
                    decreases i,
                {
                    i -= 1;
                    if str_eq(list[i].0.as_str(), key) {
                        proof {
                            lemma_member_found(list@, i as int);
                        }
                        return Some(&list[i].1);
                    }
                }
                proof {
                    lemma_members_take(list@, 0, key@);
                    assert(list@.take(0).len() == 0);
                }
                None
            },
            _ => None,
        }
    }

    /// The value as an unsigned number, if it is one.
    pub fn as_u64(&self) -> (r: Option<u64>)
        ensures
            r == self@.unsigned(),
    {
        match self {
            Json::Unsigned(n) => Some(*n),
            Json::Negative(n) => if *n >= 0 {
                Some(*n as u64)
            } else {
                None
            },
            _ => None,
        }
    }

    /// The value as text, if it is text.
    pub fn as_str(&self) -> (r: Option<&str>)
        ensures
            match r {
                Some(t) => self@.text() == Some(t@),
                None => self@.text() is None,
            },
    {
        match self {
            Json::Text(t) => Some(t.as_str()),
            _ => None,
        }
    }

    /// The items of an array, if it is one.
    pub fn as_array(&self) -> (r: Option<&Vec<Json>>)
        ensures
            match r {
                Some(v) => self@ == JsonV::Array(items(v@)),
                None => self@.list() is None,
            },
    {
        match self {
            Json::Array(v) => Some(v),
            _ => None,
        }
    }

    /// The members of an object, if it is one.
    pub fn as_object(&self) -> (r: Option<&Vec<(String, Json)>>)
        ensures
            match r {
                Some(v) => self@ == JsonV::Object(members(v@)),
                None => self@.object() is None,
            },
    {
        match self {
            Json::Object(v) => Some(v),
            _ => None,
        }
    }

    /// Another value with the same meaning.
    pub fn copy(&self) -> (r: Json)
        ensures
            r@ == self@,
        decreases self,
    {
        match self {
            Json::Null => Json::Null,
            Json::Bool(b) => Json::Bool(*b),
            Json::Unsigned(n) => Json::Unsigned(*n),
            Json::Negative(n) => Json::Negative(*n),
            Json::Decimal(t) => Json::Decimal(t.clone()),
            Json::Text(t) => Json::Text(t.clone()),
            Json::Array(v) => {
                let mut out: Vec<Json> = Vec::new();
                let mut i: usize = 0;
                while i < v.len()
                    invariant
                        i <= v@.len(),
                        self is Array && self->Array_0 == *v,
                        items(out@) == items(v@.take(i as int)),
                    decreases v@.len() - i,
                {
                    let c = v[i].copy();
                    let ghost before = out@;
                    out.push(c);
                    proof {
                        assert(out@.drop_last() =~= before);
                        assert(v@.take(i + 1).drop_last() =~= v@.take(i as int));
                    }
                    i += 1;
                }
                proof {
                    assert(v@.take(i as int) =~= v@);
                }
                Json::Array(out)
            },
            Json::Object(v) => {
                let mut out: Vec<(String, Json)> = Vec::new();
                let mut i: usize = 0;
                while i < v.len()
                    invariant
                        i <= v@.len(),
                        self is Object && self->Object_0 == *v,
                        members(out@) == members(v@.take(i as int)),
                    decreases v@.len() - i,
                {
                    let c = v[i].1.copy();
                    put(&mut out, v[i].0.as_str(), c);
                    proof {
                        assert(v@.take(i + 1).drop_last() =~= v@.take(i as int));
                    }
                    i += 1;
                }
                proof {
                    assert(v@.take(i as int) =~= v@);
                }
                Json::Object(out)
            },
        }
    }
}

} // verus!
