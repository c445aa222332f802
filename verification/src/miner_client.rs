//! The answers of miners as they come over the wire, and as plain values.

use std::collections::VecDeque;

use rmpv::Value;
use serde_json::Number;
use vstd::prelude::*;
use vstd::string::*;

use crate::digest::{hex_encode, hex_text};
use crate::json::{items, lemma_items, members, put, Json, JsonV};
use crate::text::{decimal, decimal_text};

verus! {

/// The key of a member: text, or the bytes of a text that is none.
#[derive(Debug)]
pub enum MsgKey {
    Text(String),
    Raw(Vec<u8>),
}

/// A value as it comes over the wire. A number that is not whole is kept as its
/// decimal text, if it has one.
#[derive(Debug)]
pub enum Msg {
    Nil,
    Bool(bool),
    Unsigned(u64),
    Negative(i64),
    Decimal(Option<String>),
    Text(Option<String>),
    Binary(Vec<u8>),
    Array(Vec<Msg>),
    Dict(Vec<(MsgKey, Msg)>),
    Ext,
}

/// What a key means.
pub enum MsgKeyV {
    Text(Seq<char>),
    Raw(Seq<u8>),
}

impl View for MsgKey {
    type V = MsgKeyV;

    open spec fn view(&self) -> MsgKeyV {
        match self {
            MsgKey::Text(t) => MsgKeyV::Text(t@),
            MsgKey::Raw(b) => MsgKeyV::Raw(b@),
        }
    }
}

/// What a value from the wire means.
pub enum MsgV {
    Nil,
    Bool(bool),
    Int(int),
    Decimal(Option<Seq<char>>),
    Text(Option<Seq<char>>),
    Binary(Seq<u8>),
    Array(Seq<MsgV>),
    Dict(Seq<(MsgKeyV, MsgV)>),
    Ext,
}

/// A text that may be absent.
pub open spec fn optional_text(t: Option<String>) -> Option<Seq<char>> {
    match t {
        Some(s) => Some(s@),
        None => None,
    }
}

/// The items that a list of values stands for.
pub open spec fn msg_items(s: Seq<Msg>) -> Seq<MsgV>
    decreases s,
{
    if s.len() == 0 {
        Seq::empty()
    } else {
        msg_items(s.drop_last()).push(s.last()@)
    }
}

/// The members that a list of members stands for.
pub open spec fn msg_members(s: Seq<(MsgKey, Msg)>) -> Seq<(MsgKeyV, MsgV)>
    decreases s,
{
    if s.len() == 0 {
        Seq::empty()
    } else {
        msg_members(s.drop_last()).push((s.last().0@, s.last().1@))
    }
}

impl View for Msg {
    type V = MsgV;

    open spec fn view(&self) -> MsgV
        decreases self,
    {
        match self {
            Msg::Nil => MsgV::Nil,
            Msg::Bool(b) => MsgV::Bool(*b),
            Msg::Unsigned(n) => MsgV::Int(*n as int),
            Msg::Negative(n) => MsgV::Int(*n as int),
            Msg::Decimal(t) => MsgV::Decimal(optional_text(*t)),
            Msg::Text(t) => MsgV::Text(optional_text(*t)),
            Msg::Binary(b) => MsgV::Binary(b@),
            Msg::Array(v) => MsgV::Array(msg_items(v@)),
            Msg::Dict(v) => MsgV::Dict(msg_members(v@)),
            Msg::Ext => MsgV::Ext,
        }
    }
}

#[verifier::external_type_specification]
#[verifier::external_body]
pub struct ExRmpvValue(Value);

/// What an `rmpv::Value` holds.
pub uninterp spec fn msgpack_contents(v: Value) -> MsgV;

/// What an `rmpv::Value` stands for as a key: a text itself, or its bytes where
/// they are no text, and anything else as the text that its `Display` writes.
pub uninterp spec fn msgpack_key(v: Value) -> MsgKeyV;

/// Moves a key out of an `rmpv::Value`: a string as it is, by `into_str` or
/// `into_bytes`, and anything else as the text that its `Display` writes.
#[verifier::external_body]
fn from_rmpv_key(k: Value) -> (r: MsgKey)
    ensures
        r@ == msgpack_key(k),
{
    match k {
        Value::String(s) if s.is_str() => MsgKey::Text(s.into_str().unwrap_or_default()),
        Value::String(s) => MsgKey::Raw(s.into_bytes()),
        other => MsgKey::Text(format!("{other}")),
    }
}

/// A value whose parts are still packed.
#[derive(Debug)]
pub enum Opened {
    Leaf(Msg),
    Items(VecDeque<Value>),
    Members(VecDeque<(Value, Value)>),
}

/// What packed items hold.
pub open spec fn packed_items(s: Seq<Value>) -> Seq<MsgV> {
    s.map_values(|v: Value| msgpack_contents(v))
}

/// What packed members hold.
pub open spec fn packed_members(s: Seq<(Value, Value)>) -> Seq<(MsgKeyV, MsgV)> {
    s.map_values(|p: (Value, Value)| (msgpack_key(p.0), msgpack_contents(p.1)))
}

impl View for Opened {
    type V = MsgV;

    open spec fn view(&self) -> MsgV {
        match self {
            Opened::Leaf(m) => m@,
            Opened::Items(s) => MsgV::Array(packed_items(s@)),
            Opened::Members(s) => MsgV::Dict(packed_members(s@)),
        }
    }
}

/// Whether what was opened is a leaf only where it has no parts.
pub open spec fn opens_fully(o: Opened) -> bool {
    o matches Opened::Leaf(m) ==> !(m is Array) && !(m is Dict)
}

/// Moves a number out of an `rmpv::Value`, and anything else as [`open_rmpv`]
/// does. A number with a fraction becomes the text that `serde_json::Number`
/// writes for it, which has none for what is not finite.
#[verifier::external_body]
fn open_rmpv_number(v: Value) -> (r: Opened)
    ensures
        r@ == msgpack_contents(v),
        opens_fully(r),
{
    match v {
        Value::Integer(i) => match (i.as_u64(), i.as_i64()) {
            (Some(u), _) => Opened::Leaf(Msg::Unsigned(u)),
            (_, n) => Opened::Leaf(Msg::Negative(n.unwrap_or_default())),
        },
        Value::F32(f) => Opened::Leaf(Msg::Decimal(Number::from_f64(f.into()).map(|n| n.to_string()))),
        Value::F64(f) => Opened::Leaf(Msg::Decimal(Number::from_f64(f).map(|n| n.to_string()))),
        other => open_rmpv(other),
    }
}

/// Moves what an `rmpv::Value` holds out of it, variant by variant, a number by
/// [`open_rmpv_number`]. The items of an array and the members of a map come out
/// as they are. A string that is no text becomes none.
#[verifier::external_body]
fn open_rmpv(v: Value) -> (r: Opened)
    ensures
        r@ == msgpack_contents(v),
        opens_fully(r),
{
    match v {
        Value::Nil => Opened::Leaf(Msg::Nil),
        Value::Boolean(b) => Opened::Leaf(Msg::Bool(b)),
        Value::String(s) => Opened::Leaf(Msg::Text(s.into_str())),
        Value::Binary(b) => Opened::Leaf(Msg::Binary(b)),
        Value::Array(a) => Opened::Items(a.into()),
        Value::Map(m) => Opened::Members(m.into()),
        Value::Ext(_, _) => Opened::Leaf(Msg::Ext),
        number => open_rmpv_number(number),
    }
}

/// How deep values nest in one another.
pub open spec fn height(m: MsgV) -> nat
    decreases m,
{
    match m {
        MsgV::Array(s) => items_height(s),
        MsgV::Dict(s) => members_height(s),
        _ => 0,
    }
}

/// One more than how deep the deepest item of a list nests; zero where there is
/// none.
pub open spec fn items_height(s: Seq<MsgV>) -> nat
    decreases s,
{
    if s.len() == 0 {
        0
    } else {
        let h = 1 + height(s.last());
        let d = items_height(s.drop_last());
        if h > d {
            h
        } else {
            d
        }
    }
}

/// One more than how deep the deepest member nests; zero where there is none.
pub open spec fn members_height(s: Seq<(MsgKeyV, MsgV)>) -> nat
    decreases s,
{
    if s.len() == 0 {
        0
    } else {
        let h = 1 + height(s.last().1);
        let d = members_height(s.drop_last());
        if h > d {
            h
        } else {
            d
        }
    }
}

/// The name of a member: a text is its own, and other bytes are written out, so
/// that different keys stay different.
pub open spec fn member_name(k: MsgKeyV) -> Seq<char> {
    match k {
        MsgKeyV::Text(t) => t,
        MsgKeyV::Raw(b) => "__msgpack_str_hex:"@ + hex_text(b),
    }
}

/// What a value from the wire is as a plain value: bytes are written out in base
/// sixteen, and what has no plain form is null.
pub open spec fn plain(m: MsgV) -> JsonV
    decreases m,
{
    match m {
        MsgV::Nil => JsonV::Null,
        MsgV::Bool(b) => JsonV::Bool(b),
        MsgV::Int(n) => JsonV::Int(n),
        MsgV::Decimal(Some(t)) => JsonV::Decimal(t),
        MsgV::Decimal(None) => JsonV::Null,
        MsgV::Text(Some(t)) => JsonV::Text(t),
        MsgV::Text(None) => JsonV::Null,
        MsgV::Binary(b) => JsonV::Text(hex_text(b)),
        MsgV::Array(s) => JsonV::Array(plain_items(s)),
        MsgV::Dict(s) => JsonV::Object(plain_members(s)),
        MsgV::Ext => JsonV::Null,
    }
}

/// The items of a list as plain values.
pub open spec fn plain_items(s: Seq<MsgV>) -> Seq<JsonV>
    decreases s,
{
    if s.len() == 0 {
        Seq::empty()
    } else {
        plain_items(s.drop_last()).push(plain(s.last()))
    }
}

/// The members as plain values, under their names. Of two with one name the later
/// one counts.
pub open spec fn plain_members(s: Seq<(MsgKeyV, MsgV)>) -> Map<Seq<char>, JsonV>
    decreases s,
{
    if s.len() == 0 {
        Map::empty()
    } else {
        plain_members(s.drop_last()).insert(member_name(s.last().0), plain(s.last().1))
    }
}

/// Values nest too deep in one another.
#[derive(Clone, Copy, Debug, PartialEq, Eq, Structural)]
pub struct TooDeep;

/// What is said of an answer that is too deep.
pub fn too_deep_text(max_depth: usize) -> (r: String)
    ensures
        r@ == "miner response nesting depth exceeds "@ + decimal_text(max_depth as nat),
{
    let mut text = String::from_str("miner response nesting depth exceeds ");
    let number = decimal(max_depth as u64);
    text.append(number.as_str());
    text
}

proof fn lemma_take_items(s: Seq<Msg>, i: int)
    requires
        0 <= i < s.len(),
    ensures
        msg_items(s.take(i + 1)) == msg_items(s.take(i)).push(s[i]@),
{
    reveal_with_fuel(msg_items, 2);
    assert(s.take(i + 1).drop_last() =~= s.take(i));
    assert(s.take(i + 1).last() == s[i]);
}

proof fn lemma_take_members(s: Seq<(MsgKey, Msg)>, i: int)
    requires
        0 <= i < s.len(),
    ensures
        msg_members(s.take(i + 1)) == msg_members(s.take(i)).push((s[i].0@, s[i].1@)),
{
    reveal_with_fuel(msg_members, 2);
    assert(s.take(i + 1).drop_last() =~= s.take(i));
    assert(s.take(i + 1).last() == s[i]);
}

proof fn lemma_items_height(s: Seq<Msg>, i: int)
    requires
        0 <= i <= s.len(),
    ensures
        items_height(msg_items(s.take(i))) <= items_height(msg_items(s)),
    decreases s.len() - i,
{
    if i == s.len() {
        assert(s.take(i) =~= s);
    } else {
        lemma_take_items(s, i);
        lemma_items_height(s, i + 1);
        reveal_with_fuel(items_height, 2);
        let a = msg_items(s.take(i));
        assert(a.push(s[i]@).drop_last() =~= a);
    }
}

proof fn lemma_members_height(s: Seq<(MsgKey, Msg)>, i: int)
    requires
        0 <= i <= s.len(),
    ensures
        members_height(msg_members(s.take(i))) <= members_height(msg_members(s)),
    decreases s.len() - i,
{
    if i == s.len() {
        assert(s.take(i) =~= s);
    } else {
        lemma_take_members(s, i);
        lemma_members_height(s, i + 1);
        reveal_with_fuel(members_height, 2);
        let a = msg_members(s.take(i));
        assert(a.push((s[i].0@, s[i].1@)).drop_last() =~= a);
    }
}

fn name_of(k: &MsgKey) -> (r: String)
    ensures
        r@ == member_name(k@),
{
    match k {
        MsgKey::Text(t) => t.clone(),
        MsgKey::Raw(b) => "__msgpack_str_hex:".to_owned().concat(hex_encode(b.as_slice()).as_str()),
    }
}

/// Turns a value from the wire into a plain value, unless it nests too deep. Of
/// the `max_depth` levels that values may nest, `depth` are taken.
pub fn to_json_bounded(value: &Msg, depth: usize, max_depth: usize) -> (r: Result<Json, TooDeep>)
    requires
        max_depth < usize::MAX,
    ensures
        match r {
            Ok(j) => depth + height(value@) <= max_depth && j@ == plain(value@),
            Err(_) => depth + height(value@) > max_depth,
        },
    decreases value,
{
    proof {
        reveal_with_fuel(height, 2);
        reveal_with_fuel(plain, 2);
    }
    if depth > max_depth {
        return Err(TooDeep);
    }
    match value {
        Msg::Nil => Ok(Json::Null),
        Msg::Bool(b) => Ok(Json::Bool(*b)),
        Msg::Unsigned(n) => Ok(Json::Unsigned(*n)),
        Msg::Negative(n) => Ok(Json::Negative(*n)),
        Msg::Decimal(t) => Ok(
            match t {
                Some(s) => Json::Decimal(s.clone()),
                None => Json::Null,
            },
        ),
        Msg::Text(t) => Ok(
            match t {
                Some(s) => Json::Text(s.clone()),
                None => Json::Null,
            },
        ),
        Msg::Binary(b) => Ok(Json::Text(hex_encode(b.as_slice()))),
        Msg::Ext => Ok(Json::Null),
        Msg::Array(v) => {
            let mut list: Vec<Json> = Vec::new();
            let mut i: usize = 0;
            proof {
                assert(v@.take(0).len() == 0);
                reveal_with_fuel(items_height, 2);
                reveal_with_fuel(plain_items, 2);
                reveal_with_fuel(msg_items, 2);
                lemma_items(list@);
                assert(items(list@) =~= plain_items(msg_items(v@.take(0))));
            }
            while i < v.len()
                invariant
                    i <= v@.len(),
                    depth <= max_depth < usize::MAX,
                    value matches Msg::Array(w) && w == v,
                    items(list@) == plain_items(msg_items(v@.take(i as int))),
                    depth + items_height(msg_items(v@.take(i as int))) <= max_depth,
                decreases v@.len() - i,
            {
                proof {
                    lemma_take_items(v@, i as int);
                    reveal_with_fuel(items_height, 2);
                    reveal_with_fuel(plain_items, 2);
                    let a = msg_items(v@.take(i as int));
                    assert(a.push(v@[i as int]@).drop_last() =~= a);
                    lemma_items_height(v@, i + 1);
                    assert(decreases_to!(value => v@[i as int]));
                }
                let ghost before = list@;
                match to_json_bounded(&v[i], depth + 1, max_depth) {
                    Ok(j) => {
                        list.push(j);
                        proof {
                            lemma_items(before);
                            lemma_items(list@);
                            assert(items(list@) =~= items(before).push(j@));
                        }
                    },
                    Err(e) => {
                        proof {
                            reveal_with_fuel(height, 2);
                        }
                        return Err(e);
                    },
                }
                i += 1;
            }
            proof {
                assert(v@.take(i as int) =~= v@);
            }
            Ok(Json::Array(list))
        },
        Msg::Dict(v) => {
            let mut list: Vec<(String, Json)> = Vec::new();
            let mut i: usize = 0;
            proof {
                assert(v@.take(0).len() == 0);
                reveal_with_fuel(members_height, 2);
                reveal_with_fuel(plain_members, 2);
                reveal_with_fuel(msg_members, 2);
                crate::json::lemma_members_empty(list@);
            }
            while i < v.len()
                invariant
                    i <= v@.len(),
                    depth <= max_depth < usize::MAX,
                    value matches Msg::Dict(w) && w == v,
                    members(list@) == plain_members(msg_members(v@.take(i as int))),
                    depth + members_height(msg_members(v@.take(i as int))) <= max_depth,
                decreases v@.len() - i,
            {
                proof {
                    lemma_take_members(v@, i as int);
                    reveal_with_fuel(members_height, 2);
                    reveal_with_fuel(plain_members, 2);
                    let a = msg_members(v@.take(i as int));
                    assert(a.push((v@[i as int].0@, v@[i as int].1@)).drop_last() =~= a);
                    lemma_members_height(v@, i + 1);
                    assert(decreases_to!(value => v@[i as int].1));
                }
                let name = name_of(&v[i].0);
                match to_json_bounded(&v[i].1, depth + 1, max_depth) {
                    Ok(j) => {
                        put(&mut list, name.as_str(), j);
                    },
                    Err(e) => {
                        proof {
                            reveal_with_fuel(height, 2);
                        }
                        return Err(e);
                    },
                }
                i += 1;
            }
            proof {
                assert(v@.take(i as int) =~= v@);
            }
            Ok(Json::Object(list))
        },
    }
}

proof fn lemma_msg_items(s: Seq<Msg>)
    ensures
        msg_items(s) == s.map_values(|m: Msg| m@),
    decreases s.len(),
{
    reveal_with_fuel(msg_items, 2);
    if s.len() > 0 {
        lemma_msg_items(s.drop_last());
    }
    assert(msg_items(s) =~= s.map_values(|m: Msg| m@));
}

proof fn lemma_msg_members(s: Seq<(MsgKey, Msg)>)
    ensures
        msg_members(s) == s.map_values(|p: (MsgKey, Msg)| (p.0@, p.1@)),
    decreases s.len(),
{
    reveal_with_fuel(msg_members, 2);
    if s.len() > 0 {
        lemma_msg_members(s.drop_last());
    }
    assert(msg_members(s) =~= s.map_values(|p: (MsgKey, Msg)| (p.0@, p.1@)));
}

/// A list nests one level deeper than the deepest of its items.
proof fn lemma_deepest_item(s: Seq<MsgV>, h: nat)
    ensures
        forall|i: int| 0 <= i < s.len() ==> 1 + height(#[trigger] s[i]) <= items_height(s),
        (forall|i: int| 0 <= i < s.len() ==> 1 + height(#[trigger] s[i]) <= h) ==> items_height(s)
            <= h,
    decreases s.len(),
{
    if s.len() > 0 {
        let t = s.drop_last();
        lemma_deepest_item(t, h);
        assert forall|i: int| 0 <= i < s.len() implies 1 + height(#[trigger] s[i]) <= items_height(
            s,
        ) by {
            if i < t.len() {
                assert(t[i] == s[i]);
            }
        }
        if forall|i: int| 0 <= i < s.len() ==> 1 + height(#[trigger] s[i]) <= h {
            assert forall|i: int| 0 <= i < t.len() implies 1 + height(#[trigger] t[i]) <= h by {
                assert(t[i] == s[i]);
            }
            assert(1 + height(s[s.len() - 1]) <= h);
        }
    }
}

/// Members nest one level deeper than the deepest of them.
proof fn lemma_deepest_member(s: Seq<(MsgKeyV, MsgV)>, h: nat)
    ensures
        forall|i: int| 0 <= i < s.len() ==> 1 + height((#[trigger] s[i]).1) <= members_height(s),
        (forall|i: int| 0 <= i < s.len() ==> 1 + height((#[trigger] s[i]).1) <= h)
            ==> members_height(s) <= h,
    decreases s.len(),
{
    if s.len() > 0 {
        let t = s.drop_last();
        lemma_deepest_member(t, h);
        assert forall|i: int| 0 <= i < s.len() implies 1 + height((#[trigger] s[i]).1)
            <= members_height(s) by {
            if i < t.len() {
                assert(t[i] == s[i]);
            }
        }
        if forall|i: int| 0 <= i < s.len() ==> 1 + height((#[trigger] s[i]).1) <= h {
            assert forall|i: int| 0 <= i < t.len() implies 1 + height((#[trigger] t[i]).1) <= h by {
                assert(t[i] == s[i]);
            }
            assert(1 + height(s[s.len() - 1].1) <= h);
        }
    }
}

/// Unpacks a value as `rmpv` reads it, unless it nests too deep: no level beyond
/// `max_depth` is opened. Of these levels `depth` are taken.
fn from_rmpv(value: Value, depth: usize, max_depth: usize) -> (r: Result<Msg, TooDeep>)
    requires
        depth <= max_depth + 1 <= usize::MAX,
    ensures
        match r {
            Ok(m) => depth + height(msgpack_contents(value)) <= max_depth && m@
                == msgpack_contents(value),
            Err(_) => depth + height(msgpack_contents(value)) > max_depth,
        },
    decreases max_depth + 1 - depth,
{
    if depth > max_depth {
        return Err(TooDeep);
    }
    match open_rmpv(value) {
        Opened::Leaf(m) => Ok(m),
        Opened::Items(list) => {
            let mut rest = list;
            let mut out: Vec<Msg> = Vec::new();
            let ghost all = packed_items(rest@);
            proof {
                lemma_deepest_item(all, (max_depth - depth) as nat);
            }
            loop
                invariant
                    depth <= max_depth < usize::MAX,
                    all == msgpack_contents(value)->Array_0,
                    msgpack_contents(value) is Array,
                    out@.len() + rest@.len() == all.len(),
                    forall|i: int|
                        0 <= i < out@.len() ==> (#[trigger] out@[i])@ == all[i] && depth + 1 + height(
                            all[i],
                        ) <= max_depth,
                    forall|i: int|
                        0 <= i < rest@.len() ==> msgpack_contents(#[trigger] rest@[i]) == all[out@.len()
                            + i],
                    forall|i: int|
                        0 <= i < all.len() ==> 1 + height(#[trigger] all[i]) <= items_height(all),
                ensures
                    rest@.len() == 0,
                decreases rest@.len(),
            {
                let ghost before = rest@;
                match rest.pop_front() {
                    None => {
                        break;
                    },
                    Some(v) => {
                        proof {
                            assert(v == before[0]);
                            assert(msgpack_contents(v) == all[out@.len() as int]);
                            assert forall|i: int| 0 <= i < rest@.len() implies msgpack_contents(
                                #[trigger] rest@[i],
                            ) == all[out@.len() + 1 + i] by {
                                assert(rest@[i] == before[i + 1]);
                            }
                        }
                        match from_rmpv(v, depth + 1, max_depth) {
                            Ok(m) => {
                                let ghost taken = out@;
                                out.push(m);
                                proof {
                                    assert forall|i: int| 0 <= i < out@.len() implies (
                                    #[trigger] out@[i])@ == all[i] && depth + 1 + height(all[i])
                                        <= max_depth by {
                                        if i < taken.len() {
                                            assert(out@[i] == taken[i]);
                                        } else {
                                            assert(out@[i] == m);
                                        }
                                    }
                                }
                            },
                            Err(e) => {
                                proof {
                                    assert(1 + height(all[out@.len() as int]) <= items_height(all));
                                    assert(height(MsgV::Array(all)) == items_height(all));
                                }
                                return Err(e);
                            },
                        }
                    },
                }
            }
            proof {
                lemma_deepest_item(all, (max_depth - depth) as nat);
                lemma_msg_items(out@);
                assert(msg_items(out@) =~= all);
            }
            Ok(Msg::Array(out))
        },
        Opened::Members(list) => {
            let mut rest = list;
            let mut out: Vec<(MsgKey, Msg)> = Vec::new();
            let ghost all = packed_members(rest@);
            proof {
                lemma_deepest_member(all, (max_depth - depth) as nat);
            }
            loop
                invariant
                    depth <= max_depth < usize::MAX,
                    all == msgpack_contents(value)->Dict_0,
                    msgpack_contents(value) is Dict,
                    out@.len() + rest@.len() == all.len(),
                    forall|i: int|
                        0 <= i < out@.len() ==> {
                            &&& ((#[trigger] out@[i]).0@, out@[i].1@) == all[i]
                            &&& depth + 1 + height(all[i].1) <= max_depth
                        },
                    forall|i: int|
                        0 <= i < rest@.len() ==> (
                            msgpack_key((#[trigger] rest@[i]).0),
                            msgpack_contents(rest@[i].1),
                        ) == all[out@.len() + i],
                    forall|i: int|
                        0 <= i < all.len() ==> 1 + height((#[trigger] all[i]).1) <= members_height(all),
                ensures
                    rest@.len() == 0,
                decreases rest@.len(),
            {
                let ghost before = rest@;
                match rest.pop_front() {
                    None => {
                        break;
                    },
                    Some((k, v)) => {
                        proof {
                            assert((k, v) == before[0]);
                            assert((msgpack_key(k), msgpack_contents(v)) == all[out@.len() as int]);
                            assert forall|i: int| 0 <= i < rest@.len() implies (
                                msgpack_key((#[trigger] rest@[i]).0),
                                msgpack_contents(rest@[i].1),
                            ) == all[out@.len() + 1 + i] by {
                                assert(rest@[i] == before[i + 1]);
                            }
                        }
                        let key = from_rmpv_key(k);
                        match from_rmpv(v, depth + 1, max_depth) {
                            Ok(m) => {
                                let ghost taken = out@;
                                out.push((key, m));
                                proof {
                                    assert forall|i: int| 0 <= i < out@.len() implies {
                                        &&& ((#[trigger] out@[i]).0@, out@[i].1@) == all[i]
                                        &&& depth + 1 + height(all[i].1) <= max_depth
                                    } by {
                                        if i < taken.len() {
                                            assert(out@[i] == taken[i]);
                                        } else {
                                            assert(out@[i] == (key, m));
                                        }
                                    }
                                }
                            },
                            Err(e) => {
                                proof {
                                    assert(1 + height(all[out@.len() as int].1) <= members_height(
                                        all,
                                    ));
                                    assert(height(MsgV::Dict(all)) == members_height(all));
                                }
                                return Err(e);
                            },
                        }
                    },
                }
            }
            proof {
                lemma_deepest_member(all, (max_depth - depth) as nat);
                lemma_msg_members(out@);
                assert(msg_members(out@) =~= all);
            }
            Ok(Msg::Dict(out))
        },
    }
}

/// Turns a value as `rmpv` reads it into a plain value, unless it nests more than
/// `max_depth` levels deep.
pub fn rmpv_to_json_value(value: Value, max_depth: usize) -> (r: Result<Json, TooDeep>)
    requires
        max_depth < usize::MAX,
    ensures
        match r {
            Ok(j) => height(msgpack_contents(value)) <= max_depth && j@ == plain(
                msgpack_contents(value),
            ),
            Err(_) => height(msgpack_contents(value)) > max_depth,
        },
{
    match from_rmpv(value, 0, max_depth) {
        Ok(m) => to_json_bounded(&m, 0, max_depth),
        Err(e) => Err(e),
    }
}

/// The members of an answer as plain values. Of two with one name the later one
/// counts.
pub open spec fn answer_members(data: Seq<(Seq<char>, MsgV)>) -> Map<Seq<char>, JsonV>
    decreases data.len(),
{
    if data.len() == 0 {
        Map::empty()
    } else {
        answer_members(data.drop_last()).insert(data.last().0, plain(data.last().1))
    }
}

/// The members of an answer as they mean.
pub open spec fn answer_fields(data: Seq<(String, Msg)>) -> Seq<(Seq<char>, MsgV)> {
    data.map_values(|p: (String, Msg)| (p.0@, p.1@))
}

/// The members of an answer that are still packed as they mean.
pub open spec fn packed_fields(data: Seq<(String, Value)>) -> Seq<(Seq<char>, MsgV)> {
    data.map_values(|p: (String, Value)| (p.0@, msgpack_contents(p.1)))
}

/// Turns the members of an answer into a plain value, unless one of them nests
/// too deep.
pub fn answer_body(data: &Vec<(String, Msg)>, max_depth: usize) -> (r: Result<Json, TooDeep>)
    requires
        max_depth < usize::MAX,
    ensures
        match r {
            Ok(j) => {
                &&& j@ == JsonV::Object(answer_members(answer_fields(data@)))
                &&& forall|i: int|
                    0 <= i < data@.len() ==> height((#[trigger] data@[i]).1@) <= max_depth
            },
            Err(_) => exists|i: int|
                0 <= i < data@.len() && height((#[trigger] data@[i]).1@) > max_depth,
        },
{
    let mut list: Vec<(String, Json)> = Vec::new();
    let mut i: usize = 0;
    let ghost all = answer_fields(data@);
    proof {
        crate::json::lemma_members_empty(list@);
        assert(all.take(0).len() == 0);
    }
    while i < data.len()
        invariant
            i <= data@.len(),
            max_depth < usize::MAX,
            all == answer_fields(data@),
            members(list@) == answer_members(all.take(i as int)),
            forall|k: int| 0 <= k < i ==> height((#[trigger] data@[k]).1@) <= max_depth,
        decreases data@.len() - i,
    {
        proof {
            assert(all.take(i + 1).drop_last() =~= all.take(i as int));
            assert(all.take(i + 1).last() == (data@[i as int].0@, data@[i as int].1@));
        }
        match to_json_bounded(&data[i].1, 0, max_depth) {
            Ok(j) => {
                put(&mut list, data[i].0.as_str(), j);
            },
            Err(e) => {
                return Err(e);
            },
        }
        i += 1;
    }
    proof {
        assert(all.take(i as int) =~= all);
    }
    Ok(Json::Object(list))
}

/// Turns the answer of a miner as it comes over the wire into a plain value, unless
/// one of its members nests more than `max_depth` levels deep.
pub fn read_answer(data: VecDeque<(String, Value)>, max_depth: usize) -> (r: Result<Json, TooDeep>)
    requires
        max_depth < usize::MAX,
    ensures
        match r {
            Ok(j) => {
                &&& j@ == JsonV::Object(answer_members(packed_fields(data@)))
                &&& forall|i: int|
                    0 <= i < data@.len() ==> height(msgpack_contents((#[trigger] data@[i]).1))
                        <= max_depth
            },
            Err(_) => exists|i: int|
                0 <= i < data@.len() && height(msgpack_contents((#[trigger] data@[i]).1)) > max_depth,
        },
{
    let ghost all = data@;
    let mut rest = data;
    let mut fields: Vec<(String, Msg)> = Vec::new();
    loop
        invariant
            max_depth < usize::MAX,
            all == data@,
            fields@.len() + rest@.len() == all.len(),
            forall|i: int|
                0 <= i < fields@.len() ==> {
                    &&& (#[trigger] fields@[i]).0@ == all[i].0@
                    &&& fields@[i].1@ == msgpack_contents(all[i].1)
                    &&& height(msgpack_contents(all[i].1)) <= max_depth
                },
            forall|i: int| 0 <= i < rest@.len() ==> #[trigger] rest@[i] == all[fields@.len() + i],
        ensures
            rest@.len() == 0,
        decreases rest@.len(),
    {
        let ghost before = rest@;
        match rest.pop_front() {
            None => {
                break;
            },
            Some((name, value)) => {
                let ghost taken = fields@;
                proof {
                    assert((name, value) == before[0]);
                    assert((name, value) == all[taken.len() as int]);
                    assert forall|i: int| 0 <= i < rest@.len() implies #[trigger] rest@[i]
                        == all[taken.len() + 1 + i] by {
                        assert(rest@[i] == before[i + 1]);
                    }
                }
                match from_rmpv(value, 0, max_depth) {
                    Ok(m) => {
                        fields.push((name, m));
                        proof {
                            assert forall|i: int| 0 <= i < fields@.len() implies {
                                &&& (#[trigger] fields@[i]).0@ == all[i].0@
                                &&& fields@[i].1@ == msgpack_contents(all[i].1)
                                &&& height(msgpack_contents(all[i].1)) <= max_depth
                            } by {
                                if i < taken.len() {
                                    assert(fields@[i] == taken[i]);
                                } else {
                                    assert(fields@[i] == (name, m));
                                }
                            }
                        }
                    },
                    Err(e) => {
                        return Err(e);
                    },
                }
            },
        }
    }
    proof {
        assert forall|i: int| 0 <= i < all.len() implies height(
            msgpack_contents((#[trigger] all[i]).1),
        ) <= max_depth by {
            assert(fields@[i].0@ == all[i].0@);
        }
        assert(answer_fields(fields@) =~= packed_fields(all));
    }
    answer_body(&fields, max_depth)
}

/// Keys that are no text stay apart from one another, whatever bytes they are.
pub proof fn odd_keys_stay_apart(a: Seq<u8>, b: Seq<u8>)
    requires
        member_name(MsgKeyV::Raw(a)) == member_name(MsgKeyV::Raw(b)),
    ensures
        a == b,
{
    let p = "__msgpack_str_hex:"@;
    let x = p + hex_text(a);
    let y = p + hex_text(b);
    assert(x.skip(p.len() as int) =~= hex_text(a));
    assert(y.skip(p.len() as int) =~= hex_text(b));
    crate::digest::hex_text_is_injective(a, b);
}

} // verus!
