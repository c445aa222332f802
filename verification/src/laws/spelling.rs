//! How numbers, bytes and nested values are written.

use vstd::prelude::*;

use crate::digest::{hex_bytes, hex_text, is_hex};
use crate::dispatch::DispatchCandidate;
use crate::dispatch_pass::untouched;
use crate::dsperse_events::{three_digits, timestamp_text};
use crate::incremental_runner::newcomers;
use crate::json::{Json, JsonV};
use crate::miner_client::{answer_members, height, optional_text, plain, MsgKeyV, MsgV};
use crate::performance::member_list;
use crate::planning::{plan_view, GroupPayloadPart};
use crate::results::str_view;
use crate::scoring::{capped_out, keepers, region_at};
use crate::staging::{plans_follow, PlanV, SliceInput};
use crate::dslice::PlannedSliceWork;
use crate::stepwise::{are_tile_requests, StepSlice};
use crate::tensor::{nested, nested_rows, shape_product};
use crate::text::{
    all_digits, decimal_text, digit_char, digits_value, is_digit, occurs_at, unsigned_up_to,
    unsigned_value,
};
use crate::types::{Circuit, DSliceRequest, RunSource};
use crate::verification::pair_view;

verus! {

/// A number is written digit by digit, the last digit last.
pub proof fn numbers_are_written_in_tens(n: nat, d: nat)
    requires
        d < 10,
    ensures
        decimal_text(d) == seq![digit_char(d)],
        n > 0 ==> decimal_text(10 * n + d) == decimal_text(n).push(digit_char(d)),
        digit_char(0) == '0' && digit_char(7) == '7' && digit_char(9) == '9',
{
}

/// A number is read from digits, with or without a plus sign in front, as long as it
/// does not exceed what is asked for; a sign alone or nothing is no number.
pub proof fn numbers_are_read_from_digits(d: Seq<char>, max: nat, x: Seq<char>)
    requires
        all_digits(d),
        d.len() > 0,
    ensures
        unsigned_value(d) == Some(digits_value(d)),
        unsigned_value(seq!['+'] + d) == Some(digits_value(d)),
        unsigned_value(seq!['-'] + d) is None,
        unsigned_value(seq!['+']) is None && unsigned_value(Seq::empty()) is None,
        digits_value(d) <= max ==> unsigned_up_to(d, max) == Some(digits_value(d)),
        digits_value(d) > max ==> unsigned_up_to(d, max) is None,
        x.contains('x') ==> unsigned_value(x) is None,
{
    assert(is_digit(d[0]));
    let p = seq!['+'] + d;
    assert(p.drop_first() =~= d);
    let m = seq!['-'] + d;
    assert(m[0] == '-');
    assert(!is_digit(m[0]));
    let one = seq!['+'];
    assert(one[0] == '+' && !is_digit(one[0]));
    if x.contains('x') {
        let k = choose|k: int| 0 <= k < x.len() && x[k] == 'x';
        assert(!is_digit(x[k]));
        if x.len() > 1 && x[0] == '+' {
            assert(x.drop_first()[k - 1] == x[k]);
        }
    }
}

/// A text stands in another where each of its characters does.
pub proof fn texts_stand_where_their_characters_do(s: Seq<char>, t: Seq<char>, i: int, j: int)
    requires
        occurs_at(s, t, i),
        0 <= j < t.len(),
    ensures
        0 <= i && i + t.len() <= s.len(),
        s[i + j] == t[j],
{
    assert(s.subrange(i, i + t.len())[j] == t[j]);
}

/// A made-up miner's number is written with three digits.
pub proof fn made_up_hotkeys_have_three_digits(n: nat)
    requires
        n < 1000,
    ensures
        crate::simulator::three_digits(n).len() == 3,
        crate::simulator::three_digits(n).skip(3 - decimal_text(n).len()) == decimal_text(n),
        n < 100 ==> crate::simulator::three_digits(n)[0] == '0',
        n < 10 ==> crate::simulator::three_digits(n)[1] == '0',
{
    reveal_strlit("00");
    reveal_strlit("0");
    reveal_strlit("");
    reveal_with_fuel(decimal_text, 4);
    assert("00"@.len() == 2 && "0"@.len() == 1 && ""@.len() == 0);
    assert("00"@[0] == '0' && "00"@[1] == '0' && "0"@[0] == '0');
    if n >= 10 {
        assert(decimal_text(n).len() == decimal_text(n / 10).len() + 1);
    }
    assert(crate::simulator::three_digits(n).skip(3 - decimal_text(n).len()) =~= decimal_text(n));
}

/// What may be absent is what it is where it is there.
pub proof fn what_is_there_is_seen(t: String, p: Vec<GroupPayloadPart>, m: Vec<(String, Json)>, b: String, s: &str)
    ensures
        optional_text(Some(t)) == Some(t@) && optional_text(None) is None,
        plan_view(Some(p)) == Some(p@) && plan_view(None) is None,
        member_list(Some(&m)) == m@ && member_list(None).len() == 0,
        pair_view(Some((t, b))) == Some((t@, b@)) && pair_view(None) is None,
        str_view(Some(s)) == Some(s@) && str_view(None) is None,
{
}

/// The thousandths of a second are written with three digits that make the number up.
pub proof fn thousandths_have_three_digits(secs: u64, millis: u32)
    requires
        millis < 1000,
    ensures
        three_digits(millis as nat).len() == 3,
        all_digits(three_digits(millis as nat)),
        digits_value(three_digits(millis as nat)) == millis,
        timestamp_text(secs, millis) == decimal_text(secs as nat) + "."@ + three_digits(
            millis as nat,
        ),
{
    let t = three_digits(millis as nat);
    reveal_with_fuel(digits_value, 4);
    let a = t.drop_last();
    let b = a.drop_last();
    let c = b.drop_last();
    assert(a =~= seq![t[0], t[1]]);
    assert(b =~= seq![t[0]]);
    assert(c =~= Seq::<char>::empty());
    assert(digits_value(c) == 0);
}

/// A byte is written as two digits of base sixteen, the higher one first, and read
/// from two of them in either case.
pub proof fn bytes_are_written_in_two_digits(b: Seq<u8>, i: int, t: Seq<char>)
    requires
        0 <= i < b.len(),
    ensures
        hex_text(b).len() == 2 * b.len(),
        b[i] == 0x1f ==> hex_text(b)[2 * i] == '1' && hex_text(b)[2 * i + 1] == 'f',
        b[i] == 0xa9 ==> hex_text(b)[2 * i] == 'a' && hex_text(b)[2 * i + 1] == '9',
        b[i] < 16 ==> hex_text(b)[2 * i] == '0',
        b[i] as int % 16 == 10 ==> hex_text(b)[2 * i + 1] == 'a',
        t.len() % 2 == 1 ==> !is_hex(t),
        t.contains('g') || t.contains('x') ==> !is_hex(t),
        is_hex(t) ==> hex_bytes(t).len() * 2 == t.len(),
        2 * i + 1 < t.len() && t[2 * i] == 'B' && t[2 * i + 1] == '4' ==> hex_bytes(t)[i] == 0xb4,
        2 * i + 1 < t.len() && t[2 * i] == '9' && t[2 * i + 1] == 'e' ==> hex_bytes(t)[i] == 0x9e,
        t.len() % 2 == 0 && (forall|k: int|
            0 <= k < t.len() ==> '0' <= #[trigger] t[k] <= '9' || 'a' <= t[k] <= 'f' || 'A' <= t[k]
                <= 'F') ==> is_hex(t),
{
    if t.contains('g') {
        let k = choose|k: int| 0 <= k < t.len() && t[k] == 'g';
        assert(crate::digest::hex_value(t[k]) == -1);
    }
    if t.contains('x') {
        let k = choose|k: int| 0 <= k < t.len() && t[k] == 'x';
        assert(crate::digest::hex_value(t[k]) == -1);
    }
}

/// Values in a shape of several dimensions are as many lists as the first dimension
/// says, each of the next values in the shape of the other dimensions.
pub proof fn values_are_nested_row_by_row(data: Seq<JsonV>, shape: Seq<usize>, i: int)
    requires
        shape.len() >= 2,
        0 <= i < shape[0],
    ensures
        nested(data, shape) matches JsonV::Array(rows) && rows.len() == shape[0] && rows[i] == nested(
            data.subrange(
                i * shape_product(shape.drop_first()) as int,
                (i + 1) * shape_product(shape.drop_first()) as int,
            ),
            shape.drop_first(),
        ),
        nested(data, seq![shape[0]]) == JsonV::Array(data),
{
    lemma_rows(data, shape.drop_first(), shape[0] as nat, i);
}

proof fn lemma_rows(data: Seq<JsonV>, inner: Seq<usize>, n: nat, i: int)
    requires
        0 <= i < n,
    ensures
        nested_rows(data, inner, n).len() == n,
        nested_rows(data, inner, n)[i] == nested(
            data.subrange(
                i * shape_product(inner) as int,
                (i + 1) * shape_product(inner) as int,
            ),
            inner,
        ),
    decreases n,
{
    if n > 1 {
        if i < n - 1 {
            lemma_rows(data, inner, (n - 1) as nat, i);
        } else {
            lemma_rows(data, inner, (n - 1) as nat, 0);
        }
    } else {
        assert(nested_rows(data, inner, 0).len() == 0);
    }
}

/// An integer that a machine number holds is read as one, and nothing else is.
pub proof fn machine_numbers_are_read(n: int, v: JsonV, k: Seq<char>, m: Map<Seq<char>, JsonV>)
    ensures
        0 <= n <= u64::MAX ==> JsonV::Int(n).unsigned() == Some(n as u64),
        n < 0 || n > u64::MAX ==> JsonV::Int(n).unsigned() is None,
        !(v is Int) ==> v.unsigned() is None,
        m.contains_key(k) ==> JsonV::Object(m).member(k) == Some(m[k]),
        !m.contains_key(k) ==> JsonV::Object(m).member(k) is None,
        !(v is Object) ==> v.member(k) is None,
        !(v is Text) ==> v.text() is None,
        !(v is Array) ==> v.list() is None,
        JsonV::Text(k).text() == Some(k),
{
}

/// An answer's members stand under their names, the last one of a name, and what nests
/// deeper than all before sets how deep the whole nests.
pub proof fn answers_are_read_member_by_member(
    data: Seq<(Seq<char>, MsgV)>,
    name: Seq<char>,
    v: MsgV,
    k: Seq<char>,
    s: Seq<(MsgKeyV, MsgV)>,
    key: MsgKeyV,
    a: Seq<MsgV>,
)
    ensures
        answer_members(Seq::empty()) == Map::<Seq<char>, JsonV>::empty(),
        answer_members(data.push((name, v))).contains_key(name) && answer_members(
            data.push((name, v)),
        )[name] == plain(v),
        k != name && answer_members(data).contains_key(k) ==> answer_members(
            data.push((name, v)),
        ).contains_key(k) && answer_members(data.push((name, v)))[k] == answer_members(data)[k],
        height(MsgV::Dict(s.push((key, v)))) >= 1 + height(v),
        height(MsgV::Dict(s.push((key, v)))) >= height(MsgV::Dict(s)),
        height(MsgV::Dict(s.push((key, v)))) == 1 + height(v) || height(MsgV::Dict(s.push((key, v))))
            == height(MsgV::Dict(s)),
        height(MsgV::Dict(Seq::empty())) == 0,
        height(MsgV::Array(a.push(v))) >= 1 + height(v),
        height(MsgV::Array(a.push(v))) >= height(MsgV::Array(a)),
        height(MsgV::Array(a.push(v))) == 1 + height(v) || height(MsgV::Array(a.push(v))) == height(
            MsgV::Array(a),
        ),
{
    assert(data.push((name, v)).drop_last() =~= data);
    assert(s.push((key, v)).drop_last() =~= s);
    reveal_with_fuel(height, 3);
    reveal_with_fuel(crate::miner_client::members_height, 3);
    reveal_with_fuel(crate::miner_client::items_height, 3);
    assert(a.push(v).drop_last() =~= a);
}

/// Of the runs that are given up, those are newly remembered that were not before.
pub proof fn newly_given_up_runs_are_told(evicted: Seq<Seq<char>>, gone: Seq<Seq<char>>, run: Seq<char>)
    ensures
        newcomers(evicted, Seq::empty()).len() == 0,
        evicted.contains(run) ==> newcomers(evicted, gone.push(run)) == newcomers(evicted, gone),
        !evicted.contains(run) ==> newcomers(evicted, gone.push(run)) == newcomers(
            evicted,
            gone,
        ).push(run),
{
    assert(gone.push(run).drop_last() =~= gone);
}

/// The plans of a run come behind those that waited, one for each slice that is
/// planned, each of its slice.
pub proof fn new_plans_wait_behind_the_others(
    before: Seq<PlannedSliceWork>,
    after: Seq<PlannedSliceWork>,
    v: PlanV,
    run: Seq<char>,
    circuit: Circuit,
    source: RunSource,
    slices: Seq<SliceInput>,
    i: int,
)
    requires
        plans_follow(before, after, v, run, circuit, source, slices),
    ensures
        after.len() == before.len() + v.planned.len(),
        0 <= i < before.len() ==> after[i] == before[i],
        0 <= i < v.planned.len() ==> after[before.len() + i].run_uid@ == run
            && after[before.len() + i].slice_id == slices[v.planned[i].0].work.slice_id
            && after[before.len() + i].payload == v.planned[i].1 && after[before.len()
            + i].component_sha == slices[v.planned[i].0].component_sha,
{
    if 0 <= i < before.len() {
        assert(after.take(before.len() as int)[i] == before[i]);
    }
}

/// Each tile of a step is asked for once, with its own inputs and its own number.
pub proof fn each_tile_of_a_step_is_asked_for(
    r: Seq<DSliceRequest>,
    slice: StepSlice,
    circuit: Circuit,
    run: Seq<char>,
    source: RunSource,
    tiles: Seq<Vec<u8>>,
    i: u32,
)
    requires
        are_tile_requests(r, slice, circuit, run, source, tiles),
        i < tiles.len(),
    ensures
        r.len() == tiles.len(),
        r[i as int].inputs@ == tiles[i as int]@,
        r[i as int].tile_idx == Some(i) && r[i as int].is_tile,
        r[i as int].run_uid@ == run && r[i as int].slice_num == slice.slice_id,
        r[i as int].component_sha is None && r[i as int].task_id is None,
        r[i as int].circuit == circuit && r[i as int].run_source == source,
{
}

/// At the start of a pass no miner has got anything yet.
pub proof fn passes_start_with_nothing_given(s: Seq<DispatchCandidate>, i: int)
    requires
        untouched(s),
        0 <= i < s.len(),
    ensures
        s[i].dispatched == 0,
        s[i].projected_active == s[i].initial_active,
{
}

/// The miners of a region that keep their weight are those of the region that do not
/// lose it.
pub proof fn keepers_are_of_the_region(
    uids: Seq<u16>,
    weights: Seq<u64>,
    regions: Map<u16, String>,
    max: usize,
    region: Seq<char>,
    i: int,
)
    ensures
        keepers(uids, weights, regions, max, region).contains(i) <==> 0 <= i < uids.len() && region_at(
            uids,
            regions,
            i,
        ) == region && !capped_out(uids, weights, regions, max, i),
        0 <= i < uids.len() && regions.contains_key(uids[i]) ==> region_at(uids, regions, i)
            == regions[uids[i]]@,
        0 <= i < uids.len() && !regions.contains_key(uids[i]) ==> region_at(uids, regions, i).len()
            == 0,
{
}

} // verus!
