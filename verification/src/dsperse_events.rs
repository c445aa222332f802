//! What is told of the course of runs: events that are gathered and sent on
//! together.

use vstd::prelude::*;
use vstd::string::*;

use crate::json::{items, lemma_items, members, put, Json, JsonV};
use crate::text::{decimal, decimal_text, digit_char};
use crate::timed::{keep_newest_listed, newest};

verus! {

/// How many events are kept until they can be sent.
pub const MAX_BUFFERED_EVENTS: usize = 10_000;

/// The events that were gathered, and who tells them.
#[derive(Debug)]
pub struct DsperseEventClient {
    pub validator_key: String,
    pub events: Vec<Json>,
}

/// When an event is told: seconds, and thousandths of one.
#[derive(Clone, Copy, Debug)]
pub struct Moment {
    pub secs: u64,
    pub millis: u32,
}

impl View for DsperseEventClient {
    type V = Seq<JsonV>;

    open spec fn view(&self) -> Seq<JsonV> {
        items(self.events@)
    }
}

/// Three digits for a number below a thousand.
pub open spec fn three_digits(n: nat) -> Seq<char> {
    seq![digit_char(n / 100), digit_char(n / 10 % 10), digit_char(n % 10)]
}

/// A time as text: seconds, and thousandths of one.
pub open spec fn timestamp_text(secs: u64, millis: u32) -> Seq<char> {
    decimal_text(secs as nat) + "."@ + three_digits(millis as nat)
}

/// An event with its time, unless it has one, and with who tells it.
pub open spec fn stamped(
    event: Map<Seq<char>, JsonV>,
    secs: u64,
    millis: u32,
    validator_key: Seq<char>,
) -> Map<Seq<char>, JsonV> {
    let timed = if event.contains_key("timestamp"@) {
        event
    } else {
        event.insert("timestamp"@, JsonV::Text(timestamp_text(secs, millis)))
    };
    timed.insert("validator_key"@, JsonV::Text(validator_key))
}

/// The events with one more, and without the oldest where there are too many.
pub open spec fn emitted(
    events: Seq<JsonV>,
    event: Map<Seq<char>, JsonV>,
    at: Moment,
    validator_key: Seq<char>,
) -> Seq<JsonV> {
    newest(
        events.push(JsonV::Object(stamped(event, at.secs, at.millis, validator_key))),
        MAX_BUFFERED_EVENTS as nat,
    )
}

/// What is sent of the events.
pub open spec fn batch_json(validator_key: Seq<char>, events: Seq<JsonV>) -> JsonV {
    JsonV::Object(
        Map::<Seq<char>, JsonV>::empty().insert(
            "validator_key"@,
            JsonV::Text(validator_key),
        ).insert("events"@, JsonV::Array(events)),
    )
}

proof fn lemma_items_newest(s: Seq<Json>, n: nat)
    ensures
        items(newest(s, n)) == newest(items(s), n),
{
    lemma_items(s);
    lemma_items(newest(s, n));
    assert(items(newest(s, n)) =~= newest(items(s), n));
}

proof fn lemma_items_add(a: Seq<Json>, b: Seq<Json>)
    ensures
        items(a + b) == items(a) + items(b),
{
    lemma_items(a);
    lemma_items(b);
    lemma_items(a + b);
    assert(items(a + b) =~= items(a) + items(b));
}

fn one_digit(n: u32) -> (r: String)
    requires
        n < 10,
    ensures
        r@ == seq![digit_char(n as nat)],
{
    let r = decimal(n as u64);
    proof {
        assert(n as nat % 10 == n as nat);
        assert(decimal_text(n as nat) =~= seq![digit_char(n as nat)]);
    }
    r
}

/// Writes a time as text.
pub fn timestamp(secs: u64, millis: u32) -> (r: String)
    requires
        millis < 1000,
    ensures
        r@ == timestamp_text(secs, millis),
{
    let r = decimal(secs).concat(".").concat(one_digit(millis / 100).as_str()).concat(
        one_digit(millis / 10 % 10).as_str(),
    ).concat(one_digit(millis % 10).as_str());
    proof {
        assert(r@ =~= timestamp_text(secs, millis));
    }
    r
}

fn has_member(list: &Vec<(String, Json)>, name: &str) -> (r: bool)
    ensures
        r == members(list@).contains_key(name@),
{
    proof {
        reveal_with_fuel(members, 2);
        assert(list@.take(0).len() == 0);
    }
    let mut found = false;
    let mut i: usize = 0;
    while i < list.len()
        invariant
            i <= list@.len(),
            found == members(list@.take(i as int)).contains_key(name@),
        decreases list@.len() - i,
    {
        proof {
            reveal_with_fuel(members, 2);
            assert(list@.take(i + 1).drop_last() =~= list@.take(i as int));
            assert(list@.take(i + 1).last() == list@[i as int]);
        }
        if crate::text::str_eq(list[i].0.as_str(), name) {
            found = true;
        }
        i += 1;
    }
    proof {
        assert(list@.take(i as int) =~= list@);
    }
    found
}

impl DsperseEventClient {
    /// No event was gathered.
    pub fn new(validator_key: String) -> (b: Self)
        ensures
            b@.len() == 0,
            b.validator_key == validator_key,
    {
        let b = DsperseEventClient { validator_key, events: Vec::new() };
        proof {
            lemma_items(b.events@);
        }
        b
    }

    /// How many events are there.
    pub fn len(&self) -> (n: usize)
        ensures
            n == self@.len(),
    {
        proof {
            lemma_items(self.events@);
        }
        self.events.len()
    }

    /// Gathers an event, given by its members. Where there are too many, the
    /// oldest ones are dropped.
    pub fn emit(&mut self, event: Vec<(String, Json)>, at: Moment)
        requires
            at.millis < 1000,
        ensures
            final(self)@ == emitted(
                old(self)@,
                members(event@),
                at,
                old(self).validator_key@,
            ),
            final(self).validator_key == old(self).validator_key,
    {
        let mut list = event;
        if !has_member(&list, "timestamp") {
            put(&mut list, "timestamp", Json::Text(timestamp(at.secs, at.millis)));
        }
        put(&mut list, "validator_key", Json::Text(self.validator_key.clone()));
        let mut events: Vec<Json> = Vec::new();
        std::mem::swap(&mut events, &mut self.events);
        let ghost before = events@;
        let one = Json::Object(list);
        events.push(one);
        proof {
            lemma_items(before);
            lemma_items(events@);
            assert(items(events@) =~= items(before).push(one@));
            lemma_items_newest(events@, MAX_BUFFERED_EVENTS as nat);
        }
        self.events = keep_newest_listed(events, MAX_BUFFERED_EVENTS);
    }

    /// Takes all events out to be sent, if there are any, with what is sent of
    /// them.
    pub fn flush(&mut self) -> (r: Option<(Json, Vec<Json>)>)
        ensures
            final(self).validator_key == old(self).validator_key,
            r is Some == (old(self)@.len() > 0),
            r is None ==> final(self)@ == old(self)@,
            r matches Some((batch, events)) ==> {
                &&& final(self)@.len() == 0
                &&& items(events@) == old(self)@
                &&& batch@ == batch_json(old(self).validator_key@, old(self)@)
            },
    {
        proof {
            lemma_items(self.events@);
        }
        if self.events.len() == 0 {
            return None;
        }
        let mut events: Vec<Json> = Vec::new();
        std::mem::swap(&mut events, &mut self.events);
        let mut copies: Vec<Json> = Vec::new();
        let mut i: usize = 0;
        while i < events.len()
            invariant
                i <= events@.len(),
                copies@.len() == i,
                forall|k: int| 0 <= k < i ==> (#[trigger] copies@[k])@ == events@[k]@,
            decreases events@.len() - i,
        {
            copies.push(events[i].copy());
            i += 1;
        }
        let mut list: Vec<(String, Json)> = Vec::new();
        proof {
            lemma_items(self.events@);
            lemma_items(events@);
            lemma_items(copies@);
            assert(items(copies@) =~= items(events@));
            crate::json::lemma_members_empty(list@);
        }
        put(&mut list, "validator_key", Json::Text(self.validator_key.clone()));
        put(&mut list, "events", Json::Array(copies));
        Some((Json::Object(list), events))
    }

    /// Puts events back that could not be sent, in front of those that came
    /// since. Where there are too many, the oldest ones are dropped.
    pub fn restore_buffer(&mut self, events: Vec<Json>)
        ensures
            final(self)@ == newest(items(events@) + old(self)@, MAX_BUFFERED_EVENTS as nat),
            final(self).validator_key == old(self).validator_key,
    {
        let mut current: Vec<Json> = Vec::new();
        std::mem::swap(&mut current, &mut self.events);
        let mut restored = events;
        let ghost later = current@;
        restored.append(&mut current);
        proof {
            assert(restored@ =~= events@ + later);
            lemma_items_add(events@, later);
            lemma_items_newest(restored@, MAX_BUFFERED_EVENTS as nat);
        }
        self.events = keep_newest_listed(restored, MAX_BUFFERED_EVENTS);
    }
}

/// The members of an event of a run.
pub open spec fn run_event(kind: Seq<char>, run_uid: Seq<char>) -> Map<Seq<char>, JsonV> {
    Map::<Seq<char>, JsonV>::empty().insert("event_type"@, JsonV::Text(kind)).insert(
        "run_uid"@,
        JsonV::Text(run_uid),
    )
}

fn start_event(kind: &str, run_uid: &str) -> (list: Vec<(String, Json)>)
    ensures
        members(list@) == run_event(kind@, run_uid@),
{
    let mut list: Vec<(String, Json)> = Vec::new();
    proof {
        crate::json::lemma_members_empty(list@);
    }
    put(&mut list, "event_type", Json::Text(kind.to_owned()));
    put(&mut list, "run_uid", Json::Text(run_uid.to_owned()));
    list
}

impl DsperseEventClient {
    /// A run has started.
    pub fn emit_run_started(
        &mut self,
        run_uid: &str,
        circuit_id: &str,
        circuit_name: &str,
        total_slices: usize,
        total_tiles: usize,
        slice_tile_counts: Json,
        run_source: &str,
        environment: Json,
        at: Moment,
    )
        requires
            at.millis < 1000,
        ensures
            final(self)@ == emitted(
                old(self)@,
                run_event("run_started"@, run_uid@)
                    .insert("circuit_id"@, JsonV::Text(circuit_id@))
                    .insert("circuit_name"@, JsonV::Text(circuit_name@))
                    .insert("total_slices"@, JsonV::Int(total_slices as int))
                    .insert("total_tiles"@, JsonV::Int(total_tiles as int))
                    .insert("slice_tile_counts"@, slice_tile_counts@)
                    .insert("run_source"@, JsonV::Text(run_source@))
                    .insert("environment"@, environment@),
                at,
                old(self).validator_key@,
            ),
            final(self).validator_key == old(self).validator_key,
    {
        let mut list = start_event("run_started", run_uid);
        put(&mut list, "circuit_id", Json::Text(circuit_id.to_owned()));
        put(&mut list, "circuit_name", Json::Text(circuit_name.to_owned()));
        put(&mut list, "total_slices", Json::Unsigned(total_slices as u64));
        put(&mut list, "total_tiles", Json::Unsigned(total_tiles as u64));
        put(&mut list, "slice_tile_counts", slice_tile_counts);
        put(&mut list, "run_source", Json::Text(run_source.to_owned()));
        put(&mut list, "environment", environment);
        self.emit(list, at);
    }

    /// The pieces of a slice have been planned.
    pub fn emit_work_items_created(
        &mut self,
        run_uid: &str,
        slice_num: &str,
        total_tiles: usize,
        at: Moment,
    )
        requires
            at.millis < 1000,
        ensures
            final(self)@ == emitted(
                old(self)@,
                run_event("work_items_created"@, run_uid@)
                    .insert("slice_num"@, JsonV::Text(slice_num@))
                    .insert("total_tiles"@, JsonV::Int(total_tiles as int)),
                at,
                old(self).validator_key@,
            ),
            final(self).validator_key == old(self).validator_key,
    {
        let mut list = start_event("work_items_created", run_uid);
        put(&mut list, "slice_num", Json::Text(slice_num.to_owned()));
        put(&mut list, "total_tiles", Json::Unsigned(total_tiles as u64));
        self.emit(list, at);
    }

    /// A miner has answered. `response_time_sec` is a number.
    pub fn emit_proof_received(
        &mut self,
        run_uid: &str,
        slice_num: &str,
        response_time_sec: Json,
        miner_uid: u16,
        at: Moment,
    )
        requires
            at.millis < 1000,
        ensures
            final(self)@ == emitted(
                old(self)@,
                run_event("proof_received"@, run_uid@)
                    .insert("slice_num"@, JsonV::Text(slice_num@))
                    .insert("response_time_sec"@, response_time_sec@)
                    .insert("miner_uid"@, JsonV::Int(miner_uid as int)),
                at,
                old(self).validator_key@,
            ),
            final(self).validator_key == old(self).validator_key,
    {
        let mut list = start_event("proof_received", run_uid);
        put(&mut list, "slice_num", Json::Text(slice_num.to_owned()));
        put(&mut list, "response_time_sec", response_time_sec);
        put(&mut list, "miner_uid", Json::Unsigned(miner_uid as u64));
        self.emit(list, at);
    }

    /// An answer has been checked. `verification_time_sec` is a number.
    pub fn emit_verification_complete(
        &mut self,
        run_uid: &str,
        slice_num: &str,
        verification_time_sec: Json,
        success: bool,
        at: Moment,
    )
        requires
            at.millis < 1000,
        ensures
            final(self)@ == emitted(
                old(self)@,
                run_event("verification_complete"@, run_uid@)
                    .insert("slice_num"@, JsonV::Text(slice_num@))
                    .insert("verification_time_sec"@, verification_time_sec@)
                    .insert("success"@, JsonV::Bool(success)),
                at,
                old(self).validator_key@,
            ),
            final(self).validator_key == old(self).validator_key,
    {
        let mut list = start_event("verification_complete", run_uid);
        put(&mut list, "slice_num", Json::Text(slice_num.to_owned()));
        put(&mut list, "verification_time_sec", verification_time_sec);
        put(&mut list, "success", Json::Bool(success));
        self.emit(list, at);
    }

    /// A slice has been given up.
    pub fn emit_slice_failed(&mut self, run_uid: &str, slice_num: &str, error: &str, at: Moment)
        requires
            at.millis < 1000,
        ensures
            final(self)@ == emitted(
                old(self)@,
                run_event("slice_failed"@, run_uid@)
                    .insert("slice_num"@, JsonV::Text(slice_num@))
                    .insert("success"@, JsonV::Bool(false))
                    .insert("error"@, JsonV::Text(error@)),
                at,
                old(self).validator_key@,
            ),
            final(self).validator_key == old(self).validator_key,
    {
        let mut list = start_event("slice_failed", run_uid);
        put(&mut list, "slice_num", Json::Text(slice_num.to_owned()));
        put(&mut list, "success", Json::Bool(false));
        put(&mut list, "error", Json::Text(error.to_owned()));
        self.emit(list, at);
    }

    /// A run has ended. `total_run_time_sec` is a number.
    pub fn emit_run_complete(
        &mut self,
        run_uid: &str,
        all_successful: bool,
        total_run_time_sec: Json,
        at: Moment,
    )
        requires
            at.millis < 1000,
        ensures
            final(self)@ == emitted(
                old(self)@,
                run_event("run_complete"@, run_uid@)
                    .insert("all_successful"@, JsonV::Bool(all_successful))
                    .insert("total_run_time_sec"@, total_run_time_sec@),
                at,
                old(self).validator_key@,
            ),
            final(self).validator_key == old(self).validator_key,
    {
        let mut list = start_event("run_complete", run_uid);
        put(&mut list, "all_successful", Json::Bool(all_successful));
        put(&mut list, "total_run_time_sec", total_run_time_sec);
        self.emit(list, at);
    }
}

/// Events that could not be sent come out again before those that were gathered
/// since, in the order in which they came, as long as there is room for all.
pub proof fn unsent_events_keep_their_place(sent: Seq<JsonV>, since: Seq<JsonV>)
    ensures
        newest(sent + since, MAX_BUFFERED_EVENTS as nat).len() <= MAX_BUFFERED_EVENTS,
        sent.len() + since.len() <= MAX_BUFFERED_EVENTS ==> newest(
            sent + since,
            MAX_BUFFERED_EVENTS as nat,
        ) == sent + since,
        since.len() <= MAX_BUFFERED_EVENTS ==> newest(
            sent + since,
            MAX_BUFFERED_EVENTS as nat,
        ).skip(newest(sent + since, MAX_BUFFERED_EVENTS as nat).len() - since.len()) == since,
{
    let all = sent + since;
    let kept = newest(all, MAX_BUFFERED_EVENTS as nat);
    if since.len() <= MAX_BUFFERED_EVENTS {
        assert(kept.skip(kept.len() - since.len()) =~= since);
    }
}

} // verus!
