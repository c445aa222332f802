//! What is reported to the statistics service, and when.

use std::collections::VecDeque;
use vstd::prelude::*;
use vstd::string::*;

use crate::capacity::{
    cap_dir_to_str, direction_word, hotkey_of, hotkey_or_empty, CapEvent, MAX_BUFFERED_CAP_EVENTS,
};
use crate::completion::{DsperseRunReport, DsperseSliceReport};
use crate::digest::{base64_decoded, base64_encode, base64_encoded};
use crate::json::{items, lemma_items, members, put, Json, JsonV};
use crate::keyed::UidMap;
use crate::rsv::minus;
use crate::text::{decimal, decimal_text};
use crate::timed::{keep_newest, newest};

verus! {

/// How many seconds pass between two reports of a kind.
pub const STATS_FLUSH_INTERVAL_SECS: u64 = 60;

/// How many seconds the first report of a kind is put off, so that they do not
/// all come at once.
pub const HEALTH_FLUSH_OFFSET_SECS: u64 = 20;

/// How many seconds the first report of events is put off.
pub const EVENTS_FLUSH_OFFSET_SECS: u64 = 40;

/// How many seconds the first report of capacities is put off.
pub const CAPACITY_FLUSH_OFFSET_SECS: u64 = 50;

/// How many changes of capacities are kept until they can be reported.
pub const PENDING_CAP_EVENTS_MAX: usize = MAX_BUFFERED_CAP_EVENTS;

/// How often a report that was not taken is sent again.
pub const MAX_RETRIES: u32 = 3;

/// The signature of a report as it is sent along.
pub fn signature_text(signature: &[u8]) -> (r: String)
    ensures
        r@ == base64_encoded(signature@),
        base64_decoded(r@) == Some(signature@),
{
    base64_encode(signature)
}

/// The state of the host at a moment. The memory is kept as the bits of a number.
#[derive(Clone, Copy, Debug)]
pub struct HealthSample {
    pub rss_mb: u64,
    pub active_tasks: usize,
    pub queue_size: usize,
}

/// What is to be reported.
#[derive(Debug)]
pub struct StatsReporter {
    pub validator_key: String,
    pub validator_uid: u16,
    pub recent_responses: Vec<Json>,
    pub last_response_log: u64,
    pub health_samples: Vec<HealthSample>,
    pub last_health_flush: u64,
    pub last_capacity_flush: u64,
    pub pending_cap_events: VecDeque<CapEvent>,
    /// How many ticks of the clock pass between two reports of a kind.
    pub interval: u64,
    /// How many ticks a thousandth of a second has.
    pub ticks_per_milli: u64,
}

/// An answer of a miner, as it is reported. What is a number, or may be absent,
/// is given as a value.
#[derive(Debug)]
pub struct ResponseLog {
    pub miner_key: Option<String>,
    pub miner_uid: u16,
    pub proof_model: Option<String>,
    pub proof_system: Option<String>,
    pub proof_size: Json,
    pub response_duration: Json,
    pub is_verified: bool,
    pub external_request_hash: Json,
    pub request_type: Option<String>,
    pub error: Option<String>,
    pub save: bool,
}

/// A text, or another where there is none.
pub open spec fn text_or(t: Option<String>, other: Seq<char>) -> Seq<char> {
    match t {
        Some(s) => s@,
        None => other,
    }
}

/// A text that may be absent, as a value.
pub open spec fn text_value(t: Option<String>) -> JsonV {
    match t {
        Some(s) => JsonV::Text(s@),
        None => JsonV::Null,
    }
}

fn text_or_null(t: Option<String>) -> (r: Json)
    ensures
        r@ == text_value(t),
{
    match t {
        Some(s) => Json::Text(s),
        None => Json::Null,
    }
}

/// An answer of a miner, as it is reported.
pub open spec fn response_json(r: ResponseLog) -> JsonV {
    JsonV::Object(
        Map::<Seq<char>, JsonV>::empty()
            .insert("miner_key"@, JsonV::Text(text_or(r.miner_key, Seq::empty())))
            .insert("miner_uid"@, JsonV::Int(r.miner_uid as int))
            .insert("proof_model"@, JsonV::Text(text_or(r.proof_model, "Unknown"@)))
            .insert("proof_system"@, JsonV::Text(text_or(r.proof_system, "Unknown"@)))
            .insert("proof_size"@, r.proof_size@)
            .insert("response_duration"@, r.response_duration@)
            .insert("is_verified"@, JsonV::Bool(r.is_verified))
            .insert("external_request_hash"@, r.external_request_hash@)
            .insert("request_type"@, text_value(r.request_type))
            .insert("error"@, text_value(r.error))
            .insert("save"@, JsonV::Bool(r.save)),
    )
}

fn response_value(log: ResponseLog) -> (r: Json)
    ensures
        r@ == response_json(log),
{
    let miner_key = match log.miner_key {
        Some(k) => k,
        None => String::new(),
    };
    let proof_model = match log.proof_model {
        Some(m) => m,
        None => "Unknown".to_owned(),
    };
    let proof_system = match log.proof_system {
        Some(s) => s,
        None => "Unknown".to_owned(),
    };
    let mut list: Vec<(String, Json)> = Vec::new();
    proof {
        crate::json::lemma_members_empty(list@);
        assert(miner_key@ =~= text_or(log.miner_key, Seq::empty()));
    }
    put(&mut list, "miner_key", Json::Text(miner_key));
    put(&mut list, "miner_uid", Json::Unsigned(log.miner_uid as u64));
    put(&mut list, "proof_model", Json::Text(proof_model));
    put(&mut list, "proof_system", Json::Text(proof_system));
    put(&mut list, "proof_size", log.proof_size);
    put(&mut list, "response_duration", log.response_duration);
    put(&mut list, "is_verified", Json::Bool(log.is_verified));
    put(&mut list, "external_request_hash", log.external_request_hash);
    put(&mut list, "request_type", text_or_null(log.request_type));
    put(&mut list, "error", text_or_null(log.error));
    put(&mut list, "save", Json::Bool(log.save));
    Json::Object(list)
}

/// The capacities of the miners, as they are reported.
pub open spec fn snapshot_json(
    entries: Seq<(u16, usize)>,
    hotkeys: Map<u16, String>,
) -> Seq<JsonV> {
    Seq::new(
        entries.len(),
        |i: int|
            JsonV::Object(
                Map::<Seq<char>, JsonV>::empty()
                    .insert("miner_uid"@, JsonV::Int(entries[i].0 as int))
                    .insert(
                        "miner_key"@,
                        JsonV::Text(hotkey_or_empty(hotkeys, entries[i].0)),
                    )
                    .insert("cap"@, JsonV::Int(entries[i].1 as int)),
            ),
    )
}

/// A change of a capacity, as it is reported.
pub open spec fn cap_event_json(e: CapEvent, rate: JsonV, now: u64, ticks_per_milli: u64) -> JsonV {
    JsonV::Object(
        Map::<Seq<char>, JsonV>::empty()
            .insert("miner_uid"@, JsonV::Int(e.uid as int))
            .insert("miner_key"@, JsonV::Text(e.hotkey@))
            .insert("direction"@, JsonV::Text(direction_word(e.direction)))
            .insert("cap_from"@, JsonV::Int(e.cap_from as int))
            .insert("cap_to"@, JsonV::Int(e.cap_to as int))
            .insert("success_rate"@, rate)
            .insert(
                "elapsed_ms"@,
                JsonV::Int((minus(now, e.at) / ticks_per_milli) as int),
            ),
    )
}

/// Changes of capacities, as they are reported.
pub open spec fn cap_events_json(
    events: Seq<CapEvent>,
    rates: Seq<Json>,
    now: u64,
    ticks_per_milli: u64,
) -> Seq<JsonV> {
    Seq::new(events.len(), |i: int| cap_event_json(events[i], rates[i]@, now, ticks_per_milli))
}

fn snapshot_values(snapshot: &UidMap<usize>, hotkeys: &UidMap<String>) -> (r: Vec<Json>)
    ensures
        items(r@) == snapshot_json(snapshot.entries(), hotkeys@),
{
    let n: usize = snapshot.len();
    let ghost entries = snapshot.entries();
    let mut r: Vec<Json> = Vec::new();
    let mut i: usize = 0;
    while i < n
        invariant
            entries == snapshot.entries(),
            n == entries.len(),
            i <= n,
            r@.len() == i,
            forall|k: int|
                0 <= k < i ==> (#[trigger] r@[k])@ == snapshot_json(entries, hotkeys@)[k],
        decreases n - i,
    {
        let uid: u16 = *snapshot.key_at(i);
        let mut list: Vec<(String, Json)> = Vec::new();
        proof {
            crate::json::lemma_members_empty(list@);
        }
        put(&mut list, "miner_uid", Json::Unsigned(uid as u64));
        put(&mut list, "miner_key", Json::Text(hotkey_of(hotkeys, uid)));
        put(&mut list, "cap", Json::Unsigned(*snapshot.value_at(i) as u64));
        r.push(Json::Object(list));
        i += 1;
    }
    proof {
        lemma_items(r@);
        assert(items(r@) =~= snapshot_json(entries, hotkeys@));
    }
    r
}

fn cap_event_values(
    events: &Vec<CapEvent>,
    rates: &Vec<Json>,
    now: u64,
    ticks_per_milli: u64,
) -> (r: Vec<Json>)
    requires
        rates@.len() == events@.len(),
        ticks_per_milli > 0,
    ensures
        items(r@) == cap_events_json(events@, rates@, now, ticks_per_milli),
{
    let mut r: Vec<Json> = Vec::new();
    let mut i: usize = 0;
    while i < events.len()
        invariant
            rates@.len() == events@.len(),
            ticks_per_milli > 0,
            i <= events@.len(),
            r@.len() == i,
            forall|k: int|
                0 <= k < i ==> (#[trigger] r@[k])@ == cap_event_json(
                    events@[k],
                    rates@[k]@,
                    now,
                    ticks_per_milli,
                ),
        decreases events@.len() - i,
    {
        let e = &events[i];
        let mut list: Vec<(String, Json)> = Vec::new();
        proof {
            crate::json::lemma_members_empty(list@);
        }
        put(&mut list, "miner_uid", Json::Unsigned(e.uid as u64));
        put(&mut list, "miner_key", Json::Text(e.hotkey.clone()));
        put(&mut list, "direction", Json::Text(cap_dir_to_str(e.direction).to_owned()));
        put(&mut list, "cap_from", Json::Unsigned(e.cap_from as u64));
        put(&mut list, "cap_to", Json::Unsigned(e.cap_to as u64));
        put(&mut list, "success_rate", rates[i].copy());
        put(
            &mut list,
            "elapsed_ms",
            Json::Unsigned(now.saturating_sub(e.at) / ticks_per_milli),
        );
        r.push(Json::Object(list));
        i += 1;
    }
    proof {
        lemma_items(r@);
        assert(items(r@) =~= cap_events_json(events@, rates@, now, ticks_per_milli));
    }
    r
}

/// Keeps changes of capacities for the next report, behind those that wait
/// already. Where there are too many, the oldest ones are dropped.
pub fn requeue_cap_events(pending: &mut VecDeque<CapEvent>, events: Vec<CapEvent>)
    ensures
        final(pending)@ == (if events@.len() == 0 {
            old(pending)@
        } else {
            newest(old(pending)@ + events@, PENDING_CAP_EVENTS_MAX as nat)
        }),
{
    if events.len() == 0 {
        return;
    }
    let ghost all = events@;
    let mut rest = events;
    let n: usize = rest.len();
    let mut i: usize = 0;
    proof {
        assert(rest@ =~= all.skip(0));
        assert(pending@ =~= old(pending)@ + all.take(0));
    }
    while i < n
        invariant
            n == all.len(),
            i <= n,
            rest@ == all.skip(i as int),
            pending@ == old(pending)@ + all.take(i as int),
        decreases n - i,
    {
        let e = rest.remove(0);
        proof {
            assert(all.skip(i as int)[0] == all[i as int]);
            assert(rest@ =~= all.skip(i + 1));
        }
        pending.push_back(e);
        proof {
            assert(pending@ =~= old(pending)@ + all.take(i + 1));
        }
        i += 1;
    }
    proof {
        assert(all.take(i as int) =~= all);
    }
    keep_newest(pending, PENDING_CAP_EVENTS_MAX);
}

/// How long to wait before a report is sent for another time, in thousandths of a
/// second: ever longer, up to a limit. The first time there is no wait.
pub open spec fn wait_before(attempt: int) -> int
    decreases attempt,
{
    if attempt <= 0 {
        0
    } else if attempt == 1 {
        500
    } else {
        let w = 2 * wait_before(attempt - 1);
        if w > 8000 {
            8000
        } else {
            w
        }
    }
}

/// What to do after a report was sent for the `attempt`-th time, counted from
/// zero.
#[derive(Clone, Copy, Debug, PartialEq, Eq, Structural)]
pub enum PostStep {
    /// It was taken.
    Done,
    /// It is sent again after so many thousandths of a second.
    RetryAfter(u64),
    /// It is given up.
    GiveUp,
}

/// Decides what to do after a report was sent.
pub fn after_post(attempt: u32, accepted: bool) -> (r: PostStep)
    requires
        attempt <= MAX_RETRIES,
    ensures
        r == (if accepted {
            PostStep::Done
        } else if attempt == MAX_RETRIES {
            PostStep::GiveUp
        } else {
            PostStep::RetryAfter(wait_before(attempt + 1) as u64)
        }),
{
    if accepted {
        return PostStep::Done;
    }
    if attempt == MAX_RETRIES {
        return PostStep::GiveUp;
    }
    proof {
        reveal_with_fuel(wait_before, 5);
    }
    let mut wait: u64 = 500;
    let mut i: u32 = 0;
    while i < attempt
        invariant
            i <= attempt < MAX_RETRIES,
            wait == wait_before(i + 1),
            wait <= 8000,
        decreases attempt - i,
    {
        let twice: u64 = wait * 2;
        wait = if twice > 8000 {
            8000
        } else {
            twice
        };
        i += 1;
    }
    PostStep::RetryAfter(wait)
}

impl StatsReporter {
    /// Nothing is to be reported yet. The first report of each kind is due a
    /// different time from now.
    pub fn new(
        validator_key: String,
        validator_uid: u16,
        now: u64,
        ticks_per_milli: u64,
    ) -> (s: Self)
        requires
            ticks_per_milli <= 1_000_000,
        ensures
            s.validator_key == validator_key,
            s.validator_uid == validator_uid,
            s.recent_responses@.len() == 0,
            s.health_samples@.len() == 0,
            s.pending_cap_events@.len() == 0,
            s.ticks_per_milli == ticks_per_milli,
            s.interval == STATS_FLUSH_INTERVAL_SECS * 1000 * ticks_per_milli,
            s.last_response_log == minus(now, s.interval),
            s.last_health_flush == minus(
                now,
                ((STATS_FLUSH_INTERVAL_SECS - HEALTH_FLUSH_OFFSET_SECS) * 1000
                    * ticks_per_milli) as u64,
            ),
            s.last_capacity_flush == minus(
                now,
                ((STATS_FLUSH_INTERVAL_SECS - CAPACITY_FLUSH_OFFSET_SECS) * 1000
                    * ticks_per_milli) as u64,
            ),
    {
        let second: u64 = 1000 * ticks_per_milli;
        let interval: u64 = STATS_FLUSH_INTERVAL_SECS * second;
        let health_lead: u64 = STATS_FLUSH_INTERVAL_SECS - HEALTH_FLUSH_OFFSET_SECS;
        let capacity_lead: u64 = STATS_FLUSH_INTERVAL_SECS - CAPACITY_FLUSH_OFFSET_SECS;
        proof {
            assert(STATS_FLUSH_INTERVAL_SECS * 1000 * ticks_per_milli == 60 * (1000
                * ticks_per_milli)) by (nonlinear_arith)
                requires
                    STATS_FLUSH_INTERVAL_SECS == 60,
            ;
            assert(health_lead * second == 40 * second) by (nonlinear_arith)
                requires
                    health_lead == 40,
            ;
            assert(capacity_lead * second == 10 * second) by (nonlinear_arith)
                requires
                    capacity_lead == 10,
            ;
            assert((STATS_FLUSH_INTERVAL_SECS - HEALTH_FLUSH_OFFSET_SECS) * 1000 * ticks_per_milli
                == 40_000 * ticks_per_milli) by (nonlinear_arith)
                requires
                    STATS_FLUSH_INTERVAL_SECS - HEALTH_FLUSH_OFFSET_SECS == 40,
            ;
            assert((STATS_FLUSH_INTERVAL_SECS - CAPACITY_FLUSH_OFFSET_SECS) * 1000 * ticks_per_milli
                == 10_000 * ticks_per_milli) by (nonlinear_arith)
                requires
                    STATS_FLUSH_INTERVAL_SECS - CAPACITY_FLUSH_OFFSET_SECS == 10,
            ;
        }
        StatsReporter {
            validator_key,
            validator_uid,
            recent_responses: Vec::new(),
            last_response_log: now.saturating_sub(interval),
            health_samples: Vec::new(),
            last_health_flush: now.saturating_sub(health_lead * second),
            last_capacity_flush: now.saturating_sub(capacity_lead * second),
            pending_cap_events: VecDeque::new(),
            interval,
            ticks_per_milli,
        }
    }

    /// Takes in an answer of a miner.
    pub fn record_response(&mut self, log: ResponseLog)
        ensures
            items(final(self).recent_responses@) == items(old(self).recent_responses@).push(
                response_json(log),
            ),
            *final(self) == (StatsReporter {
                recent_responses: final(self).recent_responses,
                ..*old(self)
            }),
    {
        let one = response_value(log);
        let ghost before = self.recent_responses@;
        self.recent_responses.push(one);
        proof {
            lemma_items(before);
            lemma_items(self.recent_responses@);
            assert(items(self.recent_responses@) =~= items(before).push(one@));
        }
    }

    /// Takes in the state of the host.
    pub fn sample_health(&mut self, rss_mb: u64, active_tasks: usize, queue_size: usize)
        ensures
            final(self).health_samples@ == old(self).health_samples@.push(
                HealthSample { rss_mb, active_tasks, queue_size },
            ),
            *final(self) == (StatsReporter {
                health_samples: final(self).health_samples,
                ..*old(self)
            }),
    {
        self.health_samples.push(HealthSample { rss_mb, active_tasks, queue_size });
    }

    /// Takes the answers out that are to be reported, if there are any and it is
    /// time.
    pub fn flush_response_logs(&mut self, now: u64) -> (r: Option<Vec<Json>>)
        ensures
            ({
                let due = minus(now, old(self).last_response_log) >= old(self).interval && old(
                    self,
                ).recent_responses@.len() > 0;
                &&& r is Some == due
                &&& !due ==> *final(self) == *old(self)
                &&& r matches Some(v) ==> {
                    &&& v == old(self).recent_responses
                    &&& final(self).recent_responses@.len() == 0
                    &&& *final(self) == (StatsReporter {
                        recent_responses: final(self).recent_responses,
                        last_response_log: now,
                        ..*old(self)
                    })
                }
            }),
    {
        if now.saturating_sub(self.last_response_log) < self.interval
            || self.recent_responses.len() == 0 {
            return None;
        }
        let mut out: Vec<Json> = Vec::new();
        std::mem::swap(&mut out, &mut self.recent_responses);
        self.last_response_log = now;
        Some(out)
    }

    /// Takes the states of the host out that are to be reported, if there are any
    /// and it is time.
    pub fn flush_health_samples(&mut self, now: u64) -> (r: Option<Vec<HealthSample>>)
        ensures
            ({
                let due = minus(now, old(self).last_health_flush) >= old(self).interval && old(
                    self,
                ).health_samples@.len() > 0;
                &&& r is Some == due
                &&& !due ==> *final(self) == *old(self)
                &&& r matches Some(v) ==> {
                    &&& v == old(self).health_samples
                    &&& final(self).health_samples@.len() == 0
                    &&& *final(self) == (StatsReporter {
                        health_samples: final(self).health_samples,
                        last_health_flush: now,
                        ..*old(self)
                    })
                }
            }),
    {
        if now.saturating_sub(self.last_health_flush) < self.interval
            || self.health_samples.len() == 0 {
            return None;
        }
        let mut out: Vec<HealthSample> = Vec::new();
        std::mem::swap(&mut out, &mut self.health_samples);
        self.last_health_flush = now;
        Some(out)
    }

    /// Takes out what is to be reported now, of the answers and of the host.
    pub fn flush_if_ready(&mut self, now: u64) -> (r: (Option<Vec<Json>>, Option<Vec<HealthSample>>))
        ensures
            ({
                let answers = minus(now, old(self).last_response_log) >= old(self).interval && old(
                    self,
                ).recent_responses@.len() > 0;
                let health = minus(now, old(self).last_health_flush) >= old(self).interval && old(
                    self,
                ).health_samples@.len() > 0;
                &&& r.0 is Some == answers
                &&& answers ==> r.0->0 == old(self).recent_responses
                &&& answers ==> final(self).recent_responses@.len() == 0
                &&& r.1 is Some == health
                &&& health ==> r.1->0 == old(self).health_samples
                &&& health ==> final(self).health_samples@.len() == 0
                &&& *final(self) == (StatsReporter {
                    recent_responses: if answers {
                        final(self).recent_responses
                    } else {
                        old(self).recent_responses
                    },
                    last_response_log: if answers {
                        now
                    } else {
                        old(self).last_response_log
                    },
                    health_samples: if health {
                        final(self).health_samples
                    } else {
                        old(self).health_samples
                    },
                    last_health_flush: if health {
                        now
                    } else {
                        old(self).last_health_flush
                    },
                    ..*old(self)
                })
            }),
    {
        let answers = self.flush_response_logs(now);
        let health = self.flush_health_samples(now);
        (answers, health)
    }

    /// Whether it is time to report the capacities.
    pub fn capacity_flush_due(&self, now: u64) -> (r: bool)
        ensures
            r == (minus(now, self.last_capacity_flush) >= self.interval),
    {
        now.saturating_sub(self.last_capacity_flush) >= self.interval
    }

    /// Takes the changes of capacities out that are to be reported, those that
    /// waited first. Before it is time, the new ones wait too. Where there is
    /// nothing to report, none are handed out.
    pub fn flush_capacity(&mut self, now: u64, snapshot_empty: bool, new_events: Vec<CapEvent>) -> (r:
        Option<Vec<CapEvent>>)
        ensures
            ({
                let due = minus(now, old(self).last_capacity_flush) >= old(self).interval;
                let all = old(self).pending_cap_events@ + new_events@;
                &&& r is Some == (due && !(snapshot_empty && all.len() == 0))
                &&& r matches Some(v) ==> {
                    &&& v@ == all
                    &&& final(self).last_capacity_flush == now
                    &&& final(self).pending_cap_events@.len() == 0
                }
                &&& r is None ==> {
                    &&& final(self).last_capacity_flush == old(self).last_capacity_flush
                    &&& final(self).pending_cap_events@ == if due || new_events@.len() == 0 {
                        old(self).pending_cap_events@
                    } else {
                        newest(all, PENDING_CAP_EVENTS_MAX as nat)
                    }
                }
                &&& *final(self) == (StatsReporter {
                    pending_cap_events: final(self).pending_cap_events,
                    last_capacity_flush: final(self).last_capacity_flush,
                    ..*old(self)
                })
            }),
    {
        if !self.capacity_flush_due(now) {
            requeue_cap_events(&mut self.pending_cap_events, new_events);
            return None;
        }
        let mut pending: VecDeque<CapEvent> = VecDeque::new();
        std::mem::swap(&mut pending, &mut self.pending_cap_events);
        let ghost waiting = pending@;
        let ghost new = new_events@;
        let mut combined: Vec<CapEvent> = Vec::new();
        let n: usize = pending.len();
        let mut i: usize = 0;
        proof {
            assert(pending@ =~= waiting.skip(0));
            assert(combined@ =~= waiting.take(0));
        }
        while i < n
            invariant
                n == waiting.len(),
                i <= n,
                pending@ == waiting.skip(i as int),
                combined@ == waiting.take(i as int),
            decreases n - i,
        {
            if let Some(e) = pending.pop_front() {
                proof {
                    assert(waiting.skip(i as int)[0] == waiting[i as int]);
                }
                combined.push(e);
            }
            proof {
                assert(pending@ =~= waiting.skip(i + 1));
                assert(combined@ =~= waiting.take(i + 1));
            }
            i += 1;
        }
        let mut late = new_events;
        combined.append(&mut late);
        proof {
            assert(combined@ =~= waiting + new);
        }
        if snapshot_empty && combined.len() == 0 {
            proof {
                assert(self.pending_cap_events@ =~= waiting);
            }
            return None;
        }
        self.last_capacity_flush = now;
        Some(combined)
    }

    /// The report of capacities and their changes. `rates` are the rates behind
    /// the changes, as numbers.
    pub fn capacity_body(
        &self,
        block: u64,
        snapshot: &UidMap<usize>,
        events: &Vec<CapEvent>,
        rates: &Vec<Json>,
        uid_hotkeys: &UidMap<String>,
        now: u64,
        software_version: &str,
    ) -> (r: Json)
        requires
            rates@.len() == events@.len(),
            self.ticks_per_milli > 0,
        ensures
            r@ == JsonV::Object(
                Map::<Seq<char>, JsonV>::empty()
                    .insert("validator_key"@, JsonV::Text(self.validator_key@))
                    .insert("validator_uid"@, JsonV::Int(self.validator_uid as int))
                    .insert("block"@, JsonV::Int(block as int))
                    .insert(
                        "snapshots"@,
                        JsonV::Array(snapshot_json(snapshot.entries(), uid_hotkeys@)),
                    )
                    .insert(
                        "events"@,
                        JsonV::Array(
                            cap_events_json(events@, rates@, now, self.ticks_per_milli),
                        ),
                    )
                    .insert("software_version"@, JsonV::Text(software_version@)),
            ),
    {
        let snapshots = snapshot_values(snapshot, uid_hotkeys);
        let changes = cap_event_values(events, rates, now, self.ticks_per_milli);
        let mut list: Vec<(String, Json)> = Vec::new();
        proof {
            crate::json::lemma_members_empty(list@);
        }
        put(&mut list, "validator_key", Json::Text(self.validator_key.clone()));
        put(&mut list, "validator_uid", Json::Unsigned(self.validator_uid as u64));
        put(&mut list, "block", Json::Unsigned(block));
        put(&mut list, "snapshots", Json::Array(snapshots));
        put(&mut list, "events", Json::Array(changes));
        put(&mut list, "software_version", Json::Text(software_version.to_owned()));
        Json::Object(list)
    }

    /// The report of answers. `scores` are the scores that are not zero, as
    /// numbers.
    pub fn response_body(
        &self,
        block: u64,
        responses: Vec<Json>,
        scores: Vec<(u16, Json)>,
        overhead_duration: Json,
        software_version: &str,
    ) -> (r: Json)
        ensures
            r@ == JsonV::Object(
                Map::<Seq<char>, JsonV>::empty()
                    .insert("validator_key"@, JsonV::Text(self.validator_key@))
                    .insert("validator_uid"@, JsonV::Int(self.validator_uid as int))
                    .insert("overhead_duration"@, overhead_duration@)
                    .insert("block"@, JsonV::Int(block as int))
                    .insert("responses"@, JsonV::Array(items(responses@)))
                    .insert("scores"@, JsonV::Object(scores_json(scores@)))
                    .insert("software_version"@, JsonV::Text(software_version@)),
            ),
    {
        let mut given: Vec<(String, Json)> = Vec::new();
        let mut i: usize = 0;
        proof {
            crate::json::lemma_members_empty(given@);
            assert(scores@.take(0).len() == 0);
        }
        while i < scores.len()
            invariant
                i <= scores@.len(),
                members(given@) == scores_json(scores@.take(i as int)),
            decreases scores@.len() - i,
        {
            proof {
                assert(scores@.take(i + 1).drop_last() =~= scores@.take(i as int));
                assert(scores@.take(i + 1).last() == scores@[i as int]);
            }
            put(&mut given, decimal(scores[i].0 as u64).as_str(), scores[i].1.copy());
            i += 1;
        }
        let mut list: Vec<(String, Json)> = Vec::new();
        proof {
            assert(scores@.take(i as int) =~= scores@);
            crate::json::lemma_members_empty(list@);
        }
        put(&mut list, "validator_key", Json::Text(self.validator_key.clone()));
        put(&mut list, "validator_uid", Json::Unsigned(self.validator_uid as u64));
        put(&mut list, "overhead_duration", overhead_duration);
        put(&mut list, "block", Json::Unsigned(block));
        put(&mut list, "responses", Json::Array(responses));
        put(&mut list, "scores", Json::Object(given));
        put(&mut list, "software_version", Json::Text(software_version.to_owned()));
        Json::Object(list)
    }

    /// The report of a run. `times` are the times of its pieces, as numbers: how
    /// long the answer took and how long its check.
    pub fn report_dsperse_run(
        &self,
        report: &DsperseRunReport,
        times: &Vec<(Json, Json)>,
        totals: RunTotals,
        environment: Json,
        software_version: &str,
    ) -> (r: Json)
        requires
            times@.len() == report.slices@.len(),
        ensures
            r@ == JsonV::Object(
                Map::<Seq<char>, JsonV>::empty()
                    .insert("run_uid"@, JsonV::Text(report.run_uid@))
                    .insert("validator_key"@, JsonV::Text(self.validator_key@))
                    .insert("circuit_id"@, JsonV::Text(report.circuit_id@))
                    .insert("circuit_name"@, JsonV::Text(report.circuit_name@))
                    .insert("total_slices"@, JsonV::Int(report.total_slices as int))
                    .insert("circuit_slices"@, JsonV::Int(report.slices@.len() as int))
                    .insert(
                        "onnx_slices"@,
                        JsonV::Int(
                            if report.total_slices >= report.slices@.len() {
                                report.total_slices - report.slices@.len()
                            } else {
                                0
                            },
                        ),
                    )
                    .insert("total_witness_time_sec"@, JsonV::Decimal("0.0"@))
                    .insert("total_response_time_sec"@, totals.response_time_sec@)
                    .insert("total_verification_time_sec"@, totals.verification_time_sec@)
                    .insert("total_run_time_sec"@, totals.run_time_sec@)
                    .insert("all_successful"@, JsonV::Bool(report.all_successful))
                    .insert(
                        "failed_slice_count"@,
                        JsonV::Int(report.failed_slice_count as int),
                    )
                    .insert("environment"@, environment@)
                    .insert("software_version"@, JsonV::Text(software_version@))
                    .insert("slices"@, JsonV::Array(slices_json(report.slices@, times@))),
            ),
    {
        let slices = slice_values(&report.slices, times);
        let circuit_slices: usize = report.slices.len();
        let mut list: Vec<(String, Json)> = Vec::new();
        proof {
            crate::json::lemma_members_empty(list@);
        }
        put(&mut list, "run_uid", Json::Text(report.run_uid.clone()));
        put(&mut list, "validator_key", Json::Text(self.validator_key.clone()));
        put(&mut list, "circuit_id", Json::Text(report.circuit_id.clone()));
        put(&mut list, "circuit_name", Json::Text(report.circuit_name.clone()));
        put(&mut list, "total_slices", Json::Unsigned(report.total_slices as u64));
        put(&mut list, "circuit_slices", Json::Unsigned(circuit_slices as u64));
        put(
            &mut list,
            "onnx_slices",
            Json::Unsigned(report.total_slices.saturating_sub(circuit_slices) as u64),
        );
        put(&mut list, "total_witness_time_sec", Json::Decimal("0.0".to_owned()));
        put(&mut list, "total_response_time_sec", totals.response_time_sec);
        put(&mut list, "total_verification_time_sec", totals.verification_time_sec);
        put(&mut list, "total_run_time_sec", totals.run_time_sec);
        put(&mut list, "all_successful", Json::Bool(report.all_successful));
        put(&mut list, "failed_slice_count", Json::Unsigned(report.failed_slice_count as u64));
        put(&mut list, "environment", environment);
        put(&mut list, "software_version", Json::Text(software_version.to_owned()));
        put(&mut list, "slices", Json::Array(slices));
        Json::Object(list)
    }
}

/// The times of a run, as numbers.
#[derive(Debug)]
pub struct RunTotals {
    pub response_time_sec: Json,
    pub verification_time_sec: Json,
    pub run_time_sec: Json,
}

/// Scores, as they are reported.
pub open spec fn scores_json(s: Seq<(u16, Json)>) -> Map<Seq<char>, JsonV>
    decreases s.len(),
{
    if s.len() == 0 {
        Map::empty()
    } else {
        scores_json(s.drop_last()).insert(decimal_text(s.last().0 as nat), s.last().1@)
    }
}

/// A piece of a run, as it is reported.
pub open spec fn slice_json(s: DsperseSliceReport, times: (Json, Json)) -> JsonV {
    JsonV::Object(
        Map::<Seq<char>, JsonV>::empty()
            .insert("slice_num"@, JsonV::Text(s.slice_num@))
            .insert("proof_system"@, JsonV::Text(s.proof_system@))
            .insert("backend_used"@, JsonV::Text(s.proof_system@))
            .insert("witness_time_sec"@, JsonV::Decimal("0.0"@))
            .insert("response_time_sec"@, times.0@)
            .insert("verification_time_sec"@, times.1@)
            .insert("is_tiled"@, JsonV::Bool(s.is_tiled))
            .insert(
                "tile_count"@,
                match s.tile_count {
                    Some(n) => JsonV::Int(n as int),
                    None => JsonV::Null,
                },
            )
            .insert("success"@, JsonV::Bool(s.success)),
    )
}

/// The pieces of a run, as they are reported.
pub open spec fn slices_json(s: Seq<DsperseSliceReport>, times: Seq<(Json, Json)>) -> Seq<JsonV> {
    Seq::new(s.len(), |i: int| slice_json(s[i], times[i]))
}

fn slice_values(slices: &Vec<DsperseSliceReport>, times: &Vec<(Json, Json)>) -> (r: Vec<Json>)
    requires
        times@.len() == slices@.len(),
    ensures
        items(r@) == slices_json(slices@, times@),
{
    let mut r: Vec<Json> = Vec::new();
    let mut i: usize = 0;
    while i < slices.len()
        invariant
            times@.len() == slices@.len(),
            i <= slices@.len(),
            r@.len() == i,
            forall|k: int| 0 <= k < i ==> (#[trigger] r@[k])@ == slice_json(slices@[k], times@[k]),
        decreases slices@.len() - i,
    {
        let s = &slices[i];
        let mut list: Vec<(String, Json)> = Vec::new();
        proof {
            crate::json::lemma_members_empty(list@);
        }
        put(&mut list, "slice_num", Json::Text(s.slice_num.clone()));
        put(&mut list, "proof_system", Json::Text(s.proof_system.clone()));
        put(&mut list, "backend_used", Json::Text(s.proof_system.clone()));
        put(&mut list, "witness_time_sec", Json::Decimal("0.0".to_owned()));
        put(&mut list, "response_time_sec", times[i].0.copy());
        put(&mut list, "verification_time_sec", times[i].1.copy());
        put(&mut list, "is_tiled", Json::Bool(s.is_tiled));
        let tile_count = match s.tile_count {
            Some(n) => Json::Unsigned(n as u64),
            None => Json::Null,
        };
        put(&mut list, "tile_count", tile_count);
        put(&mut list, "success", Json::Bool(s.success));
        r.push(Json::Object(list));
        i += 1;
    }
    proof {
        lemma_items(r@);
        assert(items(r@) =~= slices_json(slices@, times@));
    }
    r
}

/// A report is sent at most once more than it may be sent again, and no wait is
/// longer than the limit.
pub proof fn waits_are_bounded(attempt: int)
    ensures
        0 <= wait_before(attempt) <= 8000,
        attempt >= 1 ==> wait_before(attempt) >= 500,
    decreases attempt,
{
    if attempt > 1 {
        waits_are_bounded(attempt - 1);
    }
}

} // verus!
