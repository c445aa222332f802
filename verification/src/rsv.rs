//! Randomly sampled verification: which miners are passed over, which are new,
//! and how strikes against them add up.

use std::collections::VecDeque;
use vstd::prelude::*;
use vstd::string::*;

use crate::chance::random_below;
use crate::json::{
    items, json_parsed, lemma_items, lemma_members_distinct, members, plain_json, put, Json, JsonV,
    MAX_NESTING,
};
use crate::keyed::{StrMap, VecMap};
use crate::seqs::{lemma_to_set_push, texts};

verus! {

/// The limits by which miners are judged.
#[derive(Clone, Copy, Debug)]
pub struct RsvPolicy {
    /// Tempos for which an unreachable miner is passed over.
    pub disconnect_tempos: u64,
    /// Submissions expected of a miner in a tempo.
    pub expected_subs_per_tempo: u64,
    /// Submissions to be verified in a tempo.
    pub samples_per_tempo: u64,
    /// Blocks for which a miner counts as new.
    pub coldstart_blocks: u64,
    /// Blocks after which an absent miner is forgotten.
    pub coldstart_retention_blocks: u64,
    /// How many miners are remembered.
    pub history_cap: usize,
    /// Tempos for which a miner is passed over after too many strikes.
    pub skiplist_tempos: u64,
    /// Strikes that are too many.
    pub strikes_required: u32,
    /// Blocks for which a strike counts.
    pub strikes_window_blocks: u64,
}

/// Blocks in a tempo while the chain has not told.
pub const FALLBACK_BLOCKS_PER_TEMPO: u64 = 360;

/// The layout of the stored state.
pub const STATE_VERSION: u64 = 2;

/// What is known of the miners.
pub struct RsvManager {
    pub policy: RsvPolicy,
    /// The block until which a miner is passed over.
    pub skiplist: StrMap<u64>,
    /// The part of the skiplist that strikes brought about.
    pub struck: StrMap<u64>,
    /// The blocks of the strikes that still count, oldest first.
    pub strikes: StrMap<VecDeque<u64>>,
    /// The block at which a miner was first seen.
    pub coldstart: StrMap<u64>,
    /// The block at which a miner was last seen.
    pub last_seen: StrMap<u64>,
    /// Where the state is stored.
    pub persistence_path: Option<String>,
}

/// What is known of the miners, as maps from hotkeys.
#[verifier::ext_equal]
pub struct RsvV {
    pub skiplist: Map<Seq<char>, u64>,
    pub struck: Map<Seq<char>, u64>,
    pub strikes: Map<Seq<char>, Seq<u64>>,
    pub coldstart: Map<Seq<char>, u64>,
    pub last_seen: Map<Seq<char>, u64>,
}

/// The strikes as sequences of blocks.
pub open spec fn strikes_view(m: Map<Seq<char>, VecDeque<u64>>) -> Map<Seq<char>, Seq<u64>> {
    m.map_values(|d: VecDeque<u64>| d@)
}

impl View for RsvManager {
    type V = RsvV;

    open spec fn view(&self) -> RsvV {
        RsvV {
            skiplist: self.skiplist@,
            struck: self.struck@,
            strikes: strikes_view(self.strikes@),
            coldstart: self.coldstart@,
            last_seen: self.last_seen@,
        }
    }
}

/// `a - b`, or zero where that would be negative.
pub open spec fn minus(a: u64, b: u64) -> u64 {
    if a >= b {
        (a - b) as u64
    } else {
        0
    }
}

/// The blocks in a tempo, with a stand-in while the number is not known.
pub open spec fn tempo_blocks(blocks_per_tempo: u64) -> u64 {
    if blocks_per_tempo == 0 {
        FALLBACK_BLOCKS_PER_TEMPO
    } else {
        blocks_per_tempo
    }
}

/// The block at which `tempos` tempos from now are over.
pub open spec fn tempos_later(block: u64, tempos: u64, blocks_per_tempo: u64) -> int {
    block + tempos * tempo_blocks(blocks_per_tempo)
}

/// The blocks from the first one on that is not before `cutoff`.
pub open spec fn from_cutoff(s: Seq<u64>, cutoff: u64) -> Seq<u64>
    decreases s.len(),
{
    if s.len() > 0 && s[0] < cutoff {
        from_cutoff(s.drop_first(), cutoff)
    } else {
        s
    }
}

impl RsvV {
    /// Nothing is known of any miner.
    pub open spec fn empty() -> RsvV {
        RsvV {
            skiplist: Map::empty(),
            struck: Map::empty(),
            strikes: Map::empty(),
            coldstart: Map::empty(),
            last_seen: Map::empty(),
        }
    }

    /// Whether a miner is passed over at a block.
    pub open spec fn skips(self, hotkey: Seq<char>, block: u64) -> bool {
        self.skiplist.contains_key(hotkey) && block < self.skiplist[hotkey]
    }

    /// Whether a miner still counts as new at a block.
    pub open spec fn is_new(self, policy: RsvPolicy, hotkey: Seq<char>, block: u64) -> bool {
        self.coldstart.contains_key(hotkey) ==> minus(block, self.coldstart[hotkey])
            < policy.coldstart_blocks
    }

    /// After a miner has been seen at a block.
    pub open spec fn observed(self, hotkey: Seq<char>, block: u64) -> RsvV {
        RsvV {
            coldstart: if self.coldstart.contains_key(hotkey) {
                self.coldstart
            } else {
                self.coldstart.insert(hotkey, block)
            },
            last_seen: self.last_seen.insert(hotkey, block),
            ..self
        }
    }

    /// After a miner could not be reached: it is passed over until `until`, or
    /// longer where that was so already.
    pub open spec fn disconnected(self, hotkey: Seq<char>, until: u64) -> RsvV {
        let before: u64 = if self.skiplist.contains_key(hotkey) {
            self.skiplist[hotkey]
        } else {
            0
        };
        RsvV {
            skiplist: self.skiplist.insert(
                hotkey,
                if until > before {
                    until
                } else {
                    before
                },
            ),
            ..self
        }
    }

    /// The strikes against a miner that count once one more has been given.
    pub open spec fn strikes_with(self, policy: RsvPolicy, hotkey: Seq<char>, block: u64) -> Seq<
        u64,
    > {
        let before = if self.strikes.contains_key(hotkey) {
            self.strikes[hotkey]
        } else {
            Seq::empty()
        };
        from_cutoff(before.push(block), minus(block, policy.strikes_window_blocks))
    }

    /// Whether one more strike is one too many.
    pub open spec fn strikes_out(self, policy: RsvPolicy, hotkey: Seq<char>, block: u64) -> bool {
        self.strikes_with(policy, hotkey, block).len() >= policy.strikes_required
    }

    /// After a strike: too many put the miner on the skiplist and clear them.
    pub open spec fn struck_at(
        self,
        policy: RsvPolicy,
        hotkey: Seq<char>,
        block: u64,
        until: u64,
    ) -> RsvV {
        if self.strikes_out(policy, hotkey, block) {
            RsvV {
                skiplist: self.skiplist.insert(hotkey, until),
                struck: self.struck.insert(hotkey, until),
                strikes: self.strikes.remove(hotkey),
                ..self
            }
        } else {
            RsvV {
                strikes: self.strikes.insert(hotkey, self.strikes_with(policy, hotkey, block)),
                ..self
            }
        }
    }

    /// The state once the skiplist holds only what strikes brought about.
    pub open spec fn disconnects_lifted(self) -> RsvV {
        RsvV {
            skiplist: Map::new(
                |k: Seq<char>| self.skiplist.contains_key(k) && self.struck.contains_key(k),
                |k: Seq<char>| self.struck[k],
            ),
            ..self
        }
    }

    /// After what is out of date has been dropped, but for the cap on how many
    /// miners are remembered.
    pub open spec fn expired(self, policy: RsvPolicy, block: u64) -> RsvV {
        let strikes_cutoff = minus(block, policy.strikes_window_blocks);
        let coldstart_cutoff = minus(block, policy.coldstart_retention_blocks);
        RsvV {
            skiplist: later_than(self.skiplist, block),
            struck: later_than(self.struck, block),
            strikes: self.strikes.remove_keys(before(self.last_seen, strikes_cutoff)),
            coldstart: self.coldstart.remove_keys(before(self.last_seen, coldstart_cutoff)),
            last_seen: self.last_seen.remove_keys(before(self.last_seen, coldstart_cutoff)),
        }
    }

    /// After the miners in `gone` have been forgotten.
    pub open spec fn without(self, gone: Set<Seq<char>>) -> RsvV {
        RsvV {
            strikes: self.strikes.remove_keys(gone),
            coldstart: self.coldstart.remove_keys(gone),
            last_seen: self.last_seen.remove_keys(gone),
            ..self
        }
    }

    /// `gone` is as many miners as exceed the cap, and none of them was seen
    /// later than one that stays.
    pub open spec fn oldest_beyond(self, cap: nat, gone: Set<Seq<char>>) -> bool {
        &&& gone.subset_of(self.last_seen.dom())
        &&& gone.len() == (if self.last_seen.dom().len() > cap {
            self.last_seen.dom().len() - cap
        } else {
            0
        })
        &&& forall|a: Seq<char>, b: Seq<char>|
            gone.contains(a) && self.last_seen.contains_key(b) && !gone.contains(b)
                ==> #[trigger] self.last_seen[a] <= #[trigger] self.last_seen[b]
    }
}

/// The entries with a value greater than `block`.
pub open spec fn later_than(m: Map<Seq<char>, u64>, block: u64) -> Map<Seq<char>, u64> {
    m.remove_keys(Set::new(|k: Seq<char>| m.contains_key(k) && m[k] <= block))
}

/// The keys with a value less than `cutoff`.
pub open spec fn before(m: Map<Seq<char>, u64>, cutoff: u64) -> Set<Seq<char>> {
    Set::new(|k: Seq<char>| m.contains_key(k) && m[k] < cutoff)
}

/// The keys with a value of at most `cutoff` or, where `strict`, less than it.
spec fn up_to(m: Map<Seq<char>, u64>, cutoff: u64, strict: bool) -> Set<Seq<char>> {
    Set::new(
        |k: Seq<char>| m.contains_key(k) && (m[k] < cutoff || (!strict && m[k] == cutoff)),
    )
}

/// The keys with a value of at most `cutoff` or, where `strict`, less than it.
fn keys_up_to(m: &StrMap<u64>, cutoff: u64, strict: bool) -> (r: Vec<String>)
    ensures
        texts(r@).to_set() == up_to(m@, cutoff, strict),
{
    let mut r: Vec<String> = Vec::new();
    let n: usize = m.len();
    let mut i: usize = 0;
    while i < n
        invariant
            n == m.entries().len(),
            i <= n,
            forall|j: int|
                0 <= j < n ==> {
                    &&& m@.contains_key((#[trigger] m.entries()[j]).0@)
                    &&& m@[m.entries()[j].0@] == m.entries()[j].1
                },
            forall|j: int|
                0 <= j < i && ((#[trigger] m.entries()[j]).1 < cutoff || (!strict && m.entries()[j].1
                    == cutoff)) ==> texts(r@).contains(m.entries()[j].0@),
            forall|j: int|
                0 <= j < r@.len() ==> m@.contains_key((#[trigger] r@[j])@) && (m@[r@[j]@] < cutoff || (
                !strict && m@[r@[j]@] == cutoff)),
        decreases n - i,
    {
        let v: u64 = *m.value_at(i);
        if v < cutoff || (!strict && v == cutoff) {
            let ghost old_texts = texts(r@);
            r.push(m.key_at(i).clone());
            proof {
                let t = texts(r@);
                assert(t =~= old_texts.push(m.entries()[i as int].0@));
                lemma_to_set_push(old_texts, m.entries()[i as int].0@);
            }
        }
        i += 1;
    }
    proof {
        assert forall|k: Seq<char>|
            texts(r@).to_set().contains(k) == up_to(m@, cutoff, strict).contains(k) by {
            if texts(r@).contains(k) {
                let j = choose|j: int| 0 <= j < r@.len() && texts(r@)[j] == k;
                assert(r@[j]@ == k);
            }
            if m@.contains_key(k) {
                let j = choose|j: int| 0 <= j < m.entries().len() && (#[trigger] m.entries()[j]).0@ == k;
                assert(m@[m.entries()[j].0@] == m.entries()[j].1);
            }
        }
        assert(texts(r@).to_set() =~= up_to(m@, cutoff, strict));
    }
    r
}

/// Takes the keys in `gone` out of a map.
fn remove_all<V>(m: &mut StrMap<V>, gone: &Vec<String>)
    ensures
        final(m)@ == old(m)@.remove_keys(texts(gone@).to_set()),
{
    let mut i: usize = 0;
    proof {
        assert(m@ =~= old(m)@.remove_keys(texts(gone@).take(0).to_set()));
    }
    while i < gone.len()
        invariant
            i <= gone@.len(),
            m@ == old(m)@.remove_keys(texts(gone@).take(i as int).to_set()),
        decreases gone@.len() - i,
    {
        m.remove(gone[i].as_str());
        proof {
            let t = texts(gone@);
            assert(t.take(i + 1) =~= t.take(i as int).push(gone@[i as int]@));
            lemma_to_set_push(t.take(i as int), gone@[i as int]@);
            assert(m@ =~= old(m)@.remove_keys(t.take(i + 1).to_set()));
        }
        i += 1;
    }
    proof {
        assert(texts(gone@).take(i as int) =~= texts(gone@));
    }
}

proof fn lemma_strikes_remove_keys(m: Map<Seq<char>, VecDeque<u64>>, gone: Set<Seq<char>>)
    ensures
        strikes_view(m.remove_keys(gone)) == strikes_view(m).remove_keys(gone),
{
    assert(strikes_view(m.remove_keys(gone)) =~= strikes_view(m).remove_keys(gone));
}

fn blocks_of_tempo(blocks_per_tempo: u64) -> (r: u64)
    ensures
        r == tempo_blocks(blocks_per_tempo),
{
    if blocks_per_tempo == 0 {
        FALLBACK_BLOCKS_PER_TEMPO
    } else {
        blocks_per_tempo
    }
}

impl RsvManager {
    /// A manager that knows of no miner and stores nothing.
    pub fn new(policy: RsvPolicy) -> (m: RsvManager)
        ensures
            m@ == RsvV::empty(),
            m.policy == policy,
            m.persistence_path is None,
    {
        let m = RsvManager {
            policy,
            skiplist: VecMap::new(),
            struck: VecMap::new(),
            strikes: VecMap::new(),
            coldstart: VecMap::new(),
            last_seen: VecMap::new(),
            persistence_path: None,
        };
        proof {
            assert(m@.strikes =~= Map::empty());
        }
        m
    }

    /// Whether the miner is passed over at the block.
    pub fn is_skiplisted(&self, hotkey: &str, current_block: u64) -> (r: bool)
        ensures
            r == self@.skips(hotkey@, current_block),
    {
        match self.skiplist.get(hotkey) {
            Some(until) => current_block < *until,
            None => false,
        }
    }

    /// Whether the miner still counts as new: it was first seen a short while
    /// ago, or never.
    pub fn is_in_coldstart(&self, hotkey: &str, current_block: u64) -> (r: bool)
        ensures
            r == self@.is_new(self.policy, hotkey@, current_block),
    {
        match self.coldstart.get(hotkey) {
            Some(first_seen) => current_block.saturating_sub(*first_seen)
                < self.policy.coldstart_blocks,
            None => true,
        }
    }

    /// Notes that the miner was seen at the block.
    pub fn observe(&mut self, hotkey: &str, current_block: u64)
        ensures
            final(self)@ == old(self)@.observed(hotkey@, current_block),
            final(self).policy == old(self).policy,
            final(self).persistence_path == old(self).persistence_path,
    {
        if !self.coldstart.contains_key(hotkey) {
            self.coldstart.insert(hotkey.to_owned(), current_block);
        }
        self.last_seen.insert(hotkey.to_owned(), current_block);
    }

    /// Whether a roll below the expected number of submissions picks the
    /// submission for verification.
    pub fn sampled_by_roll(&self, roll: u64) -> (r: bool)
        ensures
            r == (roll < self.policy.samples_per_tempo),
    {
        roll < self.policy.samples_per_tempo
    }

    /// Rolls whether a submission is verified. The share of submissions that are
    /// does not depend on the miner, the block or the length of a tempo. Which
    /// ones they are is left to chance: the share itself is not stated.
    pub fn should_sample(
        &mut self,
        _hotkey: &str,
        _current_block: u64,
        _blocks_per_tempo: u64,
    ) -> (r: bool)
        requires
            old(self).policy.expected_subs_per_tempo > 0,
        ensures
            *final(self) == *old(self),
            r ==> old(self).policy.samples_per_tempo > 0,
            !r ==> old(self).policy.samples_per_tempo < old(self).policy.expected_subs_per_tempo,
    {
        let roll: u64 = random_below(self.policy.expected_subs_per_tempo);
        self.sampled_by_roll(roll)
    }

    /// Passes an unreachable miner over for a while. A longer time that it was
    /// to be passed over already stands.
    pub fn skiplist_disconnect(&mut self, hotkey: &str, current_block: u64, blocks_per_tempo: u64)
        requires
            tempos_later(current_block, old(self).policy.disconnect_tempos, blocks_per_tempo)
                <= u64::MAX,
        ensures
            final(self)@ == old(self)@.disconnected(
                hotkey@,
                tempos_later(current_block, old(self).policy.disconnect_tempos, blocks_per_tempo) as u64,
            ),
            final(self).policy == old(self).policy,
            final(self).persistence_path == old(self).persistence_path,
    {
        let bpt: u64 = blocks_of_tempo(blocks_per_tempo);
        let span: u64 = self.policy.disconnect_tempos * bpt;
        let until: u64 = current_block + span;
        let before: u64 = match self.skiplist.get(hotkey) {
            Some(b) => *b,
            None => 0,
        };
        self.skiplist.insert(
            hotkey.to_owned(),
            if until > before {
                until
            } else {
                before
            },
        );
    }

    /// Gives the miner a strike, and says whether it was one too many. Strikes
    /// out of the window no longer count.
    pub fn record_strike(&mut self, hotkey: &str, current_block: u64, blocks_per_tempo: u64) -> (r:
        bool)
        requires
            old(self)@.strikes_out(old(self).policy, hotkey@, current_block) ==> tempos_later(
                current_block,
                old(self).policy.skiplist_tempos,
                blocks_per_tempo,
            ) <= u64::MAX,
        ensures
            r == old(self)@.strikes_out(old(self).policy, hotkey@, current_block),
            final(self)@ == old(self)@.struck_at(
                old(self).policy,
                hotkey@,
                current_block,
                tempos_later(current_block, old(self).policy.skiplist_tempos, blocks_per_tempo) as u64,
            ),
            final(self).policy == old(self).policy,
            final(self).persistence_path == old(self).persistence_path,
    {
        let ghost start = self@;
        let mut entry: VecDeque<u64> = match self.strikes.remove(hotkey) {
            Some(d) => d,
            None => VecDeque::new(),
        };
        entry.push_back(current_block);
        let ghost all = entry@;
        let cutoff: u64 = current_block.saturating_sub(self.policy.strikes_window_blocks);
        while entry.len() > 0 && entry[0] < cutoff
            invariant
                from_cutoff(all, cutoff) == from_cutoff(entry@, cutoff),
            decreases entry@.len(),
        {
            let ghost s = entry@;
            entry.pop_front();
            proof {
                assert(entry@ =~= s.drop_first());
            }
        }
        proof {
            assert(all =~= (if start.strikes.contains_key(hotkey@) {
                start.strikes[hotkey@]
            } else {
                Seq::empty()
            }).push(current_block));
            assert(entry@ == start.strikes_with(self.policy, hotkey@, current_block));
        }
        if entry.len() as u64 >= self.policy.strikes_required as u64 {
            let bpt: u64 = blocks_of_tempo(blocks_per_tempo);
            let span: u64 = self.policy.skiplist_tempos * bpt;
            let until: u64 = current_block + span;
            self.skiplist.insert(hotkey.to_owned(), until);
            self.struck.insert(hotkey.to_owned(), until);
            proof {
                assert(self@.strikes =~= start.strikes.remove(hotkey@));
            }
            true
        } else {
            self.strikes.insert(hotkey.to_owned(), entry);
            proof {
                assert(self@.strikes =~= start.strikes.insert(
                    hotkey@,
                    start.strikes_with(self.policy, hotkey@, current_block),
                ));
            }
            false
        }
    }

    /// Lifts what unreachability alone brought about, and says how many entries
    /// of the skiplist changed. What strikes brought about stands.
    pub fn clear_disconnect_skiplist(&mut self) -> (lifted: usize)
        ensures
            final(self)@ == old(self)@.disconnects_lifted(),
            lifted == old(self)@.skiplist.dom().filter(
                |k: Seq<char>|
                    !old(self)@.struck.contains_key(k) || old(self)@.struck[k] != old(self)@.skiplist[k],
            ).len(),
            final(self).policy == old(self).policy,
            final(self).persistence_path == old(self).persistence_path,
    {
        let ghost start = self@;
        let ghost changed = start.skiplist.dom().filter(
            |k: Seq<char>| !start.struck.contains_key(k) || start.struck[k] != start.skiplist[k],
        );
        let mut kept: StrMap<u64> = VecMap::new();
        let mut lifted: usize = 0;
        let n: usize = self.skiplist.len();
        let mut i: usize = 0;
        let ghost mut seen: Set<Seq<char>> = Set::empty();
        while i < n
            invariant
                self@ == start,
                n == self.skiplist.entries().len(),
                crate::keyed::distinct_keys(self.skiplist.entries()),
                i <= n,
                lifted <= i,
                forall|j: int|
                    0 <= j < n ==> {
                        &&& start.skiplist.contains_key((#[trigger] self.skiplist.entries()[j]).0@)
                        &&& start.skiplist[self.skiplist.entries()[j].0@]
                            == self.skiplist.entries()[j].1
                    },
                forall|k: Seq<char>|
                    kept@.contains_key(k) <==> start.struck.contains_key(k) && exists|j: int|
                        0 <= j < i && (#[trigger] self.skiplist.entries()[j]).0@ == k,
                forall|k: Seq<char>| kept@.contains_key(k) ==> #[trigger] kept@[k] == start.struck[k],
                seen.finite(),
                seen.len() == lifted,
                forall|k: Seq<char>|
                    seen.contains(k) <==> changed.contains(k) && exists|j: int|
                        0 <= j < i && (#[trigger] self.skiplist.entries()[j]).0@ == k,
                changed == start.skiplist.dom().filter(
                    |k: Seq<char>|
                        !start.struck.contains_key(k) || start.struck[k] != start.skiplist[k],
                ),
            decreases n - i,
        {
            let until: u64 = *self.skiplist.value_at(i);
            let key = self.skiplist.key_at(i);
            let ghost k0 = key@;
            let ghost kept0 = kept@;
            let ghost seen0 = seen;
            proof {
                assert(start.skiplist.contains_key(k0));
                assert(!seen.contains(k0)) by {
                    if seen.contains(k0) {
                        let j = choose|j: int|
                            0 <= j < i && (#[trigger] self.skiplist.entries()[j]).0@ == k0;
                        assert(self.skiplist.entries()[i as int].0@ == k0);
                    }
                }
            }
            match self.struck.get(key.as_str()) {
                Some(s) => {
                    if *s != until {
                        lifted += 1;
                        proof {
                            seen = seen.insert(k0);
                        }
                    }
                    kept.insert(key.clone(), *s);
                },
                None => {
                    lifted += 1;
                    proof {
                        seen = seen.insert(k0);
                    }
                },
            }
            proof {
                assert forall|k: Seq<char>|
                    kept@.contains_key(k) <==> start.struck.contains_key(k) && exists|j: int|
                        0 <= j < i + 1 && (#[trigger] self.skiplist.entries()[j]).0@ == k by {
                    if kept0.contains_key(k) {
                        let j = choose|j: int|
                            0 <= j < i && (#[trigger] self.skiplist.entries()[j]).0@ == k;
                        assert(0 <= j < i + 1 && self.skiplist.entries()[j].0@ == k);
                    }
                    assert(self.skiplist.entries()[i as int].0@ == k0);
                }
                assert forall|k: Seq<char>|
                    seen.contains(k) <==> changed.contains(k) && exists|j: int|
                        0 <= j < i + 1 && (#[trigger] self.skiplist.entries()[j]).0@ == k by {
                    if seen0.contains(k) {
                        let j = choose|j: int|
                            0 <= j < i && (#[trigger] self.skiplist.entries()[j]).0@ == k;
                        assert(0 <= j < i + 1 && self.skiplist.entries()[j].0@ == k);
                    }
                    assert(self.skiplist.entries()[i as int].0@ == k0);
                }
            }
            i += 1;
        }
        proof {
            assert(seen =~= changed) by {
                assert forall|k: Seq<char>| changed.contains(k) implies seen.contains(k) by {
                    assert(start.skiplist.contains_key(k));
                }
            }
            assert(kept@ =~= start.disconnects_lifted().skiplist);
        }
        self.skiplist = kept;
        lifted
    }

    /// The position of a miner that was seen no later than any other.
    fn oldest(&self) -> (r: usize)
        requires
            self.last_seen.entries().len() > 0,
        ensures
            r < self.last_seen.entries().len(),
            forall|j: int|
                0 <= j < self.last_seen.entries().len() ==> self.last_seen.entries()[r as int].1 <= (
                #[trigger] self.last_seen.entries()[j]).1,
    {
        let n: usize = self.last_seen.len();
        let mut best: usize = 0;
        let mut i: usize = 1;
        while i < n
            invariant
                n == self.last_seen.entries().len(),
                best < n,
                1 <= i <= n,
                forall|j: int|
                    0 <= j < i ==> self.last_seen.entries()[best as int].1 <= (
                    #[trigger] self.last_seen.entries()[j]).1,
            decreases n - i,
        {
            if *self.last_seen.value_at(i) < *self.last_seen.value_at(best) {
                best = i;
            }
            i += 1;
        }
        best
    }

    /// Drops what is out of date: skiplist entries that have run out, strikes of
    /// miners not seen within the window, miners not seen for long, and of more
    /// miners than are to be remembered the ones seen least recently.
    pub fn prune_expired(&mut self, current_block: u64, _blocks_per_tempo: u64)
        ensures
            exists|gone: Set<Seq<char>>|
                {
                    &&& #[trigger] old(self)@.expired(old(self).policy, current_block).oldest_beyond(
                        old(self).policy.history_cap as nat,
                        gone,
                    )
                    &&& final(self)@ == old(self)@.expired(
                        old(self).policy,
                        current_block,
                    ).without(gone)
                },
            final(self)@.last_seen.dom().finite(),
            final(self)@.last_seen.dom().len() <= final(self).policy.history_cap,
            final(self).policy == old(self).policy,
            final(self).persistence_path == old(self).persistence_path,
    {
        let ghost start = self@;
        let ghost policy = self.policy;
        let over = keys_up_to(&self.skiplist, current_block, false);
        remove_all(&mut self.skiplist, &over);
        let struck_over = keys_up_to(&self.struck, current_block, false);
        remove_all(&mut self.struck, &struck_over);
        let strikes_cutoff: u64 = current_block.saturating_sub(self.policy.strikes_window_blocks);
        let coldstart_cutoff: u64 = current_block.saturating_sub(
            self.policy.coldstart_retention_blocks,
        );
        let strikes_stale = keys_up_to(&self.last_seen, strikes_cutoff, true);
        remove_all(&mut self.strikes, &strikes_stale);
        let coldstart_stale = keys_up_to(&self.last_seen, coldstart_cutoff, true);
        remove_all(&mut self.coldstart, &coldstart_stale);
        remove_all(&mut self.last_seen, &coldstart_stale);
        let ghost e = start.expired(policy, current_block);
        let ghost mut gone: Set<Seq<char>> = Set::empty();
        proof {
            assert(self@.skiplist =~= e.skiplist);
            assert(self@.struck =~= e.struck);
            lemma_strikes_remove_keys(old(self).strikes@, texts(strikes_stale@).to_set());
            assert(up_to(start.last_seen, strikes_cutoff, true) =~= before(
                start.last_seen,
                strikes_cutoff,
            ));
            assert(self@.strikes =~= e.strikes);
            assert(self@.coldstart =~= e.coldstart);
            assert(self@.last_seen =~= e.last_seen);
            assert(self@ =~= e.without(gone)) by {
                assert(e.without(gone).strikes =~= e.strikes);
                assert(e.without(gone).coldstart =~= e.coldstart);
                assert(e.without(gone).last_seen =~= e.last_seen);
            }
        }
        let mut count: usize = self.last_seen.len();
        while count > self.policy.history_cap
            invariant
                self.policy == policy,
                self.persistence_path == old(self).persistence_path,
                self@ == e.without(gone),
                e.last_seen.dom().finite(),
                gone.finite(),
                gone.subset_of(e.last_seen.dom()),
                count == self.last_seen.entries().len(),
                count == self@.last_seen.dom().len(),
                self@.last_seen.dom().finite(),
                gone.len() + count == e.last_seen.dom().len(),
                gone.len() > 0 ==> count >= policy.history_cap,
                forall|a: Seq<char>, b: Seq<char>|
                    gone.contains(a) && e.last_seen.contains_key(b) && !gone.contains(b)
                        ==> #[trigger] e.last_seen[a] <= #[trigger] e.last_seen[b],
            decreases count,
        {
            let len_now: usize = self.last_seen.len();
            let at: usize = self.oldest();
            let hotkey = self.last_seen.key_at(at).clone();
            let ghost k0 = hotkey@;
            let ghost before_gone = gone;
            proof {
                assert(self@.last_seen.contains_key(self.last_seen.entries()[at as int].0@));
                assert forall|b: Seq<char>|
                    e.last_seen.contains_key(b) && !before_gone.contains(b) implies e.last_seen[k0]
                    <= #[trigger] e.last_seen[b] by {
                    assert(self@.last_seen.contains_key(b));
                    let j = choose|j: int|
                        0 <= j < self.last_seen.entries().len() && (
                        #[trigger] self.last_seen.entries()[j]).0@ == b;
                    assert(self@.last_seen[self.last_seen.entries()[j].0@]
                        == self.last_seen.entries()[j].1);
                    assert(self@.last_seen[k0] == self.last_seen.entries()[at as int].1);
                }
                gone = gone.insert(k0);
            }
            let ghost strikes_before = self.strikes@;
            self.coldstart.remove(hotkey.as_str());
            self.strikes.remove(hotkey.as_str());
            self.last_seen.remove(hotkey.as_str());
            proof {
                assert(strikes_before.remove(k0) =~= strikes_before.remove_keys(set![k0]));
                lemma_strikes_remove_keys(strikes_before, set![k0]);
                assert(self@.strikes =~= e.without(gone).strikes);
                assert(self@.coldstart =~= e.without(gone).coldstart);
                assert(self@.last_seen =~= e.without(gone).last_seen);
                assert(self@ =~= e.without(gone));
            }
            count = self.last_seen.len();
        }
        proof {
            assert(e.oldest_beyond(policy.history_cap as nat, gone));
        }
    }
}

/// How a map of blocks is written.
pub open spec fn blocks_json(m: Map<Seq<char>, u64>) -> JsonV {
    JsonV::Object(m.map_values(|n: u64| JsonV::Int(n as int)))
}

/// How a list of blocks is written.
pub open spec fn block_list_json(s: Seq<u64>) -> JsonV {
    JsonV::Array(s.map_values(|n: u64| JsonV::Int(n as int)))
}

/// How the strikes are written.
pub open spec fn strikes_json(m: Map<Seq<char>, Seq<u64>>) -> JsonV {
    JsonV::Object(m.map_values(|s: Seq<u64>| block_list_json(s)))
}

/// How the state is written.
pub open spec fn state_json(s: RsvV) -> JsonV {
    JsonV::Object(
        Map::empty().insert("version"@, JsonV::Int(STATE_VERSION as int)).insert(
            "skiplist"@,
            blocks_json(s.skiplist),
        ).insert("strikes"@, strikes_json(s.strikes)).insert(
            "coldstart"@,
            blocks_json(s.coldstart),
        ).insert("last_seen"@, blocks_json(s.last_seen)),
    )
}

/// The blocks that a member of the stored state holds; what is no block is
/// passed over.
pub open spec fn blocks_read(j: Option<JsonV>) -> Map<Seq<char>, u64> {
    match j {
        Some(JsonV::Object(m)) => Map::new(
            |k: Seq<char>| m.contains_key(k) && m[k].unsigned() is Some,
            |k: Seq<char>| m[k].unsigned()->0,
        ),
        _ => Map::empty(),
    }
}

/// The blocks in a list of values; what is no block is passed over.
pub open spec fn block_list_read(s: Seq<JsonV>) -> Seq<u64>
    decreases s.len(),
{
    if s.len() == 0 {
        Seq::empty()
    } else {
        let r = block_list_read(s.drop_last());
        match s.last().unsigned() {
            Some(n) => r.push(n),
            None => r,
        }
    }
}

/// The strikes that a member of the stored state holds; a miner without any is
/// passed over.
pub open spec fn strikes_read(j: Option<JsonV>) -> Map<Seq<char>, Seq<u64>> {
    match j {
        Some(JsonV::Object(m)) => Map::new(
            |k: Seq<char>|
                m.contains_key(k) && m[k].list() is Some && block_list_read(m[k].list()->0).len() > 0,
            |k: Seq<char>| block_list_read(m[k].list()->0),
        ),
        _ => Map::empty(),
    }
}

/// The version of a stored state; one without a version is the first.
pub open spec fn stored_version(j: JsonV) -> u64 {
    match j.member("version"@) {
        Some(v) => match v.unsigned() {
            Some(n) => n,
            None => 1,
        },
        None => 1,
    }
}

/// The state that a stored one stands for. One of an older layout is passed
/// over. Where a skiplist entry came from is not stored, so every one that is
/// read counts as brought about by strikes.
pub open spec fn state_read(j: JsonV) -> RsvV {
    if stored_version(j) < STATE_VERSION {
        RsvV::empty()
    } else {
        RsvV {
            skiplist: blocks_read(j.member("skiplist"@)),
            struck: blocks_read(j.member("skiplist"@)),
            strikes: strikes_read(j.member("strikes"@)),
            coldstart: blocks_read(j.member("coldstart"@)),
            last_seen: blocks_read(j.member("last_seen"@)),
        }
    }
}

/// The state that stored text stands for; text that is no JSON is passed over.
pub open spec fn state_stored(text: Option<Seq<u8>>) -> RsvV {
    match text {
        Some(t) => match json_parsed(t) {
            Some(j) => state_read(j),
            None => RsvV::empty(),
        },
        None => RsvV::empty(),
    }
}

fn blocks_to_json(m: &StrMap<u64>) -> (r: Json)
    ensures
        r@ == blocks_json(m@),
{
    let mut list: Vec<(String, Json)> = Vec::new();
    let n: usize = m.len();
    let mut i: usize = 0;
    while i < n
        invariant
            n == m.entries().len(),
            i <= n,
            crate::keyed::distinct_keys(m.entries()),
            list@.len() == i,
            forall|j: int| 0 <= j < i ==> (#[trigger] list@[j]).0@ == m.entries()[j].0@,
            forall|j: int|
                0 <= j < i ==> (#[trigger] list@[j]).1@ == JsonV::Int(m.entries()[j].1 as int),
        decreases n - i,
    {
        list.push((m.key_at(i).clone(), Json::Unsigned(*m.value_at(i))));
        i += 1;
    }
    proof {
        assert forall|a: int, b: int| 0 <= a < list@.len() && 0 <= b < list@.len() && a != b implies (
        #[trigger] list@[a]).0@ != (#[trigger] list@[b]).0@ by {
            assert(m.entries()[a].0@ != m.entries()[b].0@);
        }
        lemma_members_distinct(list@);
        lemma_list_is_map(list@, m@, m.entries(), |v: u64| JsonV::Int(v as int));
    }
    Json::Object(list)
}

/// A list of members that follows the entries of a map stands for the map with
/// each value written.
proof fn lemma_list_is_map<V>(
    list: Seq<(String, Json)>,
    m: Map<Seq<char>, V>,
    entries: Seq<(String, V)>,
    f: spec_fn(V) -> JsonV,
)
    requires
        list.len() == entries.len(),
        crate::keyed::distinct_keys(entries),
        forall|j: int| 0 <= j < list.len() ==> (#[trigger] list[j]).0@ == entries[j].0@,
        forall|j: int| 0 <= j < list.len() ==> (#[trigger] list[j]).1@ == f(entries[j].1),
        forall|i: int|
            0 <= i < list.len() ==> {
                &&& members(list).contains_key((#[trigger] list[i]).0@)
                &&& members(list)[list[i].0@] == list[i].1@
            },
        forall|k: Seq<char>|
            members(list).contains_key(k) ==> exists|i: int|
                0 <= i < list.len() && (#[trigger] list[i]).0@ == k,
        forall|i: int|
            0 <= i < entries.len() ==> {
                &&& m.contains_key((#[trigger] entries[i]).0@)
                &&& m[entries[i].0@] == entries[i].1
            },
        forall|k: Seq<char>|
            m.contains_key(k) ==> exists|i: int|
                0 <= i < entries.len() && (#[trigger] entries[i]).0@ == k,
    ensures
        members(list) == m.map_values(f),
{
    let a = members(list);
    let b = m.map_values(f);
    assert forall|k: Seq<char>| a.contains_key(k) == b.contains_key(k) by {
        if a.contains_key(k) {
            let i = choose|i: int| 0 <= i < list.len() && (#[trigger] list[i]).0@ == k;
            assert(m.contains_key(entries[i].0@));
        }
        if m.contains_key(k) {
            let i = choose|i: int| 0 <= i < entries.len() && (#[trigger] entries[i]).0@ == k;
            assert(a.contains_key(list[i].0@));
        }
    }
    assert forall|k: Seq<char>| a.contains_key(k) implies a[k] == b[k] by {
        let i = choose|i: int| 0 <= i < list.len() && (#[trigger] list[i]).0@ == k;
        assert(m[entries[i].0@] == entries[i].1);
        assert(a[list[i].0@] == list[i].1@);
    }
    assert(a =~= b);
}

fn block_list_to_json(d: &VecDeque<u64>) -> (r: Json)
    ensures
        r@ == block_list_json(d@),
{
    let mut list: Vec<Json> = Vec::new();
    let n: usize = d.len();
    let mut i: usize = 0;
    while i < n
        invariant
            n == d@.len(),
            i <= n,
            list@.len() == i,
            forall|j: int| 0 <= j < i ==> (#[trigger] list@[j])@ == JsonV::Int(d@[j] as int),
        decreases n - i,
    {
        list.push(Json::Unsigned(d[i]));
        i += 1;
    }
    proof {
        lemma_items(list@);
        assert(items(list@) =~= d@.map_values(|n: u64| JsonV::Int(n as int)));
    }
    Json::Array(list)
}

fn strikes_to_json(m: &StrMap<VecDeque<u64>>) -> (r: Json)
    ensures
        r@ == strikes_json(strikes_view(m@)),
{
    let mut list: Vec<(String, Json)> = Vec::new();
    let n: usize = m.len();
    let mut i: usize = 0;
    while i < n
        invariant
            n == m.entries().len(),
            i <= n,
            crate::keyed::distinct_keys(m.entries()),
            list@.len() == i,
            forall|j: int| 0 <= j < i ==> (#[trigger] list@[j]).0@ == m.entries()[j].0@,
            forall|j: int|
                0 <= j < i ==> (#[trigger] list@[j]).1@ == block_list_json(m.entries()[j].1@),
        decreases n - i,
    {
        list.push((m.key_at(i).clone(), block_list_to_json(m.value_at(i))));
        i += 1;
    }
    proof {
        assert forall|a: int, b: int| 0 <= a < list@.len() && 0 <= b < list@.len() && a != b implies (
        #[trigger] list@[a]).0@ != (#[trigger] list@[b]).0@ by {
            assert(m.entries()[a].0@ != m.entries()[b].0@);
        }
        lemma_members_distinct(list@);
        lemma_list_is_map(list@, m@, m.entries(), |v: VecDeque<u64>| block_list_json(v@));
        assert(m@.map_values(|v: VecDeque<u64>| block_list_json(v@)) =~= strikes_view(m@).map_values(
            |s: Seq<u64>| block_list_json(s),
        ));
    }
    Json::Object(list)
}

fn read_blocks(j: Option<&Json>) -> (r: StrMap<u64>)
    ensures
        r@ == blocks_read(
            match j {
                Some(v) => Some(v@),
                None => None,
            },
        ),
{
    let mut r: StrMap<u64> = VecMap::new();
    let list = match j {
        Some(v) => match v.as_object() {
            Some(list) => list,
            None => {
                proof {
                    assert(r@ =~= blocks_read(Some(v@)));
                }
                return r;
            },
        },
        None => {
            return r;
        },
    };
    let mut i: usize = 0;
    proof {
        reveal_with_fuel(members, 2);
        assert(list@.take(0).len() == 0);
        assert(r@ =~= blocks_read(Some(JsonV::Object(members(list@.take(0))))));
    }
    while i < list.len()
        invariant
            i <= list@.len(),
            r@ == blocks_read(Some(JsonV::Object(members(list@.take(i as int))))),
        decreases list@.len() - i,
    {
        let ghost before = members(list@.take(i as int));
        let ghost after = members(list@.take(i + 1));
        proof {
            reveal_with_fuel(members, 2);
            assert(list@.take(i + 1).drop_last() =~= list@.take(i as int));
            assert(after == before.insert(list@[i as int].0@, list@[i as int].1@));
        }
        match list[i].1.as_u64() {
            Some(n) => {
                r.insert(list[i].0.clone(), n);
            },
            None => {
                r.remove(list[i].0.as_str());
            },
        }
        proof {
            assert(r@ =~= blocks_read(Some(JsonV::Object(after))));
        }
        i += 1;
    }
    proof {
        assert(list@.take(i as int) =~= list@);
    }
    r
}

fn read_block_list(list: &Vec<Json>) -> (r: VecDeque<u64>)
    ensures
        r@ == block_list_read(items(list@)),
{
    let mut r: VecDeque<u64> = VecDeque::new();
    let mut i: usize = 0;
    proof {
        lemma_items(list@);
        assert(items(list@).take(0).len() == 0);
    }
    while i < list.len()
        invariant
            i <= list@.len(),
            items(list@).len() == list@.len(),
            forall|j: int| 0 <= j < list@.len() ==> #[trigger] items(list@)[j] == list@[j]@,
            r@ == block_list_read(items(list@).take(i as int)),
        decreases list@.len() - i,
    {
        proof {
            let t = items(list@).take(i + 1);
            assert(t.drop_last() =~= items(list@).take(i as int));
            assert(t.last() == items(list@)[i as int]);
        }
        if let Some(n) = list[i].as_u64() {
            r.push_back(n);
        }
        i += 1;
    }
    proof {
        assert(items(list@).take(i as int) =~= items(list@));
    }
    r
}

fn read_strikes(j: Option<&Json>) -> (r: StrMap<VecDeque<u64>>)
    ensures
        strikes_view(r@) == strikes_read(
            match j {
                Some(v) => Some(v@),
                None => None,
            },
        ),
{
    let mut r: StrMap<VecDeque<u64>> = VecMap::new();
    proof {
        assert(strikes_view(r@) =~= Map::empty());
    }
    let list = match j {
        Some(v) => match v.as_object() {
            Some(list) => list,
            None => {
                return r;
            },
        },
        None => {
            return r;
        },
    };
    let mut i: usize = 0;
    proof {
        reveal_with_fuel(members, 2);
        assert(list@.take(0).len() == 0);
        assert(strikes_view(r@) =~= strikes_read(Some(JsonV::Object(members(list@.take(0))))));
    }
    while i < list.len()
        invariant
            i <= list@.len(),
            strikes_view(r@) == strikes_read(Some(JsonV::Object(members(list@.take(i as int))))),
        decreases list@.len() - i,
    {
        let ghost before = members(list@.take(i as int));
        let ghost after = members(list@.take(i + 1));
        let ghost r0 = r@;
        proof {
            reveal_with_fuel(members, 2);
            assert(list@.take(i + 1).drop_last() =~= list@.take(i as int));
            assert(after == before.insert(list@[i as int].0@, list@[i as int].1@));
        }
        let mut found: Option<VecDeque<u64>> = None;
        if let Some(a) = list[i].1.as_array() {
            let d = read_block_list(a);
            if d.len() > 0 {
                found = Some(d);
            }
        }
        match found {
            Some(d) => {
                r.insert(list[i].0.clone(), d);
                proof {
                    assert(strikes_view(r@) =~= strikes_view(r0).insert(list@[i as int].0@, d@));
                }
            },
            None => {
                r.remove(list[i].0.as_str());
                proof {
                    assert(strikes_view(r@) =~= strikes_view(r0).remove(list@[i as int].0@));
                }
            },
        }
        proof {
            assert(strikes_view(r@) =~= strikes_read(Some(JsonV::Object(after))));
        }
        i += 1;
    }
    proof {
        assert(list@.take(i as int) =~= list@);
    }
    r
}

impl RsvManager {
    /// Opens a manager whose state is stored at `path`. `stored` is what was
    /// found there.
    pub fn new_with_persistence(path: String, policy: RsvPolicy, stored: Option<Vec<u8>>) -> (m:
        RsvManager)
        ensures
            m.policy == policy,
            m.persistence_path == Some(path),
            m@ == state_stored(
                match stored {
                    Some(t) => Some(t@),
                    None => None,
                },
            ),
    {
        let mut m = RsvManager::new(policy);
        m.persistence_path = Some(path);
        match stored {
            Some(text) => match Json::parse(text.as_slice()) {
                Ok(j) => m.load(&j),
                Err(_) => {},
            },
            None => {},
        }
        m
    }

    /// Replaces what is known by a stored state.
    pub fn load(&mut self, stored: &Json)
        requires
            old(self)@ == RsvV::empty(),
        ensures
            final(self)@ == state_read(stored@),
            final(self).policy == old(self).policy,
            final(self).persistence_path == old(self).persistence_path,
    {
        let version: u64 = match stored.get("version") {
            Some(v) => match v.as_u64() {
                Some(n) => n,
                None => 1,
            },
            None => 1,
        };
        if version < STATE_VERSION {
            return;
        }
        self.skiplist = read_blocks(stored.get("skiplist"));
        self.struck = read_blocks(stored.get("skiplist"));
        self.strikes = read_strikes(stored.get("strikes"));
        self.coldstart = read_blocks(stored.get("coldstart"));
        self.last_seen = read_blocks(stored.get("last_seen"));
    }

    /// The state as it is stored.
    pub fn to_json(&self) -> (r: Json)
        ensures
            r@ == state_json(self@),
    {
        let mut list: Vec<(String, Json)> = Vec::new();
        proof {
            reveal_with_fuel(members, 2);
            assert(members(list@) =~= Map::empty());
        }
        put(&mut list, "version", Json::Unsigned(STATE_VERSION));
        put(&mut list, "skiplist", blocks_to_json(&self.skiplist));
        put(&mut list, "strikes", strikes_to_json(&self.strikes));
        put(&mut list, "coldstart", blocks_to_json(&self.coldstart));
        put(&mut list, "last_seen", blocks_to_json(&self.last_seen));
        Json::Object(list)
    }

    /// The text to be stored, with the place for it; nothing where the manager
    /// stores nothing. A manager opened on the text knows what this one knows.
    pub fn save(&self) -> (r: Option<(String, Vec<u8>)>)
        ensures
            match r {
                Some((path, text)) => {
                    &&& self.persistence_path == Some(path)
                    &&& text@ == crate::json::json_bytes(state_json(self@))
                    &&& state_stored(Some(text@)) == state_read(state_json(self@))
                },
                None => self.persistence_path is None,
            },
    {
        match &self.persistence_path {
            Some(path) => {
                let j = self.to_json();
                proof {
                    state_is_plain(self@);
                }
                Some((path.clone(), j.to_bytes()))
            },
            None => None,
        }
    }
}

/// The stored form of a state holds nothing but machine integers.
pub proof fn state_is_plain(s: RsvV)
    ensures
        plain_json(state_json(s), MAX_NESTING as nat),
{
    reveal_with_fuel(plain_json, 4);
    assert forall|m: Map<Seq<char>, u64>, d: nat| d > 0 implies #[trigger] plain_json(
        blocks_json(m),
        d,
    ) by {
        reveal_with_fuel(plain_json, 3);
    }
    assert forall|q: Seq<u64>, d: nat| d > 0 implies #[trigger] plain_json(block_list_json(q), d) by {
        reveal_with_fuel(plain_json, 3);
    }
    assert(plain_json(strikes_json(s.strikes), (MAX_NESTING - 1) as nat)) by {
        reveal_with_fuel(plain_json, 2);
        let m = s.strikes.map_values(|q: Seq<u64>| block_list_json(q));
        assert forall|k: Seq<char>| m.contains_key(k) implies plain_json(
            #[trigger] m[k],
            (MAX_NESTING - 2) as nat,
        ) by {
            assert(m[k] == block_list_json(s.strikes[k]));
        }
    }
}

proof fn lemma_block_list_reads_back(s: Seq<u64>)
    ensures
        block_list_read(s.map_values(|n: u64| JsonV::Int(n as int))) == s,
    decreases s.len(),
{
    let t = s.map_values(|n: u64| JsonV::Int(n as int));
    if s.len() == 0 {
        assert(t.len() == 0);
        assert(block_list_read(t) =~= s);
    } else {
        lemma_block_list_reads_back(s.drop_last());
        assert(t.drop_last() =~= s.drop_last().map_values(|n: u64| JsonV::Int(n as int)));
        assert(t.last() == JsonV::Int(s.last() as int));
        assert(t.last().unsigned() == Some(s.last()));
        assert(block_list_read(t) =~= s);
    }
}

/// No miner has an empty list of strikes.
pub open spec fn strikes_nonempty(s: RsvV) -> bool {
    forall|k: Seq<char>| s.strikes.contains_key(k) ==> (#[trigger] s.strikes[k]).len() > 0
}

/// What strikes brought about is part of the skiplist.
pub open spec fn struck_is_skipped(s: RsvV) -> bool {
    forall|k: Seq<char>| #[trigger]
        s.struck.contains_key(k) ==> s.skiplist.contains_key(k) && s.struck[k] <= s.skiplist[k]
}

/// What is stored is read back: a state that is written and read again knows of
/// the same miners. Only where its skiplist entries came from is lost.
pub proof fn stored_state_reads_back(s: RsvV)
    requires
        strikes_nonempty(s),
    ensures
        state_read(state_json(s)) == (RsvV { struck: s.skiplist, ..s }),
{
    reveal_strlit("version");
    reveal_strlit("skiplist");
    reveal_strlit("strikes");
    reveal_strlit("coldstart");
    reveal_strlit("last_seen");
    let j = state_json(s);
    assert("version"@.len() == 7 && "skiplist"@.len() == 8 && "strikes"@.len() == 7);
    assert("coldstart"@.len() == 9 && "last_seen"@.len() == 9);
    assert("version"@[0] == 'v' && "strikes"@[0] == 's');
    assert("coldstart"@[0] == 'c' && "last_seen"@[0] == 'l');
    assert(j.member("version"@) == Some(JsonV::Int(STATE_VERSION as int)));
    assert(j.member("skiplist"@) == Some(blocks_json(s.skiplist)));
    assert(j.member("strikes"@) == Some(strikes_json(s.strikes)));
    assert(j.member("coldstart"@) == Some(blocks_json(s.coldstart)));
    assert(j.member("last_seen"@) == Some(blocks_json(s.last_seen)));
    assert forall|m: Map<Seq<char>, u64>| #[trigger] blocks_read(Some(blocks_json(m))) == m by {
        assert(blocks_read(Some(blocks_json(m))) =~= m);
    }
    assert(strikes_read(Some(strikes_json(s.strikes))) =~= s.strikes) by {
        assert forall|k: Seq<char>| s.strikes.contains_key(k) implies block_list_read(
            block_list_json(s.strikes[k]).list()->0,
        ) == #[trigger] s.strikes[k] by {
            lemma_block_list_reads_back(s.strikes[k]);
        }
    }
    assert(state_read(j) =~= (RsvV { struck: s.skiplist, ..s }));
}

proof fn lemma_from_cutoff_keeps_last(s: Seq<u64>, cutoff: u64)
    requires
        s.len() > 0,
        s.last() >= cutoff,
    ensures
        from_cutoff(s, cutoff).len() > 0,
        from_cutoff(s, cutoff).last() == s.last(),
    decreases s.len(),
{
    if s[0] < cutoff {
        lemma_from_cutoff_keeps_last(s.drop_first(), cutoff);
    }
}

/// Every change keeps the lists of strikes from being empty, and what strikes
/// brought about within the skiplist.
pub proof fn changes_keep_the_state_sound(
    s: RsvV,
    policy: RsvPolicy,
    hotkey: Seq<char>,
    block: u64,
    until: u64,
    gone: Set<Seq<char>>,
)
    requires
        strikes_nonempty(s),
        struck_is_skipped(s),
    ensures
        strikes_nonempty(s.observed(hotkey, block)),
        struck_is_skipped(s.observed(hotkey, block)),
        strikes_nonempty(s.disconnected(hotkey, until)),
        struck_is_skipped(s.disconnected(hotkey, until)),
        strikes_nonempty(s.struck_at(policy, hotkey, block, until)),
        struck_is_skipped(s.struck_at(policy, hotkey, block, until)),
        strikes_nonempty(s.disconnects_lifted()),
        struck_is_skipped(s.disconnects_lifted()),
        strikes_nonempty(s.expired(policy, block).without(gone)),
        struck_is_skipped(s.expired(policy, block).without(gone)),
{
    let before = if s.strikes.contains_key(hotkey) {
        s.strikes[hotkey]
    } else {
        Seq::empty()
    };
    lemma_from_cutoff_keeps_last(before.push(block), minus(block, policy.strikes_window_blocks));
    let e = s.expired(policy, block).without(gone);
    assert forall|k: Seq<char>| e.strikes.contains_key(k) implies (#[trigger] e.strikes[k]).len()
        > 0 by {
        assert(s.strikes[k].len() > 0);
    }
}

/// The block at which a miner was first seen never changes while the miner is
/// remembered.
pub proof fn first_seen_stands(s: RsvV, hotkey: Seq<char>, block: u64)
    requires
        s.coldstart.contains_key(hotkey),
    ensures
        s.observed(hotkey, block).coldstart == s.coldstart,
        s.observed(hotkey, block).last_seen[hotkey] == block,
{
}

/// A miner that was to be passed over at a block still is after another failure
/// to reach it or any other miner.
pub proof fn disconnect_never_shortens(
    s: RsvV,
    hotkey: Seq<char>,
    until: u64,
    other: Seq<char>,
    block: u64,
)
    requires
        s.skips(other, block),
    ensures
        s.disconnected(hotkey, until).skips(other, block),
{
}

/// A miner on no list that could not be reached is passed over exactly until the
/// given block.
pub proof fn disconnect_expires(s: RsvV, hotkey: Seq<char>, until: u64, block: u64)
    requires
        !s.skiplist.contains_key(hotkey),
    ensures
        s.disconnected(hotkey, until).skips(hotkey, block) <==> block < until,
{
}

/// A strike against one miner says nothing of another.
pub proof fn strikes_are_personal(
    s: RsvV,
    policy: RsvPolicy,
    hotkey: Seq<char>,
    block: u64,
    until: u64,
    other: Seq<char>,
    at: u64,
)
    requires
        other != hotkey,
    ensures
        s.struck_at(policy, hotkey, block, until).skips(other, at) == s.skips(other, at),
        s.struck_at(policy, hotkey, block, until).strikes.contains_key(other)
            == s.strikes.contains_key(other),
        s.strikes.contains_key(other) ==> s.struck_at(policy, hotkey, block, until).strikes[other]
            == s.strikes[other],
{
}

/// Dropping what is out of date changes nothing in who is passed over from then
/// on.
pub proof fn pruning_keeps_the_skiplist(
    s: RsvV,
    policy: RsvPolicy,
    block: u64,
    gone: Set<Seq<char>>,
    hotkey: Seq<char>,
    at: u64,
)
    requires
        at >= block,
    ensures
        s.expired(policy, block).without(gone).skips(hotkey, at) == s.skips(hotkey, at),
{
}

/// Lifting what unreachability brought about passes over exactly the miners that
/// strikes put on the skiplist.
pub proof fn lifting_leaves_strikes(s: RsvV, hotkey: Seq<char>, block: u64)
    requires
        struck_is_skipped(s),
    ensures
        s.disconnects_lifted().skips(hotkey, block) <==> s.struck.contains_key(hotkey) && block
            < s.struck[hotkey],
{
}

} // verus!
