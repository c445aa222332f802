//! The scores of the miners, and which of them are given weight. Scores and
//! weights are kept as the bits of numbers that are not negative, which are
//! ordered as the numbers are.

use vstd::prelude::*;

use crate::json::{
    distinct_members, json_parsed, lemma_members_distinct, lists_members, Json, JsonV,
};
use crate::keyed::{UidMap, VecMap};
use crate::performance::is_number;
use crate::text::{decimal, decimal_reads_back, decimal_text, parse_unsigned, str_eq};

verus! {

/// The bits of the largest number there is: beyond them are the bits of negative
/// numbers and of what is no number.
pub const INFINITY_BITS: u64 = 0x7ff0_0000_0000_0000;

/// A score that is not negative: anything else counts as zero.
pub open spec fn at_least_zero(bits: u64) -> u64 {
    if bits <= INFINITY_BITS {
        bits
    } else {
        0
    }
}

/// The scores of the miners.
pub struct ScoreManager {
    pub scores: UidMap<u64>,
    pub persistence_path: String,
}

/// Scores with those of a proof put in, in order, for miners that have one.
pub open spec fn pow_scored(
    scores: Map<u16, u64>,
    uids: Seq<u16>,
    given: Seq<u64>,
    n: nat,
) -> Map<u16, u64>
    decreases n,
{
    if n == 0 {
        scores
    } else {
        let before = pow_scored(scores, uids, given, (n - 1) as nat);
        let uid = uids[n - 1];
        if before.contains_key(uid) {
            before.insert(uid, at_least_zero(given[n - 1]))
        } else {
            before
        }
    }
}

/// The scores of the miners that are there: zero where one has none yet.
pub open spec fn synced_scores(scores: Map<u16, u64>, uids: Seq<u16>) -> Map<u16, u64> {
    Map::new(
        |uid: u16| uids.contains(uid),
        |uid: u16|
            if scores.contains_key(uid) {
                scores[uid]
            } else {
                0
            },
    )
}

/// The scores with those of every miner that cannot be asked at zero.
pub open spec fn zeroed_scores(scores: Map<u16, u64>, queryable: Seq<u16>) -> Map<u16, u64> {
    scores.map_entries(
        |uid: u16, score: u64|
            if queryable.contains(uid) {
                score
            } else {
                0
            },
    )
}

fn in_list(list: &[u16], uid: u16) -> (r: bool)
    ensures
        r == list@.contains(uid),
{
    let mut i: usize = 0;
    while i < list.len()
        invariant
            i <= list@.len(),
            forall|j: int| 0 <= j < i ==> list@[j] != uid,
        decreases list@.len() - i,
    {
        if list[i] == uid {
            proof {
                assert(list@[i as int] == uid);
            }
            return true;
        }
        i += 1;
    }
    false
}

/// Whether a name is the number of a miner as it is written.
pub open spec fn names_a_miner(name: Seq<char>) -> bool {
    exists|u: u16| name == #[trigger] decimal_text(u as nat)
}

/// The scores that a stored value holds: none where it is not an object of numbers,
/// each under the number of a miner.
pub open spec fn scores_in(v: JsonV) -> Option<Map<u16, JsonV>> {
    match v.object() {
        Some(m) => if forall|name: Seq<char>| #[trigger]
            m.contains_key(name) ==> names_a_miner(name) && is_number(m[name]) {
            Some(
                Map::new(
                    |u: u16| m.contains_key(decimal_text(u as nat)),
                    |u: u16| m[decimal_text(u as nat)],
                ),
            )
        } else {
            None
        },
        None => None,
    }
}

/// The numbers of some miners as they mean.
pub open spec fn score_values(m: Map<u16, Json>) -> Map<u16, JsonV> {
    m.map_values(|j: Json| j@)
}

fn named_miner(name: &str) -> (r: Option<u16>)
    ensures
        match r {
            Some(u) => name@ == decimal_text(u as nat),
            None => !names_a_miner(name@),
        },
{
    match parse_unsigned(name, u16::MAX as u64) {
        Some(n) => {
            let written = decimal(n);
            if str_eq(written.as_str(), name) {
                return Some(n as u16);
            }
            proof {
                if names_a_miner(name@) {
                    let u = choose|u: u16| name@ == #[trigger] decimal_text(u as nat);
                    decimal_reads_back(u as nat);
                }
            }
            None
        },
        None => {
            proof {
                if names_a_miner(name@) {
                    let u = choose|u: u16| name@ == #[trigger] decimal_text(u as nat);
                    decimal_reads_back(u as nat);
                }
            }
            None
        },
    }
}

fn is_numeric(j: &Json) -> (r: bool)
    ensures
        r == is_number(j@),
{
    match j {
        Json::Unsigned(_) => true,
        Json::Negative(_) => true,
        Json::Decimal(_) => true,
        _ => false,
    }
}

/// Reads the scores that were stored, as numbers. Where anything of the text cannot
/// be read, nothing is.
pub fn stored_scores(text: &[u8]) -> (r: Option<UidMap<Json>>)
    ensures
        match r {
            Some(m) => json_parsed(text@) matches Some(v) && scores_in(v) == Some(
                score_values(m@),
            ),
            None => json_parsed(text@) matches Some(v) ==> scores_in(v) is None,
        },
{
    let parsed = match Json::parse(text) {
        Ok(parsed) => parsed,
        Err(_) => {
            return None;
        },
    };
    let list = match parsed.as_object() {
        Some(list) => distinct_members(list),
        None => {
            return None;
        },
    };
    let ghost m = parsed@.object()->0;
    proof {
        assert(lists_members(list@, m));
        lemma_members_distinct(list@);
    }
    let mut r: UidMap<Json> = VecMap::new();
    let mut i: usize = 0;
    while i < list.len()
        invariant
            parsed@.object() == Some(m),
            json_parsed(text@) == Some(parsed@),
            i <= list@.len(),
            forall|k: int|
                0 <= k < list@.len() ==> m.contains_key((#[trigger] list@[k]).0@) && m[list@[k].0@]
                    == list@[k].1@,
            forall|name: Seq<char>|
                m.contains_key(name) ==> exists|k: int|
                    0 <= k < list@.len() && (#[trigger] list@[k]).0@ == name,
            forall|k: int|
                0 <= k < i ==> {
                    &&& names_a_miner((#[trigger] list@[k]).0@)
                    &&& is_number(list@[k].1@)
                },
            forall|k: int, u: u16|
                0 <= k < i && (#[trigger] list@[k]).0@ == #[trigger] decimal_text(u as nat)
                    ==> r@.contains_key(u),
            forall|u: u16| #[trigger]
                r@.contains_key(u) ==> m.contains_key(decimal_text(u as nat)) && r@[u]@
                    == m[decimal_text(u as nat)],
        decreases list@.len() - i,
    {
        let ghost one = list@[i as int];
        let ghost before = r@;
        let uid: u16 = match named_miner(list[i].0.as_str()) {
            Some(u) => u,
            None => {
                proof {
                    assert(m.contains_key(one.0@));
                }
                return None;
            },
        };
        if !is_numeric(&list[i].1) {
            proof {
                assert(m.contains_key(one.0@));
            }
            return None;
        }
        r.insert(uid, list[i].1.copy());
        proof {
            assert forall|k: int, u: u16|
                0 <= k < i + 1 && (#[trigger] list@[k]).0@ == #[trigger] decimal_text(
                    u as nat,
                ) implies r@.contains_key(u) by {
                if k < i {
                    assert(before.contains_key(u));
                } else {
                    decimal_reads_back(u as nat);
                    decimal_reads_back(uid as nat);
                }
            }
        }
        i += 1;
    }
    proof {
        assert forall|name: Seq<char>| #[trigger] m.contains_key(name) implies names_a_miner(name)
            && is_number(m[name]) by {
            let k = choose|k: int| 0 <= k < list@.len() && (#[trigger] list@[k]).0@ == name;
            assert(names_a_miner(list@[k].0@));
        }
        let want = scores_in(parsed@)->0;
        assert forall|u: u16| #[trigger] want.contains_key(u) implies r@.contains_key(u) by {
            let name = decimal_text(u as nat);
            let k = choose|k: int| 0 <= k < list@.len() && (#[trigger] list@[k]).0@ == name;
            assert(list@[k].0@ == decimal_text(u as nat));
        }
        assert(score_values(r@) =~= want);
    }
    Some(r)
}

impl ScoreManager {
    /// No miner has a score.
    pub fn new(persistence_path: String) -> (m: Self)
        ensures
            m.scores@ == Map::<u16, u64>::empty(),
            m.persistence_path == persistence_path,
    {
        ScoreManager { scores: VecMap::new(), persistence_path }
    }

    /// Takes over the scores of an earlier session, as they are.
    pub fn load(&mut self, stored: UidMap<u64>)
        ensures
            final(self).scores == stored,
            final(self).persistence_path == old(self).persistence_path,
    {
        self.scores = stored;
    }

    /// The score of a miner; zero where it has none.
    pub fn get_score(&self, uid: u16) -> (r: u64)
        ensures
            r == (if self.scores@.contains_key(uid) {
                self.scores@[uid]
            } else {
                0
            }),
    {
        match self.scores.get(&uid) {
            Some(s) => *s,
            None => 0,
        }
    }

    /// Gives a miner a score.
    pub fn update_score(&mut self, uid: u16, score: u64)
        ensures
            final(self).scores@ == old(self).scores@.insert(uid, at_least_zero(score)),
            final(self).persistence_path == old(self).persistence_path,
    {
        let kept: u64 = if score <= INFINITY_BITS {
            score
        } else {
            0
        };
        self.scores.insert(uid, kept);
    }

    /// Keeps the scores of the miners that are there, and gives the others of
    /// them a score of zero.
    pub fn sync_uids(&mut self, active_uids: &[u16])
        ensures
            final(self).scores@ == synced_scores(old(self).scores@, active_uids@),
            final(self).persistence_path == old(self).persistence_path,
    {
        let ghost all = self.scores@;
        let mut kept: UidMap<u64> = VecMap::new();
        let mut i: usize = 0;
        while i < active_uids.len()
            invariant
                all == self.scores@,
                *self == *old(self),
                i <= active_uids@.len(),
                forall|u: u16| #[trigger]
                    kept@.contains_key(u) <==> active_uids@.take(i as int).contains(u),
                forall|u: u16| #[trigger]
                    kept@.contains_key(u) ==> kept@[u] == (if all.contains_key(u) {
                        all[u]
                    } else {
                        0
                    }),
            decreases active_uids@.len() - i,
        {
            let uid: u16 = active_uids[i];
            let score: u64 = self.get_score(uid);
            kept.insert(uid, score);
            proof {
                let before = active_uids@.take(i as int);
                let after = active_uids@.take(i + 1);
                assert(after =~= before.push(uid));
                assert forall|u: u16| #[trigger] after.contains(u) <==> (before.contains(u) || u
                    == uid) by {
                    if before.contains(u) {
                        let k = choose|k: int| 0 <= k < before.len() && before[k] == u;
                        assert(after[k] == u);
                    }
                    assert(after[before.len() as int] == uid);
                }
            }
            i += 1;
        }
        self.scores = kept;
        proof {
            assert(active_uids@.take(i as int) =~= active_uids@);
            assert(self.scores@ =~= synced_scores(all, active_uids@));
        }
    }

    /// The scores of all miners.
    pub fn scores_snapshot(&self) -> (r: &UidMap<u64>)
        ensures
            *r == self.scores,
    {
        &self.scores
    }

    /// Puts scores in that were proved, for the miners that have one. Of two lists
    /// of different length the shorter one counts.
    pub fn apply_pow_scores(&mut self, miner_uids: &[u16], scores: &[u64])
        ensures
            final(self).scores@ == pow_scored(
                old(self).scores@,
                miner_uids@,
                scores@,
                if miner_uids@.len() < scores@.len() {
                    miner_uids@.len()
                } else {
                    scores@.len()
                },
            ),
            final(self).persistence_path == old(self).persistence_path,
    {
        let mut i: usize = 0;
        while i < miner_uids.len() && i < scores.len()
            invariant
                i <= miner_uids@.len(),
                i <= scores@.len(),
                self.scores@ == pow_scored(old(self).scores@, miner_uids@, scores@, i as nat),
                self.persistence_path == old(self).persistence_path,
            decreases miner_uids@.len() - i,
        {
            let uid: u16 = miner_uids[i];
            if self.scores.contains_key(&uid) {
                self.update_score(uid, scores[i]);
            }
            i += 1;
        }
    }

    /// Sets the score of every miner that cannot be asked to zero.
    pub fn zero_non_queryable(&mut self, queryable_uids: &[u16])
        ensures
            final(self).scores@ == zeroed_scores(old(self).scores@, queryable_uids@),
            final(self).persistence_path == old(self).persistence_path,
    {
        let n: usize = self.scores.len();
        let ghost start = self.scores.entries();
        let ghost all = self.scores@;
        let mut i: usize = 0;
        while i < n
            invariant
                n == start.len(),
                i <= n,
                self.persistence_path == old(self).persistence_path,
                crate::keyed::distinct_keys(start),
                forall|k: int|
                    0 <= k < start.len() ==> {
                        &&& all.contains_key((#[trigger] start[k]).0)
                        &&& all[start[k].0] == start[k].1
                    },
                self.scores.entries().len() == n,
                forall|k: int| 0 <= k < n ==> (#[trigger] self.scores.entries()[k]).0 == start[k].0,
                self.scores@.dom() == all.dom(),
                forall|k: int|
                    0 <= k < i ==> self.scores@[(#[trigger] start[k]).0] == (
                    if queryable_uids@.contains(start[k].0) {
                        start[k].1
                    } else {
                        0
                    }),
                forall|k: int|
                    i <= k < n ==> self.scores@[(#[trigger] start[k]).0] == start[k].1,
            decreases n - i,
        {
            let uid: u16 = *self.scores.key_at(i);
            let ghost before = self.scores@;
            proof {
                assert(self.scores.entries()[i as int].0 == start[i as int].0);
                assert(all.contains_key(start[i as int].0));
            }
            if !in_list(queryable_uids, uid) {
                self.scores.set_at(i, 0);
                proof {
                    assert(self.scores@.dom() =~= all.dom());
                    assert forall|k: int| 0 <= k < n && k != i implies self.scores@[(
                    #[trigger] start[k]).0] == before[start[k].0] by {
                        assert(start[k].0@ != start[i as int].0@);
                    }
                }
            }
            i += 1;
        }
        let _ = self.scores.len();
        proof {
            let want = all.map_entries(
                |uid: u16, score: u64|
                    if queryable_uids@.contains(uid) {
                        score
                    } else {
                        0
                    },
            );
            assert forall|u: u16| #[trigger] self.scores@.contains_key(u) implies self.scores@[u]
                == want[u] by {
                let e = self.scores.entries();
                let k = choose|k: int| 0 <= k < e.len() && (#[trigger] e[k]).0@ == u;
                assert(e[k].0 == start[k].0);
                assert(start[k].0 == u);
            }
            assert(self.scores@ =~= want);
        }
    }
}

/// Whether a miner earns weight: nothing speaks against it, and enough is known
/// of it. `count` is how many of its outcomes count.
pub fn earns_weight(skiplisted: bool, coldstart: bool, count: usize, min_samples: usize) -> (r: bool)
    ensures
        r == (!skiplisted && !coldstart && count >= min_samples),
{
    !skiplisted && !coldstart && count >= min_samples
}

/// Where the owner stands in a list of miners.
pub fn owner_index(uids: &[u16], owner: Option<u16>) -> (r: Option<usize>)
    ensures
        match r {
            Some(i) => {
                &&& i < uids@.len()
                &&& owner == Some(uids@[i as int])
                &&& forall|j: int| 0 <= j < i ==> uids@[j] != uids@[i as int]
            },
            None => owner matches Some(o) ==> !uids@.contains(o),
        },
{
    match owner {
        None => None,
        Some(o) => {
            let mut i: usize = 0;
            while i < uids.len()
                invariant
                    i <= uids@.len(),
                    owner == Some(o),
                    forall|j: int| 0 <= j < i ==> uids@[j] != o,
                decreases uids@.len() - i,
            {
                if uids[i] == o {
                    return Some(i);
                }
                i += 1;
            }
            None
        },
    }
}

/// The region of the miner at a position of a list; empty where it is not known.
pub open spec fn region_at(uids: Seq<u16>, regions: Map<u16, String>, i: int) -> Seq<char> {
    if regions.contains_key(uids[i]) {
        regions[uids[i]]@
    } else {
        Seq::empty()
    }
}

/// Whether the miner at `j` comes before the one at `i`: it has more weight, or as
/// much and stands before it in the list.
pub open spec fn outranks(weights: Seq<u64>, j: int, i: int) -> bool {
    weights[j] > weights[i] || (weights[j] == weights[i] && j < i)
}

/// The miners of a region that come before the one at a position.
pub open spec fn ahead_of(
    uids: Seq<u16>,
    weights: Seq<u64>,
    regions: Map<u16, String>,
    i: int,
) -> Set<int> {
    Set::new(
        |j: int|
            0 <= j < uids.len() && region_at(uids, regions, j) == region_at(uids, regions, i)
                && outranks(weights, j, i),
    )
}

/// Whether a miner loses its weight because its region has too many before it.
pub open spec fn capped_out(
    uids: Seq<u16>,
    weights: Seq<u64>,
    regions: Map<u16, String>,
    max_per_region: usize,
    i: int,
) -> bool {
    &&& max_per_region > 0
    &&& region_at(uids, regions, i).len() > 0
    &&& ahead_of(uids, weights, regions, i).len() >= max_per_region
}

fn region_text<'a>(regions: &'a UidMap<String>, uid: u16) -> (r: &'a str)
    ensures
        r@ == (if regions@.contains_key(uid) {
            regions@[uid]@
        } else {
            Seq::empty()
        }),
{
    match regions.get(&uid) {
        Some(t) => t.as_str(),
        None => {
            proof {
                reveal_strlit("");
                assert(""@ =~= Seq::<char>::empty());
            }
            ""
        },
    }
}

/// Decides which miners lose their weight because their region has too many of
/// them. Those with the most weight keep it.
pub fn apply_ip_region_cap(
    uids: &[u16],
    weights: &[u64],
    ip_regions: &UidMap<String>,
    max_per_region: usize,
) -> (r: Vec<bool>)
    requires
        uids@.len() == weights@.len(),
    ensures
        r@.len() == uids@.len(),
        forall|i: int|
            0 <= i < r@.len() ==> #[trigger] r@[i] == capped_out(
                uids@,
                weights@,
                ip_regions@,
                max_per_region,
                i,
            ),
{
    let n: usize = uids.len();
    let mut r: Vec<bool> = Vec::new();
    let mut i: usize = 0;
    while i < n
        invariant
            n == uids@.len(),
            n == weights@.len(),
            i <= n,
            r@.len() == i,
            forall|k: int|
                0 <= k < i ==> #[trigger] r@[k] == capped_out(
                    uids@,
                    weights@,
                    ip_regions@,
                    max_per_region,
                    k,
                ),
        decreases n - i,
    {
        let region = region_text(ip_regions, uids[i]);
        let mut count: usize = 0;
        let ghost mut seen: Set<int> = Set::empty();
        let ghost all = ahead_of(uids@, weights@, ip_regions@, i as int);
        let mut j: usize = 0;
        while j < n
            invariant
                n == uids@.len(),
                n == weights@.len(),
                i < n,
                j <= n,
                count <= j,
                region@ == region_at(uids@, ip_regions@, i as int),
                all == ahead_of(uids@, weights@, ip_regions@, i as int),
                seen.finite(),
                count == seen.len(),
                forall|k: int| #[trigger] seen.contains(k) <==> (k < j && all.contains(k)),
            decreases n - j,
        {
            let ahead = weights[j] > weights[i] || (weights[j] == weights[i] && j < i);
            let same = str_eq(region_text(ip_regions, uids[j]), region);
            if same && ahead {
                count += 1;
                proof {
                    assert(all.contains(j as int));
                    assert(!seen.contains(j as int));
                    seen = seen.insert(j as int);
                }
            } else {
                proof {
                    assert(!all.contains(j as int));
                }
            }
            j += 1;
        }
        proof {
            assert(seen =~= all);
        }
        let empty = str_eq(region, "");
        proof {
            reveal_strlit("");
            assert(""@ =~= Seq::<char>::empty());
            if region@.len() == 0 {
                assert(region@ =~= Seq::<char>::empty());
            }
        }
        r.push(max_per_region > 0 && !empty && count >= max_per_region);
        i += 1;
    }
    r
}

/// The miners of a region that keep their weight.
pub open spec fn keepers(
    uids: Seq<u16>,
    weights: Seq<u64>,
    regions: Map<u16, String>,
    max_per_region: usize,
    region: Seq<char>,
) -> Set<int> {
    Set::new(
        |i: int|
            0 <= i < uids.len() && region_at(uids, regions, i) == region && !capped_out(
                uids,
                weights,
                regions,
                max_per_region,
                i,
            ),
    )
}

proof fn lemma_last_ranked(weights: Seq<u64>, s: Set<int>) -> (m: int)
    requires
        s.finite(),
        s.len() > 0,
    ensures
        s.contains(m),
        forall|j: int| #[trigger] s.contains(j) && j != m ==> outranks(weights, j, m),
    decreases s.len(),
{
    let x = s.choose();
    let rest = s.remove(x);
    if rest.len() == 0 {
        assert forall|j: int| #[trigger] s.contains(j) && j != x implies outranks(weights, j, x) by {
            assert(rest.contains(j));
        }
        x
    } else {
        let m = lemma_last_ranked(weights, rest);
        if outranks(weights, x, m) {
            assert forall|j: int| #[trigger] s.contains(j) && j != m implies outranks(weights, j, m) by {
                if j != x {
                    assert(rest.contains(j));
                }
            }
            m
        } else {
            assert forall|j: int| #[trigger] s.contains(j) && j != x implies outranks(weights, j, x) by {
                assert(rest.contains(j));
            }
            x
        }
    }
}

proof fn lemma_positions_finite(n: nat)
    ensures
        Set::new(|i: int| 0 <= i < n).finite(),
{
    vstd::set_lib::lemma_int_range(0, n as int);
    assert(Set::new(|i: int| 0 <= i < n) =~= vstd::set_lib::set_int_range(0, n as int));
}

/// No more miners of a region keep their weight than are allowed.
pub proof fn regions_are_capped(
    uids: Seq<u16>,
    weights: Seq<u64>,
    regions: Map<u16, String>,
    max_per_region: usize,
    region: Seq<char>,
)
    requires
        uids.len() == weights.len(),
        max_per_region > 0,
        region.len() > 0,
    ensures
        keepers(uids, weights, regions, max_per_region, region).finite(),
        keepers(uids, weights, regions, max_per_region, region).len() <= max_per_region,
{
    let s = keepers(uids, weights, regions, max_per_region, region);
    let range = Set::new(|i: int| 0 <= i < uids.len());
    lemma_positions_finite(uids.len());
    vstd::set_lib::lemma_len_subset(s, range);
    if s.len() > 0 {
        let m = lemma_last_ranked(weights, s);
        let ahead = ahead_of(uids, weights, regions, m);
        vstd::set_lib::lemma_len_subset(ahead, range);
        assert(s.remove(m).subset_of(ahead)) by {
            assert forall|j: int| s.remove(m).contains(j) implies ahead.contains(j) by {
                assert(s.contains(j));
            }
        }
        vstd::set_lib::lemma_len_subset(s.remove(m), ahead);
    }
}

/// Where a miner keeps its weight, so does every miner of its region that has
/// more of it.
pub proof fn the_heaviest_keep_their_weight(
    uids: Seq<u16>,
    weights: Seq<u64>,
    regions: Map<u16, String>,
    max_per_region: usize,
    i: int,
    j: int,
)
    requires
        uids.len() == weights.len(),
        0 <= i < uids.len(),
        0 <= j < uids.len(),
        region_at(uids, regions, i) == region_at(uids, regions, j),
        weights[j] > weights[i],
        !capped_out(uids, weights, regions, max_per_region, i),
    ensures
        !capped_out(uids, weights, regions, max_per_region, j),
{
    let a = ahead_of(uids, weights, regions, i);
    let b = ahead_of(uids, weights, regions, j);
    lemma_positions_finite(uids.len());
    vstd::set_lib::lemma_len_subset(a, Set::new(|k: int| 0 <= k < uids.len()));
    assert(b.subset_of(a));
    vstd::set_lib::lemma_len_subset(b, a);
}

/// Scores are never negative.
pub proof fn scores_are_not_negative(bits: u64)
    ensures
        at_least_zero(bits) <= INFINITY_BITS,
{
}

} // verus!
