//! The validator's own address, and what a change of it excuses.

use std::collections::VecDeque;
use vstd::prelude::*;

use crate::address::{
    best_known, disconnect_burst, failed_miners, known_address, rotation_detected, HostAddr,
};
use crate::keyed::StrMap;
use crate::rsv::{minus, RsvManager};

verus! {

/// What is known of the validator's own address, and of failures that a change of
/// it would explain.
#[derive(Debug)]
pub struct AddressWatch {
    /// The address that was last detected, whether or not it could be published.
    pub observed: Option<HostAddr>,
    /// The address that was last published.
    pub published: Option<HostAddr>,
    /// Until when failed connections are put down to a change of address.
    pub grace_until: Option<u64>,
    /// The latest failed connections: when, and to which miner.
    pub recent_disconnects: VecDeque<(u64, u16)>,
    /// Whether the address is to be looked at out of turn.
    pub recheck_requested: bool,
}

/// Failures without those at the front that are older than `window`.
pub open spec fn recent_failures(s: Seq<(u64, u16)>, now: u64, window: u64) -> Seq<(u64, u16)>
    decreases s.len(),
{
    if s.len() > 0 && minus(now, s[0].0) > window {
        recent_failures(s.drop_first(), now, window)
    } else {
        s
    }
}

/// Whether an address that was detected is a change.
pub open spec fn rotated(w: AddressWatch, chain_entry: Option<HostAddr>, current: HostAddr) -> bool {
    let known = best_known(w.observed, w.published, chain_entry);
    known is Some && known->0 != current
}

impl AddressWatch {
    /// Nothing is known.
    pub fn new() -> (w: Self)
        ensures
            w.observed is None,
            w.published is None,
            w.grace_until is None,
            w.recent_disconnects@.len() == 0,
            !w.recheck_requested,
    {
        AddressWatch {
            observed: None,
            published: None,
            grace_until: None,
            recent_disconnects: VecDeque::new(),
            recheck_requested: false,
        }
    }

    /// Opens the time in which failed connections are not held against miners, and
    /// lifts what was: entries of the skiplist that failed connections brought
    /// about, and cooldowns. Strikes are left as they are.
    pub fn open_address_rotation_grace(
        &mut self,
        rsv: &mut RsvManager,
        cooldowns: &mut StrMap<u64>,
        now: u64,
        grace: u64,
    ) -> (lifted: usize)
        requires
            now + grace <= u64::MAX,
        ensures
            final(self).grace_until == Some((now + grace) as u64),
            final(self).recent_disconnects@.len() == 0,
            final(self).observed == old(self).observed,
            final(self).published == old(self).published,
            final(self).recheck_requested == old(self).recheck_requested,
            final(rsv)@ == old(rsv)@.disconnects_lifted(),
            final(rsv).policy == old(rsv).policy,
            final(rsv).persistence_path == old(rsv).persistence_path,
            final(cooldowns)@ == Map::<Seq<char>, u64>::empty(),
            lifted == old(rsv)@.skiplist.dom().filter(
                |k: Seq<char>|
                    !old(rsv)@.struck.contains_key(k) || old(rsv)@.struck[k] != old(rsv)@.skiplist[k],
            ).len(),
    {
        self.grace_until = Some(now + grace);
        let lifted: usize = rsv.clear_disconnect_skiplist();
        cooldowns.clear();
        self.recent_disconnects = VecDeque::new();
        lifted
    }

    /// Takes in the address that was detected. `chain_entry` is the one that the
    /// chain lists. The result says whether it is a change.
    pub fn observe_address(
        &mut self,
        current: HostAddr,
        chain_entry: Option<HostAddr>,
        rsv: &mut RsvManager,
        cooldowns: &mut StrMap<u64>,
        now: u64,
        grace: u64,
    ) -> (r: bool)
        requires
            now + grace <= u64::MAX,
        ensures
            r == rotated(*old(self), chain_entry, current),
            final(self).observed == Some(current),
            final(self).published == old(self).published,
            final(self).recheck_requested == old(self).recheck_requested,
            final(rsv).policy == old(rsv).policy,
            final(rsv).persistence_path == old(rsv).persistence_path,
            !r ==> {
                &&& final(self).grace_until == old(self).grace_until
                &&& final(self).recent_disconnects == old(self).recent_disconnects
                &&& *final(rsv) == *old(rsv)
                &&& *final(cooldowns) == *old(cooldowns)
            },
            r ==> {
                &&& final(self).grace_until == Some((now + grace) as u64)
                &&& final(self).recent_disconnects@.len() == 0
                &&& final(rsv)@ == old(rsv)@.disconnects_lifted()
                &&& final(cooldowns)@ == Map::<Seq<char>, u64>::empty()
            },
    {
        let known = known_address(self.observed, self.published, chain_entry);
        let change = rotation_detected(known, current);
        if change {
            self.open_address_rotation_grace(rsv, cooldowns, now, grace);
        }
        self.observed = Some(current);
        change
    }

    /// Notes that an address was published.
    pub fn note_published(&mut self, current: HostAddr)
        ensures
            *final(self) == (AddressWatch { published: Some(current), ..*old(self) }),
    {
        self.published = Some(current);
    }

    /// Whether failed connections are put down to a change of address.
    pub fn in_address_rotation_grace(&self, now: u64) -> (r: bool)
        ensures
            r == (self.grace_until matches Some(until) && now < until),
    {
        match self.grace_until {
            Some(until) => now < until,
            None => false,
        }
    }

    /// Takes in a failed connection. Where enough different miners failed of late,
    /// the address is to be looked at.
    pub fn note_disconnect(&mut self, uid: u16, now: u64, window: u64, min_miners: usize)
        ensures
            final(self).recent_disconnects@ == recent_failures(
                old(self).recent_disconnects@.push((now, uid)),
                now,
                window,
            ),
            final(self).recheck_requested == (old(self).recheck_requested || failed_miners(
                final(self).recent_disconnects@,
            ).len() >= min_miners),
            final(self).observed == old(self).observed,
            final(self).published == old(self).published,
            final(self).grace_until == old(self).grace_until,
    {
        self.recent_disconnects.push_back((now, uid));
        let ghost all = self.recent_disconnects@;
        while self.recent_disconnects.len() > 0 && now.saturating_sub(self.recent_disconnects[0].0)
            > window
            invariant
                all == old(self).recent_disconnects@.push((now, uid)),
                recent_failures(all, now, window) == recent_failures(
                    self.recent_disconnects@,
                    now,
                    window,
                ),
                self.recheck_requested == old(self).recheck_requested,
                self.observed == old(self).observed,
                self.published == old(self).published,
                self.grace_until == old(self).grace_until,
            decreases self.recent_disconnects@.len(),
        {
            let ghost before = self.recent_disconnects@;
            let _ = self.recent_disconnects.pop_front();
            proof {
                assert(self.recent_disconnects@ =~= before.drop_first());
            }
        }
        if disconnect_burst(&self.recent_disconnects, min_miners) {
            self.recheck_requested = true;
        }
    }

    /// Whether the address is to be looked at out of turn; it is then looked at
    /// once.
    pub fn take_recheck(&mut self) -> (r: bool)
        ensures
            r == old(self).recheck_requested,
            *final(self) == (AddressWatch { recheck_requested: false, ..*old(self) }),
    {
        let r = self.recheck_requested;
        self.recheck_requested = false;
        r
    }
}

/// A change of address excuses failed connections once: until the address changes
/// again, detecting it anew is no change, whether or not it could be published
/// and whatever the chain lists.
pub proof fn one_change_is_excused_once(
    after: AddressWatch,
    current: HostAddr,
    chain_entry: Option<HostAddr>,
)
    requires
        after.observed == Some(current),
    ensures
        !rotated(after, chain_entry, current),
        forall|other: HostAddr| other != current ==> #[trigger] rotated(after, chain_entry, other),
{
}

/// The first address of all is no change: nobody holds another one.
pub proof fn the_first_address_is_no_change(w: AddressWatch, current: HostAddr)
    requires
        w.observed is None,
        w.published is None,
    ensures
        !rotated(w, None, current),
{
}

} // verus!
