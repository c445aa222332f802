//! A set of texts that forgets its oldest member once it is full.

use std::collections::VecDeque;
use vstd::hash_set::StringHashSet;
use vstd::prelude::*;

use crate::seqs::{lemma_to_set_push, texts};
use crate::text::str_eq;

verus! {

broadcast use vstd::hash_set::group_hash_set_axioms;

/// What a full or part-full set, oldest member first, becomes when `x` comes in.
pub open spec fn fifo_insert(s: Seq<Seq<char>>, capacity: nat, x: Seq<char>) -> Seq<Seq<char>> {
    if s.contains(x) {
        s
    } else if s.len() >= capacity {
        s.drop_first().push(x)
    } else {
        s.push(x)
    }
}

/// The members other than `x`, in their order.
pub open spec fn fifo_remove(s: Seq<Seq<char>>, x: Seq<char>) -> Seq<Seq<char>> {
    if s.contains(x) {
        s.remove(s.index_of(x))
    } else {
        s
    }
}

/// The members, once for looking up and once in the order in which they came in.
struct Parts {
    members: StringHashSet,
    order: VecDeque<String>,
}

/// A set of at most `capacity` texts, in the order in which they came in.
pub struct BoundedFifoSet {
    parts: Parts,
    capacity: usize,
}

impl View for BoundedFifoSet {
    type V = Seq<Seq<char>>;

    closed spec fn view(&self) -> Seq<Seq<char>> {
        texts(self.parts.order@)
    }
}

spec fn parts_agree(p: Parts) -> bool {
    &&& texts(p.order@).no_duplicates()
    &&& p.members@ == texts(p.order@).to_set()
}

fn empty_parts() -> (p: Parts)
    ensures
        parts_agree(p),
        p.order@.len() == 0,
{
    let p = Parts { members: StringHashSet::new(), order: VecDeque::new() };
    proof {
        assert(texts(p.order@).to_set() =~= p.members@);
    }
    p
}

proof fn lemma_no_duplicates_remove(s: Seq<Seq<char>>, i: int)
    requires
        s.no_duplicates(),
        0 <= i < s.len(),
    ensures
        s.remove(i).no_duplicates(),
        s.remove(i).to_set() == s.to_set().remove(s[i]),
{
    let t = s.remove(i);
    assert(t.to_set() =~= s.to_set().remove(s[i])) by {
        assert forall|x: Seq<char>| t.to_set().contains(x) == s.to_set().remove(s[i]).contains(x) by {
            if t.contains(x) {
                let j = choose|j: int| 0 <= j < t.len() && t[j] == x;
                let j2 = if j < i { j } else { j + 1 };
                assert(s[j2] == x);
            }
            if s.contains(x) && x != s[i] {
                let j = choose|j: int| 0 <= j < s.len() && s[j] == x;
                let j2 = if j < i { j } else { j - 1 };
                assert(t[j2] == x);
            }
        }
    }
}

impl BoundedFifoSet {
    #[verifier::type_invariant]
    spec fn consistent(self) -> bool {
        &&& parts_agree(self.parts)
        &&& self.parts.order@.len() <= self.capacity
        &&& self.capacity > 0
    }

    /// How many members the set can hold.
    pub closed spec fn limit(&self) -> nat {
        self.capacity as nat
    }

    /// An empty set for at most `capacity` members.
    pub fn new(capacity: usize) -> (s: Self)
        requires
            capacity > 0,
        ensures
            s@.len() == 0,
            s.limit() == capacity,
    {
        BoundedFifoSet { parts: empty_parts(), capacity }
    }

    /// How many members there are: never more than the limit.
    pub fn len(&self) -> (n: usize)
        ensures
            n == self@.len(),
            n <= self.limit(),
            self@.no_duplicates(),
    {
        proof {
            use_type_invariant(self);
        }
        self.parts.order.len()
    }

    /// Whether `x` is a member.
    pub fn contains(&self, x: &str) -> (r: bool)
        ensures
            r == self@.contains(x@),
    {
        proof {
            use_type_invariant(self);
        }
        self.parts.members.contains(x)
    }

    /// Takes `x` in, and says whether it was new. A full set first drops its
    /// oldest member.
    pub fn insert(&mut self, x: String) -> (r: bool)
        ensures
            final(self)@ == fifo_insert(old(self)@, old(self).limit(), x@),
            final(self).limit() == old(self).limit(),
            r == !old(self)@.contains(x@),
    {
        proof {
            use_type_invariant(&*self);
        }
        if self.parts.members.contains(x.as_str()) {
            return false;
        }
        let mut parts = empty_parts();
        std::mem::swap(&mut parts, &mut self.parts);
        let ghost full = parts.order@;
        if parts.order.len() >= self.capacity {
            let oldest = parts.order.pop_front();
            match oldest {
                Some(o) => {
                    parts.members.remove(o.as_str());
                    proof {
                        lemma_no_duplicates_remove(texts(full), 0);
                        assert(texts(parts.order@) =~= texts(full).remove(0));
                        assert(texts(parts.order@) =~= texts(full).drop_first());
                    }
                },
                None => {},
            }
        }
        let ghost kept = parts.order@;
        parts.members.insert(x.clone());
        parts.order.push_back(x);
        proof {
            let all = texts(parts.order@);
            assert(all =~= texts(kept).push(x@));
            assert(!texts(kept).contains(x@)) by {
                if texts(kept).contains(x@) {
                    let j = choose|j: int| 0 <= j < kept.len() && texts(kept)[j] == x@;
                    let j2 = if kept.len() < full.len() { j + 1 } else { j };
                    assert(texts(full)[j2] == x@);
                }
            }
            assert(all.no_duplicates()) by {
                assert forall|i: int, j: int| 0 <= i < all.len() && 0 <= j < all.len() && i != j implies all[i] != all[j] by {
                    if i < kept.len() && j < kept.len() {
                        assert(texts(kept)[i] != texts(kept)[j]);
                    } else if i < kept.len() {
                        assert(texts(kept)[i] != x@);
                    } else {
                        assert(texts(kept)[j] != x@);
                    }
                }
            }
            lemma_to_set_push(texts(kept), x@);
        }
        self.parts = parts;
        true
    }

    /// Takes `x` out, and says whether it was there.
    pub fn remove(&mut self, x: &str) -> (r: bool)
        ensures
            final(self)@ == fifo_remove(old(self)@, x@),
            final(self).limit() == old(self).limit(),
            r == old(self)@.contains(x@),
    {
        proof {
            use_type_invariant(&*self);
        }
        if !self.parts.members.contains(x) {
            return false;
        }
        let mut parts = empty_parts();
        std::mem::swap(&mut parts, &mut self.parts);
        let ghost full = parts.order@;
        let n: usize = parts.order.len();
        let mut i: usize = 0;
        while !str_eq(parts.order[i].as_str(), x)
            invariant
                parts.order@ == full,
                n == full.len(),
                i < n,
                texts(full).contains(x@),
                forall|j: int| 0 <= j < i ==> texts(full)[j] != x@,
            decreases full.len() - i,
        {
            proof {
                let j = choose|j: int| 0 <= j < full.len() && texts(full)[j] == x@;
                assert(texts(full)[i as int] != x@);
                assert(j > i);
            }
            i += 1;
        }
        parts.order.remove(i);
        parts.members.remove(x);
        proof {
            lemma_no_duplicates_remove(texts(full), i as int);
            assert(texts(parts.order@) =~= texts(full).remove(i as int));
            assert(texts(full)[i as int] == x@);
            let k = texts(full).index_of(x@);
            assert(texts(full)[k] == x@);
            assert(k == i);
        }
        self.parts = parts;
        true
    }

    /// Takes every member out.
    pub fn clear(&mut self)
        ensures
            final(self)@.len() == 0,
            final(self).limit() == old(self).limit(),
    {
        proof {
            use_type_invariant(&*self);
        }
        self.parts = empty_parts();
    }
}

/// A set never outgrows its limit, and never holds a text twice.
pub proof fn insert_stays_within_limit(s: Seq<Seq<char>>, capacity: nat, x: Seq<char>)
    requires
        s.no_duplicates(),
        s.len() <= capacity,
        capacity > 0,
    ensures
        fifo_insert(s, capacity, x).no_duplicates(),
        fifo_insert(s, capacity, x).len() <= capacity,
        fifo_insert(s, capacity, x).contains(x),
{
    let t = fifo_insert(s, capacity, x);
    if !s.contains(x) {
        assert(t[t.len() - 1] == x);
        assert forall|i: int, j: int| 0 <= i < t.len() && 0 <= j < t.len() && i != j implies t[i] != t[j] by {
            let d: int = if s.len() >= capacity { 1 } else { 0 };
            if i < t.len() - 1 {
                assert(t[i] == s[i + d]);
            }
            if j < t.len() - 1 {
                assert(t[j] == s[j + d]);
            }
        }
    }
}

/// What was taken out is no longer a member and can come in again as new.
pub proof fn removed_is_absent(s: Seq<Seq<char>>, x: Seq<char>)
    requires
        s.no_duplicates(),
    ensures
        !fifo_remove(s, x).contains(x),
        forall|y: Seq<char>| y != x ==> (fifo_remove(s, x).contains(y) <==> s.contains(y)),
{
    if s.contains(x) {
        let i = s.index_of(x);
        assert(s[i] == x);
        lemma_no_duplicates_remove(s, i);
        let t = s.remove(i);
        assert(!t.to_set().contains(x));
        assert forall|y: Seq<char>| y != x implies (t.contains(y) <==> s.contains(y)) by {
            assert(t.to_set().contains(y) == s.to_set().remove(x).contains(y));
        }
    }
}

} // verus!
