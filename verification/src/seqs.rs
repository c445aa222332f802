//! Facts about sequences that several modules use.

use vstd::prelude::*;

verus! {

/// The texts of a sequence of strings.
pub open spec fn texts(s: Seq<String>) -> Seq<Seq<char>> {
    Seq::new(s.len(), |i: int| s[i]@)
}

/// One more item adds itself to the set of items and nothing else.
pub proof fn lemma_to_set_push<A>(s: Seq<A>, x: A)
    ensures
        s.push(x).to_set() == s.to_set().insert(x),
        s.push(x).contains(x),
        forall|y: A| s.contains(y) ==> #[trigger] s.push(x).contains(y),
{
    let t = s.push(x);
    assert(t[s.len() as int] == x);
    assert forall|y: A| s.contains(y) implies #[trigger] t.contains(y) by {
        let j = choose|j: int| 0 <= j < s.len() && s[j] == y;
        assert(t[j] == y);
    }
    assert forall|y: A| t.to_set().contains(y) == s.to_set().insert(x).contains(y) by {
        if t.contains(y) && y != x {
            let j = choose|j: int| 0 <= j < t.len() && t[j] == y;
            assert(s[j] == y);
        }
    }
    assert(t.to_set() =~= s.to_set().insert(x));
}

} // verus!
