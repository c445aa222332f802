//! The memory figures in the text that Linux gives of them.

use vstd::prelude::*;
use vstd::string::*;

use crate::text::{
    after_prefix, chars_of, find_char, lemma_split_head, lemma_split_none, parse_unsigned, space,
    split_on, strip_prefix, trim, trimmed, unsigned_up_to,
};

verus! {

/// A text up to the first white space.
pub open spec fn up_to_space(s: Seq<char>) -> Seq<char>
    decreases s.len(),
{
    if s.len() == 0 || crate::text::is_space(s[0]) {
        Seq::empty()
    } else {
        seq![s[0]] + up_to_space(s.drop_first())
    }
}

/// The first word of a text.
pub open spec fn first_word(s: Seq<char>) -> Seq<char> {
    up_to_space(trimmed(s))
}

proof fn lemma_up_to_space(s: Seq<char>, i: int)
    requires
        0 <= i <= s.len(),
        forall|j: int| 0 <= j < i ==> !crate::text::is_space(#[trigger] s[j]),
        i < s.len() ==> crate::text::is_space(s[i]),
    ensures
        up_to_space(s) == s.take(i),
    decreases i,
{
    if i == 0 {
        assert(s.take(0) =~= Seq::empty());
    } else {
        assert(!crate::text::is_space(s[0]));
        let d = s.drop_first();
        assert forall|j: int| 0 <= j < i - 1 implies !crate::text::is_space(#[trigger] d[j]) by {
            assert(!crate::text::is_space(s[j + 1]));
        }
        lemma_up_to_space(d, i - 1);
        assert(seq![s[0]] + d.take(i - 1) =~= s.take(i));
    }
}

/// The first word of a text.
pub fn word(s: &str) -> (r: &str)
    ensures
        r@ == first_word(s@),
{
    let t = trim(s);
    let a = chars_of(t);
    let mut i: usize = 0;
    while i < a.len() && !space(a[i])
        invariant
            i <= a@.len(),
            forall|j: int| 0 <= j < i ==> !crate::text::is_space(#[trigger] a@[j]),
        decreases a@.len() - i,
    {
        i += 1;
    }
    proof {
        lemma_up_to_space(a@, i as int);
        assert(t@.subrange(0, i as int) =~= t@.take(i as int));
    }
    t.substring_char(0, i)
}

/// The figure of the last line that starts with a label. A line whose figure is
/// no number counts as none.
pub open spec fn figure(lines: Seq<Seq<char>>, label: Seq<char>) -> Option<nat>
    decreases lines.len(),
{
    if lines.len() == 0 {
        None
    } else {
        match after_prefix(lines.last(), label) {
            Some(rest) => unsigned_up_to(first_word(rest), u64::MAX as nat),
            None => figure(lines.drop_last(), label),
        }
    }
}

/// A label and what stands behind it on its line.
fn line_figure(line: &str, label: &str, known: Option<u64>) -> (r: Option<u64>)
    ensures
        match after_prefix(line@, label@) {
            Some(rest) => r == (match unsigned_up_to(first_word(rest), u64::MAX as nat) {
                Some(n) => Some(n as u64),
                None => None,
            }),
            None => r == known,
        },
{
    match strip_prefix(line, label) {
        Some(rest) => parse_unsigned(word(rest), u64::MAX),
        None => known,
    }
}

/// A number as a mathematical one.
pub open spec fn as_nat(n: Option<u64>) -> Option<nat> {
    match n {
        Some(x) => Some(x as nat),
        None => None,
    }
}

/// The available and the total memory of the host, in KiB, where both are given
/// and there is any.
pub fn parse_meminfo(raw: &str) -> (r: Option<(u64, u64)>)
    ensures
        ({
            let lines = split_on(raw@, '\n');
            let total = figure(lines, "MemTotal:"@);
            let available = figure(lines, "MemAvailable:"@);
            match r {
                Some((a, t)) => available == Some(a as nat) && total == Some(t as nat) && t > 0,
                None => available is None || total is None || total == Some(0nat),
            }
        }),
{
    let a = chars_of(raw);
    let mut total: Option<u64> = None;
    let mut available: Option<u64> = None;
    let n: usize = a.len();
    let mut start: usize = 0;
    let mut open = true;
    let ghost mut done: Seq<Seq<char>> = Seq::empty();
    proof {
        assert(a@.skip(0) =~= a@);
        assert(done + split_on(a@, '\n') =~= split_on(a@, '\n'));
    }
    while open
        invariant
            a@ == raw@,
            n == a@.len(),
            start <= n,
            open ==> split_on(a@, '\n') == done + split_on(a@.skip(start as int), '\n'),
            !open ==> split_on(a@, '\n') == done,
            as_nat(total) == figure(done, "MemTotal:"@),
            as_nat(available) == figure(done, "MemAvailable:"@),
        decreases
                (if open {
                    1int
                } else {
                    0int
                }),
                a@.len() - start,
    {
        let ghost rest = a@.skip(start as int);
        let (end, more): (usize, bool) = match find_char(&a, '\n', start) {
            Some(i) => (i, true),
            None => (n, false),
        };
        let line = raw.substring_char(start, end);
        proof {
            assert(line@ =~= rest.take(end - start));
            if more {
                assert forall|j: int| 0 <= j < end - start implies rest[j] != '\n' by {
                    assert(a@[start + j] != '\n');
                }
                assert(rest[end - start] == a@[end as int]);
                lemma_split_head(rest, '\n', end - start);
                assert(rest.skip(end - start + 1) =~= a@.skip(end + 1));
                assert(done + (seq![line@] + split_on(a@.skip(end + 1), '\n')) =~= done.push(line@)
                    + split_on(a@.skip(end + 1), '\n'));
            } else {
                assert forall|j: int| 0 <= j < rest.len() implies rest[j] != '\n' by {
                    assert(a@[start + j] != '\n');
                }
                lemma_split_none(rest, '\n');
                assert(rest =~= line@);
                assert(done + seq![line@] =~= done.push(line@));
            }
            assert(done.push(line@).drop_last() =~= done);
            assert(done.push(line@).last() == line@);
        }
        total = line_figure(line, "MemTotal:", total);
        available = line_figure(line, "MemAvailable:", available);
        proof {
            done = done.push(line@);
        }
        if more {
            start = end + 1;
        } else {
            open = false;
        }
    }
    match (available, total) {
        (Some(x), Some(t)) => if t > 0 {
            Some((x, t))
        } else {
            None
        },
        _ => None,
    }
}

} // verus!
