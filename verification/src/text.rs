//! Text helpers: comparison, searching, decimal numbers.

use vstd::prelude::*;
use vstd::string::*;

verus! {

/// Collects the characters of `s`.
pub fn chars_of(s: &str) -> (v: Vec<char>)
    ensures
        v@ == s@,
{
    let mut v: Vec<char> = Vec::new();
    for c in it: s.chars()
        invariant
            it.seq() == s@,
            v@ == s@.take(it.index()),
    {
        v.push(c);
    }
    v
}

/// Whether two texts are equal.
pub fn str_eq(a: &str, b: &str) -> (r: bool)
    ensures
        r == (a@ == b@),
{
    let x = a.as_bytes();
    let y = b.as_bytes();
    if x.len() != y.len() {
        return false;
    }
    let mut i: usize = 0;
    while i < x.len()
        invariant
            x@ == a.spec_bytes(),
            y@ == b.spec_bytes(),
            x@.len() == y@.len(),
            i <= x@.len(),
            forall|j: int| 0 <= j < i ==> x@[j] == y@[j],
        decreases x@.len() - i,
    {
        if x[i] != y[i] {
            return false;
        }
        i += 1;
    }
    proof {
        assert(x@ =~= y@);
        vstd::utf8::encode_utf8_decode_utf8(a@);
        vstd::utf8::encode_utf8_decode_utf8(b@);
    }
    true
}

/// Whether `s` starts with `p`.
pub fn starts_with(s: &str, p: &str) -> (r: bool)
    ensures
        r == p@.is_prefix_of(s@),
{
    let a = chars_of(s);
    let b = chars_of(p);
    if b.len() > a.len() {
        return false;
    }
    let mut i: usize = 0;
    while i < b.len()
        invariant
            a@ == s@,
            b@ == p@,
            i <= b@.len() <= a@.len(),
            forall|j: int| 0 <= j < i ==> a@[j] == b@[j],
        decreases b@.len() - i,
    {
        if a[i] != b[i] {
            proof {
                if p@.is_prefix_of(s@) {
                    assert(p@[i as int] == s@[i as int]);
                }
            }
            return false;
        }
        i += 1;
    }
    proof {
        assert(p@ =~= s@.subrange(0, p@.len() as int));
    }
    true
}

/// What follows `p` in a text that starts with it.
pub open spec fn after_prefix(s: Seq<char>, p: Seq<char>) -> Option<Seq<char>> {
    if p.is_prefix_of(s) {
        Some(s.skip(p.len() as int))
    } else {
        None
    }
}

/// What follows `p` in `s`, if `s` starts with `p`.
pub fn strip_prefix<'a>(s: &'a str, p: &str) -> (r: Option<&'a str>)
    ensures
        match r {
            Some(t) => after_prefix(s@, p@) == Some(t@),
            None => after_prefix(s@, p@) is None,
        },
{
    if starts_with(s, p) {
        let from: usize = p.unicode_len();
        let to: usize = s.unicode_len();
        let t = s.substring_char(from, to);
        proof {
            assert(t@ =~= s@.skip(p@.len() as int));
        }
        Some(t)
    } else {
        None
    }
}

/// Whether `needle` stands in `s` at position `i`.
pub open spec fn occurs_at(s: Seq<char>, needle: Seq<char>, i: int) -> bool {
    0 <= i && i + needle.len() <= s.len() && s.subrange(i, i + needle.len()) == needle
}

/// Whether `needle` stands anywhere in `s`.
pub fn contains_text(s: &str, needle: &str) -> (r: bool)
    ensures
        r == exists|i: int| occurs_at(s@, needle@, i),
{
    let a = chars_of(s);
    let b = chars_of(needle);
    if b.len() > a.len() {
        return false;
    }
    let last: usize = a.len() - b.len();
    let mut i: usize = 0;
    while i <= last
        invariant
            a@ == s@,
            b@ == needle@,
            last == a@.len() - b@.len(),
            a@.len() <= usize::MAX,
            i <= last,
            forall|k: int| 0 <= k < i ==> !occurs_at(s@, needle@, k),
        decreases last + 1 - i,
    {
        let mut j: usize = 0;
        while j < b.len() && a[i + j] == b[j]
            invariant
                a@ == s@,
                b@ == needle@,
                i + b@.len() <= a@.len() <= usize::MAX,
                j <= b@.len(),
                forall|k: int| 0 <= k < j ==> a@[i + k] == b@[k],
            decreases b@.len() - j,
        {
            j += 1;
        }
        if j == b.len() {
            proof {
                assert(s@.subrange(i as int, i + needle@.len()) =~= needle@);
                assert(occurs_at(s@, needle@, i as int));
            }
            return true;
        }
        proof {
            if occurs_at(s@, needle@, i as int) {
                assert(s@.subrange(i as int, i + needle@.len())[j as int] == needle@[j as int]);
            }
        }
        if i == last {
            return false;
        }
        i += 1;
    }
    false
}

/// Whether `a` comes strictly before `b` in the order of their characters.
pub open spec fn text_less(a: Seq<char>, b: Seq<char>) -> bool
    decreases a.len(),
{
    if b.len() == 0 {
        false
    } else if a.len() == 0 {
        true
    } else if a[0] != b[0] {
        a[0] < b[0]
    } else {
        text_less(a.drop_first(), b.drop_first())
    }
}

/// Whether `a` comes strictly before `b` in the order of their characters.
pub fn less(a: &str, b: &str) -> (r: bool)
    ensures
        r == text_less(a@, b@),
{
    let x = chars_of(a);
    let y = chars_of(b);
    let mut i: usize = 0;
    proof {
        assert(a@.skip(0) =~= a@);
        assert(b@.skip(0) =~= b@);
    }
    while i < x.len() && i < y.len()
        invariant
            x@ == a@,
            y@ == b@,
            i <= x@.len(),
            i <= y@.len(),
            text_less(a@, b@) == text_less(a@.skip(i as int), b@.skip(i as int)),
        decreases x@.len() - i,
    {
        proof {
            assert(a@.skip(i as int)[0] == x@[i as int]);
            assert(b@.skip(i as int)[0] == y@[i as int]);
            assert(a@.skip(i as int).drop_first() =~= a@.skip(i + 1));
            assert(b@.skip(i as int).drop_first() =~= b@.skip(i + 1));
        }
        if x[i] != y[i] {
            return x[i] < y[i];
        }
        i += 1;
    }
    i >= x.len() && i < y.len()
}

/// No text comes before itself, and of two different texts one comes first.
pub proof fn text_order_is_total(a: Seq<char>, b: Seq<char>)
    ensures
        !text_less(a, a),
        a != b ==> text_less(a, b) != text_less(b, a),
    decreases a.len(),
{
    if a.len() > 0 && b.len() > 0 {
        text_order_is_total(a.drop_first(), b.drop_first());
        if a[0] == b[0] && a.drop_first() == b.drop_first() {
            assert(a =~= seq![a[0]] + a.drop_first());
            assert(b =~= seq![b[0]] + b.drop_first());
        }
    } else if a.len() > 0 {
        text_order_is_total(a.drop_first(), a.drop_first());
    } else if b.len() == 0 {
        assert(a =~= b);
    }
}

/// The order of texts carries over two steps.
pub proof fn text_order_is_transitive(a: Seq<char>, b: Seq<char>, c: Seq<char>)
    requires
        text_less(a, b),
        text_less(b, c),
    ensures
        text_less(a, c),
    decreases a.len(),
{
    if a.len() > 0 && a[0] == b[0] && b[0] == c[0] {
        text_order_is_transitive(a.drop_first(), b.drop_first(), c.drop_first());
    }
}

/// The parts of a text between the separators `c`.
pub open spec fn split_on(s: Seq<char>, c: char) -> Seq<Seq<char>>
    decreases s.len(),
{
    if s.len() == 0 {
        seq![Seq::empty()]
    } else {
        let p = split_on(s.drop_last(), c);
        if s.last() == c {
            p.push(Seq::empty())
        } else {
            p.update(p.len() - 1, p.last().push(s.last()))
        }
    }
}

pub proof fn lemma_split_nonempty(s: Seq<char>, c: char)
    ensures
        split_on(s, c).len() >= 1,
    decreases s.len(),
{
    if s.len() > 0 {
        lemma_split_nonempty(s.drop_last(), c);
    }
}

/// The parts of a list of parts.
pub open spec fn parts_view(v: Seq<Vec<char>>) -> Seq<Seq<char>> {
    Seq::new(v.len(), |i: int| v[i]@)
}

/// Splits a text at each `c`.
pub fn split(s: &str, c: char) -> (r: Vec<Vec<char>>)
    ensures
        parts_view(r@) == split_on(s@, c),
        r@.len() >= 1,
{
    let a = chars_of(s);
    let mut done: Vec<Vec<char>> = Vec::new();
    let mut current: Vec<char> = Vec::new();
    let mut i: usize = 0;
    proof {
        assert(a@.take(0).len() == 0);
        assert(parts_view(done@).push(current@) =~= split_on(a@.take(0), c));
    }
    while i < a.len()
        invariant
            a@ == s@,
            i <= a@.len(),
            parts_view(done@).push(current@) == split_on(a@.take(i as int), c),
        decreases a@.len() - i,
    {
        let ghost p = parts_view(done@).push(current@);
        proof {
            assert(a@.take(i + 1).drop_last() =~= a@.take(i as int));
            assert(p.last() == current@);
        }
        if a[i] == c {
            let ghost before = done@;
            let ghost cur = current@;
            done.push(current);
            current = Vec::new();
            proof {
                assert(parts_view(done@) =~= p);
                assert(parts_view(done@).push(current@) =~= p.push(Seq::empty()));
            }
        } else {
            current.push(a[i]);
            proof {
                assert(parts_view(done@).push(current@) =~= p.update(p.len() - 1, p.last().push(a@[i as int])));
            }
        }
        i += 1;
    }
    let ghost p = parts_view(done@).push(current@);
    done.push(current);
    proof {
        assert(a@.take(i as int) =~= a@);
        assert(parts_view(done@) =~= p);
    }
    done
}

/// Where no `c` stands before position `i` and one stands at `i`, the first part
/// ends at `i` and the rest is split on its own.
pub proof fn lemma_split_head(s: Seq<char>, c: char, i: int)
    requires
        0 <= i < s.len(),
        s[i] == c,
        forall|j: int| 0 <= j < i ==> s[j] != c,
    ensures
        split_on(s, c) == seq![s.take(i)] + split_on(s.skip(i + 1), c),
    decreases s.len(),
{
    let d = s.drop_last();
    if i == s.len() - 1 {
        lemma_split_none(d, c);
        assert(d =~= s.take(i));
        assert(s.skip(i + 1).len() == 0);
        assert(split_on(s, c) =~= seq![s.take(i)] + split_on(s.skip(i + 1), c));
    } else {
        lemma_split_head(d, c, i);
        assert(d.take(i) =~= s.take(i));
        assert(d.skip(i + 1) =~= s.skip(i + 1).drop_last());
        lemma_split_nonempty(d.skip(i + 1), c);
        assert(s.skip(i + 1).last() == s.last());
        assert(split_on(s, c) =~= seq![s.take(i)] + split_on(s.skip(i + 1), c));
    }
}

/// A text without `c` is its own only part.
pub proof fn lemma_split_none(s: Seq<char>, c: char)
    requires
        forall|j: int| 0 <= j < s.len() ==> s[j] != c,
    ensures
        split_on(s, c) == seq![s],
    decreases s.len(),
{
    if s.len() == 0 {
        assert(s =~= Seq::<char>::empty());
    } else {
        let d = s.drop_last();
        lemma_split_none(d, c);
        assert(d.push(s.last()) =~= s);
        assert(split_on(s, c) =~= seq![s]);
    }
}

/// The first position of `c` from `from` on.
pub fn find_char(a: &Vec<char>, c: char, from: usize) -> (r: Option<usize>)
    requires
        from <= a@.len(),
    ensures
        match r {
            Some(i) => {
                &&& from <= i < a@.len()
                &&& a@[i as int] == c
                &&& forall|j: int| from <= j < i ==> a@[j] != c
            },
            None => forall|j: int| from <= j < a@.len() ==> a@[j] != c,
        },
{
    let mut i: usize = from;
    while i < a.len()
        invariant
            from <= i <= a@.len(),
            forall|j: int| from <= j < i ==> a@[j] != c,
        decreases a@.len() - i,
    {
        if a[i] == c {
            return Some(i);
        }
        i += 1;
    }
    None
}

/// Where `c` stands last in a text.
pub open spec fn last_position(s: Seq<char>, c: char) -> Option<int>
    decreases s.len(),
{
    if s.len() == 0 {
        None
    } else if s.last() == c {
        Some(s.len() - 1)
    } else {
        last_position(s.drop_last(), c)
    }
}

/// The last position of `c`.
pub fn find_last_char(a: &Vec<char>, c: char) -> (r: Option<usize>)
    ensures
        match r {
            Some(i) => i < a@.len() && last_position(a@, c) == Some(i as int),
            None => last_position(a@, c) is None,
        },
{
    let mut i: usize = a.len();
    proof {
        assert(a@.take(i as int) =~= a@);
    }
    while i > 0
        invariant
            i <= a@.len(),
            last_position(a@, c) == last_position(a@.take(i as int), c),
        decreases i,
    {
        i -= 1;
        proof {
            assert(a@.take(i + 1).drop_last() =~= a@.take(i as int));
            assert(a@.take(i + 1).last() == a@[i as int]);
        }
        if a[i] == c {
            return Some(i);
        }
    }
    None
}

/// Whether a character is white space in the sense of Unicode.
pub open spec fn is_space(c: char) -> bool {
    let n = c as u32;
    ||| 0x9 <= n <= 0xd
    ||| n == 0x20
    ||| n == 0x85
    ||| n == 0xa0
    ||| n == 0x1680
    ||| 0x2000 <= n <= 0x200a
    ||| n == 0x2028
    ||| n == 0x2029
    ||| n == 0x202f
    ||| n == 0x205f
    ||| n == 0x3000
}

/// Whether a character is white space.
pub fn space(c: char) -> (r: bool)
    ensures
        r == is_space(c),
{
    let n: u32 = c as u32;
    (0x9 <= n && n <= 0xd) || n == 0x20 || n == 0x85 || n == 0xa0 || n == 0x1680 || (0x2000 <= n && n
        <= 0x200a) || n == 0x2028 || n == 0x2029 || n == 0x202f || n == 0x205f || n == 0x3000
}

/// A text without the white space in front.
pub open spec fn trimmed_start(s: Seq<char>) -> Seq<char>
    decreases s.len(),
{
    if s.len() > 0 && is_space(s[0]) {
        trimmed_start(s.drop_first())
    } else {
        s
    }
}

/// A text without the white space at its end.
pub open spec fn trimmed_end(s: Seq<char>) -> Seq<char>
    decreases s.len(),
{
    if s.len() > 0 && is_space(s.last()) {
        trimmed_end(s.drop_last())
    } else {
        s
    }
}

/// A text without the white space around it.
pub open spec fn trimmed(s: Seq<char>) -> Seq<char> {
    trimmed_end(trimmed_start(s))
}

/// The text without the white space around it.
pub fn trim(s: &str) -> (r: &str)
    ensures
        r@ == trimmed(s@),
{
    let a = chars_of(s);
    let mut from: usize = 0;
    proof {
        assert(a@.skip(0) =~= a@);
    }
    while from < a.len() && space(a[from])
        invariant
            from <= a@.len(),
            trimmed_start(a@) == trimmed_start(a@.skip(from as int)),
        decreases a@.len() - from,
    {
        proof {
            assert(a@.skip(from as int).drop_first() =~= a@.skip(from + 1));
            assert(a@.skip(from as int)[0] == a@[from as int]);
        }
        from += 1;
    }
    proof {
        if from < a@.len() {
            assert(a@.skip(from as int)[0] == a@[from as int]);
        }
        assert(trimmed_start(a@) == a@.skip(from as int));
        assert(a@.subrange(from as int, a@.len() as int) =~= a@.skip(from as int));
    }
    let mut to: usize = a.len();
    while to > from && space(a[to - 1])
        invariant
            from <= to <= a@.len(),
            trimmed_end(a@.skip(from as int)) == trimmed_end(a@.subrange(from as int, to as int)),
        decreases to,
    {
        proof {
            let t = a@.subrange(from as int, to as int);
            assert(t.drop_last() =~= a@.subrange(from as int, to - 1));
            assert(t.last() == a@[to - 1]);
        }
        to -= 1;
    }
    proof {
        let t = a@.subrange(from as int, to as int);
        if from < to {
            assert(t.last() == a@[to - 1]);
        }
        assert(trimmed_end(t) == t);
    }
    s.substring_char(from, to)
}

/// The digit for a number below ten.
pub open spec fn digit_char(d: nat) -> char {
    ('0' as int + d) as char
}

/// A number in decimal, without leading zeros.
pub open spec fn decimal_text(n: nat) -> Seq<char>
    decreases n,
{
    if n < 10 {
        seq![digit_char(n)]
    } else {
        decimal_text(n / 10).push(digit_char(n % 10))
    }
}

fn digit_str(d: u64) -> (r: &'static str)
    requires
        d < 10,
    ensures
        r@ == seq![digit_char(d as nat)],
{
    proof {
        reveal_strlit("0");
        reveal_strlit("1");
        reveal_strlit("2");
        reveal_strlit("3");
        reveal_strlit("4");
        reveal_strlit("5");
        reveal_strlit("6");
        reveal_strlit("7");
        reveal_strlit("8");
        reveal_strlit("9");
    }
    let r: &'static str = match d {
        0 => "0",
        1 => "1",
        2 => "2",
        3 => "3",
        4 => "4",
        5 => "5",
        6 => "6",
        7 => "7",
        8 => "8",
        _ => "9",
    };
    proof {
        assert(r@ =~= seq![digit_char(d as nat)]);
    }
    r
}

/// Writes a number in decimal.
pub fn decimal(n: u64) -> (r: String)
    ensures
        r@ == decimal_text(n as nat),
    decreases n,
{
    if n < 10 {
        digit_str(n).to_owned()
    } else {
        let mut s = decimal(n / 10);
        s.append(digit_str(n % 10));
        s
    }
}

/// Whether `c` is a decimal digit.
pub open spec fn is_digit(c: char) -> bool {
    '0' <= c <= '9'
}

/// Whether a text is made of decimal digits alone.
pub open spec fn all_digits(s: Seq<char>) -> bool {
    forall|i: int| 0 <= i < s.len() ==> is_digit(#[trigger] s[i])
}

/// The number that a row of digits writes.
pub open spec fn digits_value(s: Seq<char>) -> nat
    decreases s.len(),
{
    if s.len() == 0 {
        0
    } else {
        10 * digits_value(s.drop_last()) + (s.last() as nat - '0' as nat) as nat
    }
}

/// A text without the plus sign in front of a number.
pub open spec fn without_plus(s: Seq<char>) -> Seq<char> {
    if s.len() > 1 && s[0] == '+' {
        s.drop_first()
    } else {
        s
    }
}

/// The number that a text writes: digits, with an optional plus sign in front.
pub open spec fn unsigned_value(s: Seq<char>) -> Option<nat> {
    let d = without_plus(s);
    if d.len() > 0 && all_digits(d) {
        Some(digits_value(d))
    } else {
        None
    }
}

/// The number that a text writes, if it does not exceed `max`.
pub open spec fn unsigned_up_to(s: Seq<char>, max: nat) -> Option<nat> {
    match unsigned_value(s) {
        Some(n) => if n <= max {
            Some(n)
        } else {
            None
        },
        None => None,
    }
}

proof fn lemma_digits_grow(s: Seq<char>, i: int)
    requires
        0 <= i <= s.len(),
    ensures
        digits_value(s.take(i)) <= digits_value(s),
    decreases s.len(),
{
    if i == s.len() {
        assert(s.take(i) =~= s);
    } else {
        lemma_digits_grow(s.drop_last(), i);
        assert(s.drop_last().take(i) =~= s.take(i));
    }
}

/// Reads an unsigned number of at most `max`.
pub fn parse_unsigned(s: &str, max: u64) -> (r: Option<u64>)
    ensures
        match r {
            Some(n) => unsigned_up_to(s@, max as nat) == Some(n as nat),
            None => unsigned_up_to(s@, max as nat) is None,
        },
{
    let a = chars_of(s);
    let start: usize = if a.len() > 1 && a[0] == '+' {
        1
    } else {
        0
    };
    let ghost d = without_plus(s@);
    proof {
        assert(d =~= s@.skip(start as int));
    }
    if a.len() == start {
        return None;
    }
    let mut n: u64 = 0;
    let mut i: usize = start;
    while i < a.len()
        invariant
            a@ == s@,
            d == s@.skip(start as int),
            d == without_plus(s@),
            d.len() > 0,
            start <= i <= a@.len(),
            forall|j: int| 0 <= j < i - start ==> is_digit(#[trigger] d[j]),
            n == digits_value(d.take(i - start)),
            n <= max,
        decreases a@.len() - i,
    {
        let c = a[i];
        proof {
            assert(d[i - start] == c);
        }
        if c < '0' || c > '9' {
            return None;
        }
        let v: u64 = (c as u32 - '0' as u32) as u64;
        proof {
            let t = d.take(i - start + 1);
            assert(t.drop_last() =~= d.take(i - start));
            assert(t.last() == c);
            lemma_digits_grow(d, i - start + 1);
        }
        if n > max / 10 || v > max - n * 10 {
            proof {
                if all_digits(d) {
                    assert(digits_value(d.take(i - start + 1)) == 10 * n + v);
                    assert(10 * n + v > max);
                }
            }
            return None;
        }
        n = n * 10 + v;
        i += 1;
    }
    proof {
        assert(d.take(i - start) =~= d);
    }
    Some(n)
}

/// What was written in decimal is read back as the same number.
pub proof fn decimal_reads_back(n: nat)
    ensures
        unsigned_value(decimal_text(n)) == Some(n),
        all_digits(decimal_text(n)),
        decimal_text(n).len() > 0,
    decreases n,
{
    let t = decimal_text(n);
    if n < 10 {
        reveal_with_fuel(digits_value, 2);
        assert(t.drop_last() =~= Seq::<char>::empty());
        assert(without_plus(t) == t);
        assert(digits_value(t.drop_last()) == 0);
    } else {
        decimal_reads_back(n / 10);
        let u = decimal_text(n / 10);
        assert(t.drop_last() =~= u);
        assert(u[0] != '+') by {
            assert(is_digit(u[0]));
        }
        assert(without_plus(u) == u);
        assert(t[0] == u[0]);
        assert(without_plus(t) == t);
        assert(all_digits(t));
    }
}

/// Different numbers are written differently.
pub proof fn decimal_is_injective(a: nat, b: nat)
    requires
        decimal_text(a) == decimal_text(b),
    ensures
        a == b,
{
    decimal_reads_back(a);
    decimal_reads_back(b);
}

} // verus!
