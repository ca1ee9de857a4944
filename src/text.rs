use vstd::prelude::*;
use vstd::std_specs::iter::IteratorSpec;

verus! {

/// `sub` occurs in `s` at position `i`.
pub open spec fn occurs_at(s: Seq<char>, sub: Seq<char>, i: int) -> bool {
    0 <= i && i + sub.len() <= s.len() && s.subrange(i, i + sub.len()) == sub
}

/// `sub` occurs somewhere in `s`.
pub open spec fn contains(s: Seq<char>, sub: Seq<char>) -> bool {
    exists|i: int| occurs_at(s, sub, i)
}

pub open spec fn starts_with(s: Seq<char>, pre: Seq<char>) -> bool {
    pre.len() <= s.len() && s.take(pre.len() as int) == pre
}

pub open spec fn ends_with(s: Seq<char>, suf: Seq<char>) -> bool {
    suf.len() <= s.len() && s.skip(s.len() - suf.len()) == suf
}

pub open spec fn lacks_char(s: Seq<char>, c: char) -> bool {
    forall|i: int| 0 <= i < s.len() ==> #[trigger] s[i] != c
}

/// A text that lacks a character of `sub` does not contain `sub`.
pub proof fn lemma_lacking_char_excludes(s: Seq<char>, sub: Seq<char>, k: int)
    requires
        0 <= k < sub.len(),
        lacks_char(s, sub[k]),
    ensures
        !contains(s, sub),
{
    if contains(s, sub) {
        let i = choose|i: int| occurs_at(s, sub, i);
        assert(s.subrange(i, i + sub.len())[k] == s[i + k]);
    }
}

pub proof fn lemma_lacks_concat(a: Seq<char>, b: Seq<char>, c: char)
    requires
        lacks_char(a, c),
        lacks_char(b, c),
    ensures
        lacks_char(a + b, c),
{
    assert forall|i: int| 0 <= i < (a + b).len() implies #[trigger] (a + b)[i] != c by {
        if i >= a.len() {
            assert((a + b)[i] == b[i - a.len()]);
        }
    }
}

/// `c` occurs in `s` only before position `m`.
pub open spec fn char_only_before(s: Seq<char>, c: char, m: int) -> bool {
    forall|i: int| 0 <= i < s.len() && #[trigger] s[i] == c ==> i < m
}

pub proof fn lemma_only_before_concat(a: Seq<char>, b: Seq<char>, c: char, m: int)
    requires
        char_only_before(a, c, m),
        lacks_char(b, c),
        m <= a.len(),
    ensures
        char_only_before(a + b, c, m),
{
    assert forall|i: int| 0 <= i < (a + b).len() && #[trigger] (a + b)[i] == c implies i < m by {
        if i >= a.len() {
            assert((a + b)[i] == b[i - a.len()]);
        } else {
            assert((a + b)[i] == a[i]);
        }
    }
}

/// When `sub[k1]` never occurs in `a`, and `sub[k2]` occurs in `b` only before
/// `k2 - k1`, `sub` cannot occur in `a + b`.
pub proof fn lemma_split_excludes_early(a: Seq<char>, b: Seq<char>, sub: Seq<char>, k1: int, k2: int)
    requires
        0 <= k1 < k2 < sub.len(),
        lacks_char(a, sub[k1]),
        char_only_before(b, sub[k2], k2 - k1),
    ensures
        !contains(a + b, sub),
{
    if contains(a + b, sub) {
        let s = a + b;
        let p = choose|p: int| occurs_at(s, sub, p);
        assert(s.subrange(p, p + sub.len())[k1] == s[p + k1]);
        assert(s.subrange(p, p + sub.len())[k2] == s[p + k2]);
        if p + k1 < a.len() {
            assert(s[p + k1] == a[p + k1]);
        } else {
            assert(s[p + k2] == b[p + k2 - a.len()]);
        }
    }
}

/// `s` never holds `a` directly followed by `b`, and does not end in `a`.
pub open spec fn pair_free(s: Seq<char>, a: char, b: char) -> bool {
    &&& forall|i: int| 0 <= i < s.len() - 1 ==> !(#[trigger] s[i] == a && s[i + 1] == b)
    &&& (s.len() == 0 || s.last() != a)
}

pub proof fn lemma_pair_free_of_lacks(s: Seq<char>, a: char, b: char)
    requires
        lacks_char(s, a),
    ensures
        pair_free(s, a, b),
{
    if s.len() > 0 {
        assert(s.last() == s[s.len() - 1]);
    }
}

pub proof fn lemma_pair_free_concat(x: Seq<char>, y: Seq<char>, a: char, b: char)
    requires
        pair_free(x, a, b),
        pair_free(y, a, b),
    ensures
        pair_free(x + y, a, b),
{
    let s = x + y;
    assert forall|i: int| 0 <= i < s.len() - 1 implies !(#[trigger] s[i] == a && s[i + 1] == b) by {
        if i + 1 < x.len() {
            assert(s[i] == x[i] && s[i + 1] == x[i + 1]);
        } else if i + 1 == x.len() {
            assert(s[i] == x.last());
        } else {
            assert(s[i] == y[i - x.len()] && s[i + 1] == y[i + 1 - x.len()]);
        }
    }
    if y.len() == 0 {
        assert(s =~= x);
    } else {
        assert(s.last() == y.last());
    }
}

/// When `sub` starts with `a` followed by `b`, a text free of that pair does not
/// contain `sub`.
pub proof fn lemma_pair_free_excludes(s: Seq<char>, sub: Seq<char>, k: int)
    requires
        0 <= k < sub.len() - 1,
        pair_free(s, sub[k], sub[k + 1]),
    ensures
        !contains(s, sub),
{
    if contains(s, sub) {
        let p = choose|p: int| occurs_at(s, sub, p);
        assert(s.subrange(p, p + sub.len())[k] == s[p + k]);
        assert(s.subrange(p, p + sub.len())[k + 1] == s[p + k + 1]);
    }
}

/// When `a` is free of the pair at `sub[k1..k1 + 2]` and `b` of the pair at
/// `sub[k2..k2 + 2]`, with `k1 + 2 <= k2`, `sub` does not occur in `a + b`.
pub proof fn lemma_pair_split_excludes(x: Seq<char>, y: Seq<char>, sub: Seq<char>, k1: int, k2: int)
    requires
        0 <= k1,
        k1 + 2 <= k2,
        k2 + 1 < sub.len(),
        pair_free(x, sub[k1], sub[k1 + 1]),
        pair_free(y, sub[k2], sub[k2 + 1]),
    ensures
        !contains(x + y, sub),
{
    if contains(x + y, sub) {
        let s = x + y;
        let p = choose|p: int| occurs_at(s, sub, p);
        assert(s.subrange(p, p + sub.len())[k1] == s[p + k1]);
        assert(s.subrange(p, p + sub.len())[k1 + 1] == s[p + k1 + 1]);
        assert(s.subrange(p, p + sub.len())[k2] == s[p + k2]);
        assert(s.subrange(p, p + sub.len())[k2 + 1] == s[p + k2 + 1]);
        if p + k1 + 1 < x.len() {
            assert(s[p + k1] == x[p + k1] && s[p + k1 + 1] == x[p + k1 + 1]);
        } else if p + k1 + 1 == x.len() {
            assert(s[p + k1] == x.last());
        } else {
            assert(s[p + k2] == y[p + k2 - x.len()] && s[p + k2 + 1] == y[p + k2 + 1 - x.len()]);
        }
    }
}

pub proof fn lemma_occurs_pair(x: Seq<char>, a: Seq<char>, b: Seq<char>)
    ensures
        occurs_at(x + a + b, a + b, x.len() as int),
{
    assert((x + a + b).subrange(x.len() as int, (x.len() + a.len() + b.len()) as int) =~= a + b);
}

pub proof fn lemma_occurs_extend(s: Seq<char>, y: Seq<char>, p: int, t: Seq<char>)
    requires
        occurs_at(s, y, p),
    ensures
        occurs_at(s + t, y, p),
{
    assert((s + t).subrange(p, p + y.len()) =~= s.subrange(p, p + y.len()));
}

pub proof fn lemma_occurs_shift(t: Seq<char>, s: Seq<char>, y: Seq<char>, p: int)
    requires
        occurs_at(s, y, p),
    ensures
        occurs_at(t + s, y, p + t.len()),
{
    assert((t + s).subrange(p + t.len(), p + t.len() + y.len()) =~= s.subrange(p, p + y.len()));
}

/// The characters of `s`, in order.
pub(crate) fn chars_of(s: &str) -> (r: Vec<char>)
    ensures
        r@ == s@,
{
    broadcast use vstd::string::axiom_spec_iter, vstd::string::next_postcondition;

    let mut it = s.chars();
    let mut r: Vec<char> = Vec::new();
    loop
        invariant
            r@ + it.remaining() == s@,
            it.obeys_prophetic_iter_laws(),
        ensures
            r@ == s@,
        decreases s@.len() - r@.len(),
    {
        match it.next() {
            Some(c) => {
                r.push(c);
                assert(r@ + it.remaining() =~= s@);
            },
            None => {
                assert(r@ =~= s@);
                break ;
            },
        }
    }
    r
}

} // verus!
