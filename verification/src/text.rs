//! Small helpers on strings, seen as sequences of characters.

use vstd::prelude::*;
use vstd::string::*;

verus! {

/// The index of the leftmost `c` in `p`, or `p.len()` where it has none.
pub open spec fn first_index_of(p: Seq<char>, c: char) -> nat
    decreases p.len(),
{
    if p.len() == 0 || p[0] == c {
        0
    } else {
        1 + first_index_of(p.drop_first(), c)
    }
}

/// `first_index_of` stays within `p`, passes over no `c`, and stops at one
/// unless it reaches the end.
pub proof fn lemma_first_index_of_is_first(p: Seq<char>, c: char)
    ensures
        first_index_of(p, c) <= p.len(),
        forall|j: int| 0 <= j < first_index_of(p, c) ==> p[j] != c,
        first_index_of(p, c) < p.len() ==> p[first_index_of(p, c) as int] == c,
    decreases p.len(),
{
    if p.len() == 0 || p[0] == c {
    } else {
        let q = p.drop_first();
        lemma_first_index_of_is_first(q, c);
        assert forall|j: int| 0 <= j < first_index_of(p, c) implies p[j] != c by {
            if j > 0 {
                assert(p[j] == q[j - 1]);
            }
        }
    }
}

/// An index that holds the first `c` of `p`, or the length of a `p` without
/// any, is what `first_index_of` returns.
pub proof fn lemma_first_index_of(p: Seq<char>, c: char, k: int)
    requires
        0 <= k <= p.len(),
        forall|j: int| 0 <= j < k ==> p[j] != c,
        k == p.len() || p[k] == c,
    ensures
        first_index_of(p, c) == k,
    decreases k,
{
    if k > 0 {
        let q = p.drop_first();
        assert forall|j: int| 0 <= j < k - 1 implies q[j] != c by {
            assert(q[j] == p[j + 1]);
        }
        lemma_first_index_of(q, c, k - 1);
    }
}

/// The characters of `s`, in order.
pub fn chars_of(s: &str) -> (out: Vec<char>)
    ensures
        out@ == s@,
{
    let mut out: Vec<char> = Vec::new();
    for c in it: s.chars()
        invariant
            out@ == it.seq().take(it.index() as int),
            it.seq() == s@,
    {
        out.push(c);
    }
    out
}

/// The first index at or after `from` that holds `c`, or the length of
/// `chars` where none does.
pub fn find_from(chars: &Vec<char>, from: usize, c: char) -> (at: usize)
    requires
        from <= chars@.len(),
    ensures
        from <= at <= chars@.len(),
        at - from == first_index_of(chars@.skip(from as int), c),
{
    let n = chars.len();
    let mut at: usize = from;
    while at < n && chars[at] != c
        invariant
            n == chars@.len(),
            from <= at <= n,
            forall|j: int| from <= j < at ==> chars@[j] != c,
        decreases n - at,
    {
        at += 1;
    }
    proof {
        lemma_first_index_of(chars@.skip(from as int), c, at - from);
    }
    at
}

/// Whether the characters of `chars` from `from` up to `to` spell `word`.
pub fn spells(chars: &Vec<char>, from: usize, to: usize, word: &str) -> (same: bool)
    requires
        from <= to <= chars@.len(),
    ensures
        same == (chars@.subrange(from as int, to as int) == word@),
{
    let len = word.unicode_len();
    if to - from != len {
        return false;
    }
    let ghost part = chars@.subrange(from as int, to as int);
    let mut i: usize = 0;
    while i < len
        invariant
            from <= to <= chars@.len(),
            len == to - from,
            len == word@.len(),
            part == chars@.subrange(from as int, to as int),
            i <= len,
            forall|j: int| 0 <= j < i ==> part[j] == word@[j],
        decreases len - i,
    {
        if chars[from + i] != word.get_char(i) {
            assert(part[i as int] != word@[i as int]);
            return false;
        }
        i += 1;
    }
    assert(part =~= word@);
    true
}

} // verus!
