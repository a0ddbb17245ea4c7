//! Exact, case-sensitive occurrences of a target in a stem, and their
//! removal.

use vstd::prelude::*;
use crate::rules::text::push_range;

verus! {

/// `t` stands in `s` at index `i`.
pub open spec fn occurs_at(s: Seq<char>, t: Seq<char>, i: int) -> bool {
    0 <= i && i + t.len() <= s.len() && s.subrange(i, i + t.len()) == t
}

/// `t` stands somewhere in `s`.
pub open spec fn has_occurrence(s: Seq<char>, t: Seq<char>) -> bool {
    exists|i: int| occurs_at(s, t, i)
}

/// `i` is where the left-most occurrence of `t` in `s` starts.
pub open spec fn is_first_occurrence(s: Seq<char>, t: Seq<char>, i: int) -> bool {
    occurs_at(s, t, i) && forall|j: int| 0 <= j < i ==> !occurs_at(s, t, j)
}

/// `i` is where the right-most occurrence of `t` in `s` starts.
pub open spec fn is_last_occurrence(s: Seq<char>, t: Seq<char>, i: int) -> bool {
    occurs_at(s, t, i) && forall|j: int| i < j ==> !occurs_at(s, t, j)
}

/// `s` without the `n` characters that start at `i`.
pub open spec fn without(s: Seq<char>, i: int, n: int) -> Seq<char> {
    s.subrange(0, i) + s.subrange(i + n, s.len() as int)
}

/// `s` without the left-most occurrence of `t`; `s` itself where `t` does
/// not occur.
pub open spec fn remove_first(s: Seq<char>, t: Seq<char>) -> Seq<char> {
    if has_occurrence(s, t) {
        without(s, choose|i: int| is_first_occurrence(s, t, i), t.len() as int)
    } else {
        s
    }
}

/// `s` without the right-most occurrence of `t`, the one that starts
/// furthest to the right; `s` itself where `t` does not occur.
pub open spec fn remove_last(s: Seq<char>, t: Seq<char>) -> Seq<char> {
    if has_occurrence(s, t) {
        without(s, choose|i: int| is_last_occurrence(s, t, i), t.len() as int)
    } else {
        s
    }
}

/// `s` without every occurrence of `t`, found from left to right, each
/// search starting where the occurrence before it ended.
pub open spec fn remove_every(s: Seq<char>, t: Seq<char>) -> Seq<char>
    decreases s.len(),
{
    if t.len() == 0 || s.len() < t.len() {
        s
    } else if occurs_at(s, t, 0) {
        remove_every(s.subrange(t.len() as int, s.len() as int), t)
    } else {
        seq![s[0]] + remove_every(s.drop_first(), t)
    }
}

/// An occurrence in `s` without its first character is one in `s`, one
/// place further right.
pub proof fn lemma_occurs_shift(s: Seq<char>, t: Seq<char>, i: int)
    requires
        s.len() > 0,
        0 <= i,
    ensures
        occurs_at(s.drop_first(), t, i) == occurs_at(s, t, i + 1),
{
    if i + t.len() <= s.len() - 1 {
        assert(s.drop_first().subrange(i, i + t.len()) =~= s.subrange(i + 1, i + 1 + t.len()));
    }
}

/// Where `t` occurs, it has a left-most occurrence.
pub proof fn lemma_first_exists(s: Seq<char>, t: Seq<char>, i: int)
    requires
        occurs_at(s, t, i),
    ensures
        exists|j: int| is_first_occurrence(s, t, j),
    decreases i,
{
    if exists|j: int| 0 <= j < i && occurs_at(s, t, j) {
        let j = choose|j: int| 0 <= j < i && occurs_at(s, t, j);
        lemma_first_exists(s, t, j);
    } else {
        assert(is_first_occurrence(s, t, i));
    }
}

/// Where `t` occurs, it has a right-most occurrence.
pub proof fn lemma_last_exists(s: Seq<char>, t: Seq<char>, i: int)
    requires
        occurs_at(s, t, i),
    ensures
        exists|j: int| is_last_occurrence(s, t, j),
    decreases s.len() - i,
{
    if exists|j: int| i < j && occurs_at(s, t, j) {
        let j = choose|j: int| i < j && occurs_at(s, t, j);
        lemma_last_exists(s, t, j);
    } else {
        assert(is_last_occurrence(s, t, i));
    }
}

/// Removing one occurrence takes away as many characters as the target
/// has; where the target does not occur, nothing changes.
pub proof fn lemma_remove_one_len(s: Seq<char>, t: Seq<char>)
    ensures
        has_occurrence(s, t) ==> remove_first(s, t).len() == s.len() - t.len(),
        has_occurrence(s, t) ==> remove_last(s, t).len() == s.len() - t.len(),
        !has_occurrence(s, t) ==> remove_first(s, t) == s && remove_last(s, t) == s,
{
    if has_occurrence(s, t) {
        let i = choose|i: int| occurs_at(s, t, i);
        lemma_first_exists(s, t, i);
        lemma_last_exists(s, t, i);
    }
}

/// Removing every occurrence never adds a character.
pub proof fn lemma_remove_every_len(s: Seq<char>, t: Seq<char>)
    ensures
        remove_every(s, t).len() <= s.len(),
    decreases s.len(),
{
    if t.len() == 0 || s.len() < t.len() {
    } else if occurs_at(s, t, 0) {
        lemma_remove_every_len(s.subrange(t.len() as int, s.len() as int), t);
    } else {
        lemma_remove_every_len(s.drop_first(), t);
    }
}

/// Where the target does not occur, removing every occurrence changes
/// nothing.
pub proof fn lemma_remove_every_absent(s: Seq<char>, t: Seq<char>)
    requires
        !has_occurrence(s, t),
    ensures
        remove_every(s, t) == s,
    decreases s.len(),
{
    if t.len() == 0 || s.len() < t.len() {
    } else {
        assert(!occurs_at(s, t, 0));
        assert forall|i: int| !occurs_at(s.drop_first(), t, i) by {
            if 0 <= i {
                lemma_occurs_shift(s, t, i);
                assert(!occurs_at(s, t, i + 1));
            }
        }
        lemma_remove_every_absent(s.drop_first(), t);
        assert(seq![s[0]] + s.drop_first() =~= s);
    }
}

/// Where a non-empty target occurs, removing every occurrence makes the
/// text shorter.
pub proof fn lemma_remove_every_present(s: Seq<char>, t: Seq<char>)
    requires
        t.len() > 0,
        has_occurrence(s, t),
    ensures
        remove_every(s, t).len() < s.len(),
    decreases s.len(),
{
    let i = choose|i: int| occurs_at(s, t, i);
    if occurs_at(s, t, 0) {
        lemma_remove_every_len(s.subrange(t.len() as int, s.len() as int), t);
    } else {
        lemma_occurs_shift(s, t, i - 1);
        assert(occurs_at(s.drop_first(), t, i - 1));
        lemma_remove_every_present(s.drop_first(), t);
    }
}

/// Whether `t` stands in `s` at index `i`.
pub fn occurs_here(s: &Vec<char>, t: &Vec<char>, i: usize) -> (b: bool)
    ensures
        b == occurs_at(s@, t@, i as int),
{
    let m: usize = t.len();
    if m > s.len() || i > s.len() - m {
        return false;
    }
    let mut k: usize = 0;
    while k < m
        invariant
            k <= m,
            m == t.len(),
            i + m <= s.len(),
            forall|j: int| 0 <= j < k ==> s@[i + j] == t@[j],
        decreases m - k,
    {
        if s[i + k] != t[k] {
            assert(s@.subrange(i as int, i + m)[k as int] != t@[k as int]);
            return false;
        }
        k += 1;
    }
    assert(s@.subrange(i as int, i + m) =~= t@);
    true
}

/// Removes every occurrence of `t` from `s`; an empty `t` removes nothing.
pub fn remove_every_in(s: &Vec<char>, t: &Vec<char>) -> (out: Vec<char>)
    ensures
        out@ == remove_every(s@, t@),
{
    let n: usize = s.len();
    let m: usize = t.len();
    let mut out: Vec<char> = Vec::new();
    if m == 0 {
        push_range(&mut out, s, 0, n);
        assert(out@ =~= s@);
        return out;
    }
    let mut i: usize = 0;
    assert(s@.subrange(0, n as int) =~= s@);
    while i < n
        invariant
            i <= n,
            n == s.len(),
            m == t.len(),
            m > 0,
            out@ + remove_every(s@.subrange(i as int, n as int), t@) == remove_every(s@, t@),
        decreases n - i,
    {
        let ghost rest = s@.subrange(i as int, n as int);
        if occurs_here(s, t, i) {
            proof {
                assert(rest.subrange(0, m as int) =~= s@.subrange(i as int, i + m));
                assert(rest.subrange(m as int, rest.len() as int) =~= s@.subrange(i + m, n as int));
            }
            i += m;
        } else {
            proof {
                assert(rest.drop_first() =~= s@.subrange(i + 1, n as int));
                if rest.len() >= m {
                    assert(rest.subrange(0, m as int) =~= s@.subrange(i as int, i + m));
                } else {
                    assert(rest =~= seq![rest[0]] + rest.drop_first());
                }
                assert(remove_every(rest, t@) == seq![s@[i as int]] + remove_every(
                    rest.drop_first(),
                    t@,
                ));
                assert((out@.push(s@[i as int])) + remove_every(rest.drop_first(), t@) =~= out@
                    + remove_every(rest, t@));
            }
            out.push(s[i]);
            i += 1;
        }
    }
    assert(out@ + remove_every(s@.subrange(n as int, n as int), t@) =~= out@);
    out
}

/// Removes the left-most occurrence of `t` from `s`.
pub fn remove_first_in(s: &Vec<char>, t: &Vec<char>) -> (out: Vec<char>)
    ensures
        out@ == remove_first(s@, t@),
{
    let n: usize = s.len();
    let m: usize = t.len();
    let mut out: Vec<char> = Vec::new();
    let mut i: usize = 0;
    while i < n
        invariant
            i <= n,
            n == s.len(),
            m == t.len(),
            out@.len() == 0,
            forall|j: int| 0 <= j < i ==> !occurs_at(s@, t@, j),
        decreases n - i,
    {
        if occurs_here(s, t, i) {
            proof {
                assert(is_first_occurrence(s@, t@, i as int));
                let c = choose|c: int| is_first_occurrence(s@, t@, c);
                assert(c == i);
            }
            push_range(&mut out, s, 0, i);
            push_range(&mut out, s, i + m, n);
            assert(out@ =~= without(s@, i as int, m as int));
            return out;
        }
        i += 1;
    }
    proof {
        if m == 0 {
            assert(s@.subrange(n as int, n + 0) =~= t@);
            assert(is_first_occurrence(s@, t@, n as int));
            let c = choose|c: int| is_first_occurrence(s@, t@, c);
            assert(c == n);
            assert(without(s@, n as int, 0) =~= s@);
        } else {
            assert(!has_occurrence(s@, t@));
        }
    }
    push_range(&mut out, s, 0, n);
    assert(out@ =~= s@);
    out
}

/// Removes the right-most occurrence of `t` from `s`.
pub fn remove_last_in(s: &Vec<char>, t: &Vec<char>) -> (out: Vec<char>)
    ensures
        out@ == remove_last(s@, t@),
{
    let n: usize = s.len();
    let m: usize = t.len();
    let mut out: Vec<char> = Vec::new();
    if m == 0 {
        proof {
            assert(s@.subrange(n as int, n + 0) =~= t@);
            assert(is_last_occurrence(s@, t@, n as int));
            let c = choose|c: int| is_last_occurrence(s@, t@, c);
            assert(c == n);
            assert(without(s@, n as int, 0) =~= s@);
        }
        push_range(&mut out, s, 0, n);
        assert(out@ =~= s@);
        return out;
    }
    let mut i: usize = n;
    while i > 0
        invariant
            i <= n,
            n == s.len(),
            m == t.len(),
            m > 0,
            out@.len() == 0,
            forall|j: int| i <= j ==> !occurs_at(s@, t@, j),
        decreases i,
    {
        i -= 1;
        if occurs_here(s, t, i) {
            proof {
                assert(is_last_occurrence(s@, t@, i as int));
                let c = choose|c: int| is_last_occurrence(s@, t@, c);
                assert(c == i);
            }
            push_range(&mut out, s, 0, i);
            push_range(&mut out, s, i + m, n);
            assert(out@ =~= without(s@, i as int, m as int));
            return out;
        }
    }
    assert(!has_occurrence(s@, t@));
    push_range(&mut out, s, 0, n);
    assert(out@ =~= s@);
    out
}

} // verus!
