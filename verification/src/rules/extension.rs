//! Splitting a name into the stem that a rule works on and the extension
//! that it leaves alone.

use vstd::prelude::*;

verus! {

/// Index of the last `.` in `name`, or -1 where it has none.
pub open spec fn last_dot(name: Seq<char>) -> int
    decreases name.len(),
{
    if name.len() == 0 {
        -1
    } else if name.last() == '.' {
        name.len() - 1
    } else {
        last_dot(name.drop_last())
    }
}

/// Where the preserved suffix starts. The last dot separates an extension
/// only when something stands before it and something after it: a leading
/// dot marks a hidden file, and a trailing dot has no extension behind it.
/// Without such a dot the suffix is empty and starts at the end.
pub open spec fn suffix_start(name: Seq<char>) -> int {
    let d = last_dot(name);
    if 0 < d && d + 1 < name.len() {
        d
    } else {
        name.len() as int
    }
}

/// The part of `name` that a rule with extension protection works on.
pub open spec fn stem_of(name: Seq<char>) -> Seq<char> {
    name.subrange(0, suffix_start(name))
}

/// The part of `name` that a rule with extension protection leaves alone:
/// empty, or the last dot and the extension behind it.
pub open spec fn suffix_of(name: Seq<char>) -> Seq<char> {
    name.subrange(suffix_start(name), name.len() as int)
}

/// `last_dot` is in range, points at a dot, and no dot follows it.
pub proof fn lemma_last_dot(name: Seq<char>)
    ensures
        -1 <= last_dot(name) < name.len(),
        last_dot(name) >= 0 ==> name[last_dot(name)] == '.',
        forall|j: int| last_dot(name) < j < name.len() ==> name[j] != '.',
    decreases name.len(),
{
    if name.len() > 0 && name.last() != '.' {
        let front = name.drop_last();
        lemma_last_dot(front);
        assert forall|j: int| last_dot(name) < j < name.len() implies name[j] != '.' by {
            if j < front.len() {
                assert(front[j] == name[j]);
            }
        }
    }
}

/// An index that points at a dot with no dot behind it (or -1 where the
/// name has no dot at all) is `last_dot`.
pub proof fn lemma_last_dot_is(name: Seq<char>, d: int)
    requires
        -1 <= d < name.len(),
        d >= 0 ==> name[d] == '.',
        forall|j: int| d < j < name.len() ==> name[j] != '.',
    ensures
        last_dot(name) == d,
{
    lemma_last_dot(name);
}

/// The stem and the suffix make up the name, and a non-empty suffix is one
/// dot followed by a non-empty extension that holds no dot.
pub proof fn lemma_split(name: Seq<char>)
    ensures
        0 <= suffix_start(name) <= name.len(),
        stem_of(name) + suffix_of(name) == name,
        name.len() > 0 ==> stem_of(name).len() > 0,
        suffix_of(name).len() > 0 ==> {
            &&& suffix_of(name).len() >= 2
            &&& suffix_of(name)[0] == '.'
            &&& forall|j: int| 1 <= j < suffix_of(name).len() ==> suffix_of(name)[j] != '.'
        },
{
    lemma_last_dot(name);
    assert(stem_of(name) + suffix_of(name) =~= name);
}

/// Computes `suffix_start`.
pub fn find_suffix_start(name: &Vec<char>) -> (k: usize)
    ensures
        k == suffix_start(name@),
{
    let n: usize = name.len();
    let mut i: usize = n;
    while i > 0
        invariant
            i <= n,
            n == name.len(),
            forall|j: int| i <= j < n ==> name@[j] != '.',
        decreases i,
    {
        if name[i - 1] == '.' {
            proof {
                lemma_last_dot_is(name@, i - 1);
            }
            if i - 1 > 0 && i < n {
                return i - 1;
            } else {
                return n;
            }
        }
        i -= 1;
    }
    proof {
        lemma_last_dot_is(name@, -1);
    }
    n
}

} // verus!
