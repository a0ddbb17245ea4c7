//! Removal of matched spans that are given as byte offsets into the UTF-8
//! form of a stem.

use vstd::prelude::*;
use vstd::string::*;
use crate::rules::pattern::found_view;
use crate::rules::remove::RemovePosition;
use crate::rules::text::{chars_of, push_range, string_of};

verus! {

/// Number of bytes that `c` takes in UTF-8.
pub open spec fn utf8_width(c: char) -> int {
    let n: u32 = c as u32;
    if n < 0x80 {
        1
    } else if n < 0x800 {
        2
    } else if n < 0x10000 {
        3
    } else {
        4
    }
}

/// Index of the character of `s` that starts `bytes` bytes behind the start
/// of character `from`, in the UTF-8 form of `s`. An offset beyond the end
/// gives the length of `s`; one inside a character gives the character
/// after it.
pub open spec fn char_index(s: Seq<char>, from: int, bytes: int) -> int
    decreases s.len() - from,
{
    if from < 0 || from >= s.len() || bytes <= 0 {
        from
    } else {
        char_index(s, from + 1, bytes - utf8_width(s[from]))
    }
}

/// The spans of `spans`, each end turned from a byte offset into a
/// character index of `s`.
pub open spec fn char_spans(s: Seq<char>, spans: Seq<(usize, usize)>) -> Seq<(int, int)> {
    Seq::new(
        spans.len(),
        |i: int| (char_index(s, 0, spans[i].0 as int), char_index(s, 0, spans[i].1 as int)),
    )
}

/// The spans that a position policy picks: all of them, the first or the
/// last.
pub open spec fn select(spans: Seq<(int, int)>, position: RemovePosition) -> Seq<(int, int)> {
    match position {
        RemovePosition::All => spans,
        RemovePosition::First => if spans.len() > 0 {
            spans.subrange(0, 1)
        } else {
            spans
        },
        RemovePosition::Last => if spans.len() > 0 {
            spans.subrange(spans.len() - 1, spans.len() as int)
        } else {
            spans
        },
    }
}

/// What is left of `s` from `cursor` on when the spans are cut out, taken
/// from left to right. A span that starts before `cursor`, ends before it
/// starts or reaches beyond the end of `s` is passed over.
pub open spec fn cut(s: Seq<char>, spans: Seq<(int, int)>, cursor: int) -> Seq<char>
    decreases spans.len(),
{
    if spans.len() == 0 {
        s.subrange(cursor, s.len() as int)
    } else if cursor <= spans[0].0 && spans[0].0 <= spans[0].1 && spans[0].1 <= s.len() {
        s.subrange(cursor, spans[0].0) + cut(s, spans.drop_first(), spans[0].1)
    } else {
        cut(s, spans.drop_first(), cursor)
    }
}

/// Cutting spans out never adds a character.
pub proof fn lemma_cut_len(s: Seq<char>, spans: Seq<(int, int)>, cursor: int)
    requires
        0 <= cursor <= s.len(),
    ensures
        cut(s, spans, cursor).len() <= s.len() - cursor,
    decreases spans.len(),
{
    if spans.len() > 0 {
        if cursor <= spans[0].0 && spans[0].0 <= spans[0].1 && spans[0].1 <= s.len() {
            lemma_cut_len(s, spans.drop_first(), spans[0].1);
        } else {
            lemma_cut_len(s, spans.drop_first(), cursor);
        }
    }
}

/// Computes `utf8_width`.
pub fn width_of(c: char) -> (w: usize)
    ensures
        w == utf8_width(c),
{
    let n: u32 = c as u32;
    if n < 0x80 {
        1
    } else if n < 0x800 {
        2
    } else if n < 0x10000 {
        3
    } else {
        4
    }
}

/// Computes `char_index` from the start of `s`.
pub fn char_index_of(s: &Vec<char>, bytes: usize) -> (k: usize)
    ensures
        k == char_index(s@, 0, bytes as int),
        k <= s.len(),
{
    let mut k: usize = 0;
    let mut left: usize = bytes;
    while k < s.len() && left > 0
        invariant
            k <= s.len(),
            char_index(s@, k as int, left as int) == char_index(s@, 0, bytes as int),
        decreases s.len() - k,
    {
        let w: usize = width_of(s[k]);
        proof {
            assert(char_index(s@, k as int, left as int) == char_index(s@, k + 1, left - w));
            if left < w {
                assert(char_index(s@, k + 1, left - w) == k + 1);
                assert(char_index(s@, k + 1, 0) == k + 1);
            }
        }
        left = if left >= w {
            left - w
        } else {
            0
        };
        k += 1;
    }
    k
}

/// Cuts the spans that `position` picks out of `stem`.
pub fn cut_matched(stem: &Vec<char>, spans: &Vec<(usize, usize)>, position: &RemovePosition) -> (out:
    Vec<char>)
    ensures
        out@ == cut(stem@, select(char_spans(stem@, spans@), *position), 0),
{
    let total: usize = spans.len();
    let n: usize = stem.len();
    let (lo, hi): (usize, usize) = match position {
        RemovePosition::All => (0, total),
        RemovePosition::First => (0, if total > 0 { 1 } else { 0 }),
        RemovePosition::Last => (if total > 0 { total - 1 } else { 0 }, total),
    };
    let ghost all = char_spans(stem@, spans@);
    assert(all.subrange(lo as int, hi as int) =~= select(all, *position));
    let mut out: Vec<char> = Vec::new();
    let mut cursor: usize = 0;
    let mut k: usize = lo;
    while k < hi
        invariant
            lo <= k <= hi <= total,
            total == spans.len(),
            n == stem.len(),
            cursor <= n,
            all == char_spans(stem@, spans@),
            out@ + cut(stem@, all.subrange(k as int, hi as int), cursor as int) == cut(
                stem@,
                all.subrange(lo as int, hi as int),
                0,
            ),
        decreases hi - k,
    {
        let a: usize = char_index_of(stem, spans[k].0);
        let b: usize = char_index_of(stem, spans[k].1);
        let ghost rest = all.subrange(k as int, hi as int);
        let ghost before = out@;
        proof {
            assert(rest[0] == (a as int, b as int));
            assert(rest.drop_first() =~= all.subrange(k + 1, hi as int));
        }
        if cursor <= a && a <= b {
            push_range(&mut out, stem, cursor, a);
            proof {
                assert(out@ + cut(stem@, rest.drop_first(), b as int) =~= before + cut(
                    stem@,
                    rest,
                    cursor as int,
                ));
            }
            cursor = b;
        }
        k += 1;
    }
    push_range(&mut out, stem, cursor, n);
    out
}

/// What is left of `stem` after a search that ended in `found`: the stem
/// itself where no matcher could be built, else the stem without the matches
/// that `position` picks. Each span is the start and the end of one match,
/// as byte offsets into the UTF-8 form of `stem`, the matches in the order
/// in which they were found.
pub open spec fn after_matches(
    stem: Seq<char>,
    found: Option<Seq<(usize, usize)>>,
    position: RemovePosition,
) -> Seq<char> {
    match found {
        Some(spans) => cut(stem, select(char_spans(stem, spans), position), 0),
        None => stem,
    }
}

/// A search that found nothing leaves the stem as it is, whatever the
/// position.
pub proof fn lemma_no_match_unchanged(stem: Seq<char>, position: RemovePosition)
    ensures
        after_matches(stem, Some(Seq::empty()), position) == stem,
{
    let none = char_spans(stem, Seq::empty());
    assert(none =~= Seq::empty());
    assert(select(none, position) =~= Seq::empty());
    assert(stem.subrange(0, stem.len() as int) =~= stem);
}

/// What a search leaves is never longer than the stem.
pub proof fn lemma_after_matches_len(
    stem: Seq<char>,
    found: Option<Seq<(usize, usize)>>,
    position: RemovePosition,
)
    ensures
        after_matches(stem, found, position).len() <= stem.len(),
{
    if let Some(spans) = found {
        lemma_cut_len(stem, select(char_spans(stem, spans), position), 0);
    }
}

/// Removes from `stem` the matches that `position` picks among those that a
/// search found; the stem comes back unchanged where the search could not
/// be made.
pub fn remove_matched(
    stem: &str,
    found: Option<Vec<(usize, usize)>>,
    position: &RemovePosition,
) -> (out: String)
    ensures
        out@ == after_matches(stem@, found_view(found), *position),
        out@.len() <= stem@.len(),
{
    proof {
        lemma_after_matches_len(stem@, found_view(found), *position);
    }
    match found {
        Some(spans) => {
            let chars = chars_of(stem);
            let left = cut_matched(&chars, &spans, position);
            string_of(&left)
        },
        None => String::from_str(stem),
    }
}

} // verus!
