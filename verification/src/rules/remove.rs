//! The removal rule and its evaluation.

use vstd::prelude::*;
use vstd::string::*;
use crate::rules::extension::{find_suffix_start, lemma_split, stem_of, suffix_of};
use crate::rules::literal::{
    remove_every, remove_every_in, remove_first, remove_first_in, remove_last, remove_last_in,
};
use crate::rules::pattern::{escape, escaped, find_insensitive, insensitive_matches};
use crate::rules::spans::{after_matches, remove_matched};
use crate::rules::laws::{lemma_all_never_longer, lemma_extension_kept, lemma_never_longer};
use crate::rules::text::{chars_of, push_range, string_of};

verus! {

/// Which occurrences of the target a rule removes.
#[derive(Debug)]
pub enum RemovePosition {
    /// Every occurrence.
    All,
    /// The left-most occurrence.
    First,
    /// The right-most occurrence.
    Last,
}

/// One removal: what to look for, which occurrences to remove, and how.
#[derive(Debug)]
pub struct RemoveRule {
    /// The text to remove. An empty text makes the rule change nothing.
    pub text: String,
    /// Which occurrences to remove.
    pub remove_position: RemovePosition,
    /// Whether letters match only in the same case.
    pub case_sensitive: bool,
    /// Whether the extension of the name is left untouched.
    pub ignore_extension: bool,
}

/// The part of `name` that `rule` works on.
pub open spec fn worked_part(name: Seq<char>, rule: RemoveRule) -> Seq<char> {
    if rule.ignore_extension {
        stem_of(name)
    } else {
        name
    }
}

/// The part of `name` that `rule` leaves alone.
pub open spec fn kept_part(name: Seq<char>, rule: RemoveRule) -> Seq<char> {
    if rule.ignore_extension {
        suffix_of(name)
    } else {
        Seq::empty()
    }
}

/// What `rule` leaves of a stem. With case, the occurrences are those of
/// the target itself; without, they are the matches that a case-insensitive
/// search for the escaped target finds in the stem.
pub open spec fn matched(stem: Seq<char>, rule: RemoveRule) -> Seq<char> {
    if rule.case_sensitive {
        match rule.remove_position {
            RemovePosition::All => remove_every(stem, rule.text@),
            RemovePosition::First => remove_first(stem, rule.text@),
            RemovePosition::Last => remove_last(stem, rule.text@),
        }
    } else {
        after_matches(
            stem,
            insensitive_matches(escaped(rule.text@), stem),
            rule.remove_position,
        )
    }
}

/// `text` ends in `tail`.
pub open spec fn ends_with(text: Seq<char>, tail: Seq<char>) -> bool {
    tail.len() <= text.len() && text.subrange(text.len() - tail.len(), text.len() as int) == tail
}

/// The name that `rule` makes of `name`.
pub open spec fn removed(name: Seq<char>, rule: RemoveRule) -> Seq<char> {
    if rule.text@.len() == 0 {
        name
    } else if worked_part(name, rule).len() == 0 {
        kept_part(name, rule)
    } else {
        matched(worked_part(name, rule), rule) + kept_part(name, rule)
    }
}

/// The name that the rules make of `name`, applied one after the other,
/// each to what the one before it left.
pub open spec fn removed_all(name: Seq<char>, rules: Seq<RemoveRule>) -> Seq<char>
    decreases rules.len(),
{
    if rules.len() == 0 {
        name
    } else {
        removed(removed_all(name, rules.drop_last()), rules.last())
    }
}

/// Applies a borrowed `rule` to `old_text`: the name is split into the part
/// that the rule works on and the part that it keeps, the occurrences that
/// the rule's position picks are removed from the first, and the second is
/// put back behind it.
pub fn remove_by(old_text: &str, rule: &RemoveRule) -> (out: String)
    ensures
        out@ == removed(old_text@, *rule),
{
    if rule.text.as_str().is_empty() {
        return String::from_str(old_text);
    }
    let name = chars_of(old_text);
    let split: usize = if rule.ignore_extension {
        find_suffix_start(&name)
    } else {
        name.len()
    };
    proof {
        lemma_split(name@);
    }
    let mut kept: Vec<char> = Vec::new();
    push_range(&mut kept, &name, split, name.len());
    assert(kept@ =~= kept_part(name@, *rule));
    let kept_text = string_of(&kept);
    if split == 0 {
        return kept_text;
    }
    let mut stem: Vec<char> = Vec::new();
    push_range(&mut stem, &name, 0, split);
    assert(stem@ =~= worked_part(name@, *rule));
    let mut out: String = if rule.case_sensitive {
        let target = chars_of(rule.text.as_str());
        let left = match rule.remove_position {
            RemovePosition::All => remove_every_in(&stem, &target),
            RemovePosition::First => remove_first_in(&stem, &target),
            RemovePosition::Last => remove_last_in(&stem, &target),
        };
        string_of(&left)
    } else {
        let stem_text = string_of(&stem);
        let pattern = escape(rule.text.as_str());
        let found = find_insensitive(pattern.as_str(), stem_text.as_str());
        remove_matched(stem_text.as_str(), found, &rule.remove_position)
    };
    out.append(kept_text.as_str());
    out
}

/// Applies `rule` to `old_text`: removes the occurrences of the rule's text
/// that its position picks, from the whole name or, with
/// `ignore_extension`, from the part before the extension.
pub fn remove(old_text: &str, rule: RemoveRule) -> (out: String)
    ensures
        out@ == removed(old_text@, rule),
        rule.text@.len() == 0 ==> out@ == old_text@,
        out@.len() <= old_text@.len(),
        rule.ignore_extension ==> ends_with(out@, suffix_of(old_text@)),
{
    proof {
        lemma_never_longer(old_text@, rule);
        if rule.ignore_extension {
            if suffix_of(old_text@).len() > 0 {
                lemma_extension_kept(old_text@, rule);
            } else {
                let made = removed(old_text@, rule);
                assert(made.subrange(made.len() as int, made.len() as int) =~= suffix_of(
                    old_text@,
                ));
            }
        }
    }
    remove_by(old_text, &rule)
}

/// Applies the rules to `old_text` in order, each to what the one before it
/// left.
pub fn removes(old_text: &str, rules: Vec<RemoveRule>) -> (out: String)
    ensures
        out@ == removed_all(old_text@, rules@),
        rules@.len() == 0 ==> out@ == old_text@,
        out@.len() <= old_text@.len(),
{
    proof {
        lemma_all_never_longer(old_text@, rules@);
    }
    let mut current = String::from_str(old_text);
    let mut i: usize = 0;
    assert(rules@.subrange(0, 0) =~= Seq::empty());
    while i < rules.len()
        invariant
            i <= rules.len(),
            current@ == removed_all(old_text@, rules@.subrange(0, i as int)),
        decreases rules.len() - i,
    {
        proof {
            let upto = rules@.subrange(0, i + 1);
            assert(upto.drop_last() =~= rules@.subrange(0, i as int));
            assert(upto.last() == rules@[i as int]);
        }
        current = remove_by(current.as_str(), &rules[i]);
        i += 1;
    }
    assert(rules@.subrange(0, rules@.len() as int) =~= rules@);
    current
}

} // verus!
