//! Laws that hold of rule evaluation, for every name and every rule.

use vstd::prelude::*;
use crate::rules::extension::{last_dot, lemma_last_dot_is, lemma_split, suffix_of};
use crate::rules::literal::{
    has_occurrence, occurs_at, lemma_remove_every_absent, lemma_remove_every_len,
    lemma_remove_every_present, lemma_remove_one_len,
};
use crate::rules::pattern::{escaped, insensitive_matches};
use crate::rules::remove::{
    ends_with, kept_part, matched, removed, removed_all, worked_part, RemoveRule,
};
use crate::rules::spans::lemma_after_matches_len;

verus! {

/// What a rule leaves of a stem is never longer than the stem.
pub proof fn lemma_matched_len(stem: Seq<char>, rule: RemoveRule)
    ensures
        matched(stem, rule).len() <= stem.len(),
{
    if rule.case_sensitive {
        lemma_remove_every_len(stem, rule.text@);
        lemma_remove_one_len(stem, rule.text@);
    } else {
        lemma_after_matches_len(
            stem,
            insensitive_matches(escaped(rule.text@), stem),
            rule.remove_position,
        );
    }
}

/// A rule never makes a name longer.
pub proof fn lemma_never_longer(name: Seq<char>, rule: RemoveRule)
    ensures
        removed(name, rule).len() <= name.len(),
{
    lemma_split(name);
    lemma_matched_len(worked_part(name, rule), rule);
}

/// A list of rules never makes a name longer.
pub proof fn lemma_all_never_longer(name: Seq<char>, rules: Seq<RemoveRule>)
    ensures
        removed_all(name, rules).len() <= name.len(),
    decreases rules.len(),
{
    if rules.len() > 0 {
        lemma_all_never_longer(name, rules.drop_last());
        lemma_never_longer(removed_all(name, rules.drop_last()), rules.last());
    }
}

/// A rule with an empty text changes nothing.
pub proof fn lemma_empty_text(name: Seq<char>, rule: RemoveRule)
    requires
        rule.text@.len() == 0,
    ensures
        removed(name, rule) == name,
{
}

/// A case-sensitive rule changes a name exactly when its text occurs in the
/// part of the name that it works on. Without an occurrence the name comes
/// back as it is; with one it gets shorter.
pub proof fn lemma_changes_iff_occurs(name: Seq<char>, rule: RemoveRule)
    requires
        rule.case_sensitive,
        rule.text@.len() > 0,
    ensures
        removed(name, rule) == name <==> !has_occurrence(worked_part(name, rule), rule.text@),
        has_occurrence(worked_part(name, rule), rule.text@) ==> removed(name, rule).len()
            < name.len(),
{
    let part = worked_part(name, rule);
    lemma_split(name);
    assert(part + kept_part(name, rule) =~= name);
    if has_occurrence(part, rule.text@) {
        let i = choose|i: int| occurs_at(part, rule.text@, i);
        assert(part.len() >= i + rule.text@.len());
        lemma_remove_every_present(part, rule.text@);
        lemma_remove_one_len(part, rule.text@);
    } else {
        lemma_remove_one_len(part, rule.text@);
        lemma_remove_every_absent(part, rule.text@);
    }
}

/// Applying a case-sensitive rule that removes every occurrence a second
/// time changes nothing, provided that the first pass left no occurrence of
/// the text in the part that the second pass works on. (Removing
/// occurrences can bring the characters around them together into a new
/// one.)
pub proof fn lemma_second_pass(name: Seq<char>, rule: RemoveRule)
    requires
        rule.remove_position is All,
        rule.case_sensitive,
        rule.text@.len() == 0 || !has_occurrence(
            worked_part(removed(name, rule), rule),
            rule.text@,
        ),
    ensures
        removed(removed(name, rule), rule) == removed(name, rule),
{
    if rule.text@.len() > 0 {
        lemma_changes_iff_occurs(removed(name, rule), rule);
    }
}

/// Rules in sequence: applying a list of rules is applying its front part
/// and then its back part to what the front part left.
pub proof fn lemma_rules_in_sequence(name: Seq<char>, front: Seq<RemoveRule>, back: Seq<RemoveRule>)
    ensures
        removed_all(name, front + back) == removed_all(removed_all(name, front), back),
    decreases back.len(),
{
    if back.len() == 0 {
        assert(front + back =~= front);
    } else {
        assert((front + back).drop_last() =~= front + back.drop_last());
        lemma_rules_in_sequence(name, front, back.drop_last());
    }
}

/// No rule changes nothing, one rule is that rule, and two rules are the
/// second applied to what the first left.
pub proof fn lemma_few_rules(name: Seq<char>, first: RemoveRule, second: RemoveRule)
    ensures
        removed_all(name, Seq::empty()) == name,
        removed_all(name, seq![first]) == removed(name, first),
        removed_all(name, seq![first, second]) == removed(removed(name, first), second),
{
    let none = Seq::<RemoveRule>::empty();
    let one = seq![first];
    let two = seq![first, second];
    assert(one.drop_last() =~= none);
    assert(two.drop_last() =~= one);
    assert(removed_all(name, none) == name);
    assert(removed_all(name, one) == removed(removed_all(name, none), first));
    assert(removed_all(name, two) == removed(removed_all(name, one), second));
}

/// Extension protection: where a name has an extension, a rule that ignores
/// extensions gives a name that ends in the same dot and extension, and that
/// dot is the last dot of the new name as well.
pub proof fn lemma_extension_kept(name: Seq<char>, rule: RemoveRule)
    requires
        rule.ignore_extension,
        suffix_of(name).len() > 0,
    ensures
        ends_with(removed(name, rule), suffix_of(name)),
        last_dot(removed(name, rule)) == removed(name, rule).len() - suffix_of(name).len(),
{
    let out = removed(name, rule);
    let kept = suffix_of(name);
    let k = out.len() - kept.len();
    lemma_split(name);
    assert(worked_part(name, rule) + kept =~= name);
    assert(out.subrange(k, out.len() as int) =~= kept);
    assert forall|j: int| k < j < out.len() implies out[j] != '.' by {
        assert(out[j] == kept[j - k]);
    }
    assert(out[k] == kept[0]);
    lemma_last_dot_is(out, k);
}

} // verus!
