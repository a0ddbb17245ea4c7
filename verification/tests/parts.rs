use rename_rules::rules::extension::find_suffix_start;
use rename_rules::rules::literal::{occurs_here, remove_every_in, remove_first_in, remove_last_in};
use rename_rules::rules::remove::RemovePosition;
use rename_rules::rules::spans::{char_index_of, remove_matched, width_of};
use rename_rules::rules::text::{chars_of, string_of};

fn chars(s: &str) -> Vec<char> {
    s.chars().collect()
}

#[test]
fn suffix_starts_at_the_last_inner_dot() {
    assert_eq!(find_suffix_start(&chars("archive.tar.gz")), 11);
    assert_eq!(find_suffix_start(&chars("a.txt")), 1);
    assert_eq!(find_suffix_start(&chars(".bashrc")), 7);
    assert_eq!(find_suffix_start(&chars("nodot")), 5);
    assert_eq!(find_suffix_start(&chars("foo.")), 4);
    assert_eq!(find_suffix_start(&chars("a..")), 3);
    assert_eq!(find_suffix_start(&chars(".a.b")), 2);
    assert_eq!(find_suffix_start(&chars(".")), 1);
    assert_eq!(find_suffix_start(&chars("")), 0);
}

#[test]
fn strings_and_characters_round_trip() {
    assert_eq!(chars_of("aé日😀"), vec!['a', 'é', '日', '😀']);
    assert_eq!(string_of(&vec!['a', 'é', '日', '😀']), "aé日😀");
    assert_eq!(string_of(&Vec::new()), "");
}

#[test]
fn occurrence_is_an_exact_match() {
    assert!(occurs_here(&chars("abcabc"), &chars("abc"), 3));
    assert!(!occurs_here(&chars("abcabc"), &chars("abc"), 4));
    assert!(!occurs_here(&chars("abcabc"), &chars("abc"), 7));
    assert!(!occurs_here(&chars("abcABC"), &chars("abc"), 3));
    assert!(occurs_here(&chars("abc"), &chars(""), 3));
    assert!(!occurs_here(&chars("abc"), &chars(""), 4));
    assert!(!occurs_here(&chars("ab"), &chars("abc"), usize::MAX));
}

#[test]
fn literal_removal_by_position() {
    assert_eq!(remove_every_in(&chars("xaxax"), &chars("a")), chars("xxx"));
    assert_eq!(remove_every_in(&chars("aaaa"), &chars("aaa")), chars("a"));
    assert_eq!(remove_every_in(&chars("abc"), &chars("")), chars("abc"));
    assert_eq!(remove_every_in(&chars(""), &chars("a")), chars(""));
    assert_eq!(remove_first_in(&chars("xaxax"), &chars("ax")), chars("xax"));
    assert_eq!(remove_last_in(&chars("xaxax"), &chars("xa")), chars("xax"));
    assert_eq!(remove_first_in(&chars("abc"), &chars("")), chars("abc"));
    assert_eq!(remove_last_in(&chars("abc"), &chars("")), chars("abc"));
    assert_eq!(remove_last_in(&chars(""), &chars("a")), chars(""));
}

#[test]
fn widths_follow_utf8() {
    assert_eq!(width_of('a'), 1);
    assert_eq!(width_of('\u{7f}'), 1);
    assert_eq!(width_of('\u{80}'), 2);
    assert_eq!(width_of('é'), 2);
    assert_eq!(width_of('\u{7ff}'), 2);
    assert_eq!(width_of('\u{800}'), 3);
    assert_eq!(width_of('日'), 3);
    assert_eq!(width_of('\u{ffff}'), 3);
    assert_eq!(width_of('\u{10000}'), 4);
    assert_eq!(width_of('😀'), 4);
    for c in ['a', 'é', '日', '😀', '\u{7ff}', '\u{800}', '\u{ffff}', '\u{10000}'] {
        assert_eq!(width_of(c), c.len_utf8());
    }
}

#[test]
fn byte_offsets_become_character_indices() {
    let s = chars("aé日😀z");
    assert_eq!(char_index_of(&s, 0), 0);
    assert_eq!(char_index_of(&s, 1), 1);
    assert_eq!(char_index_of(&s, 3), 2);
    assert_eq!(char_index_of(&s, 6), 3);
    assert_eq!(char_index_of(&s, 10), 4);
    assert_eq!(char_index_of(&s, 11), 5);
    assert_eq!(char_index_of(&s, 2), 2);
    assert_eq!(char_index_of(&s, 500), 5);
}

#[test]
fn matches_are_cut_by_position() {
    let found = || Some(vec![(0, 1), (2, 4), (5, 6)]);
    assert_eq!(remove_matched("abcdef", found(), &RemovePosition::All), "be");
    assert_eq!(remove_matched("abcdef", found(), &RemovePosition::First), "bcdef");
    assert_eq!(remove_matched("abcdef", found(), &RemovePosition::Last), "abcde");
    assert_eq!(remove_matched("abcdef", Some(Vec::new()), &RemovePosition::All), "abcdef");
    assert_eq!(remove_matched("abcdef", Some(Vec::new()), &RemovePosition::First), "abcdef");
    assert_eq!(remove_matched("abcdef", Some(Vec::new()), &RemovePosition::Last), "abcdef");
    assert_eq!(remove_matched("abcdef", None, &RemovePosition::All), "abcdef");
}

#[test]
fn matches_are_cut_at_byte_offsets() {
    assert_eq!(remove_matched("héllo", Some(vec![(1, 3)]), &RemovePosition::All), "hllo");
    assert_eq!(remove_matched("日本語", Some(vec![(3, 6)]), &RemovePosition::Last), "日語");
}

#[test]
fn unusable_spans_are_passed_over() {
    assert_eq!(remove_matched("abcdef", Some(vec![(3, 1)]), &RemovePosition::All), "abcdef");
    assert_eq!(remove_matched("abcdef", Some(vec![(0, 3), (2, 4)]), &RemovePosition::All), "def");
    assert_eq!(remove_matched("abcdef", Some(vec![(2, 2)]), &RemovePosition::All), "abcdef");
}
