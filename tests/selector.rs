use fuzzy_select::selector::{rank_by_score, Match, Selector, SelectorMode};

fn items(words: &[&str]) -> Vec<String> {
    words.iter().map(|w| w.to_string()).collect()
}

fn view(ms: &[Match]) -> Vec<(usize, Vec<(usize, usize)>)> {
    ms.iter().map(|m| (m.index, m.highlight.clone())).collect()
}

#[test]
fn subsequence_concrete_case() {
    let mut s = Selector::new(SelectorMode::OrderedSubsequence, items(&["a", "boo", "foo", "", "gloo"]));
    s.set_pattern("oo");
    assert_eq!(view(s.matches()), vec![(1, vec![(1, 3)]), (2, vec![(1, 3)]), (4, vec![(2, 4)])]);
}

#[test]
fn subsequence_not_contiguous() {
    let mut s = Selector::new(SelectorMode::OrderedSubsequence, items(&["axbxc", "cba", "abc"]));
    s.set_pattern("abc");
    assert_eq!(view(s.matches()), vec![(0, vec![(0, 5)]), (2, vec![(0, 3)])]);
}

#[test]
fn subsequence_greedy_first_character() {
    let mut s = Selector::new(SelectorMode::OrderedSubsequence, items(&["xaab"]));
    s.set_pattern("ab");
    assert_eq!(view(s.matches()), vec![(0, vec![(1, 4)])]);
}

#[test]
fn fixed_first_occurrence() {
    let mut s = Selector::new(SelectorMode::FixedString, items(&["abcabc", "xyz", "zab"]));
    s.set_pattern("ab");
    assert_eq!(view(s.matches()), vec![(0, vec![(0, 2)]), (2, vec![(1, 3)])]);
    s.set_pattern("bca");
    assert_eq!(view(s.matches()), vec![(0, vec![(1, 4)])]);
}

#[test]
fn fixed_is_case_sensitive_and_counts_characters() {
    let mut s = Selector::new(SelectorMode::FixedString, items(&["ÄbcD", "abcd"]));
    s.set_pattern("cD");
    assert_eq!(view(s.matches()), vec![(0, vec![(2, 4)])]);
}

#[test]
fn fixed_no_match_is_empty() {
    let mut s = Selector::new(SelectorMode::FixedString, items(&["a", "b"]));
    s.set_pattern("zzz");
    assert!(s.matches().is_empty());
}

#[test]
fn fixed_pattern_longer_than_items() {
    let mut s = Selector::new(SelectorMode::FixedString, items(&["ab", ""]));
    s.set_pattern("abc");
    assert!(s.matches().is_empty());
}

#[test]
fn empty_pattern_matches_every_item() {
    for mode in [SelectorMode::FixedString, SelectorMode::OrderedSubsequence] {
        let s = Selector::new(mode, items(&["a", "", "foo"]));
        assert_eq!(view(s.matches()), vec![(0, vec![(0, 0)]), (1, vec![(0, 0)]), (2, vec![(0, 0)])]);
    }
}

#[test]
fn fuzzy_empty_pattern_keeps_order() {
    let s = Selector::new(SelectorMode::Fuzzy, items(&["b", "a", "c"]));
    assert_eq!(view(s.matches()), vec![(0, vec![]), (1, vec![]), (2, vec![])]);
}

#[test]
fn fuzzy_drops_unaligned_and_marks_characters() {
    let mut s = Selector::new(SelectorMode::Fuzzy, items(&["zzz", "abc", "a_b_c"]));
    s.set_pattern("abc");
    let v = view(s.matches());
    assert_eq!(v.len(), 2);
    assert_eq!(v[0], (1, vec![(0, 1), (1, 2), (2, 3)]));
    assert_eq!(v[1], (2, vec![(0, 1), (2, 3), (4, 5)]));
}

#[test]
fn fuzzy_is_case_insensitive() {
    let mut s = Selector::new(SelectorMode::Fuzzy, items(&["FooBar", "nothing"]));
    s.set_pattern("fb");
    assert_eq!(view(s.matches()), vec![(0, vec![(0, 1), (3, 4)])]);
}

#[test]
fn fuzzy_orders_best_first() {
    let mut s = Selector::new(SelectorMode::Fuzzy, items(&["x_a_x_b", "ab"]));
    s.set_pattern("ab");
    let v = view(s.matches());
    assert_eq!(v.len(), 2);
    assert_eq!(v[0].0, 1);
}

#[test]
fn items_are_kept() {
    let s = Selector::new(SelectorMode::Fuzzy, items(&["one", "two"]));
    assert_eq!(s.items(), &["one".to_string(), "two".to_string()][..]);
    assert_eq!(s.mode(), SelectorMode::Fuzzy);
}

#[test]
fn parse_modes() {
    assert_eq!(SelectorMode::parse("fixed"), Ok(SelectorMode::FixedString));
    assert_eq!(SelectorMode::parse("FiXeD"), Ok(SelectorMode::FixedString));
    assert_eq!(SelectorMode::parse("FUZZY"), Ok(SelectorMode::Fuzzy));
    assert_eq!("fuzzy".parse::<SelectorMode>(), Ok(SelectorMode::Fuzzy));
}

#[test]
fn parse_rejects_other_names() {
    assert_eq!(SelectorMode::parse("exact"), Err("expected fixed or fuzzy"));
    assert_eq!(SelectorMode::parse(""), Err("expected fixed or fuzzy"));
    assert_eq!(SelectorMode::parse("fixedd"), Err("expected fixed or fuzzy"));
}

#[test]
fn ranking_by_score() {
    let results = vec![Some((5i64, vec![0usize])), None, Some((7, vec![1, 2])), Some((5, vec![]))];
    let ranked = rank_by_score(&results);
    assert_eq!(view(&ranked), vec![(2, vec![(1, 2), (2, 3)]), (0, vec![(0, 1)]), (3, vec![])]);
}

#[test]
fn ranking_nothing_aligned() {
    let results: Vec<Option<(i64, Vec<usize>)>> = vec![None, None];
    assert!(rank_by_score(&results).is_empty());
}

#[test]
fn fuzzy_ignores_case_of_pattern() {
    let mut s = Selector::new(SelectorMode::Fuzzy, items(&["foobar", "nothing"]));
    s.set_pattern("FB");
    assert_eq!(view(s.matches()), vec![(0, vec![(0, 1), (3, 4)])]);
}
