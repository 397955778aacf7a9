use image_export::matcher::{
    distance_of_chars, edit_distance_of, suggest, SuggestionPolicy, DEFAULT_MAX_DISTANCE,
    DEFAULT_MAX_SUGGESTIONS,
};
use image_export::text::chars_of;

fn names(list: &[&str]) -> Vec<String> {
    list.iter().map(|s| s.to_string()).collect()
}

#[test]
fn distance_of_equal_strings_is_zero() {
    assert_eq!(edit_distance_of("ic_close", "ic_close"), 0);
    assert_eq!(edit_distance_of("", ""), 0);
}

#[test]
fn distance_to_empty_is_length() {
    assert_eq!(edit_distance_of("", "abc"), 3);
    assert_eq!(edit_distance_of("abcd", ""), 4);
}

#[test]
fn distance_counts_each_kind_of_edit() {
    assert_eq!(edit_distance_of("kitten", "sitting"), 3);
    assert_eq!(edit_distance_of("flaw", "lawn"), 2);
    assert_eq!(edit_distance_of("ic_clos", "ic_close"), 1);
    assert_eq!(edit_distance_of("ic_clos", "ic_close_v2"), 4);
    assert_eq!(edit_distance_of("abc", "acb"), 2);
}

#[test]
fn distance_is_symmetric_on_samples() {
    let pairs = [("saturday", "sunday"), ("a", "xyz"), ("ic_back", "ic_black")];
    for (a, b) in pairs {
        assert_eq!(edit_distance_of(a, b), edit_distance_of(b, a));
    }
    assert_eq!(edit_distance_of("saturday", "sunday"), 3);
}

#[test]
fn distance_counts_characters_not_bytes() {
    assert_eq!(edit_distance_of("naïve", "naive"), 1);
    assert_eq!(edit_distance_of("日本語", "日本"), 1);
}

#[test]
fn distance_of_chars_agrees_with_strings() {
    let a: Vec<char> = "gumbo".chars().collect();
    let b: Vec<char> = "gambol".chars().collect();
    assert_eq!(distance_of_chars(&a, &b), 2);
}

#[test]
fn chars_of_gives_every_character_in_order() {
    assert_eq!(chars_of("aé_1"), vec!['a', 'é', '_', '1']);
    assert_eq!(chars_of(""), Vec::<char>::new());
}

#[test]
fn standard_policy_has_the_default_values() {
    let policy = SuggestionPolicy::standard();
    assert_eq!(policy.max_distance, DEFAULT_MAX_DISTANCE);
    assert_eq!(policy.max_suggestions, DEFAULT_MAX_SUGGESTIONS);
    assert_eq!(policy.max_distance, 3);
    assert_eq!(policy.max_suggestions, 5);
}

#[test]
fn suggest_is_none_when_nothing_is_near() {
    let candidates = names(&["ic_arrow_left", "ic_settings", "background"]);
    let policy = SuggestionPolicy::standard();
    assert_eq!(suggest("ic_clos", &candidates, &policy), None);
}

#[test]
fn suggest_is_none_for_no_candidates() {
    let policy = SuggestionPolicy::standard();
    assert_eq!(suggest("ic_clos", &Vec::new(), &policy), None);
}

#[test]
fn suggest_ranks_the_typo_target_first() {
    let candidates = names(&["ic_close_v2", "ic_close"]);
    let policy = SuggestionPolicy { max_distance: 4, max_suggestions: 5 };
    assert_eq!(suggest("ic_clos", &candidates, &policy), Some(names(&["ic_close", "ic_close_v2"])));
}

#[test]
fn suggest_leaves_out_what_is_beyond_the_cutoff() {
    let candidates = names(&["ic_close", "ic_close_v2"]);
    let policy = SuggestionPolicy::standard();
    assert_eq!(suggest("ic_clos", &candidates, &policy), Some(names(&["ic_close"])));
}

#[test]
fn suggest_keeps_the_order_of_equally_near_names() {
    let candidates = names(&["cat", "bat", "rat", "hat"]);
    let policy = SuggestionPolicy { max_distance: 1, max_suggestions: 10 };
    assert_eq!(suggest("mat", &candidates, &policy), Some(names(&["cat", "bat", "rat", "hat"])));
}

#[test]
fn suggest_offers_no_more_than_the_limit() {
    let candidates = names(&["maat", "cat", "bat", "mat"]);
    let policy = SuggestionPolicy { max_distance: 2, max_suggestions: 2 };
    assert_eq!(suggest("mat", &candidates, &policy), Some(names(&["mat", "maat"])));
}

#[test]
fn suggest_with_limit_zero_offers_nothing() {
    let candidates = names(&["mat"]);
    let policy = SuggestionPolicy { max_distance: 2, max_suggestions: 0 };
    assert_eq!(suggest("mat", &candidates, &policy), None);
}

#[test]
fn suggest_with_cutoff_zero_takes_equal_names_only() {
    let candidates = names(&["mat", "map", "mat"]);
    let policy = SuggestionPolicy { max_distance: 0, max_suggestions: 5 };
    assert_eq!(suggest("mat", &candidates, &policy), Some(names(&["mat", "mat"])));
}

#[test]
fn suggest_accepts_a_huge_cutoff() {
    let candidates = names(&["zzzzzz", "ab"]);
    let policy = SuggestionPolicy { max_distance: usize::MAX, max_suggestions: usize::MAX };
    assert_eq!(suggest("a", &candidates, &policy), Some(names(&["ab", "zzzzzz"])));
}
