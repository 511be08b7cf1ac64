use siphon::matcher::Matcher;

fn matcher_of(words: &[&str]) -> Matcher {
    let patterns: Vec<String> = words.iter().map(|word| word.to_string()).collect();
    Matcher::new(&patterns)
}

#[test]
fn finds_any_pattern_anywhere() {
    let matcher = matcher_of(&["he", "she", "his", "hers"]);
    assert!(matcher.is_match("ushers"));
    assert!(matcher.is_match("ahishers"));
    assert!(matcher.is_match("xxhe"));
    assert!(!matcher.is_match("hxexsxr"));
    assert!(!matcher.is_match(""));
}

#[test]
fn falls_back_along_suffixes() {
    let matcher = matcher_of(&["aaab", "abab"]);
    assert!(matcher.is_match("aaaaab"));
    assert!(matcher.is_match("aababab"));
    assert!(!matcher.is_match("aabaab"));
}

#[test]
fn pattern_inside_a_longer_one_is_found() {
    let matcher = matcher_of(&["abcdef", "cd"]);
    assert!(matcher.is_match("xabcdx"));
    assert!(!matcher.is_match("xabcx"));
}

#[test]
fn empty_pattern_matches_everything() {
    let matcher = matcher_of(&["", "zzz"]);
    assert!(matcher.is_match(""));
    assert!(matcher.is_match("anything"));
}

#[test]
fn no_pattern_matches_nothing() {
    let matcher = matcher_of(&[]);
    assert!(!matcher.is_match(""));
    assert!(!matcher.is_match("offline"));
}

#[test]
fn matching_is_by_characters_and_case() {
    let matcher = matcher_of(&["é", "→"]);
    assert!(matcher.is_match("café"));
    assert!(matcher.is_match("a → b"));
    assert!(!matcher.is_match("cafe"));
    let words = matcher_of(&["offline"]);
    assert!(words.is_match("now offline again"));
    assert!(!words.is_match("Offline"));
}

#[test]
fn order_and_repetition_of_patterns_do_not_matter() {
    let once = matcher_of(&["he", "she", "hers"]);
    let again = matcher_of(&["hers", "he", "she", "he", "hers"]);
    for text in ["ushers", "xxhe", "hxe", "", "his"] {
        assert_eq!(once.is_match(text), again.is_match(text), "{text}");
    }
}
