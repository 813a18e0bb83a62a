use word_search::matcher::{find_words, matches_search_text};
use word_search::record::WordRecord;

fn rec(word: &str, length: usize) -> WordRecord {
    WordRecord { word: word.to_string(), length }
}

fn sample() -> Vec<WordRecord> {
    vec![rec("Cat", 3), rec("Car", 3), rec("Dog", 3), rec("Bat", 3)]
}

#[test]
fn fixed_positions_filter_records() {
    let records = sample();
    let result = find_words("?at", &records);
    assert_eq!(result, vec!["Cat".to_string(), "Bat".to_string()]);
}

#[test]
fn all_wildcards_return_every_record_of_that_length() {
    let records = sample();
    let result = find_words("???", &records);
    assert_eq!(
        result,
        vec![
            "Cat".to_string(),
            "Car".to_string(),
            "Dog".to_string(),
            "Bat".to_string()
        ]
    );
}

#[test]
fn shorter_query_matches_nothing() {
    let records = sample();
    let result = find_words("??", &records);
    assert!(result.is_empty());
    let result = find_words("at", &records);
    assert!(result.is_empty());
}

#[test]
fn query_case_does_not_matter() {
    let records = sample();
    assert_eq!(find_words("cat", &records), find_words("CAT", &records));
    assert_eq!(find_words("cAt", &records), vec!["Cat".to_string()]);
}

#[test]
fn word_case_does_not_matter() {
    let records = vec![rec("CAT", 3), rec("dog", 3)];
    assert_eq!(find_words("cat", &records), vec!["CAT".to_string()]);
    assert_eq!(find_words("DOG", &records), vec!["dog".to_string()]);
}

#[test]
fn repeated_search_gives_identical_output() {
    let records = sample();
    let first = find_words("?a?", &records);
    let second = find_words("?a?", &records);
    assert_eq!(first, second);
    assert_eq!(first, vec!["Cat".to_string(), "Car".to_string(), "Bat".to_string()]);
}

#[test]
fn matches_have_the_query_length() {
    let records = vec![rec("Cat", 3), rec("Stone", 5), rec("Bat", 3)];
    for word in find_words("???", &records) {
        assert_eq!(word.chars().count(), 3);
    }
    for word in find_words("?????", &records) {
        assert_eq!(word.chars().count(), 5);
    }
}

#[test]
fn matches_agree_at_fixed_positions() {
    let records = sample();
    let query = "?a?";
    for word in find_words(query, &records) {
        for (qc, wc) in query.chars().zip(word.chars()) {
            assert!(qc == '?' || qc == wc.to_lowercase().next().unwrap());
        }
    }
}

#[test]
fn recorded_length_decides_not_the_word_itself() {
    // The loader takes the recorded length on faith; the matcher compares
    // the query against that recorded length, as the source data promises
    // the two agree.
    let records = vec![rec("Stone", 3)];
    assert_eq!(find_words("st?", &records), vec!["Stone".to_string()]);
    assert!(find_words("?????", &records).is_empty());
}

#[test]
fn characters_count_not_bytes() {
    let records = vec![rec("n\u{e9}e", 3)];
    assert_eq!(find_words("n?e", &records), vec!["n\u{e9}e".to_string()]);
    assert_eq!(find_words("N\u{c9}E", &records), vec!["n\u{e9}e".to_string()]);
}

#[test]
fn position_comparison_alone() {
    assert!(matches_search_text("Cat", "?at"));
    assert!(!matches_search_text("Car", "?at"));
    assert!(matches_search_text("Cat", "cat"));
    assert!(!matches_search_text("Cat", "Cat"));
    assert!(matches_search_text("", ""));
    assert!(matches_search_text("ab", "????"));
}
