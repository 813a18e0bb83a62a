use word_search::matcher::find_words;
use word_search::query::adjust_query_width;
use word_search::record::WordRecord;
use word_search::timing::measure_search_time;

#[test]
fn widening_appends_wildcards() {
    assert_eq!(adjust_query_width("cat", 6), "cat???".to_string());
    assert_eq!(adjust_query_width("", 3), "???".to_string());
}

#[test]
fn narrowing_truncates_from_the_end() {
    assert_eq!(adjust_query_width("catalog", 3), "cat".to_string());
    assert_eq!(adjust_query_width("cat", 0), "".to_string());
}

#[test]
fn matching_width_changes_nothing() {
    assert_eq!(adjust_query_width("c?t", 3), "c?t".to_string());
}

#[test]
fn timing_leaves_the_search_unchanged() {
    let records = vec![
        WordRecord { word: "Cat".to_string(), length: 3 },
        WordRecord { word: "Bat".to_string(), length: 3 },
    ];
    let before = find_words("?at", &records);
    let _nanos = measure_search_time("?at", &records);
    let after = find_words("?at", &records);
    assert_eq!(before, after);
    assert_eq!(after, vec!["Cat".to_string(), "Bat".to_string()]);
}
