use word_search::loader::{load_records, search};
use word_search::record::{LoadError, WordRecord};

fn words_of(records: &[WordRecord]) -> Vec<(String, usize)> {
    records.iter().map(|r| (r.word.clone(), r.length)).collect()
}

#[test]
fn plain_rows_load_in_file_order() {
    let data = "word,length\nCat,3\nStone,5\n";
    let records = load_records(data).unwrap();
    assert_eq!(
        words_of(&records),
        vec![("Cat".to_string(), 3), ("Stone".to_string(), 5)]
    );
}

#[test]
fn first_line_is_a_header() {
    let data = "Cat,3\nBat,3\n";
    let records = load_records(data).unwrap();
    assert_eq!(words_of(&records), vec![("Bat".to_string(), 3)]);
}

#[test]
fn header_alone_gives_an_empty_list() {
    let records = load_records("word,length\n").unwrap();
    assert!(records.is_empty());
}

#[test]
fn empty_text_gives_an_empty_list() {
    let records = load_records("").unwrap();
    assert!(records.is_empty());
}

#[test]
fn crlf_line_endings_work() {
    let data = "word,length\r\nCat,3\r\nBat,3";
    let records = load_records(data).unwrap();
    assert_eq!(
        words_of(&records),
        vec![("Cat".to_string(), 3), ("Bat".to_string(), 3)]
    );
}

#[test]
fn blank_lines_are_skipped() {
    let data = "\nword,length\n\nCat,3\n\n\nBat,3\n";
    let records = load_records(data).unwrap();
    assert_eq!(
        words_of(&records),
        vec![("Cat".to_string(), 3), ("Bat".to_string(), 3)]
    );
}

#[test]
fn quoted_field_keeps_its_comma() {
    let data = "word,length\n\"a,b\",3\n";
    let records = load_records(data).unwrap();
    assert_eq!(words_of(&records), vec![("a,b".to_string(), 3)]);
}

#[test]
fn doubled_quote_stands_for_one() {
    let data = "word,length\n\"say \"\"hi\"\"\",8\n";
    let records = load_records(data).unwrap();
    assert_eq!(words_of(&records), vec![("say \"hi\"".to_string(), 8)]);
}

#[test]
fn empty_word_is_allowed() {
    let data = "word,length\n,0\n";
    let records = load_records(data).unwrap();
    assert_eq!(words_of(&records), vec![("".to_string(), 0)]);
}

#[test]
fn one_field_is_malformed() {
    let data = "word,length\nCat\n";
    assert_eq!(load_records(data), Err(LoadError::MalformedRecord));
}

#[test]
fn three_fields_are_malformed() {
    let data = "word,length\nCat,3,extra\n";
    assert_eq!(load_records(data), Err(LoadError::MalformedRecord));
}

#[test]
fn non_numeric_length_is_malformed() {
    let data = "word,length\nCat,x3\n";
    assert_eq!(load_records(data), Err(LoadError::MalformedRecord));
}

#[test]
fn signed_or_padded_length_is_malformed() {
    assert_eq!(
        load_records("word,length\nCat,+3\n"),
        Err(LoadError::MalformedRecord)
    );
    assert_eq!(
        load_records("word,length\nCat,-3\n"),
        Err(LoadError::MalformedRecord)
    );
    assert_eq!(
        load_records("word,length\nCat, 3\n"),
        Err(LoadError::MalformedRecord)
    );
}

#[test]
fn oversized_length_is_malformed() {
    let data = "word,length\nCat,99999999999999999999999999999999\n";
    assert_eq!(load_records(data), Err(LoadError::MalformedRecord));
}

#[test]
fn unclosed_quote_is_malformed() {
    let data = "word,length\n\"Cat,3\n";
    assert_eq!(load_records(data), Err(LoadError::MalformedRecord));
}

#[test]
fn text_after_a_closing_quote_is_malformed() {
    let data = "word,length\n\"Cat\"x,3\n";
    assert_eq!(load_records(data), Err(LoadError::MalformedRecord));
}

#[test]
fn one_bad_line_fails_the_whole_load() {
    let data = "word,length\nCat,3\nBat\nDog,3\n";
    assert_eq!(load_records(data), Err(LoadError::MalformedRecord));
}

#[test]
fn search_loads_then_matches() {
    let data = "word,length\nCat,3\nCar,3\nDog,3\nBat,3\n";
    assert_eq!(
        search(data, "?at"),
        Ok(vec!["Cat".to_string(), "Bat".to_string()])
    );
    assert_eq!(search(data, "??"), Ok(vec![]));
    assert_eq!(
        search("word,length\nCat\n", "?at"),
        Err(LoadError::MalformedRecord)
    );
}

#[test]
fn load_failure_is_distinguishable_from_no_matches() {
    // A caller that reads the file itself reports a failed read as
    // FileNotFound; either error compares unequal to a successful but empty
    // result.
    let failed: Result<Vec<WordRecord>, LoadError> = Err(LoadError::FileNotFound);
    let empty: Result<Vec<WordRecord>, LoadError> = Ok(Vec::new());
    assert_ne!(failed, empty);
    assert_ne!(LoadError::FileNotFound, LoadError::MalformedRecord);
    assert_eq!(load_records("word,length\n"), Ok(Vec::new()));
}
