use chunk_search::query::parse_query;

#[test]
fn parses_phrases_negations_and_keeps_raw_text() {
    let r = parse_query("\"hello world\" -spam foo".to_string());
    assert_eq!(r.query, "\"hello world\" -spam foo");
    assert_eq!(r.quote_words, Some(vec!["hello world".to_string()]));
    assert_eq!(r.negated_words, Some(vec!["spam".to_string()]));
}

#[test]
fn empty_extractions_are_absent_not_empty() {
    let r = parse_query("plain words only".to_string());
    assert_eq!(r.query, "plain words only");
    assert!(r.quote_words.is_none());
    assert!(r.negated_words.is_none());
}

#[test]
fn backslashes_are_stripped_before_phrase_extraction() {
    let r = parse_query("\\\"a\\\" b".to_string());
    assert_eq!(r.quote_words, Some(vec!["a".to_string()]));
    assert_eq!(r.query, "\\\"a\\\" b");
}

#[test]
fn quotes_pair_left_to_right() {
    let r = parse_query("\"one\" mid \"two\"".to_string());
    assert_eq!(r.quote_words, Some(vec!["one".to_string(), "two".to_string()]));
}

#[test]
fn empty_phrases_are_dropped() {
    let r = parse_query("\"\" \"x\"".to_string());
    assert_eq!(r.quote_words, Some(vec!["x".to_string()]));
}

#[test]
fn unclosed_quote_yields_no_phrase() {
    let r = parse_query("\"abc".to_string());
    assert!(r.quote_words.is_none());
}

#[test]
fn lone_negation_marker_strips_to_empty_term() {
    let r = parse_query("-".to_string());
    assert_eq!(r.negated_words, Some(vec!["".to_string()]));
}

#[test]
fn double_marker_strips_one() {
    let r = parse_query("--x".to_string());
    assert_eq!(r.negated_words, Some(vec!["-x".to_string()]));
}
