use bytes::Bytes;
use osu_scores::Deserializer;
use osu_scores::ScanError;
use osu_scores::Score;
use osu_scores::Scores;
use tokio_tungstenite::tungstenite::Message;

fn scan(input: &[u8]) -> Result<Scores, ScanError> {
    let mut scores = Scores::new();
    Deserializer::new(Bytes::copy_from_slice(input)).deserialize(&mut scores)?;
    Ok(scores)
}

fn payload(score: &Score) -> Vec<u8> {
    match score.as_message() {
        Message::Binary(bytes) => bytes.to_vec(),
        other => panic!("expected a binary message, got {other:?}"),
    }
}

#[test]
fn deserialize() {
    let input = br#"{"scores": [{"id": 123}, {"id":456, "user": {"id": 2}}, {"user": {"id":2}, "id": 789}], "cursor": {"id": 789}, "cursor_string": "abc"}"#;
    let scores = scan(input).unwrap();

    assert_eq!(scores.len(), 3);
    assert_eq!(scores.get(0).id(), 123);
    assert_eq!(payload(scores.get(0)), br#"{"id": 123}"#.to_vec());
    assert_eq!(scores.get(1).id(), 456);
    assert_eq!(payload(scores.get(1)), br#"{"id":456, "user": {"id": 2}}"#.to_vec());
    assert_eq!(scores.get(2).id(), 789);
    assert_eq!(payload(scores.get(2)), br#"{"user": {"id":2}, "id": 789}"#.to_vec());
}

#[test]
fn empty_array_yields_empty_collection() {
    let input = br#"{"scores":[], "cursor": null}"#;
    let scores = scan(input).unwrap();
    assert_eq!(scores.len(), 0);
}

#[test]
fn duplicate_id_keeps_first_element() {
    let input = br#"{"scores": [{"id": 7, "a": 1}, {"id": 7, "b": 2}]}"#;
    let scores = scan(input).unwrap();
    assert_eq!(scores.len(), 1);
    assert_eq!(scores.get(0).id(), 7);
    assert_eq!(payload(scores.get(0)), br#"{"id": 7, "a": 1}"#.to_vec());
}

#[test]
fn missing_array_key() {
    let input = br#"{"results": [{"id": 1}]}"#;
    assert_eq!(scan(input).unwrap_err(), ScanError::MissingArrayKey);
}

#[test]
fn missing_id_when_only_nested() {
    let input = br#"{"scores": [{"user": {"id": 3}}]}"#;
    assert_eq!(scan(input).unwrap_err(), ScanError::MissingId);
}

#[test]
fn malformed_separator() {
    let input = br#"{"scores": [{"id": 1};{"id": 2}]}"#;
    assert_eq!(scan(input).unwrap_err(), ScanError::ExpectedCommaOrBracket);
}

#[test]
fn elements_before_failure_stay_inserted() {
    let input = br#"{"scores": [{"id": 1};{"id": 2}]}"#;
    let mut scores = Scores::new();
    let r = Deserializer::new(Bytes::copy_from_slice(input)).deserialize(&mut scores);
    assert_eq!(r.unwrap_err(), ScanError::ExpectedCommaOrBracket);
    assert_eq!(scores.len(), 1);
    assert_eq!(scores.get(0).id(), 1);
}

#[test]
fn scanning_twice_is_idempotent() {
    let input = br#"{"scores": [{"id": 20}, {"id": 10, "user": {"id": 99}}]}"#;
    let first = scan(input).unwrap();
    let second = scan(input).unwrap();
    assert_eq!(first.len(), second.len());
    for i in 0..first.len() {
        assert_eq!(first.get(i).id(), second.get(i).id());
        assert_eq!(payload(first.get(i)), payload(second.get(i)));
    }
    assert_eq!(first.get(0).id(), 10);
    assert_eq!(first.get(1).id(), 20);
}

#[test]
fn skip_failed_on_spaces_to_end_of_input() {
    let input = br#"{"scores":   "#;
    assert_eq!(scan(input).unwrap_err(), ScanError::SkipFailed);
}

#[test]
fn unexpected_character_before_bracket() {
    let input = br#"{"scores": x[]}"#;
    assert_eq!(scan(input).unwrap_err(), ScanError::UnexpectedCharacter);
}

#[test]
fn expected_brace_or_bracket() {
    let input = br#"{"scores": [x]}"#;
    assert_eq!(scan(input).unwrap_err(), ScanError::ExpectedBraceOrBracket);
}

#[test]
fn peek_digit_failed() {
    let input = br#"{"scores": [{"id": x}]}"#;
    assert_eq!(scan(input).unwrap_err(), ScanError::PeekDigitFailed);
}

#[test]
fn unbalanced_input_fails() {
    let input = br#"{"scores": [{"id": 1"#;
    assert_eq!(scan(input).unwrap_err(), ScanError::UnexpectedEof);
}

#[test]
fn input_ends_after_element() {
    let input = br#"{"scores": [{"id": 1}"#;
    assert_eq!(scan(input).unwrap_err(), ScanError::UnexpectedEof);
}

#[test]
fn spaces_before_identifier_digits() {
    let input = br#"{"scores": [{"id":    42}]}"#;
    let scores = scan(input).unwrap();
    assert_eq!(scores.len(), 1);
    assert_eq!(scores.get(0).id(), 42);
}

#[test]
fn identifier_wraps_at_64_bits() {
    let input = br#"{"scores": [{"id": 18446744073709551616}]}"#;
    let scores = scan(input).unwrap();
    assert_eq!(scores.len(), 1);
    assert_eq!(scores.get(0).id(), 0);
}

#[test]
fn only_id_is_a_bare_key() {
    let score = Score::only_id(5);
    assert_eq!(score.id(), 5);
    assert_eq!(payload(&score), Vec::<u8>::new());
}

#[test]
fn insert_orders_and_deduplicates() {
    let mut scores = Scores::new();
    scores.insert(Score::only_id(5));
    scores.insert(Score::only_id(3));
    scores.insert(Score::only_id(5));
    scores.insert(Score::only_id(9));
    assert_eq!(scores.len(), 3);
    assert_eq!(scores.get(0).id(), 3);
    assert_eq!(scores.get(1).id(), 5);
    assert_eq!(scores.get(2).id(), 9);
}

#[test]
fn score_identity_is_the_identifier() {
    let a = Score::only_id(4);
    let b = Score::only_id(4);
    let c = Score::only_id(6);
    assert!(a == b);
    assert!(a != c);
    assert!(a < c);
}
