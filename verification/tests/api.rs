use pathfinder::api_connector::{next_depth, write_decimal, ApiConnector, FIRST_DEPTH};
use pathfinder::response::{
    fetch_step, parse_bundle, parse_label_description, FetchStep, NetworkError,
};

fn connector() -> ApiConnector {
    ApiConnector::new("http://localhost:5000/distance".to_string(), "http://localhost:8000".to_string())
}

const ANSWER: &str = r#"{
    "adjacent_entities": {"Q42": ["P31-Q5", "P19-Q350"], "Q5": []},
    "q_labels": {"Q42": "Douglas Adams", "Q5": "human"},
    "q_descriptions": {"Q42": "English writer", "Q5": "common name of Homo sapiens"},
    "p_labels": {"P31": "instance of", "P19": "place of birth"},
    "p_descriptions": {"P31": "class of the subject", "P19": "birth location"}
}"#;

fn pairs(values: &[(&str, &str)]) -> Vec<(String, String)> {
    values.iter().map(|(first, second)| (first.to_string(), second.to_string())).collect()
}

#[test]
fn connector_keeps_its_base_addresses() {
    let connector = connector();
    assert_eq!(connector.wembed_api(), "http://localhost:5000/distance");
    assert_eq!(connector.wikidata_api(), "http://localhost:8000");
}

#[test]
fn adjacent_entities_address_names_entity_and_depth() {
    assert_eq!(
        connector().adjacent_entities_url("Q42", 2),
        "http://localhost:8000/adjacent_entities?entity=Q42&depth=2"
    );
    assert_eq!(
        connector().adjacent_entities_url("Q5", 1),
        "http://localhost:8000/adjacent_entities?entity=Q5&depth=1"
    );
}

#[test]
fn label_description_address_names_the_entity() {
    assert_eq!(
        connector().label_description_url("Q42"),
        "http://localhost:8000/label_description?entity=Q42"
    );
}

#[test]
fn distance_address_names_both_strings() {
    assert_eq!(
        connector().semantic_distance_url("Douglas Adams writer", "human"),
        "http://localhost:5000/distance?string_a=Douglas Adams writer&string_b=human"
    );
}

#[test]
fn small_numbers_are_written_in_decimal() {
    assert_eq!(write_decimal(0), "0");
    assert_eq!(write_decimal(7), "7");
    assert_eq!(write_decimal(10), "10");
    assert_eq!(write_decimal(42), "42");
    assert_eq!(write_decimal(100), "100");
    assert_eq!(write_decimal(205), "205");
    assert_eq!(write_decimal(255), "255");
    for number in 0..=255u8 {
        assert_eq!(write_decimal(number), number.to_string());
    }
}

#[test]
fn fetch_starts_deep_and_retries_once() {
    assert_eq!(FIRST_DEPTH, 2);
    assert_eq!(next_depth(2), Some(1));
    assert_eq!(next_depth(1), None);
    assert_eq!(next_depth(0), None);
    assert_eq!(next_depth(5), Some(4));
}

#[test]
fn bundle_is_read_from_an_answer() {
    let bundle = parse_bundle(ANSWER).ok().unwrap();
    assert_eq!(
        bundle.adjacent_entities,
        vec![
            ("Q42".to_string(), vec!["P31-Q5".to_string(), "P19-Q350".to_string()]),
            ("Q5".to_string(), vec![]),
        ]
    );
    assert_eq!(bundle.q_labels, pairs(&[("Q42", "Douglas Adams"), ("Q5", "human")]));
    assert_eq!(
        bundle.q_descriptions,
        pairs(&[("Q42", "English writer"), ("Q5", "common name of Homo sapiens")])
    );
    assert_eq!(bundle.p_labels, pairs(&[("P19", "place of birth"), ("P31", "instance of")]));
    assert_eq!(
        bundle.p_descriptions,
        pairs(&[("P19", "birth location"), ("P31", "class of the subject")])
    );
}

#[test]
fn answer_that_is_no_json_holds_no_bundle() {
    assert_eq!(parse_bundle("<html>").err(), Some(NetworkError::Parse));
    assert_eq!(parse_bundle("").err(), Some(NetworkError::Parse));
}

#[test]
fn answer_without_a_member_holds_no_bundle() {
    let answer = r#"{"adjacent_entities": {}, "q_labels": {}, "q_descriptions": {}, "p_labels": {}}"#;
    assert_eq!(parse_bundle(answer).err(), Some(NetworkError::Parse));
    assert_eq!(parse_bundle("[]").err(), Some(NetworkError::Parse));
    assert_eq!(parse_bundle("null").err(), Some(NetworkError::Parse));
}

#[test]
fn answer_with_a_member_of_the_wrong_kind_holds_no_bundle() {
    let label_is_a_number = r#"{"adjacent_entities": {}, "q_labels": {"Q1": 3},
        "q_descriptions": {}, "p_labels": {}, "p_descriptions": {}}"#;
    assert_eq!(parse_bundle(label_is_a_number).err(), Some(NetworkError::Parse));
    let edges_are_a_string = r#"{"adjacent_entities": {"Q1": "P50-Q2"}, "q_labels": {},
        "q_descriptions": {}, "p_labels": {}, "p_descriptions": {}}"#;
    assert_eq!(parse_bundle(edges_are_a_string).err(), Some(NetworkError::Parse));
    let edge_is_a_number = r#"{"adjacent_entities": {"Q1": [1]}, "q_labels": {},
        "q_descriptions": {}, "p_labels": {}, "p_descriptions": {}}"#;
    assert_eq!(parse_bundle(edge_is_a_number).err(), Some(NetworkError::Parse));
}

#[test]
fn empty_bundle_is_a_bundle() {
    let answer = r#"{"adjacent_entities": {}, "q_labels": {}, "q_descriptions": {},
        "p_labels": {}, "p_descriptions": {}, "more": true}"#;
    let bundle = parse_bundle(answer).ok().unwrap();
    assert!(bundle.adjacent_entities.is_empty());
    assert!(bundle.q_labels.is_empty());
    assert!(bundle.p_descriptions.is_empty());
}

#[test]
fn label_and_description_are_read_from_an_answer() {
    assert_eq!(
        parse_label_description(r#"{"label": "human", "description": "a species"}"#),
        ("human".to_string(), "a species".to_string())
    );
}

#[test]
fn answer_of_no_use_gives_empty_label_and_description() {
    let empty = (String::new(), String::new());
    assert_eq!(parse_label_description("not json"), empty);
    assert_eq!(parse_label_description(r#"{"label": "human"}"#), empty);
    assert_eq!(parse_label_description(r#"{"label": 1, "description": "a species"}"#), empty);
    assert_eq!(parse_label_description(r#"["human", "a species"]"#), empty);
}

#[test]
fn fetch_ends_with_the_first_answer_that_holds_a_bundle() {
    match fetch_step(2, Some(ANSWER)) {
        FetchStep::Fetched(bundle) => assert_eq!(bundle.q_labels.len(), 2),
        _ => panic!("the answer holds a bundle"),
    }
    match fetch_step(1, Some(ANSWER)) {
        FetchStep::Fetched(bundle) => assert_eq!(bundle.adjacent_entities.len(), 2),
        _ => panic!("the answer holds a bundle"),
    }
}

#[test]
fn failed_fetch_is_tried_again_one_level_less_deep() {
    assert!(matches!(fetch_step(2, None), FetchStep::Retry(1)));
    assert!(matches!(fetch_step(2, Some("timeout")), FetchStep::Retry(1)));
}

#[test]
fn fetch_has_failed_once_depth_one_has_failed() {
    assert!(matches!(fetch_step(1, None), FetchStep::Failed));
    assert!(matches!(fetch_step(1, Some("{}")), FetchStep::Failed));
}
