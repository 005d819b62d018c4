use pathfinder::api_connector::AdjacencyBundle;
use pathfinder::store_connector::{
    adjacency_batch, bundle_needed, chained, composite_string, description_batch, distance_key,
    label_batch, parse_adjacency, split_token, split_tokens, StoreError,
};

fn text(values: &[&str]) -> Vec<String> {
    values.iter().map(|value| value.to_string()).collect()
}

fn pairs(values: &[(&str, &str)]) -> Vec<(String, String)> {
    values.iter().map(|(first, second)| (first.to_string(), second.to_string())).collect()
}

/// The stored form of a list of strings, written out by hand.
fn stored(strings: &[&str]) -> Vec<u8> {
    let mut bytes = (strings.len() as u64).to_le_bytes().to_vec();
    for string in strings {
        bytes.extend_from_slice(&(string.len() as u64).to_le_bytes());
        bytes.extend_from_slice(string.as_bytes());
    }
    bytes
}

fn bundle() -> AdjacencyBundle {
    AdjacencyBundle {
        q_labels: pairs(&[("Q42", "Douglas Adams"), ("Q5", "human")]),
        q_descriptions: pairs(&[("Q42", "English writer"), ("Q5", "common name of Homo sapiens")]),
        p_labels: pairs(&[("P31", "instance of")]),
        p_descriptions: pairs(&[("P31", "that class of which this subject is an example")]),
        adjacent_entities: vec![
            ("Q42".to_string(), text(&["P31-Q5", "P19-Q350"])),
            ("Q5".to_string(), text(&["P279-Q215627"])),
        ],
    }
}

#[test]
fn bundle_is_needed_unless_all_three_records_are_there() {
    assert!(!bundle_needed(true, true, true));
    assert!(bundle_needed(false, true, true));
    assert!(bundle_needed(true, false, true));
    assert!(bundle_needed(true, true, false));
    assert!(bundle_needed(false, false, false));
}

#[test]
fn adjacency_batch_holds_the_stored_form_of_each_entity() {
    let batch = adjacency_batch(&bundle().adjacent_entities, &vec![false, false]);
    assert_eq!(batch.len(), 2);
    assert_eq!(batch[0].0, "Q42");
    assert_eq!(batch[0].1, stored(&["P31-Q5", "P19-Q350"]));
    assert_eq!(batch[1].0, "Q5");
    assert_eq!(batch[1].1, stored(&["P279-Q215627"]));
}

#[test]
fn adjacency_batch_writes_exact_bytes() {
    let batch = adjacency_batch(&vec![("Q1".to_string(), text(&["a-é"]))], &Vec::new());
    assert_eq!(
        batch[0].1,
        vec![1, 0, 0, 0, 0, 0, 0, 0, 4, 0, 0, 0, 0, 0, 0, 0, b'a', b'-', 0xc3, 0xa9]
    );
}

#[test]
fn adjacency_batch_passes_over_cached_entities() {
    let batch = adjacency_batch(&bundle().adjacent_entities, &vec![true, false]);
    assert_eq!(batch.len(), 1);
    assert_eq!(batch[0].0, "Q5");
    let batch = adjacency_batch(&bundle().adjacent_entities, &vec![true, true]);
    assert!(batch.is_empty());
}

#[test]
fn adjacency_batch_takes_a_missing_mark_as_not_cached() {
    let batch = adjacency_batch(&bundle().adjacent_entities, &vec![true]);
    assert_eq!(batch.len(), 1);
    assert_eq!(batch[0].0, "Q5");
}

#[test]
fn label_batch_puts_entities_before_properties() {
    assert_eq!(
        label_batch(&bundle()),
        pairs(&[("Q42", "Douglas Adams"), ("Q5", "human"), ("P31", "instance of")])
    );
    assert_eq!(
        description_batch(&bundle()),
        pairs(&[
            ("Q42", "English writer"),
            ("Q5", "common name of Homo sapiens"),
            ("P31", "that class of which this subject is an example"),
        ])
    );
    assert_eq!(chained(&pairs(&[("a", "1")]), &Vec::new()), pairs(&[("a", "1")]));
}

#[test]
fn token_is_split_at_its_first_hyphen() {
    assert_eq!(split_token("P31-Q5"), Some(("P31".to_string(), "Q5".to_string())));
    assert_eq!(split_token("P31-Q5-extra"), Some(("P31".to_string(), "Q5-extra".to_string())));
    assert_eq!(split_token("-Q5"), Some(("".to_string(), "Q5".to_string())));
    assert_eq!(split_token("P31-"), Some(("P31".to_string(), "".to_string())));
    assert_eq!(split_token("Pé-Qü"), Some(("Pé".to_string(), "Qü".to_string())));
}

#[test]
fn token_without_a_hyphen_is_no_edge() {
    assert_eq!(split_token("P31"), None);
    assert_eq!(split_token(""), None);
    assert_eq!(split_tokens(&text(&["P31-Q5", "P31"])), Err(StoreError::MalformedToken));
    assert_eq!(split_tokens(&Vec::new()), Ok(Vec::new()));
}

#[test]
fn stored_edges_are_read_back_in_order() {
    let batch = adjacency_batch(&bundle().adjacent_entities, &vec![false, false]);
    assert_eq!(parse_adjacency(&batch[0].1), Ok(pairs(&[("P31", "Q5"), ("P19", "Q350")])));
    assert_eq!(parse_adjacency(&batch[1].1), Ok(pairs(&[("P279", "Q215627")])));
    assert_eq!(parse_adjacency(&stored(&[])), Ok(Vec::new()));
}

#[test]
fn reading_the_same_bytes_twice_gives_the_same_edges() {
    let bytes = stored(&["P31-Q5", "P106-Q36180"]);
    assert_eq!(parse_adjacency(&bytes), parse_adjacency(&bytes));
}

#[test]
fn bytes_that_are_no_list_cannot_be_decoded() {
    assert_eq!(parse_adjacency(&[1, 2, 3]), Err(StoreError::Undecodable));
    assert_eq!(parse_adjacency(&[]), Err(StoreError::Undecodable));
    // One string of two bytes is announced, one byte follows.
    let cut = vec![1, 0, 0, 0, 0, 0, 0, 0, 2, 0, 0, 0, 0, 0, 0, 0, b'a'];
    assert_eq!(parse_adjacency(&cut), Err(StoreError::Undecodable));
    // The string is not UTF-8.
    let broken = vec![1, 0, 0, 0, 0, 0, 0, 0, 1, 0, 0, 0, 0, 0, 0, 0, 0xff];
    assert_eq!(parse_adjacency(&broken), Err(StoreError::Undecodable));
}

#[test]
fn stored_token_without_a_hyphen_is_malformed() {
    assert_eq!(parse_adjacency(&stored(&["P31Q5"])), Err(StoreError::MalformedToken));
}

#[test]
fn composite_string_is_label_space_description() {
    assert_eq!(composite_string("Douglas Adams", "English writer"), "Douglas Adams English writer");
    assert_eq!(composite_string("", ""), " ");
}

#[test]
fn distance_key_keeps_the_order_of_its_strings() {
    assert_eq!(distance_key("a b", "c d"), "a b&c d");
    assert_ne!(distance_key("a b", "c d"), distance_key("c d", "a b"));
}
