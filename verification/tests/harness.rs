use pathfinder::harness::{
    benchmark_queries, optimizer_queries, path_length, query_score, BenchmarkTally, Query,
};
use pathfinder::pathfinder::Outcome;

fn text(values: &[&str]) -> Vec<String> {
    values.iter().map(|value| value.to_string()).collect()
}

fn outcome(forward: &[&str], backward: &[&str], visited_count: usize) -> Outcome {
    Outcome {
        path_forward: text(forward),
        path_backward: text(backward),
        props_forward: vec!["P50".to_string(); forward.len().saturating_sub(1)],
        props_backward: vec!["P50".to_string(); backward.len().saturating_sub(1)],
        visited_count,
    }
}

fn queries(count: usize) -> Vec<Query> {
    (0..count)
        .map(|i| Query {
            source: format!("Q{}", i),
            target: format!("Q{}", i + 100),
            trec_id: format!("{}", i + 300),
        })
        .collect()
}

fn sources(queries: &Vec<Query>) -> Vec<String> {
    queries.iter().map(|query| query.source.clone()).collect()
}

#[test]
fn score_is_the_number_of_visited_entities() {
    assert_eq!(query_score(&outcome(&["a", "b"], &[], 17)), 17);
    assert_eq!(query_score(&outcome(&[], &["b", "a"], 4)), 4);
}

#[test]
fn score_is_doubled_where_no_path_was_found() {
    assert_eq!(query_score(&outcome(&[], &[], 17)), 34);
    assert_eq!(query_score(&outcome(&[], &[], 0)), 0);
    assert_eq!(query_score(&outcome(&[], &[], usize::MAX)), 2 * (usize::MAX as u128));
}

#[test]
fn path_length_counts_edges() {
    assert_eq!(path_length(&outcome(&[], &[], 3)), 0);
    assert_eq!(path_length(&outcome(&["a"], &[], 1)), 0);
    assert_eq!(path_length(&outcome(&["a", "b", "c"], &[], 3)), 2);
    assert_eq!(path_length(&outcome(&[], &["c", "b", "a"], 3)), 2);
    assert_eq!(path_length(&outcome(&["a", "b", "p"], &["t", "p"], 5)), 3);
}

#[test]
fn tuning_takes_the_first_queries_and_the_benchmark_the_rest() {
    let all = queries(5);
    assert_eq!(sources(&optimizer_queries(&all, 2)), text(&["Q0", "Q1"]));
    assert_eq!(sources(&benchmark_queries(&all, 2)), text(&["Q2", "Q3", "Q4"]));
    assert!(optimizer_queries(&all, 0).is_empty());
    assert_eq!(benchmark_queries(&all, 0).len(), 5);
    assert_eq!(optimizer_queries(&all, 5).len(), 5);
    assert!(benchmark_queries(&all, 5).is_empty());
}

#[test]
fn split_keeps_every_field_of_a_query() {
    let chosen = benchmark_queries(&queries(3), 2);
    assert_eq!(chosen.len(), 1);
    assert_eq!(chosen[0].source, "Q2");
    assert_eq!(chosen[0].target, "Q102");
    assert_eq!(chosen[0].trec_id, "302");
}

#[test]
fn split_beyond_the_end_gives_everything_to_tuning() {
    let all = queries(3);
    assert_eq!(optimizer_queries(&all, 9).len(), 3);
    assert!(benchmark_queries(&all, 9).is_empty());
}

#[test]
fn tally_starts_empty() {
    let tally = BenchmarkTally::new();
    assert_eq!(tally.queries(), 0);
    assert_eq!(tally.successes(), 0);
    assert_eq!(tally.visited_runs(), 0);
    assert_eq!(tally.visited_total(), 0);
    assert_eq!(tally.length_runs(), 0);
    assert_eq!(tally.length_total(), 0);
}

#[test]
fn tally_sums_up_successful_queries() {
    let mut tally = BenchmarkTally::new();
    tally.record(&outcome(&["a", "b", "p"], &["t", "p"], 7));
    tally.record(&outcome(&[], &[], 50));
    tally.record(&outcome(&[], &["t", "s"], 3));
    tally.record(&outcome(&["s"], &[], 1));
    assert_eq!(tally.queries(), 4);
    assert_eq!(tally.successes(), 3);
    assert_eq!(tally.visited_runs(), 3);
    assert_eq!(tally.visited_total(), 11);
    assert_eq!(tally.length_runs(), 2);
    assert_eq!(tally.length_total(), 4);
}

#[test]
fn tally_counts_failures_as_queries_only() {
    let mut tally = BenchmarkTally::new();
    tally.record(&outcome(&[], &[], 9));
    tally.record(&outcome(&[], &[], 12));
    assert_eq!(tally.queries(), 2);
    assert_eq!(tally.successes(), 0);
    assert_eq!(tally.visited_total(), 0);
    assert_eq!(tally.length_total(), 0);
}
