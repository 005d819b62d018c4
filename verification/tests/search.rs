use pathfinder::costs_calculator::encode_cost;
use pathfinder::pathfinder::{full_path, Direction, Outcome, Pathfinder, Search, Status};

fn text(values: &[&str]) -> Vec<String> {
    values.iter().map(|value| value.to_string()).collect()
}

/// A small graph in the shape of the entity graph: each line is an entity and
/// its outgoing edges.
fn fixture() -> Vec<(&'static str, Vec<(&'static str, &'static str)>)> {
    vec![
        ("Q42", vec![("P31", "Q5"), ("P106", "Q36180"), ("P19", "Q350")]),
        ("Q762", vec![("P31", "Q5"), ("P106", "Q1028181")]),
        ("Q5", vec![("P279", "Q215627")]),
        ("Q215627", vec![]),
        ("Q36180", vec![("P279", "Q482980")]),
        ("Q482980", vec![("P31", "Q28640")]),
        ("Q389908", vec![("P31", "Q482980")]),
        ("Q28640", vec![]),
        ("Q350", vec![("P17", "Q145")]),
        ("Q145", vec![]),
        ("Q1028181", vec![]),
        ("Q376657", vec![("P17", "Q145")]),
        ("Q1951366", vec![("P131", "Q350")]),
        ("Q1", vec![("P50", "Q2")]),
        ("Q2", vec![("P51", "Q1")]),
        ("Q3", vec![]),
    ]
}

fn adjacency(entity: &str) -> Vec<(String, String)> {
    for (name, edges) in fixture() {
        if name == entity {
            return edges.iter().map(|(prop, to)| (prop.to_string(), to.to_string())).collect();
        }
    }
    Vec::new()
}

fn has_edge(from: &str, prop: &str, to: &str) -> bool {
    adjacency(from).contains(&(prop.to_string(), to.to_string()))
}

/// The cost of a path by its number of edges alone, weighted by `beta`.
fn hop_cost(path: &Vec<String>, beta: f64) -> i64 {
    let costs = beta * (path.len() - 1) as f64;
    encode_cost(&(costs + 100_000.000_001).to_string()).unwrap()
}

fn find(source: &str, target: &str, entity_limit: usize, beta: f64) -> Outcome {
    let finder = Pathfinder::new(entity_limit);
    let mut search = finder.begin(source, target);
    while search.next() == Status::Expanding {
        let edges = adjacency(search.current());
        let costs: Vec<i64> =
            search.candidates(&edges).iter().map(|path| hop_cost(path, beta)).collect();
        search.relax(&edges, &costs);
    }
    search.outcome()
}

fn assert_follows_edges(path: &Vec<String>, props: &Vec<String>) {
    if path.is_empty() {
        assert!(props.is_empty());
        return;
    }
    assert_eq!(path.len(), props.len() + 1);
    for i in 0..props.len() {
        assert!(has_edge(&path[i], &props[i], &path[i + 1]));
    }
}

fn assert_no_duplicates(path: &Vec<String>) {
    for i in 0..path.len() {
        for j in (i + 1)..path.len() {
            assert_ne!(path[i], path[j]);
        }
    }
}

fn assert_well_shaped(outcome: &Outcome, entity_limit: usize) {
    assert_follows_edges(&outcome.path_forward, &outcome.props_forward);
    assert_follows_edges(&outcome.path_backward, &outcome.props_backward);
    assert_no_duplicates(&outcome.path_forward);
    assert_no_duplicates(&outcome.path_backward);
    assert_no_duplicates(&outcome.full_path());
    assert!(outcome.visited_count <= entity_limit);
}

#[test]
fn direct_edge_is_found_forwards() {
    let outcome = find("Q42", "Q5", 100, 0.028);
    assert_eq!(outcome.path_forward, text(&["Q42", "Q5"]));
    assert_eq!(outcome.props_forward, text(&["P31"]));
    assert!(outcome.path_backward.is_empty());
    assert!(outcome.props_backward.is_empty());
    assert_eq!(outcome.full_path(), text(&["Q42", "Q5"]));
    assert!(outcome.is_found());
    assert_well_shaped(&outcome, 100);
}

#[test]
fn direct_edge_is_found_backwards() {
    let outcome = find("Q5", "Q42", 100, 0.028);
    assert!(outcome.path_forward.is_empty());
    assert_eq!(outcome.path_backward, text(&["Q42", "Q5"]));
    assert_eq!(outcome.props_backward, text(&["P31"]));
    assert_eq!(outcome.full_path(), text(&["Q5", "Q42"]));
    assert_well_shaped(&outcome, 100);
}

#[test]
fn two_entities_meet_at_a_shared_neighbour() {
    let outcome = find("Q42", "Q762", 100, 0.028);
    assert_eq!(outcome.path_forward, text(&["Q42", "Q5"]));
    assert_eq!(outcome.props_forward, text(&["P31"]));
    assert_eq!(outcome.path_backward, text(&["Q762", "Q5"]));
    assert_eq!(outcome.props_backward, text(&["P31"]));
    assert_eq!(outcome.full_path(), text(&["Q42", "Q5", "Q762"]));
    assert_well_shaped(&outcome, 100);
}

#[test]
fn path_of_three_edges_has_the_same_length_both_ways() {
    let there = find("Q42", "Q389908", 100, 0.028);
    let back = find("Q389908", "Q42", 100, 0.028);
    assert_eq!(there.full_path(), text(&["Q42", "Q36180", "Q482980", "Q389908"]));
    assert_eq!(back.full_path(), text(&["Q389908", "Q482980", "Q36180", "Q42"]));
    assert_eq!(there.full_path().len() - 1, 3);
    assert_eq!(back.full_path().len() - 1, 3);
    assert_well_shaped(&there, 100);
    assert_well_shaped(&back, 100);
}

#[test]
fn query_of_the_corpus_succeeds_within_the_limit() {
    let outcome = find("Q376657", "Q1951366", 50, 0.028);
    assert!(outcome.is_found());
    assert!(outcome.visited_count <= 50);
    assert_eq!(outcome.full_path(), text(&["Q376657", "Q145", "Q350", "Q1951366"]));
    assert_well_shaped(&outcome, 50);
}

#[test]
fn entity_limit_of_one_finds_nothing() {
    let outcome = find("Q42", "Q389908", 1, 0.028);
    assert!(outcome.path_forward.is_empty());
    assert!(outcome.path_backward.is_empty());
    assert!(outcome.props_forward.is_empty());
    assert!(outcome.props_backward.is_empty());
    assert_eq!(outcome.visited_count, 1);
    assert!(!outcome.is_found());
}

#[test]
fn entity_limit_of_zero_visits_nothing() {
    let mut search = Search::new("Q42", "Q5", 0);
    assert_eq!(search.next(), Status::Exhausted);
    let outcome = search.outcome();
    assert_eq!(outcome.visited_count, 0);
    assert!(!outcome.is_found());
}

#[test]
fn visited_count_never_exceeds_the_limit() {
    for limit in 0..12 {
        let outcome = find("Q42", "Q389908", limit, 0.028);
        assert!(outcome.visited_count <= limit);
        assert_well_shaped(&outcome, limit);
    }
}

#[test]
fn source_that_is_the_target_is_found_at_once() {
    let outcome = find("Q42", "Q42", 10, 0.028);
    assert_eq!(outcome.path_forward, text(&["Q42"]));
    assert!(outcome.props_forward.is_empty());
    assert!(outcome.path_backward.is_empty());
    assert_eq!(outcome.visited_count, 1);
    assert_eq!(outcome.full_path(), text(&["Q42"]));
}

#[test]
fn unconnected_entities_exhaust_both_frontiers() {
    let outcome = find("Q1", "Q3", 100, 0.028);
    assert!(!outcome.is_found());
    assert!(outcome.full_path().is_empty());
    // Q1, Q2 and Q3 are all that can be reached.
    assert_eq!(outcome.visited_count, 3);
}

#[test]
fn first_visit_is_the_source_on_the_forward_side() {
    let mut search = Search::new("Q42", "Q762", 10);
    assert_eq!(search.status(), Status::Ready);
    assert_eq!(search.next(), Status::Expanding);
    assert_eq!(search.status(), Status::Expanding);
    assert_eq!(search.direction(), Direction::FromSourceToTarget);
    assert_eq!(search.current(), "Q42");
    assert_eq!(search.path(), &text(&["Q42"]));
    assert_eq!(search.visited_count(), 1);
}

#[test]
fn second_visit_is_the_target_on_the_backward_side() {
    let mut search = Search::new("Q42", "Q762", 10);
    search.next();
    let edges = adjacency("Q42");
    let costs: Vec<i64> = search.candidates(&edges).iter().map(|path| hop_cost(path, 1.0)).collect();
    search.relax(&edges, &costs);
    assert_eq!(search.status(), Status::Ready);
    // The target waits at cost 0, below every encoded cost.
    assert_eq!(search.next(), Status::Expanding);
    assert_eq!(search.direction(), Direction::FromTargetToSource);
    assert_eq!(search.current(), "Q762");
    assert_eq!(search.visited_count(), 2);
}

#[test]
fn candidates_leave_out_edges_back_onto_the_path() {
    let mut search = Search::new("Q1", "Q3", 10);
    assert_eq!(search.next(), Status::Expanding);
    let first = adjacency("Q1");
    assert_eq!(search.candidates(&first), vec![text(&["Q1", "Q2"])]);
    search.relax(&first, &vec![5]);
    // The target goes first, at cost 0.
    assert_eq!(search.next(), Status::Expanding);
    assert_eq!(search.current(), "Q3");
    search.relax(&Vec::new(), &Vec::new());
    assert_eq!(search.next(), Status::Expanding);
    assert_eq!(search.current(), "Q2");
    assert_eq!(search.path(), &text(&["Q1", "Q2"]));
    // The only edge of Q2 leads back to Q1.
    let second = adjacency("Q2");
    assert!(search.candidates(&second).is_empty());
    search.relax(&second, &Vec::new());
    assert_eq!(search.next(), Status::Exhausted);
}

#[test]
fn cheaper_path_replaces_the_recorded_one() {
    // A reaches B directly at cost 500 and over C at cost 200.
    let edges_of = |entity: &str| -> Vec<(String, String)> {
        let edges: Vec<(&str, &str)> = match entity {
            "A" => vec![("direct", "B"), ("first", "C")],
            "C" => vec![("second", "B")],
            "B" => vec![("last", "T")],
            _ => vec![],
        };
        edges.iter().map(|(prop, to)| (prop.to_string(), to.to_string())).collect()
    };
    let cost_of = |path: &Vec<String>| -> i64 {
        match path.join(">").as_str() {
            "A>B" => 500,
            "A>C" => 100,
            "A>C>B" => 200,
            "A>C>B>T" => 300,
            _ => 900,
        }
    };
    let mut search = Search::new("A", "T", 100);
    while search.next() == Status::Expanding {
        let edges = edges_of(search.current());
        let costs: Vec<i64> = search.candidates(&edges).iter().map(cost_of).collect();
        search.relax(&edges, &costs);
    }
    let outcome = search.outcome();
    assert_eq!(outcome.full_path(), text(&["A", "C", "B", "T"]));
}

#[test]
fn dearer_path_leaves_the_recorded_one() {
    // A reaches B directly at cost 100 and over C at cost 700.
    let edges_of = |entity: &str| -> Vec<(String, String)> {
        let edges: Vec<(&str, &str)> = match entity {
            "A" => vec![("direct", "B"), ("first", "C")],
            "C" => vec![("second", "B")],
            "B" => vec![("last", "T")],
            _ => vec![],
        };
        edges.iter().map(|(prop, to)| (prop.to_string(), to.to_string())).collect()
    };
    let cost_of = |path: &Vec<String>| -> i64 {
        match path.join(">").as_str() {
            "A>B" => 100,
            "A>C" => 50,
            "A>C>B" => 700,
            _ => 900,
        }
    };
    let mut search = Search::new("A", "T", 100);
    while search.next() == Status::Expanding {
        let edges = edges_of(search.current());
        let costs: Vec<i64> = search.candidates(&edges).iter().map(cost_of).collect();
        search.relax(&edges, &costs);
    }
    let outcome = search.outcome();
    assert_eq!(outcome.full_path(), text(&["A", "B", "T"]));
    assert_eq!(outcome.props_forward[0], "direct");
}

#[test]
fn hop_search_finds_equal_lengths_in_both_directions() {
    let pairs = [("Q42", "Q5"), ("Q42", "Q762"), ("Q42", "Q389908"), ("Q376657", "Q1951366")];
    for (source, target) in pairs {
        let there = find(source, target, 100, 1.0);
        let back = find(target, source, 100, 1.0);
        assert!(there.is_found());
        assert!(back.is_found());
        assert_eq!(there.full_path().len(), back.full_path().len());
    }
}

#[test]
fn full_path_joins_both_halves_at_the_shared_entity() {
    let forward = text(&["s", "a", "p"]);
    let backward = text(&["t", "b", "p"]);
    assert_eq!(full_path(&forward, &backward), text(&["s", "a", "p", "b", "t"]));
    assert_eq!(full_path(&forward, &Vec::new()), forward);
    assert_eq!(full_path(&Vec::new(), &backward), text(&["p", "b", "t"]));
    assert!(full_path(&Vec::new(), &Vec::new()).is_empty());
}
