use pathfinder::costs_calculator::{encode_cost, plan_costs};
use pathfinder::harness::query_score;
use pathfinder::pathfinder::{Outcome, Search, Status};
use simplers_optimization::Optimizer;

/// A graph of two entities that matter: the source has an edge to the target
/// and, listed after it, edges to entities that lead nowhere.
fn edges_of(entity: &str) -> Vec<(String, String)> {
    if entity != "source" {
        return Vec::new();
    }
    let mut edges = vec![("leads".to_string(), "target".to_string())];
    for i in 0..8 {
        edges.push(("strays".to_string(), format!("decoy{}", i)));
    }
    edges
}

/// Every entity is as far from the target as any other, but the target
/// itself.
fn distance(entity: &str, goal: &str) -> f64 {
    if entity == goal {
        0.0
    } else {
        1.0
    }
}

fn cost(path: &Vec<String>, weights: &[f64]) -> i64 {
    let (alpha, beta, gamma) = (weights[0], weights[1], weights[2]);
    let plan = plan_costs("source", "target", path, alpha != 0.0, gamma != 0.0).ok().unwrap();
    let g1 = if plan.averaged.is_empty() {
        0.0
    } else {
        let total: f64 =
            plan.averaged.iter().map(|entity| distance(entity, &plan.directional_target)).sum();
        alpha * (total / plan.averaged.len() as f64)
    };
    let g2 = beta * plan.hops as f64;
    let h = match &plan.heading {
        Some(entity) => gamma * distance(entity, &plan.directional_target),
        None => 0.0,
    };
    encode_cost(&(g1 + g2 + h + 100_000.000_001).to_string()).unwrap()
}

fn find(weights: &[f64]) -> Outcome {
    let mut search = Search::new("source", "target", 100);
    while search.next() == Status::Expanding {
        let edges = edges_of(search.current());
        let costs: Vec<i64> =
            search.candidates(&edges).iter().map(|path| cost(path, weights)).collect();
        search.relax(&edges, &costs);
    }
    search.outcome()
}

#[test]
fn heading_term_spares_the_decoys() {
    let guided = find(&[0.0, 0.0, 1.0]);
    assert_eq!(guided.full_path(), vec!["source".to_string(), "target".to_string()]);
    assert_eq!(guided.visited_count, 2);
    let blind = find(&[1.0, 1.0, 0.0]);
    assert!(blind.is_found());
    assert!(blind.visited_count > guided.visited_count);
}

#[test]
fn minimizer_reports_a_minimum_that_weighs_the_heading() {
    let objective = |weights: &[f64]| query_score(&find(weights)) as f64;
    let interval = vec![(0.0, 1.0), (0.0, 1.0), (0.0, 1.0)];
    let (min_value, coordinates) = Optimizer::minimize(&objective, &interval, 30);
    assert_eq!(min_value, 2.0);
    assert!(coordinates[2] > 0.0);
}
