use pathfinder::costs_calculator::{
    directional_target, encode_cost, plan_costs, CostError, COST_BOUND, COST_DIGITS, LEAST_COST,
};

fn text(values: &[&str]) -> Vec<String> {
    values.iter().map(|value| value.to_string()).collect()
}

fn encoded(costs: f64) -> i64 {
    encode_cost(&(costs + 100_000.000_001).to_string()).unwrap()
}

#[test]
fn path_from_the_source_heads_for_the_target() {
    assert_eq!(directional_target("Q42", "Q5", &text(&["Q42", "Q1"])), Ok("Q5".to_string()));
}

#[test]
fn path_from_the_target_heads_for_the_source() {
    assert_eq!(directional_target("Q42", "Q5", &text(&["Q5", "Q1"])), Ok("Q42".to_string()));
}

#[test]
fn path_from_elsewhere_is_malformed() {
    assert_eq!(directional_target("Q42", "Q5", &text(&["Q1", "Q42"])), Err(CostError::MalformedPath));
    assert_eq!(directional_target("Q42", "Q5", &Vec::new()), Err(CostError::MalformedPath));
    assert!(plan_costs("Q42", "Q5", &text(&["Q1"]), true, true).is_err());
}

#[test]
fn plan_names_the_entities_of_each_term() {
    let plan = plan_costs("Q42", "Q5", &text(&["Q42", "Q1", "Q2"]), true, true).ok().unwrap();
    assert_eq!(plan.directional_target, "Q5");
    assert_eq!(plan.averaged, text(&["Q42", "Q1"]));
    assert_eq!(plan.hops, 2);
    assert_eq!(plan.heading, Some("Q2".to_string()));
}

#[test]
fn plan_leaves_out_terms_without_weight() {
    let plan = plan_costs("Q42", "Q5", &text(&["Q5", "Q1"]), false, false).ok().unwrap();
    assert_eq!(plan.directional_target, "Q42");
    assert!(plan.averaged.is_empty());
    assert_eq!(plan.hops, 1);
    assert_eq!(plan.heading, None);
}

#[test]
fn plan_of_a_single_entity_has_no_mean() {
    let plan = plan_costs("Q42", "Q5", &text(&["Q42"]), true, true).ok().unwrap();
    assert!(plan.averaged.is_empty());
    assert_eq!(plan.hops, 0);
    assert_eq!(plan.heading, Some("Q42".to_string()));
}

#[test]
fn encoding_reads_the_first_twelve_digits() {
    assert_eq!(encode_cost("100000.000001"), Ok(100_000_000_001));
    assert_eq!(encode_cost("100001.500001"), Ok(100_001_500_001));
    assert_eq!(encode_cost("100000.0280010000001"), Ok(100_000_028_001));
    assert_eq!(encode_cost("199998.999999987"), Ok(199_998_999_999));
    assert_eq!(encode_cost("100000000001"), Ok(100_000_000_001));
}

#[test]
fn encoding_of_zero_costs_is_just_above_the_least() {
    assert_eq!(encoded(0.0), LEAST_COST + 1);
    assert_eq!(COST_DIGITS, 12);
}

#[test]
fn encoding_reads_a_short_rendering_as_if_zeros_followed() {
    assert_eq!(encode_cost("100000.5"), Ok(100_000_500_000));
    assert_eq!(encode_cost("100001.0"), Ok(100_001_000_000));
    assert_eq!(encode_cost("100001"), Ok(100_001_000_000));
    assert_eq!(encode_cost("12345678901"), Ok(123_456_789_010));
    assert_eq!(encode_cost("1"), Ok(100_000_000_000));
    assert_eq!(encode_cost("100000.5"), encode_cost("100000.500000"));
}

#[test]
fn encoding_of_a_cost_that_prints_short_lies_between_its_neighbours() {
    // The sum of this cost and the offset prints with seven digits.
    assert_eq!((0.499999_f64 + 100_000.000_001).to_string(), "100000.5");
    let key = encoded(0.499999);
    assert_eq!(key, 100_000_500_000);
    assert!(encoded(0.0) < key);
    assert!(key < encoded(1.0));
    let key = encoded(0.999999);
    assert!(encoded(0.0) < key);
    assert!(key < encoded(1.0));
}

#[test]
fn encoding_rejects_what_holds_no_digit() {
    assert_eq!(encode_cost(""), Err(CostError::CostOutOfRange));
    assert_eq!(encode_cost("."), Err(CostError::CostOutOfRange));
    assert_eq!(encode_cost("..."), Err(CostError::CostOutOfRange));
}

#[test]
fn encoding_rejects_what_is_at_or_above_the_bound() {
    assert_eq!(COST_BOUND, 199_999_000_001);
    assert_eq!(encode_cost("199999.000001"), Err(CostError::CostOutOfRange));
    assert_eq!(encode_cost("199999.0000019"), Err(CostError::CostOutOfRange));
    assert_eq!(encode_cost("999999999999"), Err(CostError::CostOutOfRange));
    assert_eq!(encode_cost("2"), Err(CostError::CostOutOfRange));
    assert_eq!(encode_cost("200000.5"), Err(CostError::CostOutOfRange));
}

#[test]
fn encoding_accepts_what_is_just_below_the_bound() {
    assert_eq!(encode_cost("199999.000000999"), Ok(199_999_000_000));
    assert_eq!(encode_cost("199999"), Ok(199_999_000_000));
    assert_eq!(encode_cost("199998.999999"), Ok(199_998_999_999));
}

#[test]
fn encoding_rejects_what_is_no_number() {
    assert_eq!(encode_cost("-100000.000001"), Err(CostError::CostOutOfRange));
    assert_eq!(encode_cost("1e21000000000000"), Err(CostError::CostOutOfRange));
    assert_eq!(encode_cost("100000.5x"), Err(CostError::CostOutOfRange));
    assert_eq!(encode_cost("1000 00.5"), Err(CostError::CostOutOfRange));
    assert_eq!(encode_cost("NaN"), Err(CostError::CostOutOfRange));
    assert_eq!(encode_cost("inf"), Err(CostError::CostOutOfRange));
}

#[test]
fn encoding_rejects_what_is_below_the_least() {
    assert_eq!(encode_cost("099999.999999"), Err(CostError::CostOutOfRange));
    assert_eq!(encode_cost("000000.000001"), Err(CostError::CostOutOfRange));
}

/// The encodings of a run of costs, each a multiple of `factor`.
fn encodings(factor: f64, count: usize) -> Vec<i64> {
    (0..count).map(|step| encoded(step as f64 * factor)).collect()
}

#[test]
fn encoding_is_never_below_the_least() {
    let all = encodings(49.9871234, 2000);
    assert_eq!(all.len(), 2000);
    for cost in all {
        assert!(cost >= LEAST_COST);
        assert!(cost < COST_BOUND);
    }
}

#[test]
fn encoding_keeps_the_order_of_costs() {
    let all = encodings(19.99973, 5000);
    assert_eq!(all.len(), 5000);
    for pair in all.windows(2) {
        assert!(pair[0] < pair[1]);
    }
}

#[test]
fn encoding_keeps_the_order_of_costs_that_print_short() {
    // Halves and quarters print with few digits.
    let all = encodings(0.25, 4000);
    for pair in all.windows(2) {
        assert!(pair[0] < pair[1]);
    }
    assert_eq!(all[0], LEAST_COST + 1);
}

#[test]
fn encoding_tells_costs_a_millionth_apart() {
    assert!(encode_cost("100000.250001").unwrap() < encode_cost("100000.250002").unwrap());
    assert!(encode_cost("100000.2500019").unwrap() < encode_cost("100000.25000290001").unwrap());
    assert!(encoded(0.25) < encoded(0.250003));
    assert!(encoded(12.5) < encoded(12.500003));
}

#[test]
fn encoding_does_not_tell_costs_closer_than_a_millionth() {
    assert_eq!(encode_cost("100000.0000011"), encode_cost("100000.0000012"));
    assert_eq!(encode_cost("100000.0000011"), Ok(100_000_000_001));
}
