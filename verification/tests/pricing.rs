use claude_usage_meter::pricing::{cost_usd, model_rates};

fn dollars(model: &str, input: u64, output: u64, write: u64, read: u64) -> Option<f64> {
    cost_usd(model, input, output, write, read).map(|c| c.units as f64 / 1e10)
}

#[test]
fn opus_4_5_costs() {
    let c = dollars("opus-4-5-20251101", 1_000_000, 0, 0, 0).unwrap();
    assert!((c - 5.0).abs() < 1e-9);
}

#[test]
fn full_token_mix() {
    let c = dollars("sonnet-4-6", 1_000_000, 1_000_000, 1_000_000, 1_000_000).unwrap();
    assert!((c - (3.0 + 15.0 + 3.75 + 0.30)).abs() < 1e-9);
}

#[test]
fn unknown_model_returns_none() {
    assert!(cost_usd("zeppelin-9", 1000, 1000, 0, 0).is_none());
}

#[test]
fn haiku_3_costs() {
    let c = dollars("3-haiku-20240307", 1_000_000, 0, 0, 0).unwrap();
    assert!((c - 0.25).abs() < 1e-9);
}

#[test]
fn haiku_3_5_does_not_match_other_rows() {
    let c = dollars("3-5-haiku-20241022", 1_000_000, 0, 0, 0).unwrap();
    assert!((c - 0.8).abs() < 1e-9);
}

#[test]
fn claude_3_opus_costs() {
    let c = dollars("3-opus-20240229", 1_000_000, 0, 0, 0).unwrap();
    assert!((c - 15.0).abs() < 1e-9);
}

#[test]
fn every_row_has_its_rates() {
    let rows = [
        ("fable-5", 10.0, 50.0),
        ("opus-4-8", 5.0, 25.0),
        ("opus-4-7", 5.0, 25.0),
        ("opus-4-6", 5.0, 25.0),
        ("opus-4-5", 5.0, 25.0),
        ("opus-4-1", 15.0, 75.0),
        ("opus-4", 15.0, 75.0),
        ("3-opus", 15.0, 75.0),
        ("sonnet", 3.0, 15.0),
        ("3-5-haiku", 0.8, 4.0),
        ("3-haiku", 0.25, 1.25),
        ("haiku-4-5", 1.0, 5.0),
        ("haiku", 1.0, 5.0),
    ];
    for (name, input, output) in rows {
        let model = format!("x-{name}-y");
        assert!((dollars(&model, 1_000_000, 0, 0, 0).unwrap() - input).abs() < 1e-9);
        assert!((dollars(&model, 0, 1_000_000, 0, 0).unwrap() - output).abs() < 1e-9);
        assert!((dollars(&model, 0, 0, 1_000_000, 0).unwrap() - input * 1.25).abs() < 1e-9);
        assert!((dollars(&model, 0, 0, 0, 1_000_000).unwrap() - input * 0.1).abs() < 1e-9);
    }
}

#[test]
fn first_matching_row_wins() {
    assert_eq!(model_rates("opus-4-10"), model_rates("opus-4-1"));
    assert_eq!(model_rates("opus-4-5 sonnet"), model_rates("opus-4-5"));
    assert_eq!(model_rates("opus-3"), None);
}

#[test]
fn costs_of_parts_add_up() {
    let whole = cost_usd("sonnet", 30, 50, 70, 110).unwrap().units;
    let a = cost_usd("sonnet", 10, 20, 30, 40).unwrap().units;
    let b = cost_usd("sonnet", 20, 30, 40, 70).unwrap().units;
    assert_eq!(whole, a + b);
    assert_eq!(whole, 30 * 30_000 + 50 * 150_000 + 70 * 37_500 + 110 * 3_000);
}

#[test]
fn largest_counts_do_not_overflow() {
    let m = u64::MAX;
    let c = cost_usd("opus-4-1", m, m, m, m).unwrap();
    assert_eq!(c.units, m as u128 * (150_000 + 750_000 + 187_500 + 15_000));
}
