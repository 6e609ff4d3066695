use forecast_judge::decimal::{abs_diff_digits, add_digits, digits_of_u64, mul_digits, shift_digits};
use forecast_judge::clock::{brier_initial_delay, cold_storage_delay, Timestamp};
use forecast_judge::stats::{
    asymmetry, compute_brier_scores, equity_curve, Asymmetry, BrierScore, Decimal,
    Forecast,
};

/// A decimal written in plain notation, such as "-12.345".
fn dec(text: &str) -> Decimal {
    let negative = text.starts_with('-');
    let body = text.trim_start_matches('-');
    let scale = body.find('.').map(|p| (body.len() - p - 1) as i64).unwrap_or(0);
    let digits = body.bytes().rev().filter(|b| *b != b'.').map(|b| b - b'0').collect();
    Decimal { negative, digits, scale }
}

fn forecasts(items: &[(&str, i32)]) -> Vec<Forecast> {
    items.iter().map(|(p, o)| Forecast { probability: dec(p), outcome: *o }).collect()
}

/// The whole number that digits (least significant first) stand for, written out.
fn number(digits: &[u8]) -> String {
    let text: String = digits.iter().rev().map(|d| char::from(b'0' + d)).collect();
    let trimmed = text.trim_start_matches('0');
    if trimmed.is_empty() { "0".to_string() } else { trimmed.to_string() }
}

fn parts(score: &BrierScore) -> (String, u128, u64) {
    match score {
        BrierScore::Mean { sum, exponent, divisor } => (number(sum), *exponent, *divisor),
        BrierScore::Zero => panic!("expected a mean"),
    }
}

#[test]
fn brier_sums_are_exact() {
    // (0.7 - 1)^2 + (0.2 - 0)^2 = 0.09 + 0.04 = 0.13 = 13000000 / 10^8.
    let (h, l) = compute_brier_scores(&forecasts(&[("70.00", 1), ("20.00", 0)]), &forecasts(&[("50.00", 1)]));
    assert_eq!(parts(&h), ("13000000".to_string(), 8, 2));
    // The LLM side is divided by the number of human forecasts.
    assert_eq!(parts(&l), ("25000000".to_string(), 8, 2));
}

#[test]
fn brier_sums_take_any_precision() {
    // 99.9999999999999% for what happened: the error is 10^-15, its square 10^-30.
    let (h, _) = compute_brier_scores(&forecasts(&[("99.9999999999999", 1)]), &vec![]);
    assert_eq!(parts(&h), ("1".to_string(), 30, 1));
    // Mixed scales: (0.7 - 1)^2 + (0.005 - 0)^2 = 0.090025.
    let (h, _) = compute_brier_scores(&forecasts(&[("70", 1), ("0.5", 0)]), &vec![]);
    assert_eq!(parts(&h), ("90025".to_string(), 6, 2));
    // Thirty decimal places are kept exactly.
    let (h, _) = compute_brier_scores(&forecasts(&[("0.000000000000000000000000000001", 0)]), &vec![]);
    assert_eq!(parts(&h), ("1".to_string(), 64, 1));
}

#[test]
fn brier_sums_take_any_sign_and_scale() {
    // 1E+2 = 100%, for what happened.
    let hundred = Forecast { probability: Decimal { negative: false, digits: vec![1], scale: -2 }, outcome: 1 };
    let (h, _) = compute_brier_scores(&vec![hundred], &vec![]);
    assert_eq!(parts(&h).0, "0");
    // (-0.1 - 0)^2 = 0.01 and (0.5 + 1)^2 = 2.25.
    let (h, _) = compute_brier_scores(&forecasts(&[("-10", 0), ("50", -1)]), &vec![]);
    assert_eq!(parts(&h), ("22600".to_string(), 4, 2));
}

#[test]
fn brier_of_empty_sides_is_zero() {
    assert_eq!(compute_brier_scores(&vec![], &vec![]), (BrierScore::Zero, BrierScore::Zero));
    let (h, l) = compute_brier_scores(&forecasts(&[("100", 1)]), &vec![]);
    assert_eq!(parts(&h), ("0".to_string(), 4, 1));
    assert_eq!(l, BrierScore::Zero);
}

#[test]
fn perfect_forecaster_scores_zero() {
    let (h, _) = compute_brier_scores(&forecasts(&[("100", 1), ("0", 0), ("100.000", 1)]), &vec![]);
    assert_eq!(parts(&h).0, "0");
    assert_eq!(parts(&h).2, 3);
}

#[test]
fn asymmetry_parts() {
    let outcomes = vec![Some(1), Some(0), Some(1), None];
    let positions = vec![dec("30"), dec("10"), dec("50"), dec("20")];
    assert_eq!(
        asymmetry(&outcomes, &positions),
        Asymmetry::Ratio { right_sum: dec("80"), right_count: 2, wrong_sum: dec("30"), wrong_count: 2 }
    );
    assert_eq!(asymmetry(&vec![Some(1)], &vec![dec("5")]), Asymmetry::Zero);
    assert_eq!(asymmetry(&vec![Some(1), Some(0)], &vec![dec("5"), dec("0.000")]), Asymmetry::Zero);
    assert_eq!(asymmetry(&vec![], &vec![]), Asymmetry::Zero);
}

#[test]
fn asymmetry_sums_take_any_precision() {
    // 12.5 + 0.0000000000000000000001 on the right, 7 on the wrong side,
    // summed at the largest scale (22).
    let outcomes = vec![Some(1), Some(1), Some(0)];
    let positions = vec![dec("12.5"), dec("0.0000000000000000000001"), dec("7")];
    match asymmetry(&outcomes, &positions) {
        Asymmetry::Ratio { right_sum, right_count, wrong_sum, wrong_count } => {
            assert_eq!(right_sum.scale, 22);
            assert_eq!(number(&right_sum.digits), "125000000000000000000001");
            assert!(!right_sum.negative);
            assert_eq!(number(&wrong_sum.digits), "70000000000000000000000");
            assert_eq!((right_count, wrong_count), (2, 1));
        }
        Asymmetry::Zero => panic!("expected a ratio"),
    }
}

#[test]
fn equity_curve_accumulates() {
    let curve = equity_curve(&vec![1, 0, 1], &vec![dec("10.50"), dec("5.00"), dec("2.00")]);
    let values: Vec<(i128, bool, String, i64)> = curve
        .iter()
        .map(|v| (v.equal_weight, v.position_weighted.negative, number(&v.position_weighted.digits), v.position_weighted.scale))
        .collect();
    assert_eq!(
        values,
        vec![
            (2, false, "1150".to_string(), 2),
            (1, false, "650".to_string(), 2),
            (2, false, "850".to_string(), 2),
        ]
    );
    // A loss larger than the starting unit goes below zero.
    let curve = equity_curve(&vec![0], &vec![dec("3.5")]);
    assert_eq!(curve[0].equal_weight, 0);
    assert!(curve[0].position_weighted.negative);
    assert_eq!(number(&curve[0].position_weighted.digits), "25");
    assert!(equity_curve(&vec![], &vec![]).is_empty());
}

#[test]
fn cold_storage_waits_until_three() {
    // 2024-01-01T01:00:00Z
    let early = Timestamp { secs: 1_704_070_800, nanos: 7 };
    assert_eq!(cold_storage_delay(early), 2 * 3600);
    // 2024-01-01T03:00:00Z runs the next day
    let at_three = Timestamp { secs: 1_704_078_000, nanos: 0 };
    assert_eq!(cold_storage_delay(at_three), 86_400);
    // 2024-01-01T23:30:00Z
    let late = Timestamp { secs: 1_704_151_800, nanos: 0 };
    assert_eq!(cold_storage_delay(late), 3 * 3600 + 1800);
    for t in [early, at_three, late] {
        assert_eq!((t.secs + cold_storage_delay(t) as i64) % 86_400, 3 * 3600);
    }
}

#[test]
fn brier_job_waits_until_midnight() {
    // 2024-01-01T23:59:59.25Z
    let t = Timestamp { secs: 1_704_153_599, nanos: 250_000_000 };
    assert_eq!(brier_initial_delay(t), (0, 750_000_000));
    let midnight = Timestamp { secs: 1_704_067_200, nanos: 0 };
    assert_eq!(brier_initial_delay(midnight), (86_400, 0));
    let before_epoch = Timestamp { secs: -1, nanos: 0 };
    assert_eq!(brier_initial_delay(before_epoch), (1, 0));
}

#[test]
fn digit_arithmetic_is_exact() {
    // Digits are least significant first: [9, 9] is 99.
    assert_eq!(number(&add_digits(&vec![9, 9], &vec![1])), "100");
    // Entries above 9 count at face value and come out as proper digits.
    assert_eq!(add_digits(&vec![12], &vec![]), vec![2, 1]);
    assert_eq!(number(&abs_diff_digits(&vec![0, 1], &vec![5, 2])), "15");
    assert_eq!(number(&mul_digits(&vec![9, 9, 9], &vec![9, 9])), "98901");
    assert_eq!(number(&shift_digits(&vec![3], 4)), "30000");
    assert_eq!(number(&digits_of_u64(u64::MAX)), u64::MAX.to_string());
    assert_eq!(number(&mul_digits(&digits_of_u64(u64::MAX), &digits_of_u64(u64::MAX))),
        (u64::MAX as u128 * u64::MAX as u128).to_string());
}
