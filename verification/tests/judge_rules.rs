use forecast_judge::judge::{
    apply_action, bank_to_series_id, indicator_series_id, judge_action, judge_task,
    keywords_match, value_plan, Agent, Comparison, Direction, Evaluation, JudgeAction,
    JudgeStatus, TaskState, ValuePlan,
};
use forecast_judge::llm::{check_meltdown, MeltdownReason};
use forecast_judge::clock::Timestamp;
use forecast_judge::market::{
    a3_from_part, day_unix_bounds, extract_crumb, find_a3_cookie, find_eps_row, last_trading_day,
    weekday_of, CrumbError, EpsRow,
};

fn pending() -> TaskState {
    TaskState { outcome_human: None, outcome_llm: None, status: JudgeStatus::Pending, verified: false }
}

#[test]
fn judge_actions_follow_evaluations() {
    assert_eq!(judge_action(Evaluation::Satisfied), JudgeAction::Confirm);
    assert_eq!(judge_action(Evaluation::NotSatisfied), JudgeAction::Keep);
    assert_eq!(judge_action(Evaluation::Failed), JudgeAction::MarkFailedApi);
    assert_eq!(judge_action(Evaluation::Unparsable), JudgeAction::MarkFailedApi);
}

#[test]
fn confirming_sets_outcome_and_resolves() {
    let t = apply_action(pending(), Agent::Llm, JudgeAction::Confirm);
    assert_eq!(t, TaskState { outcome_human: None, outcome_llm: Some(1), status: JudgeStatus::Resolved, verified: true });
}

#[test]
fn llm_failure_overrides_human_confirmation() {
    let t = judge_task(pending(), Evaluation::Satisfied, Evaluation::Failed);
    assert_eq!(t.outcome_human, Some(1));
    assert_eq!(t.outcome_llm, None);
    assert_eq!(t.status, JudgeStatus::FailedApi);
    assert!(t.verified);
}

#[test]
fn unsatisfied_rules_leave_task_alone() {
    assert_eq!(judge_task(pending(), Evaluation::NotSatisfied, Evaluation::NotSatisfied), pending());
}

#[test]
fn judging_twice_changes_nothing() {
    for h in [Evaluation::Satisfied, Evaluation::NotSatisfied, Evaluation::Failed, Evaluation::Unparsable] {
        for l in [Evaluation::Satisfied, Evaluation::NotSatisfied, Evaluation::Failed, Evaluation::Unparsable] {
            let once = judge_task(pending(), h, l);
            assert_eq!(judge_task(once, h, l), once);
        }
    }
}

#[test]
fn series_ids() {
    assert_eq!(bank_to_series_id("fomc"), "FEDFUNDS");
    assert_eq!(bank_to_series_id("ecb"), "ECBASSETSW");
    assert_eq!(bank_to_series_id("boj"), "JPNIRLTR");
    assert_eq!(bank_to_series_id("pboc"), "CHNMLR");
    assert_eq!(bank_to_series_id("boe"), "");
    assert_eq!(indicator_series_id("cpi"), Some("CPIAUCSL"));
    assert_eq!(indicator_series_id("gdp"), Some("GDP"));
    assert_eq!(indicator_series_id("nonfarm"), Some("PAYEMS"));
    assert_eq!(indicator_series_id("pmi"), None);
}

#[test]
fn rule_words() {
    assert_eq!(Direction::parse("greater"), Some(Direction::AtLeast));
    assert_eq!(Direction::parse("less"), Some(Direction::AtMost));
    assert_eq!(Direction::parse("equal"), None);
    assert_eq!(Comparison::parse("equal"), Some(Comparison::Equal));
    assert_eq!(Comparison::parse("Greater"), None);
    assert_eq!(value_plan("manual", true), ValuePlan::UseManual);
    assert_eq!(value_plan("manual", false), ValuePlan::MissingManual);
    assert_eq!(value_plan("api", false), ValuePlan::FetchFromApi);
    assert_eq!(value_plan("web", true), ValuePlan::InvalidSource);
}

#[test]
fn keyword_rules() {
    let kws = vec!["加息".to_string(), "25基点".to_string()];
    assert!(keywords_match("美联储加息25基点", &kws, true));
    assert!(!keywords_match("美联储加息50基点", &kws, true));
    assert!(keywords_match("美联储加息50基点", &kws, false));
    assert!(!keywords_match("无关内容", &kws, false));
    assert!(keywords_match("x", &vec![], true));
    assert!(!keywords_match("x", &vec![], false));
}

#[test]
fn meltdown_checks_in_order() {
    let now = Timestamp { secs: 1_000_000, nanos: 0 };
    let fresh = Timestamp { secs: 1_000_000 - 3600, nanos: 0 };
    assert_eq!(check_meltdown(1, "x", fresh, now), Some(MeltdownReason::NoiseFlagged));
    assert_eq!(check_meltdown(0, "abcd", fresh, now), Some(MeltdownReason::FactsTooShort));
    assert_eq!(check_meltdown(0, "央行", fresh, now), None);
    let four_days = Timestamp { secs: 1_000_000 - 4 * 86400, nanos: 0 };
    assert_eq!(check_meltdown(0, "enough facts", four_days, now), Some(MeltdownReason::Stale));
    let almost = Timestamp { secs: 1_000_000 - 4 * 86400, nanos: 1 };
    assert_eq!(check_meltdown(0, "enough facts", almost, now), None);
    let future = Timestamp { secs: 2_000_000, nanos: 0 };
    assert_eq!(check_meltdown(0, "enough facts", future, now), None);
}

#[test]
fn a3_cookie_is_found_in_headers() {
    assert_eq!(a3_from_part(" A3 = abc "), Some("abc".to_string()));
    assert_eq!(a3_from_part("B3=abc"), None);
    assert_eq!(a3_from_part("A3"), None);
    let headers = vec![
        None,
        Some("B=1; path=/".to_string()),
        Some("x=y; A3=d=AQAB; Domain=.yahoo.com".to_string()),
        Some("A3=second".to_string()),
    ];
    assert_eq!(find_a3_cookie(&headers), Some("d=AQAB".to_string()));
    assert_eq!(find_a3_cookie(&vec![Some("B=1".to_string())]), None);
}

#[test]
fn crumb_is_read_from_page() {
    assert_eq!(extract_crumb(r#"x"crumb":"Ab1.2"y"crumb":"other""#), Ok("Ab1.2".to_string()));
    assert_eq!(extract_crumb(r#"{"crumb":""}"#), Err(CrumbError::Missing));
    assert_eq!(extract_crumb("nothing here"), Err(CrumbError::Missing));
}

#[test]
fn trading_days() {
    // 2024-01-01 (a Monday) is day 738886 counted from 0001-01-01.
    let monday = 738_886;
    assert_eq!(weekday_of(monday), 0);
    assert_eq!(weekday_of(monday + 5), 5);
    assert_eq!(last_trading_day(monday + 5), monday + 4);
    assert_eq!(last_trading_day(monday + 6), monday + 4);
    assert_eq!(last_trading_day(monday + 2), monday + 2);
    assert_eq!(weekday_of(1), 0);
}

#[test]
fn day_bounds_in_unix_seconds() {
    // 1970-01-01 is day 719163; 2024-01-01 is day 738886.
    assert_eq!(day_unix_bounds(719_163), (0, 86_400));
    assert_eq!(day_unix_bounds(738_886), (1_704_067_200, 1_704_153_600));
}

#[test]
fn earnings_row_is_first_matching_row_with_eps() {
    let rows = vec![
        EpsRow { ticker: Some("MSFT".to_string()), has_eps: true },
        EpsRow { ticker: Some("AAPL".to_string()), has_eps: false },
        EpsRow { ticker: None, has_eps: true },
        EpsRow { ticker: Some("AAPL".to_string()), has_eps: true },
        EpsRow { ticker: Some("AAPL".to_string()), has_eps: true },
    ];
    assert_eq!(find_eps_row(&rows, "AAPL"), Some(3));
    assert_eq!(find_eps_row(&rows, "MSFT"), Some(0));
    assert_eq!(find_eps_row(&rows, "TSLA"), None);
    // A row whose ticker is not a string matches the empty symbol.
    assert_eq!(find_eps_row(&rows, ""), Some(2));
    assert_eq!(find_eps_row(&vec![], "AAPL"), None);
}
