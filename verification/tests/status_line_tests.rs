use mycode::status_line::{format_minutes_seconds, join_metrics, runtime_metrics_text, TurnTokens};

#[test]
fn formats_long_durations_as_minutes_and_seconds() {
    assert_eq!(format_minutes_seconds(125), "2m05s");
}

#[test]
fn minutes_keep_two_digit_seconds() {
    assert_eq!(format_minutes_seconds(60), "1m00s");
    assert_eq!(format_minutes_seconds(3599), "59m59s");
    assert_eq!(format_minutes_seconds(3600), "60m00s");
}

#[test]
fn omits_unavailable_runtime_metrics() {
    assert_eq!(join_metrics(&Vec::new()), None);
}

#[test]
fn joins_available_metrics() {
    let parts = vec!["cache 98.2%".to_string(), "ctx 3%".to_string(), "3.2s".to_string()];
    assert_eq!(
        join_metrics(&parts),
        Some("cache 98.2% · ctx 3% · 3.2s".to_string())
    );
}

#[test]
fn turn_counts_the_growth_of_output_tokens() {
    let mut tokens = TurnTokens::idle();
    assert!(!tokens.observe_usage(500));
    assert_eq!(tokens.turn_output_tokens, 0);
    tokens.start_turn(Some(100));
    assert!(tokens.observe_usage(160));
    assert_eq!(tokens.turn_output_tokens, 60);
    assert!(tokens.observe_usage(40));
    assert_eq!(tokens.turn_output_tokens, 0);
    assert_eq!(tokens.finish_turn(), 0);
    assert_eq!(tokens, TurnTokens::idle());
}

#[test]
fn turn_count_saturates_and_starts_from_zero_when_the_total_is_unknown() {
    let mut tokens = TurnTokens::idle();
    tokens.start_turn(Some(i64::MIN));
    tokens.observe_usage(i64::MAX);
    assert_eq!(tokens.turn_output_tokens, i64::MAX);
    tokens.start_turn(None);
    assert_eq!(tokens.start_output_tokens, 0);
    tokens.observe_usage(7);
    assert_eq!(tokens.finish_turn(), 7);
}

#[test]
fn formats_complete_runtime_metrics() {
    let seconds = std::time::Duration::from_millis(3_240).as_secs_f64();
    assert_eq!(
        runtime_metrics_text(
            Some(format!("cache {:.1}%", 98.25f64)),
            Some(3),
            Some(format!("{seconds:.1}s")),
            Some(format!("{:.1} tok/s", 54.12f64)),
        ),
        Some("cache 98.2% · ctx 3% · 3.2s · 54.1 tok/s".to_string())
    );
}

#[test]
fn runtime_metrics_keep_their_order_and_sign() {
    assert_eq!(runtime_metrics_text(None, None, None, None), None);
    assert_eq!(runtime_metrics_text(None, Some(-4), None, None), Some("ctx -4%".to_string()));
    assert_eq!(
        runtime_metrics_text(None, Some(i64::MIN), Some("1m00s".to_string()), None),
        Some("ctx -9223372036854775808% · 1m00s".to_string())
    );
}
