use llm_core::text::{render_decimal, render_thousandths};
use llm_core::{
    ClampReport, FinishReason, LLMError, LLMMessage, LLMRequest, LLMResponse, ModelParameters,
    Operation, ParameterBounds, Role, StringMap, TokenUsage,
};

fn user(content: &str) -> LLMMessage {
    LLMMessage { role: Role::User, content: content.to_string(), metadata: None }
}

fn strings(items: &[&str]) -> Vec<String> {
    items.iter().map(|s| s.to_string()).collect()
}

#[test]
fn token_usage_total_is_the_sum() {
    let usage = TokenUsage::new(5, 1).unwrap();
    assert_eq!(usage.prompt_tokens(), 5);
    assert_eq!(usage.completion_tokens(), 1);
    assert_eq!(usage.total_tokens(), 6);
    let usage = TokenUsage::new(0, 0).unwrap();
    assert_eq!(usage.total_tokens(), 0);
    let usage = TokenUsage::new(u32::MAX, 0).unwrap();
    assert_eq!(usage.total_tokens(), u32::MAX);
    let usage = TokenUsage::new(u32::MAX - 7, 7).unwrap();
    assert_eq!(usage.total_tokens(), usage.prompt_tokens() + usage.completion_tokens());
}

#[test]
fn token_usage_that_does_not_fit_is_refused() {
    assert!(TokenUsage::new(u32::MAX, 1).is_none());
    assert!(TokenUsage::new(1 << 31, 1 << 31).is_none());
    assert!(TokenUsage::from_counts(u32::MAX, 1, 0).is_none());
}

#[test]
fn token_usage_with_a_wrong_total_is_refused() {
    assert_eq!(TokenUsage::from_counts(5, 1, 6), TokenUsage::new(5, 1));
    assert!(TokenUsage::from_counts(5, 1, 7).is_none());
    assert!(TokenUsage::from_counts(5, 1, 5).is_none());
    assert!(TokenUsage::from_counts(0, 0, 1).is_none());
    assert!(TokenUsage::from_counts(0, 0, 0).is_some());
}

#[test]
fn request_without_messages_is_invalid() {
    let request = LLMRequest { messages: vec![], parameters: None, stream: false };
    match request.validate() {
        Err(LLMError::InvalidConfig(message)) => assert_eq!(message, "request has no messages"),
        other => panic!("expected InvalidConfig, got {:?}", other),
    }
    let request = LLMRequest { messages: vec![user("2+2?")], parameters: None, stream: false };
    assert!(request.validate().is_ok());
}

#[test]
fn stream_flag_selects_the_operation() {
    let request = LLMRequest { messages: vec![user("2+2?")], parameters: None, stream: false };
    assert_eq!(request.operation(), Operation::Generate);
    let streaming = request.with_stream(true);
    assert_eq!(streaming.operation(), Operation::GenerateStream);
    assert_eq!(streaming.messages.len(), 1);
    assert_eq!(streaming.messages[0].content, "2+2?");
    assert_eq!(streaming.messages[0].role, Role::User);
    assert!(streaming.parameters.is_none());
    let back = streaming.with_stream(false);
    assert_eq!(back.operation(), Operation::Generate);
}

#[test]
fn stock_parameters() {
    let p = ModelParameters::default();
    assert_eq!(p.temperature, Some(700));
    assert_eq!(p.top_p, Some(950));
    assert_eq!(p.max_tokens, Some(4096));
    assert_eq!(p.presence_penalty, Some(0));
    assert_eq!(p.frequency_penalty, Some(0));
    assert!(p.stop_sequences.is_empty());
}

#[test]
fn unset_parameters_override_nothing() {
    let p = ModelParameters::unset();
    assert_eq!(p.temperature, None);
    assert_eq!(p.top_p, None);
    assert_eq!(p.max_tokens, None);
    assert_eq!(p.presence_penalty, None);
    assert_eq!(p.frequency_penalty, None);
    assert!(p.stop_sequences.is_empty());
    let layered = p.layered_over(ModelParameters::default());
    assert_eq!(layered.temperature, Some(700));
    assert_eq!(layered.max_tokens, Some(4096));
}

#[test]
fn explicit_zero_is_an_override() {
    let mut over = ModelParameters::unset();
    over.frequency_penalty = Some(0);
    over.temperature = Some(0);
    let mut base = ModelParameters::default();
    base.frequency_penalty = Some(500);
    base.stop_sequences = strings(&["END"]);
    let p = over.layered_over(base);
    assert_eq!(p.frequency_penalty, Some(0));
    assert_eq!(p.temperature, Some(0));
    assert_eq!(p.top_p, Some(950));
    assert_eq!(p.presence_penalty, Some(0));
    assert_eq!(p.stop_sequences, strings(&["END"]));
}

#[test]
fn stop_sequences_of_the_upper_layer_win() {
    let mut over = ModelParameters::unset();
    over.stop_sequences = strings(&["a", "b"]);
    let mut base = ModelParameters::unset();
    base.stop_sequences = strings(&["c"]);
    base.max_tokens = Some(10);
    let p = over.layered_over(base);
    assert_eq!(p.stop_sequences, strings(&["a", "b"]));
    assert_eq!(p.max_tokens, Some(10));
    assert_eq!(p.temperature, None);
}

#[test]
fn standard_bounds() {
    let b = ParameterBounds::standard();
    assert_eq!(b.max_temperature, 2000);
    assert_eq!(b.max_top_p, 1000);
    assert_eq!(b.max_tokens_ceiling, u32::MAX);
    assert_eq!(b.min_penalty, -2000);
    assert_eq!(b.max_penalty, 2000);
}

#[test]
fn values_within_bounds_are_left_alone() {
    let p = ModelParameters::default();
    let (clamped, report) = p.clamp(&ParameterBounds::standard());
    assert_eq!(clamped.temperature, Some(700));
    assert_eq!(clamped.top_p, Some(950));
    assert_eq!(clamped.max_tokens, Some(4096));
    assert_eq!(clamped.presence_penalty, Some(0));
    assert_eq!(clamped.frequency_penalty, Some(0));
    assert!(report.is_unchanged());
    let (clamped, report) = ModelParameters::unset().clamp(&ParameterBounds::standard());
    assert_eq!(clamped.temperature, None);
    assert_eq!(clamped.max_tokens, None);
    assert!(report.is_unchanged());
}

#[test]
fn values_outside_bounds_are_clamped_and_reported() {
    let p = ModelParameters {
        temperature: Some(2500),
        top_p: Some(1001),
        max_tokens: Some(100_000),
        presence_penalty: Some(-3000),
        frequency_penalty: Some(2001),
        stop_sequences: vec![],
    };
    let bounds = ParameterBounds { max_tokens_ceiling: 8192, ..ParameterBounds::standard() };
    let (clamped, report) = p.clamp(&bounds);
    assert_eq!(clamped.temperature, Some(2000));
    assert_eq!(clamped.top_p, Some(1000));
    assert_eq!(clamped.max_tokens, Some(8192));
    assert_eq!(clamped.presence_penalty, Some(-2000));
    assert_eq!(clamped.frequency_penalty, Some(2000));
    assert_eq!(
        report,
        ClampReport {
            temperature: Some(2000),
            top_p: Some(1000),
            max_tokens: Some(8192),
            presence_penalty: Some(-2000),
            frequency_penalty: Some(2000),
            stop_sequences_dropped: 0,
        }
    );
    assert!(!report.is_unchanged());
}

#[test]
fn values_on_the_bounds_are_kept() {
    let p = ModelParameters {
        temperature: Some(2000),
        top_p: Some(0),
        max_tokens: Some(1),
        presence_penalty: Some(-2000),
        frequency_penalty: Some(2000),
        stop_sequences: vec![],
    };
    let (clamped, report) = p.clamp(&ParameterBounds::standard());
    assert_eq!(clamped.temperature, Some(2000));
    assert_eq!(clamped.top_p, Some(0));
    assert_eq!(clamped.max_tokens, Some(1));
    assert_eq!(clamped.presence_penalty, Some(-2000));
    assert_eq!(clamped.frequency_penalty, Some(2000));
    assert!(report.is_unchanged());
}

#[test]
fn zero_max_tokens_is_raised_to_one() {
    let mut p = ModelParameters::unset();
    p.max_tokens = Some(0);
    let (clamped, report) = p.clamp(&ParameterBounds::standard());
    assert_eq!(clamped.max_tokens, Some(1));
    assert_eq!(report.max_tokens, Some(1));
    assert_eq!(report.temperature, None);
}

#[test]
fn empty_and_repeated_stop_sequences_are_dropped() {
    let mut p = ModelParameters::unset();
    p.stop_sequences = strings(&["END", "", "STOP", "END", "", "###", "STOP"]);
    let (clamped, report) = p.clamp(&ParameterBounds::standard());
    assert_eq!(clamped.stop_sequences, strings(&["END", "STOP", "###"]));
    assert_eq!(report.stop_sequences_dropped, 4);
    assert!(!report.is_unchanged());
    let (again, report) = clamped.clamp(&ParameterBounds::standard());
    assert_eq!(again.stop_sequences, strings(&["END", "STOP", "###"]));
    assert!(report.is_unchanged());
}

#[test]
fn numbers_are_written_in_decimal() {
    assert_eq!(render_decimal(0), "0");
    assert_eq!(render_decimal(7), "7");
    assert_eq!(render_decimal(10), "10");
    assert_eq!(render_decimal(4096), "4096");
    assert_eq!(render_decimal(1234567890), "1234567890");
    assert_eq!(render_decimal(u64::MAX), "18446744073709551615");
}

#[test]
fn thousandths_are_written_with_three_places() {
    assert_eq!(render_thousandths(0), "0.000");
    assert_eq!(render_thousandths(7), "0.007");
    assert_eq!(render_thousandths(700), "0.700");
    assert_eq!(render_thousandths(950), "0.950");
    assert_eq!(render_thousandths(1500), "1.500");
    assert_eq!(render_thousandths(2000), "2.000");
    assert_eq!(render_thousandths(-250), "-0.250");
    assert_eq!(render_thousandths(-2000), "-2.000");
    assert_eq!(render_thousandths(123456), "123.456");
    assert_eq!(render_thousandths(i64::MAX), "9223372036854775.807");
    assert_eq!(render_thousandths(i64::MIN), "-9223372036854775.808");
}

fn response(metadata: Option<StringMap>) -> LLMResponse {
    LLMResponse {
        content: "4".to_string(),
        finish_reason: FinishReason::Length,
        usage: TokenUsage::new(5, 1).unwrap(),
        model: "m".to_string(),
        metadata,
    }
}

#[test]
fn clamped_values_are_reported_through_metadata() {
    let report = ClampReport {
        temperature: Some(2000),
        top_p: None,
        max_tokens: Some(8192),
        presence_penalty: Some(-2000),
        frequency_penalty: None,
        stop_sequences_dropped: 3,
    };
    let mut before = StringMap::new();
    before.insert("request-id".to_string(), "abc".to_string());
    before.insert("clamped.max_tokens".to_string(), "stale".to_string());
    let r = response(Some(before)).with_report(&report);
    assert_eq!(r.content, "4");
    assert_eq!(r.finish_reason, FinishReason::Length);
    assert_eq!(r.usage.total_tokens(), 6);
    assert_eq!(r.model, "m");
    let m = r.metadata.unwrap();
    assert_eq!(m.len(), 5);
    assert_eq!(m.get("request-id").map(|s| s.as_str()), Some("abc"));
    assert_eq!(m.get("clamped.temperature").map(|s| s.as_str()), Some("2.000"));
    assert_eq!(m.get("clamped.max_tokens").map(|s| s.as_str()), Some("8192"));
    assert_eq!(m.get("clamped.presence_penalty").map(|s| s.as_str()), Some("-2.000"));
    assert_eq!(m.get("clamped.stop_sequences_dropped").map(|s| s.as_str()), Some("3"));
    assert_eq!(m.get("clamped.top_p"), None);
    assert_eq!(m.get("clamped.frequency_penalty"), None);
}

#[test]
fn a_report_of_no_change_leaves_the_response_alone() {
    let report = ClampReport {
        temperature: None,
        top_p: None,
        max_tokens: None,
        presence_penalty: None,
        frequency_penalty: None,
        stop_sequences_dropped: 0,
    };
    assert!(report.is_unchanged());
    let r = response(None).with_report(&report);
    assert!(r.metadata.is_none());
    assert_eq!(r.content, "4");
}

#[test]
fn a_report_creates_metadata_where_there_was_none() {
    let report = ClampReport {
        temperature: None,
        top_p: Some(1000),
        max_tokens: None,
        presence_penalty: None,
        frequency_penalty: Some(-1500),
        stop_sequences_dropped: 0,
    };
    let m = response(None).with_report(&report).metadata.unwrap();
    assert_eq!(m.len(), 2);
    assert_eq!(m.get("clamped.top_p").map(|s| s.as_str()), Some("1.000"));
    assert_eq!(m.get("clamped.frequency_penalty").map(|s| s.as_str()), Some("-1.500"));
}

#[test]
fn clamping_a_request_reaches_the_response() {
    let mut asked = ModelParameters::unset();
    asked.max_tokens = Some(1_000_000);
    let effective = asked.layered_over(ModelParameters::default());
    let bounds = ParameterBounds { max_tokens_ceiling: 4096, ..ParameterBounds::standard() };
    let (clamped, report) = effective.clamp(&bounds);
    assert_eq!(clamped.max_tokens, Some(4096));
    assert_eq!(clamped.temperature, Some(700));
    let m = response(None).with_report(&report).metadata.unwrap();
    assert_eq!(m.len(), 1);
    assert_eq!(m.get("clamped.max_tokens").map(|s| s.as_str()), Some("4096"));
}

#[test]
fn string_map_holds_each_key_once() {
    let mut m = StringMap::new();
    assert!(m.is_empty());
    assert_eq!(m.len(), 0);
    assert_eq!(m.get("a"), None);
    assert_eq!(m.insert("a".to_string(), "1".to_string()), None);
    assert_eq!(m.insert("b".to_string(), "2".to_string()), None);
    assert_eq!(m.insert("a".to_string(), "3".to_string()), Some("1".to_string()));
    assert!(!m.is_empty());
    assert_eq!(m.len(), 2);
    assert!(m.contains_key("a"));
    assert!(m.contains_key("b"));
    assert!(!m.contains_key("c"));
    assert!(!m.contains_key(""));
    assert_eq!(m.get("a").map(|s| s.as_str()), Some("3"));
    assert_eq!(m.get("b").map(|s| s.as_str()), Some("2"));
    let mut entries = m.entries().clone();
    entries.sort();
    assert_eq!(
        entries,
        vec![("a".to_string(), "3".to_string()), ("b".to_string(), "2".to_string())]
    );
}

#[test]
fn string_map_clone_is_independent() {
    let mut m = StringMap::new();
    m.insert("k".to_string(), "v".to_string());
    let copy = m.clone();
    m.insert("k".to_string(), "w".to_string());
    m.insert("l".to_string(), "x".to_string());
    assert_eq!(copy.len(), 1);
    assert_eq!(copy.get("k").map(|s| s.as_str()), Some("v"));
    assert_eq!(m.get("k").map(|s| s.as_str()), Some("w"));
}
