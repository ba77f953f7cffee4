use ccstatusline_rs::context::payload::{ContextWindow, ModelField, Payload, RateLimitPeriod, RateLimits, Workspace, Extension};
use ccstatusline_rs::context::ContextWindowMetrics;
use ccstatusline_rs::context::{payload_cwd, resolve_tz, transcript_probe_path, tz_request, zone_or_error, Context, TzRequest};
use ccstatusline_rs::error::Error;

fn kst() -> jiff::tz::TimeZone {
    jiff::tz::TimeZone::get("Asia/Seoul").unwrap()
}

fn build(p: &Payload, tokens: Option<u64>) -> Context {
    Context::from_payload(p, kst(), tokens).unwrap()
}

#[test]
fn cwd_prefers_top_level_field() {
    let p = Payload {
        cwd: Some("/top".into()),
        workspace: Some(Workspace { current_dir: Some("/curr".into()), project_dir: Some("/proj".into()) }),
        ..Payload::default()
    };
    assert_eq!(build(&p, None).cwd.as_deref(), Some("/top"));
}

#[test]
fn cwd_falls_back_through_workspace() {
    let p = Payload { workspace: Some(Workspace { current_dir: None, project_dir: Some("/proj".into()) }), ..Payload::default() };
    assert_eq!(build(&p, None).cwd.as_deref(), Some("/proj"));
    let blank = Payload {
        cwd: Some("   ".into()),
        workspace: Some(Workspace { current_dir: Some(" /curr ".into()), project_dir: None }),
        ..Payload::default()
    };
    assert_eq!(payload_cwd(&blank).as_deref(), Some("/curr"));
}

#[test]
fn timers_need_percent_and_reset() {
    let ts = jiff::Timestamp::from_second(0).unwrap();
    let p = Payload {
        rate_limits: Some(RateLimits {
            five_hour: Some(RateLimitPeriod { used_percent: Some(100), resets_at: Some(ts) }),
            seven_day: Some(RateLimitPeriod { used_percent: Some(5), resets_at: None }),
            seven_day_sonnet: None,
            seven_day_opus: None,
        }),
        ..Payload::default()
    };
    let ctx = build(&p, None);
    assert_eq!(ctx.block.unwrap().used_percent, 100);
    assert!(ctx.weekly.is_none());
}

#[test]
fn invalid_tz_returns_named_error() {
    match resolve_tz(Some("Bogus/Place")) {
        Err(Error::InvalidTimezone { name }) => assert_eq!(name, "Bogus/Place"),
        _ => panic!("expected InvalidTimezone"),
    }
}

#[test]
fn default_tz_is_kst() {
    let tz = resolve_tz(None).unwrap();
    assert_eq!(tz.iana_name(), Some("Asia/Seoul"));
}

#[test]
fn empty_tz_falls_back_to_kst() {
    let tz = resolve_tz(Some("")).unwrap();
    assert_eq!(tz.iana_name(), Some("Asia/Seoul"));
}

#[test]
fn system_tz_in_any_case() {
    assert!(matches!(tz_request(Some("SYSTEM")), TzRequest::System));
    assert!(resolve_tz(Some("System")).is_ok());
    assert!(matches!(tz_request(Some("UTC")), TzRequest::Named(n) if n == "UTC"));
}

#[test]
fn session_tokens_use_extension_override_when_present() {
    let p = Payload {
        extension: Some(Extension { session_tokens: Some(42) }),
        transcript_path: Some("/t.jsonl".into()),
        ..Payload::default()
    };
    assert_eq!(transcript_probe_path(&p), None);
    assert_eq!(build(&p, Some(7)).session_tokens, Some(42));
}

#[test]
fn session_tokens_fall_back_to_jsonl_probe() {
    let p = Payload { transcript_path: Some("/t.jsonl".into()), ..Payload::default() };
    assert_eq!(transcript_probe_path(&p).as_deref(), Some("/t.jsonl"));
    assert_eq!(build(&p, Some(85_300)).session_tokens, Some(85_300));
    assert_eq!(build(&Payload::default(), Some(85_300)).session_tokens, None);
}

#[test]
fn model_plain_round_trip() {
    let m = ModelField::Plain("Opus 4.7 (1M context)".into());
    assert_eq!(m.display_string().as_deref(), Some("Opus 4.7 (1M context)"));
}

#[test]
fn model_structured_prefers_display_name() {
    let m = ModelField::Structured { id: Some("opus-model-id".into()), display_name: Some("Opus 4.7 (1M context)".into()) };
    assert_eq!(m.display_string().as_deref(), Some("Opus 4.7 (1M context)"));
}

#[test]
fn model_structured_falls_back_to_id() {
    let m = ModelField::Structured { id: Some("opus-model-id".into()), display_name: None };
    assert_eq!(m.display_string().as_deref(), Some("opus-model-id"));
    let blank = ModelField::Structured { id: None, display_name: Some("  ".into()) };
    assert_eq!(blank.display_string(), None);
}

#[test]
fn zone_or_error_passes_found_zone_through() {
    let tz = zone_or_error("Asia/Seoul".to_string(), Some(kst())).unwrap();
    assert_eq!(tz.iana_name(), Some("Asia/Seoul"));
}

#[test]
fn zone_or_error_names_the_missing_zone() {
    match zone_or_error("Nowhere/Land".to_string(), None) {
        Err(Error::InvalidTimezone { name }) => assert_eq!(name, "Nowhere/Land"),
        _ => panic!("expected InvalidTimezone"),
    }
}

#[test]
fn percents_above_hundred_are_held_to_hundred() {
    let ts = jiff::Timestamp::from_second(1_747_188_000).unwrap();
    let p = Payload {
        context_window: Some(ContextWindow {
            metrics: Some(ContextWindowMetrics { used_tokens: 10, total_tokens: 20, used_percent: 250 }),
        }),
        rate_limits: Some(RateLimits {
            five_hour: Some(RateLimitPeriod { used_percent: Some(150), resets_at: Some(ts) }),
            seven_day: Some(RateLimitPeriod { used_percent: Some(42), resets_at: Some(ts) }),
            ..RateLimits::default()
        }),
        ..Payload::default()
    };
    let ctx = build(&p, None);
    assert_eq!(ctx.block.unwrap().used_percent, 100);
    assert_eq!(ctx.weekly.unwrap().used_percent, 42);
    let m = ctx.context_metrics.unwrap();
    assert_eq!(m.used_percent, 100);
    assert_eq!(m.used_tokens, 10);
}
