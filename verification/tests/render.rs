use ccstatusline_rs::cli::preview::{check_preview_args, diff_report};
use ccstatusline_rs::cli::render::{git_probe_dir, payload_is_blank, render_string, render_with, render_with_mode};
use ccstatusline_rs::config::{Config, CONFIG_VERSION};
use ccstatusline_rs::context::git::{DiffShortstat, GitState, PorcelainCounts};
use ccstatusline_rs::context::payload::{ContextWindow, Cost, Extension, ModelField, Payload, RateLimitPeriod, RateLimits};
use ccstatusline_rs::context::ContextWindowMetrics;
use ccstatusline_rs::error::Error;
use ccstatusline_rs::render::color::{AnsiColor, Color, ColorEnv, ColorMode, ColorStyle, Style};
use ccstatusline_rs::render::{emit, Line, Segment};

fn kst() -> jiff::tz::TimeZone {
    jiff::tz::TimeZone::get("Asia/Seoul").unwrap()
}

fn kst_ts(y: i16, mo: i8, d: i8, h: i8, mi: i8) -> jiff::Timestamp {
    jiff::civil::date(y, mo, d).at(h, mi, 0, 0).to_zoned(kst()).unwrap().timestamp()
}

fn quiet_env() -> ColorEnv {
    ColorEnv { no_color: false, clicolor_force: false, force_color: None }
}

fn no_color_env() -> ColorEnv {
    ColorEnv { no_color: true, clicolor_force: false, force_color: None }
}

/// The default payload fixture: Opus, a Windows cwd, 8 % context, 85.3K
/// session tokens, $2.55, and both rate-limit windows.
fn fixture() -> Payload {
    Payload {
        model: Some(ModelField::Structured {
            id: Some("opus-4-7-model-id".into()),
            display_name: Some("Opus 4.7 (1M context)".into()),
        }),
        cwd: Some(r"F:\Works\naya\cc-statusline-rust".into()),
        context_window: Some(ContextWindow {
            metrics: Some(ContextWindowMetrics { used_tokens: 80_000, total_tokens: 1_000_000, used_percent: 8 }),
        }),
        extension: Some(Extension { session_tokens: Some(85_300) }),
        cost: Some(Cost { total_cost_cents: Some(255) }),
        rate_limits: Some(RateLimits {
            five_hour: Some(RateLimitPeriod { used_percent: Some(21), resets_at: Some(kst_ts(2026, 5, 14, 12, 0)) }),
            seven_day: Some(RateLimitPeriod { used_percent: Some(20), resets_at: Some(kst_ts(2026, 5, 19, 6, 0)) }),
            seven_day_sonnet: None,
            seven_day_opus: None,
        }),
        ..Payload::default()
    }
}

fn cfg_with(lines: Vec<Vec<&str>>) -> Config {
    Config {
        version: CONFIG_VERSION,
        tz: None,
        lines: lines.into_iter().map(|row| row.into_iter().map(String::from).collect()).collect(),
        colors: Vec::new(),
    }
}

fn plain(text: &str) -> Segment {
    Segment { text: text.into(), style: Style { fg: None, bg: None, bold: false } }
}

#[test]
fn emit_joins_lines_with_newline_no_trailing() {
    let lines = vec![Line { segments: vec![plain("a")] }, Line { segments: vec![plain("b")] }];
    assert_eq!(emit(&lines, true), "a\nb");
}

#[test]
fn emit_skips_empty_lines() {
    let lines = vec![
        Line { segments: vec![plain("a")] },
        Line { segments: vec![] },
        Line { segments: vec![plain("b")] },
    ];
    assert_eq!(emit(&lines, true), "a\nb");
    let leading = vec![Line { segments: vec![] }, Line { segments: vec![plain("b")] }];
    assert_eq!(emit(&leading, true), "b");
}

#[test]
fn styled_segment_wraps_with_reset() {
    let style = Style { fg: None, bg: None, bold: true };
    let lines = vec![Line { segments: vec![Segment { text: "x".into(), style }] }];
    let s = emit(&lines, true);
    assert!(s.contains('x'));
    assert!(s.starts_with("\x1b["));
    assert!(s.ends_with("\x1b[0m"));
    assert_eq!(s, "\x1b[1mx\x1b[0m");
}

#[test]
fn styled_segment_codes_follow_anstyle_order() {
    let style = Style {
        fg: Some(Color::Ansi(AnsiColor::BrightRed)),
        bg: Some(Color::Rgb(0, 51, 102)),
        bold: true,
    };
    let lines = vec![Line { segments: vec![Segment { text: "x".into(), style }] }];
    assert_eq!(emit(&lines, true), "\x1b[1m\x1b[91m\x1b[48;2;0;51;102mx\x1b[0m");
    assert_eq!(emit(&lines, false), "x");
}

#[test]
fn default_theme_underlying_text() {
    let cfg = Config::default_layout();
    let out = render_with_mode(&fixture(), &cfg, None, None, ColorMode::Never, &quiet_env()).expect("render succeeds");
    let expected = [
        "✦ [Opus 4.7 (1M context)] | 📂 F:\\Works\\naya\\cc-statusline-rust",
        " | 🔋 [..........] 80.0K/1.0M(8%) | 📊 85.3K | 💰 $2.55\n",
        "⏱ 5h [##........](21%) ↻ 12:00 | 📅 7d [##........](20%) ↻ 5/19 06:00",
    ]
    .concat();
    assert_eq!(out, expected);
}

#[test]
fn default_theme_snapshot() {
    let cfg = Config::default_layout();
    let out = render_with_mode(&fixture(), &cfg, None, None, ColorMode::Always, &quiet_env()).unwrap();
    assert!(out.starts_with("\x1b[1m\x1b[36m✦ [Opus 4.7 (1M context)]\x1b[0m | \x1b[34m📂 "));
    assert!(out.contains("\x1b[32m##\x1b[0m"));
    assert!(out.contains("\x1b[90m⏱ 5h \x1b[0m"));
    assert!(out.contains("\x1b[35m📊 85.3K\x1b[0m"));
    assert!(out.contains("\x1b[33m💰 $2.55\x1b[0m"));
    assert!(!out.ends_with('\n'));
}

#[test]
fn deserialized_config_without_colors_still_paints_theme() {
    let cfg = cfg_with(vec![vec!["model"]]);
    assert!(cfg.colors.is_empty());
    let out = render_with_mode(&fixture(), &cfg, None, None, ColorMode::Always, &quiet_env()).unwrap();
    assert!(out.contains("\x1b[1") || out.contains("\x1b[36"));
    assert!(out.contains("Opus 4.7"));
}

#[test]
fn renderer_default_invocation_emits_ansi_by_default() {
    let out = render_string(&fixture(), None, &quiet_env()).unwrap();
    assert!(out.contains("\x1b["));
}

#[test]
fn renderer_strips_color_when_no_color_is_set() {
    let mut cfg = cfg_with(vec![vec!["model"]]);
    cfg.colors.push(("model".into(), ColorStyle { fg: Some("red".into()), bg: None, bold: None }));
    let out = render_with(&fixture(), &cfg, None, None, &no_color_env()).unwrap();
    assert_eq!(out, "✦ [Opus 4.7 (1M context)]");
}

#[test]
fn renderer_emits_ansi_when_force_color_is_set() {
    let mut cfg = cfg_with(vec![vec!["model"]]);
    cfg.colors.push(("model".into(), ColorStyle { fg: Some("red".into()), bg: None, bold: Some(true) }));
    let env = ColorEnv { no_color: false, clicolor_force: false, force_color: Some("1".into()) };
    let out = render_with(&fixture(), &cfg, None, None, &env).unwrap();
    assert_eq!(out, "\x1b[1m\x1b[31m✦ [Opus 4.7 (1M context)]\x1b[0m");
}

#[test]
fn override_replaces_theme_instead_of_merging() {
    let mut cfg = cfg_with(vec![vec!["model"]]);
    cfg.colors.push(("model".into(), ColorStyle { fg: Some("red".into()), bg: None, bold: None }));
    let out = render_with(&fixture(), &cfg, None, None, &quiet_env()).unwrap();
    assert!(out.contains("\x1b[31m"));
    assert!(!out.contains("\x1b[1m"));
    assert!(!out.contains("\x1b[36m"));
}

#[test]
fn unparsable_override_falls_back_to_theme() {
    let mut cfg = cfg_with(vec![vec!["cwd"]]);
    cfg.colors.push(("cwd".into(), ColorStyle { fg: Some("neon-mauve".into()), bg: None, bold: None }));
    let out = render_with(&fixture(), &cfg, None, None, &quiet_env()).unwrap();
    assert!(out.starts_with("\x1b[34m"));
}

#[test]
fn unknown_kinds_and_empty_rows_render_nothing() {
    let cfg = cfg_with(vec![vec!["nonsense", "session_cost"], vec![], vec!["git_branch"]]);
    let out = render_with(&fixture(), &cfg, None, None, &no_color_env()).unwrap();
    assert_eq!(out, "💰 $2.55");
}

#[test]
fn git_widgets_use_the_probe_result() {
    let cfg = cfg_with(vec![vec!["git_branch", "git_status"]]);
    let payload = Payload { cwd: Some("/repo".into()), ..Payload::default() };
    assert_eq!(git_probe_dir(&cfg, &payload), Some("/repo".to_string()));
    let git = GitState {
        repo_root: "/repo".into(),
        branch: Some("main".into()),
        porcelain: PorcelainCounts { staged: 0, unstaged: 0, untracked: 1, conflicts: 0 },
        diff: DiffShortstat { insertions: 0, deletions: 0, files_changed: 0 },
        captured_at: 0,
    };
    let out = render_with(&payload, &cfg, None, Some(git), &no_color_env()).unwrap();
    assert!(out.contains("🌿 main"));
    assert!(out.contains("⛓ ?1"));
}

#[test]
fn no_git_probe_when_config_lacks_git_widgets() {
    let payload = Payload { cwd: Some("/nonexistent/dir/that/does/not/exist".into()), ..Payload::default() };
    let cfg = cfg_with(vec![vec!["model", "cwd"]]);
    assert_eq!(git_probe_dir(&cfg, &payload), None);
    let out = render_with(&payload, &cfg, None, None, &no_color_env()).unwrap();
    assert!(!out.contains("🌿"));
    assert!(!out.contains("⛓"));
}

#[test]
fn invalid_timezone_is_a_named_error() {
    let mut cfg = cfg_with(vec![vec!["model"]]);
    cfg.tz = Some("Mars/Olympus_Mons".into());
    match render_with(&fixture(), &cfg, None, None, &quiet_env()) {
        Err(Error::InvalidTimezone { name }) => assert_eq!(name, "Mars/Olympus_Mons"),
        other => panic!("expected InvalidTimezone, got {other:?}"),
    }
}

#[test]
fn blank_payload_text_is_detected() {
    assert!(payload_is_blank(""));
    assert!(payload_is_blank(" \n\t"));
    assert!(!payload_is_blank(" {} "));
}

#[test]
fn empty_payload_renders_empty_output() {
    let out = render_string(&Payload::default(), None, &quiet_env()).unwrap();
    assert_eq!(out, "");
}

#[test]
fn palette_background_and_rgb_foreground_codes() {
    let style = Style { fg: Some(Color::Rgb(1, 2, 3)), bg: Some(Color::Ansi(AnsiColor::Blue)), bold: false };
    let lines = vec![Line { segments: vec![Segment { text: "y".into(), style }] }];
    assert_eq!(emit(&lines, true), "\x1b[38;2;1;2;3m\x1b[44my\x1b[0m");
    let bright = Style { fg: None, bg: Some(Color::Ansi(AnsiColor::BrightCyan)), bold: false };
    let lines = vec![Line { segments: vec![Segment { text: "z".into(), style: bright }] }];
    assert_eq!(emit(&lines, true), "\x1b[106mz\x1b[0m");
}

#[test]
fn preview_diff_reports_identical_when_candidate_equals_current() {
    let current = Config::default_layout();
    let candidate = cfg_with(vec![
        vec!["model", "cwd", "context_bar", "session_tokens", "session_cost"],
        vec!["block_timer", "weekly_timer"],
    ]);
    let a = render_with(&fixture(), &current, None, None, &no_color_env()).unwrap();
    let b = render_with(&fixture(), &candidate, None, None, &no_color_env()).unwrap();
    let report = diff_report(a, b);
    assert!(report.identical);
    assert_eq!(report.current, report.pending);
}

#[test]
fn preview_diff_distinguishes_when_layouts_differ() {
    let current = Config::default_layout();
    let candidate = cfg_with(vec![vec!["model"]]);
    let a = render_with(&fixture(), &current, None, None, &no_color_env()).unwrap();
    let b = render_with(&fixture(), &candidate, None, None, &no_color_env()).unwrap();
    let report = diff_report(a, b);
    assert!(!report.identical);
    assert_eq!(report.pending, "✦ [Opus 4.7 (1M context)]");
}

#[test]
fn preview_diff_without_config_fails() {
    match check_preview_args(true, false) {
        Err(Error::InvalidConfig { reason }) => assert_eq!(reason, "--diff requires --config <file>"),
        _ => panic!("expected InvalidConfig"),
    }
    assert!(check_preview_args(true, true).is_ok());
    assert!(check_preview_args(false, false).is_ok());
}
