use ccstatusline_rs::context::git::{DiffShortstat, GitState, PorcelainCounts};
use ccstatusline_rs::context::{Context, ContextWindowMetrics, TimerMetrics};
use ccstatusline_rs::render::color::{AnsiColor, Color};
use ccstatusline_rs::render::Segment;
use ccstatusline_rs::widgets::{
    block_timer, context_bar, cwd, default_layout, find, git_branch, git_changes, git_status, model,
    registry, session_cost, session_tokens, weekly_timer, WidgetKind,
};

fn kst() -> jiff::tz::TimeZone {
    jiff::tz::TimeZone::get("Asia/Seoul").unwrap()
}

fn empty_ctx() -> Context {
    Context {
        model_display: None,
        cwd: None,
        context_metrics: None,
        session_tokens: None,
        session_cost_cents: None,
        block: None,
        weekly: None,
        git: None,
        tz: kst(),
    }
}

fn joined(segs: &[Segment]) -> String {
    segs.iter().map(|s| s.text.as_str()).collect()
}

fn fg(seg: &Segment) -> Option<Color> {
    seg.style.fg
}

fn kst_epoch(y: i16, mo: i8, d: i8, h: i8, mi: i8) -> i64 {
    jiff::civil::date(y, mo, d)
        .at(h, mi, 0, 0)
        .to_zoned(kst())
        .unwrap()
        .timestamp()
        .as_second()
}

fn git_ctx(branch: Option<&str>, counts: PorcelainCounts, diff: DiffShortstat) -> Context {
    let mut ctx = empty_ctx();
    ctx.git = Some(GitState {
        repo_root: "/tmp/repo".to_string(),
        branch: branch.map(str::to_owned),
        porcelain: counts,
        diff,
        captured_at: 0,
    });
    ctx
}

fn zero_counts() -> PorcelainCounts {
    PorcelainCounts { staged: 0, unstaged: 0, untracked: 0, conflicts: 0 }
}

fn zero_diff() -> DiffShortstat {
    DiffShortstat { insertions: 0, deletions: 0, files_changed: 0 }
}

// ---------- model ----------

fn model_ctx(m: Option<&str>) -> Context {
    let mut ctx = empty_ctx();
    ctx.model_display = m.map(str::to_owned);
    ctx
}

#[test]
fn renders_with_brackets_and_icon() {
    let segs = model::render(&model_ctx(Some("Opus 4.7 (1M context)"))).unwrap();
    assert_eq!(joined(&segs), "✦ [Opus 4.7 (1M context)]");
}

#[test]
fn renders_theme_default_cyan_bold() {
    let segs = model::render(&model_ctx(Some("Opus"))).unwrap();
    assert_eq!(fg(&segs[0]), Some(Color::Ansi(AnsiColor::Cyan)));
    assert!(segs[0].style.bold);
}

#[test]
fn missing_model_yields_none() {
    assert!(model::render(&model_ctx(None)).is_none());
}

// ---------- cwd ----------

fn cwd_ctx(c: Option<&str>) -> Context {
    let mut ctx = empty_ctx();
    ctx.cwd = c.map(str::to_owned);
    ctx
}

#[test]
fn renders_full_path() {
    let segs = cwd::render(&cwd_ctx(Some(r"F:\Works\naya\cc-statusline-rust"))).unwrap();
    assert_eq!(joined(&segs), r"📂 F:\Works\naya\cc-statusline-rust");
}

#[test]
fn renders_theme_default_blue() {
    let segs = cwd::render(&cwd_ctx(Some("/tmp"))).unwrap();
    assert_eq!(fg(&segs[0]), Some(Color::Ansi(AnsiColor::Blue)));
}

#[test]
fn missing_cwd_yields_none() {
    assert!(cwd::render(&cwd_ctx(None)).is_none());
}

// ---------- context bar ----------

fn bar_ctx(used: u64, total: u64, pct: f64) -> Context {
    let mut ctx = empty_ctx();
    ctx.context_metrics = Some(ContextWindowMetrics {
        used_tokens: used,
        total_tokens: total,
        used_percent: pct as u8,
    });
    ctx
}

fn filled_segment(segs: &[Segment]) -> &Segment {
    segs.iter()
        .find(|s| !s.text.is_empty() && s.text.chars().all(|c| c == '#'))
        .expect("filled segment present")
}

#[test]
fn renders_eight_percent_default_theme() {
    let segs = context_bar::render(&bar_ctx(80_000, 1_000_000, 8.0)).unwrap();
    assert_eq!(joined(&segs), "🔋 [..........] 80.0K/1.0M(8%)");
}

#[test]
fn filled_cells_are_green_below_warn() {
    let segs = context_bar::render(&bar_ctx(210_000, 1_000_000, 21.0)).unwrap();
    let filled = filled_segment(&segs);
    assert_eq!(filled.text, "##");
    assert_eq!(fg(filled), Some(Color::Ansi(AnsiColor::Green)));
}

#[test]
fn filled_cells_are_yellow_in_warn_band() {
    let segs = context_bar::render(&bar_ctx(550_000, 1_000_000, 55.0)).unwrap();
    assert_eq!(fg(filled_segment(&segs)), Some(Color::Ansi(AnsiColor::Yellow)));
}

#[test]
fn filled_cells_are_red_at_or_above_crit() {
    let segs = context_bar::render(&bar_ctx(920_000, 1_000_000, 92.0)).unwrap();
    assert_eq!(fg(filled_segment(&segs)), Some(Color::Ansi(AnsiColor::Red)));
}

#[test]
fn zero_percent_omits_filled_segment() {
    let segs = context_bar::render(&bar_ctx(0, 1_000_000, 0.0)).unwrap();
    assert!(!segs.iter().any(|s| s.text.contains('#')));
    assert_eq!(joined(&segs), "🔋 [..........] 0/1.0M(0%)");
}

#[test]
fn full_percent_omits_empty_segment() {
    let segs = context_bar::render(&bar_ctx(1_000_000, 1_000_000, 100.0)).unwrap();
    assert!(!segs.iter().any(|s| !s.text.is_empty() && s.text.chars().all(|c| c == '.')));
    assert_eq!(joined(&segs), "🔋 [##########] 1.0M/1.0M(100%)");
}

#[test]
fn missing_metrics_yields_none() {
    let mut ctx = bar_ctx(0, 0, 0.0);
    ctx.context_metrics = None;
    assert!(context_bar::render(&ctx).is_none());
}

// ---------- timers ----------

fn block_ctx(pct: f64, epoch_seconds: i64) -> Context {
    let mut ctx = empty_ctx();
    ctx.block = Some(TimerMetrics {
        used_percent: pct as u8,
        resets_at: jiff::Timestamp::from_second(epoch_seconds).unwrap(),
    });
    ctx
}

fn weekly_ctx(pct: f64, epoch_seconds: i64) -> Context {
    let mut ctx = empty_ctx();
    ctx.weekly = Some(TimerMetrics {
        used_percent: pct as u8,
        resets_at: jiff::Timestamp::from_second(epoch_seconds).unwrap(),
    });
    ctx
}

#[test]
fn block_timer_renders_default_theme() {
    let epoch = kst_epoch(2026, 5, 14, 12, 0);
    let segs = block_timer::render(&block_ctx(21.0, epoch)).unwrap();
    assert_eq!(joined(&segs), "⏱ 5h [##........](21%) ↻ 12:00");
}

#[test]
fn icon_label_uses_bright_black_dim() {
    let segs = block_timer::render(&block_ctx(10.0, 0)).unwrap();
    assert_eq!(segs[0].text, "⏱ 5h ");
    assert_eq!(fg(&segs[0]), Some(Color::Ansi(AnsiColor::BrightBlack)));
}

#[test]
fn block_timer_missing_timer_yields_none() {
    let mut ctx = block_ctx(0.0, 0);
    ctx.block = None;
    assert!(block_timer::render(&ctx).is_none());
}

#[test]
fn weekly_timer_renders_default_theme() {
    let epoch = kst_epoch(2026, 5, 19, 6, 0);
    let segs = weekly_timer::render(&weekly_ctx(20.0, epoch)).unwrap();
    assert_eq!(joined(&segs), "📅 7d [##........](20%) ↻ 5/19 06:00");
}

#[test]
fn weekly_timer_missing_timer_yields_none() {
    let mut ctx = weekly_ctx(0.0, 0);
    ctx.weekly = None;
    assert!(weekly_timer::render(&ctx).is_none());
}

// ---------- session tokens / cost ----------

#[test]
fn renders_default_value() {
    let mut ctx = empty_ctx();
    ctx.session_tokens = Some(85_300);
    assert_eq!(joined(&session_tokens::render(&ctx).unwrap()), "📊 85.3K");
}

#[test]
fn missing_value_yields_none() {
    assert!(session_tokens::render(&empty_ctx()).is_none());
}

#[test]
fn renders_default_cost() {
    let mut ctx = empty_ctx();
    ctx.session_cost_cents = Some((2.55f64 * 100.0).round() as i64);
    assert_eq!(joined(&session_cost::render(&ctx).unwrap()), "💰 $2.55");
}

#[test]
fn missing_cost_yields_none() {
    assert!(session_cost::render(&empty_ctx()).is_none());
}

// ---------- git widgets ----------

#[test]
fn renders_branch_name_with_icon() {
    let segs = git_branch::render(&git_ctx(Some("main"), zero_counts(), zero_diff())).unwrap();
    assert_eq!(joined(&segs), "🌿 main");
    assert_eq!(fg(&segs[0]), Some(Color::Ansi(AnsiColor::Green)));
}

#[test]
fn git_branch_yields_none_when_git_absent() {
    assert!(git_branch::render(&empty_ctx()).is_none());
}

#[test]
fn yields_none_on_detached_head() {
    let ctx = git_ctx(None, zero_counts(), zero_diff());
    assert!(git_branch::render(&ctx).is_none());
}

#[test]
fn renders_insertions_and_deletions() {
    let diff = DiffShortstat { insertions: 120, deletions: 20, files_changed: 5 };
    let segs = git_changes::render(&git_ctx(None, zero_counts(), diff)).unwrap();
    assert_eq!(joined(&segs), "📝 +120 -20");
}

#[test]
fn insertions_are_green_deletions_red() {
    let diff = DiffShortstat { insertions: 1, deletions: 1, files_changed: 1 };
    let segs = git_changes::render(&git_ctx(None, zero_counts(), diff)).unwrap();
    let ins = segs.iter().find(|s| s.text.starts_with('+')).unwrap();
    let del = segs.iter().find(|s| s.text.starts_with('-')).unwrap();
    assert_eq!(fg(ins), Some(Color::Ansi(AnsiColor::Green)));
    assert_eq!(fg(del), Some(Color::Ansi(AnsiColor::Red)));
}

#[test]
fn clean_diff_yields_none() {
    assert!(git_changes::render(&git_ctx(None, zero_counts(), zero_diff())).is_none());
}

#[test]
fn git_changes_yields_none_when_git_absent() {
    assert!(git_changes::render(&empty_ctx()).is_none());
}

#[test]
fn clean_repo_renders_check_mark() {
    let segs = git_status::render(&git_ctx(None, zero_counts(), zero_diff())).unwrap();
    assert_eq!(joined(&segs), "⛓ ✓");
}

#[test]
fn full_breakdown() {
    let counts = PorcelainCounts { staged: 2, unstaged: 3, untracked: 1, conflicts: 1 };
    let segs = git_status::render(&git_ctx(None, counts, zero_diff())).unwrap();
    assert_eq!(joined(&segs), "⛓ S2 M3 ?1 !1");
}

#[test]
fn untracked_only() {
    let counts = PorcelainCounts { untracked: 5, ..zero_counts() };
    let segs = git_status::render(&git_ctx(None, counts, zero_diff())).unwrap();
    assert_eq!(joined(&segs), "⛓ ?5");
}

#[test]
fn git_status_yields_none_when_git_absent() {
    assert!(git_status::render(&empty_ctx()).is_none());
}

// ---------- registry ----------

#[test]
fn registry_lists_the_ten_kinds_in_order() {
    assert_eq!(
        registry(),
        vec![
            "model",
            "cwd",
            "context_bar",
            "session_tokens",
            "session_cost",
            "block_timer",
            "weekly_timer",
            "git_branch",
            "git_status",
            "git_changes",
        ]
    );
}

#[test]
fn find_knows_registered_kinds_only() {
    assert_eq!(find("git_status"), Some(WidgetKind::GitStatus));
    assert_eq!(find("made_up"), None);
    assert!(find("git_branch").unwrap().needs_git());
    assert!(!find("model").unwrap().needs_git());
}

#[test]
fn default_layout_has_two_rows() {
    let rows = default_layout();
    assert_eq!(rows.len(), 2);
    assert_eq!(rows[0], vec!["model", "cwd", "context_bar", "session_tokens", "session_cost"]);
    assert_eq!(rows[1], vec!["block_timer", "weekly_timer"]);
}
