use ccstatusline_rs::cli::config_cmds::{run, ConfigAction, ConfigOutcome};
use ccstatusline_rs::config::{Config, CONFIG_VERSION};
use ccstatusline_rs::error::Error;
use ccstatusline_rs::render::color::ColorStyle;

fn cfg_with(lines: Vec<Vec<&str>>) -> Config {
    Config {
        version: CONFIG_VERSION,
        tz: None,
        lines: lines.into_iter().map(|row| row.into_iter().map(String::from).collect()).collect(),
        colors: Vec::new(),
    }
}

fn saved(r: Result<ConfigOutcome, Error>) -> Config {
    match r {
        Ok(ConfigOutcome::Save { config }) => config,
        Ok(_) => panic!("expected a saved config"),
        Err(e) => panic!("unexpected error {e:?}"),
    }
}

fn reason(r: Result<ConfigOutcome, Error>) -> String {
    match r {
        Err(Error::InvalidConfig { reason }) => reason,
        _ => panic!("expected InvalidConfig"),
    }
}

fn verdict(r: Result<ConfigOutcome, Error>) -> Option<String> {
    match r {
        Ok(ConfigOutcome::Verdict { error }) => error,
        _ => panic!("expected a verdict"),
    }
}

fn add(kind: &str, line: Option<usize>, position: Option<usize>) -> ConfigAction {
    ConfigAction::Add { kind: kind.into(), line, position }
}

fn color(kind: &str, fg: Option<&str>, bg: Option<&str>, bold: bool, no_bold: bool, clear: bool) -> ConfigAction {
    ConfigAction::Color { kind: kind.into(), fg: fg.map(str::to_owned), bg: bg.map(str::to_owned), bold, no_bold, clear }
}

#[test]
fn default_round_trips() {
    let cfg = Config::default_layout();
    assert_eq!(cfg.version, 1);
    assert_eq!(cfg.tz, None);
    assert_eq!(cfg.lines.len(), 2);
    assert_eq!(cfg.lines[1], vec!["block_timer".to_string(), "weekly_timer".to_string()]);
    assert!(cfg.colors.is_empty());
}

#[test]
fn show_returns_default_when_file_absent() {
    match run(ConfigAction::Show { pretty: true }, Config::default_layout(), None) {
        Ok(ConfigOutcome::Show { config, pretty }) => {
            assert!(pretty);
            assert_eq!(config.version, 1);
            assert_eq!(config.lines.len(), 2);
        },
        _ => panic!("expected show"),
    }
}

#[test]
fn add_then_show_reflects_persisted_change() {
    let cfg = saved(run(add("git_branch", None, None), Config::default_layout(), None));
    assert_eq!(cfg.lines.last().unwrap().last().unwrap(), "git_branch");
}

#[test]
fn add_with_explicit_position_inserts_in_place() {
    let cfg = saved(run(add("git_status", Some(0), Some(0)), Config::default_layout(), None));
    assert_eq!(cfg.lines[0][0], "git_status");
    assert_eq!(cfg.lines[0][1], "model");
}

#[test]
fn add_with_line_equal_to_len_creates_new_line() {
    let cfg = saved(run(add("git_branch", Some(2), None), Config::default_layout(), None));
    assert_eq!(cfg.lines.len(), 3);
    assert_eq!(cfg.lines[2][0], "git_branch");
}

#[test]
fn add_into_an_empty_layout_creates_the_first_line() {
    let cfg = saved(run(add("cwd", None, None), cfg_with(vec![]), None));
    assert_eq!(cfg.lines, vec![vec!["cwd".to_string()]]);
}

#[test]
fn add_out_of_range_names_the_limits() {
    assert_eq!(
        reason(run(add("cwd", Some(5), None), Config::default_layout(), None)),
        "line 5 out of range (have 2 lines, use 2 to create a new line)"
    );
    assert_eq!(
        reason(run(add("cwd", Some(1), Some(3)), Config::default_layout(), None)),
        "position 3 out of range on line 1 (2 widgets)"
    );
}

#[test]
fn add_unknown_kind_fails_loudly() {
    assert_eq!(reason(run(add("made_up_kind", None, None), Config::default_layout(), None)), "unknown widget kind 'made_up_kind'");
}

#[test]
fn remove_strips_widget_and_persists() {
    let cfg = saved(run(add("git_branch", None, None), Config::default_layout(), None));
    let cfg = saved(run(ConfigAction::Remove { line: 1, position: 2 }, cfg, None));
    assert!(!cfg.lines[1].iter().any(|k| k == "git_branch"));
}

#[test]
fn remove_out_of_range_is_refused() {
    assert_eq!(reason(run(ConfigAction::Remove { line: 2, position: 0 }, Config::default_layout(), None)), "line 2 out of range (2 lines)");
    assert_eq!(
        reason(run(ConfigAction::Remove { line: 0, position: 5 }, Config::default_layout(), None)),
        "position 5 out of range on line 0 (5 widgets)"
    );
}

#[test]
fn add_then_remove_restores_the_config() {
    let before = Config::default_layout();
    let added = saved(run(add("git_changes", Some(1), Some(1)), before.clone(), None));
    let restored = saved(run(ConfigAction::Remove { line: 1, position: 1 }, added, None));
    assert_eq!(restored.lines, before.lines);
}

#[test]
fn apply_replaces_full_config_atomically() {
    let file = cfg_with(vec![vec!["model", "cwd", "git_branch"]]);
    let cfg = saved(run(ConfigAction::Apply { file: "replacement.json".into() }, Config::default_layout(), Some(file)));
    assert_eq!(cfg.lines.len(), 1);
    assert_eq!(cfg.lines[0][2], "git_branch");
}

#[test]
fn apply_rejects_unsupported_version() {
    let mut file = cfg_with(vec![vec!["model"]]);
    file.version = 999;
    let r = run(ConfigAction::Apply { file: "future.json".into() }, Config::default_layout(), Some(file));
    assert_eq!(reason(r), "unsupported config version 999 (expected 1)");
}

#[test]
fn validate_rejects_unknown_widget_kind() {
    let file = cfg_with(vec![vec!["nonsense_widget"]]);
    let err = verdict(run(ConfigAction::Validate { file: Some("bad.json".into()) }, Config::default_layout(), Some(file)));
    assert!(err.unwrap().contains("nonsense_widget"));
}

#[test]
fn validate_names_the_first_unknown_position() {
    let file = cfg_with(vec![vec!["model"], vec!["cwd", "bogus", "worse"]]);
    let err = verdict(run(ConfigAction::Validate { file: Some("bad.json".into()) }, Config::default_layout(), Some(file)));
    assert_eq!(err.unwrap(), "unknown widget kind 'bogus' at line 1, position 1");
}

#[test]
fn config_validate_returns_ok() {
    assert_eq!(verdict(run(ConfigAction::Validate { file: None }, Config::default_layout(), None)), None);
}

#[test]
fn config_apply_rejects_invalid_color_in_file() {
    let mut file = cfg_with(vec![vec!["model"]]);
    file.colors.push(("model".into(), ColorStyle { fg: Some("neon-mauve".into()), bg: None, bold: None }));
    let r = run(ConfigAction::Apply { file: "bad-color.json".into() }, Config::default_layout(), Some(file));
    assert_eq!(reason(r), "colors.model: unknown color 'neon-mauve'");
}

#[test]
fn validate_rejects_colors_for_unknown_kinds() {
    let mut file = cfg_with(vec![vec!["model"]]);
    file.colors.push(("ghost".into(), ColorStyle { fg: Some("red".into()), bg: None, bold: None }));
    assert_eq!(file.validate().unwrap_err_reason(), "colors: unknown widget kind 'ghost'");
}

trait Reason {
    fn unwrap_err_reason(self) -> String;
}

impl Reason for Result<(), Error> {
    fn unwrap_err_reason(self) -> String {
        match self {
            Err(Error::InvalidConfig { reason }) => reason,
            _ => panic!("expected InvalidConfig"),
        }
    }
}

#[test]
fn config_color_persists_style() {
    let cfg = saved(run(color("model", Some("cyan"), None, true, false, false), Config::default_layout(), None));
    assert_eq!(cfg.colors.len(), 1);
    assert_eq!(cfg.colors[0].0, "model");
    assert_eq!(cfg.colors[0].1, ColorStyle { fg: Some("cyan".into()), bg: None, bold: Some(true) });
}

#[test]
fn config_color_updates_existing_entry() {
    let cfg = saved(run(color("model", Some("cyan"), None, true, false, false), Config::default_layout(), None));
    let cfg = saved(run(color("model", None, Some("#003366"), false, true, false), cfg, None));
    assert_eq!(cfg.colors.len(), 1);
    assert_eq!(cfg.colors[0].1, ColorStyle { fg: Some("cyan".into()), bg: Some("#003366".into()), bold: Some(false) });
}

#[test]
fn config_color_clear_removes_entry() {
    let cfg = saved(run(color("model", Some("red"), None, false, false, false), Config::default_layout(), None));
    let cfg = saved(run(color("model", None, None, false, false, true), cfg, None));
    assert!(cfg.colors.iter().all(|(k, _)| k != "model"));
}

#[test]
fn config_color_rejects_invalid_color_string() {
    let r = run(color("model", Some("burnt-sienna"), None, false, false, false), Config::default_layout(), None);
    assert_eq!(reason(r), "fg: unknown color 'burnt-sienna'");
}

#[test]
fn config_color_rejects_unknown_widget_kind() {
    let r = run(color("made_up", Some("red"), None, false, false, false), Config::default_layout(), None);
    assert_eq!(reason(r), "unknown widget kind 'made_up'");
}

#[test]
fn config_color_needs_a_setting() {
    let r = run(color("model", None, None, false, false, false), Config::default_layout(), None);
    assert_eq!(reason(r), "specify at least one of --fg / --bg / --bold / --no-bold / --clear");
}

#[test]
fn needs_git_follows_the_layout() {
    assert!(!Config::default_layout().needs_git());
    assert!(cfg_with(vec![vec!["model"], vec!["git_status"]]).needs_git());
}

#[test]
fn edits_keep_a_valid_config_valid() {
    let mut cfg = Config::default_layout();
    assert!(cfg.validate().is_ok());
    for action in [
        add("git_branch", Some(2), None),
        add("git_status", Some(0), Some(3)),
        ConfigAction::Remove { line: 1, position: 0 },
        color("cwd", Some("#1abc9c"), Some("bright_black"), true, false, false),
        color("cwd", None, None, false, true, false),
        color("model", Some("red"), None, false, false, false),
        color("model", None, None, false, false, true),
    ] {
        cfg = saved(run(action, cfg, None));
        assert!(cfg.validate().is_ok());
    }
    assert_eq!(cfg.colors.len(), 1);
    assert_eq!(cfg.colors[0].1, ColorStyle { fg: Some("#1abc9c".into()), bg: Some("bright_black".into()), bold: Some(false) });
}
