use ccstatusline_rs::cli::install::{
    check_wrap_pointer, compose_command, contains_basename, default_bin_dir_parts, install_mode, is_ours_wrap_command,
    is_tokenwatch_command, latest_backup, next_backup_name, plan_uninstall, posix_shell_quote, purge_targets, should_copy_binary,
    wrapper_body, plan_install, InstallMode, InstallPlan, Platform, PrevFile, UninstallPlan,
};
use ccstatusline_rs::error::Error;

#[test]
fn posix_shell_quote_handles_empty_and_quotes() {
    assert_eq!(posix_shell_quote(""), "''");
    assert_eq!(posix_shell_quote("simple"), "'simple'");
    assert_eq!(posix_shell_quote("it's"), "'it'\\''s'");
    assert_eq!(posix_shell_quote("a'b'c"), "'a'\\''b'\\''c'");
}

#[test]
fn compose_command_windows_uses_node_wrapper() {
    let cmd = compose_command(Platform::Windows, "C:\\bin\\ccstatusline-rs.exe", Some("C:\\bin\\ccstatusline-rs.mjs"));
    assert_eq!(cmd, "node \"C:\\\\bin\\\\ccstatusline-rs.mjs\"");
}

#[test]
fn compose_command_posix_single_quotes_exe_path() {
    assert_eq!(compose_command(Platform::Posix, "/usr/local/bin/ccstatusline-rs", None), "'/usr/local/bin/ccstatusline-rs'");
    assert_eq!(
        compose_command(Platform::Posix, "/home/user with space/bin/ccstatusline-rs", None),
        "'/home/user with space/bin/ccstatusline-rs'",
    );
    assert_eq!(
        compose_command(Platform::Posix, "/home/o'reilly/bin/ccstatusline-rs", None),
        "'/home/o'\\''reilly/bin/ccstatusline-rs'",
    );
}

#[test]
fn json_literals_escape_controls_in_lowercase_hex() {
    let cmd = compose_command(Platform::Windows, "x", Some("a\"b\tc\u{1}\u{1f}é"));
    assert_eq!(cmd, "node \"a\\\"b\\tc\\u0001\\u001fé\"");
    assert_eq!(compose_command(Platform::Windows, "C:\\x.exe", None), "node \"C:\\\\x.exe\"");
}

#[test]
fn wrapper_body_uses_lf_line_endings() {
    let body = wrapper_body("C:\\bin\\ccstatusline-rs.exe");
    assert!(!body.contains('\r'), "wrapper body must not contain CR");
    assert!(body.ends_with('\n'));
}

#[test]
fn wrapper_body_exits_one_on_signal() {
    let body = wrapper_body("/x/y");
    assert!(body.contains("code ?? 1"), "wrapper must exit 1 on signal termination, body=\n{body}");
}

#[test]
fn wrapper_body_escapes_unicode_paths() {
    let body = wrapper_body(r"C:\Users\홍길동\bin\ccstatusline-rs.exe");
    let first_arg_start = body.find("spawn(").unwrap() + "spawn(".len();
    let first_arg_end = first_arg_start + body[first_arg_start..].find(',').unwrap();
    let literal = &body[first_arg_start..first_arg_end];
    let parsed: String = serde_json::from_str(literal).unwrap();
    assert_eq!(parsed, r"C:\Users\홍길동\bin\ccstatusline-rs.exe");
}

#[test]
fn wrapper_body_is_the_node_spawn_script() {
    assert_eq!(
        wrapper_body("/opt/ccstatusline-rs"),
        [
            "import { spawn } from 'node:child_process';\n",
            "const child = spawn(\"/opt/ccstatusline-rs\", [], { stdio: ['inherit', 'inherit', 'inherit'] });\n",
            "child.on('exit', code => process.exit(code ?? 1));\n",
            "child.on('error', err => { console.error(err); process.exit(1); });\n",
        ]
        .concat()
    );
}

fn names(v: &[&str]) -> Vec<String> {
    v.iter().map(|s| s.to_string()).collect()
}

#[test]
fn find_latest_backup_picks_highest_filename() {
    let dir = names(&[
        "settings.json",
        "settings.json.ccstatusline-rs-bak-20260514-100000-000",
        "settings.json.ccstatusline-rs-bak-20260514-100001-000",
        "settings.json.ccstatusline-rs-bak-20260514-100000-001",
        "other.json.ccstatusline-rs-bak-20990101-000000-000",
    ]);
    let latest = latest_backup(Some("settings.json"), &dir).unwrap().unwrap();
    assert!(dir[latest].ends_with("20260514-100001-000"));
}

#[test]
fn find_latest_backup_returns_none_when_dir_missing() {
    assert_eq!(latest_backup(Some("settings.json"), &[]).unwrap(), None);
}

#[test]
fn backups_need_a_settings_file_name() {
    match latest_backup(None, &[]) {
        Err(Error::InvalidConfig { reason }) => assert_eq!(reason, "settings path has no file name"),
        _ => panic!("expected InvalidConfig"),
    }
    assert!(next_backup_name(None, "20260514-120000", &[]).is_err());
}

#[test]
fn next_backup_filename_skips_existing() {
    let ts = "20260514-120000";
    let first = next_backup_name(Some("settings.json"), ts, &[]).unwrap();
    assert_eq!(first, "settings.json.ccstatusline-rs-bak-20260514-120000-000");
    let second = next_backup_name(Some("settings.json"), ts, &[first.clone()]).unwrap();
    assert_ne!(first, second);
    assert!(second.ends_with("-001"));
}

#[test]
fn backup_counter_exhaustion_is_an_error() {
    let ts = "20260514-120000";
    let taken: Vec<String> = (0..1000).map(|n| format!("settings.json.ccstatusline-rs-bak-{ts}-{n:03}")).collect();
    match next_backup_name(Some("settings.json"), ts, &taken) {
        Err(Error::InvalidConfig { reason }) => {
            assert_eq!(reason, "exhausted backup counter at 20260514-120000 (>=1000 in same second)")
        },
        _ => panic!("expected exhaustion"),
    }
    let almost = &taken[..999];
    assert!(next_backup_name(Some("settings.json"), ts, almost).unwrap().ends_with("-999"));
}

#[test]
fn detects_tokenwatch_in_canonical_paths() {
    assert!(is_tokenwatch_command("node /home/u/.neo-mem/runtime/1.2.10-a1e85cb5/scripts/tokenwatch-statusline.mjs"));
    assert!(is_tokenwatch_command("node C:\\Temp\\neo-mem\\1.1.97\\tokenwatch-statusline.mjs"));
    assert!(is_tokenwatch_command("tokenwatch-statusline.mjs"));
}

#[test]
fn detects_tokenwatch_in_quoted_windows_path_with_spaces() {
    assert!(is_tokenwatch_command(
        "node \"C:\\Users\\Jane Doe\\.neo-mem\\runtime\\neo-mem\\win32-x64\\1.2.10\\scripts\\tokenwatch-statusline.mjs\""
    ));
}

#[test]
fn does_not_match_my_tokenwatch_statusline_variant() {
    assert!(!is_tokenwatch_command("node my-tokenwatch-statusline.mjs"));
    assert!(!is_tokenwatch_command("node /x/tokenwatch-statusline.mjs.bak"));
}

#[test]
fn does_not_match_unrelated_commands() {
    assert!(!is_tokenwatch_command("node my-statusline.mjs"));
    assert!(!is_tokenwatch_command("powershell -c echo"));
    assert!(!is_tokenwatch_command("/usr/bin/echo hi"));
}

#[test]
fn is_ours_wrap_command_matches_relocated_bin_dir() {
    assert!(is_ours_wrap_command(Platform::Windows, "node \"/custom/bin/ccstatusline-rs.mjs\""));
    assert!(is_ours_wrap_command(Platform::Windows, "node \"/other/bin/ccstatusline-rs.mjs\""));
    assert!(is_ours_wrap_command(Platform::Posix, "'/home/u/.local/bin/ccstatusline-rs'"));
    assert!(!is_ours_wrap_command(Platform::Posix, "'/home/u/.local/bin/ccstatusline-rs-old'"));
    assert!(contains_basename("a b", "b"));
    assert!(!contains_basename("ab", "b"));
}

#[test]
fn wrap_install_writes_posix_compose_command_form() {
    let cmd = compose_command(Platform::Posix, "/home/u/bin/ccstatusline-rs", None);
    assert_eq!(cmd, "'/home/u/bin/ccstatusline-rs'");
    assert!(is_ours_wrap_command(Platform::Posix, &cmd));
    let win = compose_command(Platform::Windows, "C:\\b\\ccstatusline-rs.exe", Some("C:\\b\\ccstatusline-rs.mjs"));
    assert!(is_ours_wrap_command(Platform::Windows, &win));
}

#[test]
fn install_mode_follows_the_status_line() {
    assert_eq!(install_mode(None), InstallMode::Direct);
    assert_eq!(install_mode(Some("")), InstallMode::Direct);
    assert_eq!(install_mode(Some("node old.mjs")), InstallMode::Direct);
    assert_eq!(install_mode(Some("node /fake/neo-mem/1.2.10/scripts/tokenwatch-statusline.mjs")), InstallMode::Wrap);
}

#[test]
fn wrap_pointer_checks() {
    let path = "/h/.cfg/.tw-statusline-prev.json";
    assert_eq!(check_wrap_pointer(Platform::Posix, path, &PrevFile::Absent).unwrap(), None);
    match check_wrap_pointer(Platform::Posix, path, &PrevFile::Unparsable) {
        Err(Error::InvalidPrev { path: p }) => assert_eq!(p, path),
        _ => panic!("expected InvalidPrev"),
    }
    let ours = PrevFile::Parsed { command: "'/old/bin/ccstatusline-rs'".into() };
    assert_eq!(check_wrap_pointer(Platform::Posix, path, &ours).unwrap().as_deref(), Some("'/old/bin/ccstatusline-rs'"));
    let other = PrevFile::Parsed { command: "node other-tool.mjs".into() };
    match check_wrap_pointer(Platform::Posix, path, &other) {
        Err(Error::WrapConflict { path: p, existing_command }) => {
            assert_eq!(p, path);
            assert!(existing_command.contains("other-tool.mjs"));
        },
        _ => panic!("expected WrapConflict"),
    }
}

const TW: &str = "node /fake/neo-mem/1.2.10/scripts/tokenwatch-statusline.mjs";
const S: &str = "/h/.cfg/settings.json";
const P: &str = "/h/.cfg/.tw-statusline-prev.json";

fn ours() -> PrevFile {
    PrevFile::Parsed { command: "node /some/path/ccstatusline-rs".into() }
}

#[test]
fn wrap_uninstall_resolves_to_wrap() {
    assert!(matches!(plan_uninstall(Platform::Posix, S, P, None, Some(TW), &ours(), None), Ok(UninstallPlan::Wrap)));
}

#[test]
fn wrap_uninstall_requires_positive_evidence() {
    match plan_uninstall(Platform::Posix, S, P, None, Some(TW), &PrevFile::Absent, None) {
        Err(Error::NoInstallTraces { settings, prev_path }) => {
            assert_eq!(settings, S);
            assert_eq!(prev_path, P);
        },
        _ => panic!("expected NoInstallTraces"),
    }
}

#[test]
fn wrap_uninstall_stale_pointer_fails_loudly() {
    match plan_uninstall(Platform::Posix, S, P, None, None, &ours(), Some("b")) {
        Err(Error::StaleWrapPointer { prev_path, settings_command }) => {
            assert_eq!(prev_path, P);
            assert_eq!(settings_command, "");
        },
        _ => panic!("expected StaleWrapPointer"),
    }
}

#[test]
fn uninstall_backup_flag_forces_direct() {
    match plan_uninstall(Platform::Posix, S, P, Some("no-such-backup.bak"), Some(TW), &ours(), None) {
        Ok(UninstallPlan::Direct { restore_from }) => assert_eq!(restore_from, "no-such-backup.bak"),
        _ => panic!("expected direct"),
    }
}

#[test]
fn uninstall_fails_when_no_traces() {
    assert!(matches!(
        plan_uninstall(Platform::Posix, S, P, None, Some("node other.mjs"), &PrevFile::Absent, None),
        Err(Error::NoInstallTraces { .. })
    ));
}

#[test]
fn uninstall_restores_latest_backup_or_reports_missing() {
    match plan_uninstall(Platform::Posix, S, P, None, Some("'/x/ccstatusline-rs'"), &PrevFile::Absent, Some("/h/.cfg/b1")) {
        Ok(UninstallPlan::Direct { restore_from }) => assert_eq!(restore_from, "/h/.cfg/b1"),
        _ => panic!("expected direct"),
    }
    match plan_uninstall(Platform::Posix, S, P, None, Some("'/x/ccstatusline-rs'"), &PrevFile::Absent, None) {
        Err(Error::NoBackupFound { settings }) => assert_eq!(settings, S),
        _ => panic!("expected NoBackupFound"),
    }
}

#[test]
fn binary_copy_decision() {
    assert!(!should_copy_binary(true, true, true, false));
    assert!(!should_copy_binary(false, true, false, true));
    assert!(should_copy_binary(false, true, true, true));
    assert!(should_copy_binary(false, false, false, false));
    assert!(should_copy_binary(false, true, false, false));
}

#[test]
fn platform_names_and_dirs() {
    assert_eq!(Platform::Windows.exe_basename(), "ccstatusline-rs.exe");
    assert_eq!(Platform::Posix.exe_basename(), "ccstatusline-rs");
    assert_eq!(Platform::Windows.ours_basename(), "ccstatusline-rs.mjs");
    assert_eq!(default_bin_dir_parts(Platform::Posix), vec![".local", "bin"]);
    assert_eq!(default_bin_dir_parts(Platform::Windows), vec!["bin"]);
    assert_eq!(Platform::from_separator('\\'), Platform::Windows);
    assert_eq!(Platform::from_separator('/'), Platform::Posix);
    let here = Platform::current();
    assert_eq!(here == Platform::Windows, std::path::MAIN_SEPARATOR == '\\');
}

#[test]
fn shell_quote_round_trips_through_sh_rules() {
    // Read a quoted word back with the POSIX rules: single-quoted runs and
    // backslash escapes.
    fn unquote(t: &str) -> String {
        let mut out = String::new();
        let mut quoted = false;
        let mut chars = t.chars();
        while let Some(c) = chars.next() {
            if quoted {
                if c == '\'' { quoted = false } else { out.push(c) }
            } else if c == '\'' {
                quoted = true;
            } else if c == '\\' {
                out.push(chars.next().unwrap());
            } else {
                panic!("bare character outside quotes");
            }
        }
        assert!(!quoted);
        out
    }
    for s in ["", "plain", "it's", "''", "a b\\c", "o'reilly's \"x\""] {
        assert_eq!(unquote(&posix_shell_quote(s)), s);
    }
}

#[test]
fn wrap_install_when_tokenwatch_present() {
    let plan = plan_install(Platform::Posix, "/h/bin/ccstatusline-rs", None, true, Some(TW), P, &PrevFile::Absent).unwrap();
    match plan {
        InstallPlan::Wrap { command, previous_wrap_command } => {
            assert_eq!(command, "'/h/bin/ccstatusline-rs'");
            assert_eq!(previous_wrap_command, None);
        },
        _ => panic!("expected wrap mode"),
    }
}

#[test]
fn wrap_install_relocation_overwrites_prev() {
    let old = PrevFile::Parsed { command: "'/h/bin-a/ccstatusline-rs'".into() };
    match plan_install(Platform::Posix, "/h/bin-b/ccstatusline-rs", None, true, Some(TW), P, &old).unwrap() {
        InstallPlan::Wrap { command, previous_wrap_command } => {
            assert_eq!(command, "'/h/bin-b/ccstatusline-rs'");
            assert_eq!(previous_wrap_command.as_deref(), Some("'/h/bin-a/ccstatusline-rs'"));
        },
        _ => panic!("expected wrap mode"),
    }
}

#[test]
fn wrap_install_rejects_pre_existing_other_wrap() {
    let other = PrevFile::Parsed { command: "node other-tool.mjs".into() };
    match plan_install(Platform::Posix, "/h/bin/ccstatusline-rs", None, true, Some(TW), P, &other) {
        Err(Error::WrapConflict { existing_command, .. }) => assert!(existing_command.contains("other-tool.mjs")),
        _ => panic!("expected WrapConflict"),
    }
}

#[test]
fn wrap_install_rejects_invalid_prev_json() {
    assert!(matches!(
        plan_install(Platform::Posix, "/h/bin/ccstatusline-rs", None, true, Some(TW), P, &PrevFile::Unparsable),
        Err(Error::InvalidPrev { .. })
    ));
}

#[test]
fn direct_install_unchanged_behavior() {
    let garbage = PrevFile::Unparsable;
    match plan_install(Platform::Windows, "C:\\b\\ccstatusline-rs.exe", Some("C:\\b\\ccstatusline-rs.mjs"), true, Some("node old.mjs"), P, &garbage).unwrap() {
        InstallPlan::Direct { command, backup_settings } => {
            assert_eq!(command, "node \"C:\\\\b\\\\ccstatusline-rs.mjs\"");
            assert!(backup_settings);
        },
        _ => panic!("expected direct mode"),
    }
    match plan_install(Platform::Posix, "/b/ccstatusline-rs", None, false, None, P, &PrevFile::Absent).unwrap() {
        InstallPlan::Direct { backup_settings, .. } => assert!(!backup_settings),
        _ => panic!("expected direct mode"),
    }
}

#[test]
fn second_install_skips_copy_and_forced_one_copies() {
    // First install into an empty bin dir copies.
    assert!(should_copy_binary(false, false, false, false));
    // The destination now holds the same bytes: no second copy ...
    assert!(!should_copy_binary(false, true, false, true));
    // ... unless forced.
    assert!(should_copy_binary(false, true, true, true));
}

#[test]
fn install_backup_is_what_uninstall_restores() {
    let mut names = vec!["settings.json".to_string(), "other.txt".to_string()];
    let backup = next_backup_name(Some("settings.json"), "20260514-101500", &names).unwrap();
    assert_eq!(backup, "settings.json.ccstatusline-rs-bak-20260514-101500-000");
    names.push(backup.clone());
    assert_eq!(latest_backup(Some("settings.json"), &names).unwrap(), Some(2));
    let ours = "'/home/u/.local/bin/ccstatusline-rs'";
    match plan_uninstall(Platform::Posix, "settings.json", ".tw-statusline-prev.json", None, Some(ours), &PrevFile::Absent, Some(&backup)) {
        Ok(UninstallPlan::Direct { restore_from }) => assert_eq!(restore_from, backup),
        _ => panic!("expected a direct restore"),
    }
}

#[test]
fn purge_targets_are_binary_and_wrapper_only() {
    assert_eq!(purge_targets(Platform::Posix), vec!["ccstatusline-rs", "ccstatusline-rs.mjs"]);
    assert_eq!(purge_targets(Platform::Windows), vec!["ccstatusline-rs.exe", "ccstatusline-rs.mjs"]);
}
