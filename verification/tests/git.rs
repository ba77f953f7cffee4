use ccstatusline_rs::context::git::{
    cache_is_fresh, parse_branch_header, parse_porcelain, parse_shortstat, probe, DiffShortstat, GitCommand,
    GitProbe, GitState, PorcelainCounts, ProbeAction, ProbeEvent, ProbeStage,
};

#[test]
fn parse_porcelain_empty() {
    let (branch, counts) = parse_porcelain(b"");
    assert!(branch.is_none());
    assert!(counts.is_clean());
}

#[test]
fn parse_porcelain_branch_only() {
    let raw = b"## main...origin/main\0";
    let (branch, counts) = parse_porcelain(raw);
    assert_eq!(branch.as_deref(), Some("main"));
    assert!(counts.is_clean());
}

#[test]
fn parse_porcelain_counts_staged_unstaged_untracked() {
    let mut raw: Vec<u8> = b"## main\0".to_vec();
    raw.extend_from_slice(b"M  staged.rs\0");
    raw.extend_from_slice(b" M unstaged.rs\0");
    raw.extend_from_slice(b"?? newfile.rs\0");
    let (_, counts) = parse_porcelain(&raw);
    assert_eq!(counts.staged, 1);
    assert_eq!(counts.unstaged, 1);
    assert_eq!(counts.untracked, 1);
    assert_eq!(counts.conflicts, 0);
}

#[test]
fn parse_porcelain_detects_conflicts() {
    let mut raw: Vec<u8> = b"## main\0".to_vec();
    raw.extend_from_slice(b"UU conflict.rs\0");
    let (_, counts) = parse_porcelain(&raw);
    assert_eq!(counts.conflicts, 1);
    assert_eq!(counts.staged, 0);
    assert_eq!(counts.unstaged, 0);
}

#[test]
fn parse_porcelain_rename_consumes_oldpath() {
    let mut raw: Vec<u8> = b"## main\0".to_vec();
    raw.extend_from_slice(b"R  new.rs\0");
    raw.extend_from_slice(b"old.rs\0");
    raw.extend_from_slice(b"?? another.rs\0");
    let (_, counts) = parse_porcelain(&raw);
    assert_eq!(counts.staged, 1);
    assert_eq!(counts.untracked, 1);
}

#[test]
fn parse_porcelain_detached_head() {
    let raw = b"## HEAD (no branch)\0";
    let (branch, counts) = parse_porcelain(raw);
    assert!(branch.is_none());
    assert!(counts.is_clean());
}

#[test]
fn parse_porcelain_ignored_and_both_sides() {
    let mut raw: Vec<u8> = b"## feature/x...origin/feature/x [ahead 1]\0".to_vec();
    raw.extend_from_slice(b"!! target/\0");
    raw.extend_from_slice(b"MM both.rs\0");
    raw.extend_from_slice(b"AA added-twice.rs\0");
    raw.extend_from_slice(b"C  copy.rs\0");
    raw.extend_from_slice(b"orig.rs\0");
    let (branch, counts) = parse_porcelain(&raw);
    assert_eq!(branch.as_deref(), Some("feature/x"));
    assert_eq!(counts, PorcelainCounts { staged: 2, unstaged: 1, untracked: 0, conflicts: 1 });
}

#[test]
fn parse_porcelain_without_header_counts_first_entry() {
    let (branch, counts) = parse_porcelain(b"?? a\0?? b\0");
    assert!(branch.is_none());
    assert_eq!(counts.untracked, 2);
}

#[test]
fn branch_header_variants() {
    assert_eq!(parse_branch_header("## main").as_deref(), Some("main"));
    assert_eq!(parse_branch_header("##  dev ...origin/dev").as_deref(), Some("dev"));
    assert_eq!(parse_branch_header("## HEAD (no branch)"), None);
    assert_eq!(parse_branch_header("## "), None);
    assert_eq!(parse_branch_header("# main"), None);
}

#[test]
fn branch_header_before_first_commit_names_no_branch() {
    assert_eq!(parse_branch_header("## No commits yet on main"), None);
    assert_eq!(parse_branch_header("## Initial commit on master"), None);
    assert_eq!(parse_branch_header("## No commits yet on main...origin/main"), None);
}

#[test]
fn parse_shortstat_full() {
    let s = parse_shortstat(" 5 files changed, 100 insertions(+), 20 deletions(-)");
    assert_eq!(s.files_changed, 5);
    assert_eq!(s.insertions, 100);
    assert_eq!(s.deletions, 20);
}

#[test]
fn parse_shortstat_only_insertions() {
    let s = parse_shortstat(" 1 file changed, 3 insertions(+)");
    assert_eq!(s.files_changed, 1);
    assert_eq!(s.insertions, 3);
    assert_eq!(s.deletions, 0);
}

#[test]
fn parse_shortstat_empty() {
    let s = parse_shortstat("");
    assert_eq!(s, DiffShortstat::default());
}

#[test]
fn parse_shortstat_only_deletions_and_garbage() {
    let s = parse_shortstat(" 2 files changed, 7 deletions(-)\n");
    assert_eq!(s, DiffShortstat { insertions: 0, deletions: 7, files_changed: 2 });
    let g = parse_shortstat("x files changed, 99999999999 insertions(+)");
    assert_eq!(g, DiffShortstat::default());
}

fn run_git(action: &ProbeAction) -> (String, GitCommand) {
    match action {
        ProbeAction::RunGit { dir, command } => (dir.clone(), *command),
        _ => panic!("expected a git command"),
    }
}

#[test]
fn probe_on_non_repo_yields_none() {
    let (m, a) = probe("/tmp/not-a-repo".into());
    assert_eq!(run_git(&a), ("/tmp/not-a-repo".to_string(), GitCommand::ShowToplevel));
    let (m, a) = m.step(ProbeEvent::Git(None));
    assert_eq!(m.stage, ProbeStage::Done);
    assert!(matches!(a, ProbeAction::Finish { state: None, store: false }));
}

#[test]
fn probe_walks_every_command_then_stamps() {
    let (m, _) = probe("/work/sub".into());
    let (m, a) = m.step(ProbeEvent::Git(Some(b"/work\n".to_vec())));
    match &a {
        ProbeAction::ReadCache { repo_root } => assert_eq!(repo_root, "/work"),
        _ => panic!("expected a cache lookup"),
    }
    let (m, a) = m.step(ProbeEvent::Cache(None));
    assert_eq!(run_git(&a), ("/work".to_string(), GitCommand::Status));
    let (m, a) = m.step(ProbeEvent::Git(Some(b"## HEAD (no branch)\0 M f.rs\0".to_vec())));
    assert_eq!(run_git(&a).1, GitCommand::AbbrevRef);
    let (m, a) = m.step(ProbeEvent::Git(Some(b"topic\n".to_vec())));
    assert_eq!(run_git(&a).1, GitCommand::DiffUnstaged);
    let (m, a) = m.step(ProbeEvent::Git(Some(b" 1 file changed, 3 insertions(+), 1 deletion(-)\n".to_vec())));
    assert_eq!(run_git(&a).1, GitCommand::DiffStaged);
    let (m, a) = m.step(ProbeEvent::Git(None));
    assert!(matches!(a, ProbeAction::ReadClock));
    let (m, a) = m.step(ProbeEvent::Clock(1_700_000_000));
    assert_eq!(m.stage, ProbeStage::Done);
    match a {
        ProbeAction::Finish { state: Some(st), store: true } => {
            assert_eq!(st.repo_root, "/work");
            assert_eq!(st.branch.as_deref(), Some("topic"));
            assert_eq!(st.porcelain.unstaged, 1);
            assert_eq!(st.diff, DiffShortstat { insertions: 3, deletions: 1, files_changed: 1 });
            assert_eq!(st.captured_at, 1_700_000_000);
        },
        _ => panic!("expected a snapshot"),
    }
}

#[test]
fn probe_skips_the_fallback_when_the_header_names_a_branch() {
    let (m, _) = probe("/w".into());
    let (m, _) = m.step(ProbeEvent::Git(Some(b"/w".to_vec())));
    let (m, _) = m.step(ProbeEvent::Cache(None));
    let (m, a) = m.step(ProbeEvent::Git(Some(b"## main\0".to_vec())));
    assert_eq!(run_git(&a).1, GitCommand::DiffUnstaged);
    assert_eq!(m.branch.as_deref(), Some("main"));
}

#[test]
fn probe_head_fallback_rejects_detached_output() {
    let (m, _) = probe("/w".into());
    let (m, _) = m.step(ProbeEvent::Git(Some(b"/w".to_vec())));
    let (m, _) = m.step(ProbeEvent::Cache(None));
    let (m, _) = m.step(ProbeEvent::Git(Some(b"".to_vec())));
    let (m, _) = m.step(ProbeEvent::Git(Some(b"HEAD\n".to_vec())));
    assert_eq!(m.branch, None);
}

#[test]
fn probe_returns_a_fresh_cache_hit() {
    let cached = GitState {
        repo_root: "/w".into(),
        branch: Some("main".into()),
        porcelain: PorcelainCounts::default(),
        diff: DiffShortstat::default(),
        captured_at: 5,
    };
    let (m, _) = probe("/w".into());
    let (m, _) = m.step(ProbeEvent::Git(Some(b"  /w  ".to_vec())));
    let (_, a) = m.step(ProbeEvent::Cache(Some(cached)));
    match a {
        ProbeAction::Finish { state: Some(st), store: false } => assert_eq!(st.captured_at, 5),
        _ => panic!("expected the cached snapshot"),
    }
}

#[test]
fn probe_blank_toplevel_and_failed_status_yield_none() {
    let (m, _) = probe("/w".into());
    let (_, a) = m.step(ProbeEvent::Git(Some(b"  \n".to_vec())));
    assert!(matches!(a, ProbeAction::Finish { state: None, store: false }));
    let (m, _) = probe("/w".into());
    let (m, _) = m.step(ProbeEvent::Git(Some(b"/w".to_vec())));
    let (m, _) = m.step(ProbeEvent::Cache(None));
    let (_, a) = m.step(ProbeEvent::Git(None));
    assert!(matches!(a, ProbeAction::Finish { state: None, store: false }));
}

#[test]
fn probe_diff_sums_wrap_in_32_bits() {
    let mut m: GitProbe = probe("/w".into()).0;
    m.stage = ProbeStage::Staged;
    m.unstaged = DiffShortstat { insertions: u32::MAX, deletions: 1, files_changed: 0 };
    let (m, _) = m.step(ProbeEvent::Git(Some(b" 2 insertions(+), 3 deletions(-)".to_vec())));
    assert_eq!(m.diff, DiffShortstat { insertions: 1, deletions: 4, files_changed: 0 });
}

#[test]
fn git_command_arguments() {
    assert_eq!(GitCommand::Status.args(), vec!["--no-optional-locks", "status", "--porcelain=v1", "--branch", "-z"]);
    assert_eq!(GitCommand::ShowToplevel.args(), vec!["rev-parse", "--show-toplevel"]);
    assert_eq!(GitCommand::AbbrevRef.args(), vec!["rev-parse", "--abbrev-ref", "HEAD"]);
    assert_eq!(GitCommand::DiffUnstaged.args(), vec!["diff", "--shortstat"]);
    assert_eq!(GitCommand::DiffStaged.args(), vec!["diff", "--cached", "--shortstat"]);
}

#[test]
fn cache_freshness_window() {
    let t = 10_000_000_000u128;
    assert!(cache_is_fresh(t, t));
    assert!(cache_is_fresh(t, t + 2_000_000_000));
    assert!(!cache_is_fresh(t, t + 2_000_000_001));
    assert!(!cache_is_fresh(t + 1, t));
}

#[test]
fn porcelain_before_first_commit_leaves_branch_to_fallback() {
    let (branch, counts) = parse_porcelain(b"## No commits yet on main\0A  a.txt\0?? b.txt\0");
    assert_eq!(branch, None);
    assert_eq!(counts.staged, 1);
    assert_eq!(counts.untracked, 1);
}
