use tabby_zj::state::{GitStatus, PluginState};
use tabby_zj::widgets::git::render_git;
use tabby_zj::widgets::stats::stats_line;
use tabby_zj::widgets::{render_pinned, render_pinned_lines};

fn make_status(branch: &str, dirty: usize, staged: usize, ahead: usize, behind: usize) -> GitStatus {
    GitStatus {
        branch: branch.to_string(),
        dirty,
        staged,
        ahead,
        behind,
    }
}

#[test]
fn test_none_returns_empty() {
    assert!(render_git(&None).is_empty());
}

#[test]
fn test_clean_repo_shows_checkmark() {
    let lines = render_git(&Some(make_status("main", 0, 0, 0, 0)));
    assert_eq!(lines.len(), 2);
    assert!(lines[0].contains("main"));
    assert!(lines[1].contains("clean"));
}

#[test]
fn test_dirty_shows_tilde_count() {
    let lines = render_git(&Some(make_status("main", 3, 0, 0, 0)));
    assert!(lines[1].contains("~3"), "got: {:?}", lines[1]);
}

#[test]
fn test_staged_shows_plus_count() {
    let lines = render_git(&Some(make_status("feat/x", 0, 2, 0, 0)));
    assert!(lines[1].contains("+2"), "got: {:?}", lines[1]);
}

#[test]
fn test_ahead_behind_shown() {
    let lines = render_git(&Some(make_status("main", 0, 0, 1, 2)));
    assert!(lines[1].contains("↑1"), "got: {:?}", lines[1]);
    assert!(lines[1].contains("↓2"), "got: {:?}", lines[1]);
}

#[test]
fn test_all_fields_combined() {
    let lines = render_git(&Some(make_status("dev", 1, 2, 3, 4)));
    assert!(lines[1].contains("+2"));
    assert!(lines[1].contains("~1"));
    assert!(lines[1].contains("↑3"));
    assert!(lines[1].contains("↓4"));
}

#[test]
fn test_branch_name_in_first_line() {
    let lines = render_git(&Some(make_status("feature/my-branch", 0, 0, 0, 0)));
    assert!(lines[0].contains("feature/my-branch"));
}

#[test]
fn git_lines_exact() {
    let lines = render_git(&Some(make_status("dev", 1, 2, 3, 4)));
    assert_eq!(lines, vec![" dev".to_string(), " +2 ~1 ↑3 ↓4".to_string()]);
    let clean = render_git(&Some(make_status("m", 0, 0, 0, 0)));
    assert_eq!(clean[1], " ✓ clean");
}

#[test]
fn test_render_pinned_no_widgets_returns_spaces() {
    let mut state = PluginState::default();
    state.config.widgets.clock.enabled = false;
    state.config.widgets.git.enabled = false;
    let line = render_pinned(&state, 20, "12:34");
    assert_eq!(line.len(), 20);
    assert!(line.chars().all(|c| c == ' '));
}

#[test]
fn test_render_pinned_pads_to_cols() {
    let mut state = PluginState::default();
    state.config.widgets.clock.enabled = true;
    state.config.widgets.git.enabled = false;
    let line = render_pinned(&state, 30, "12:34");
    assert_eq!(line.chars().count(), 30);
}

#[test]
fn test_render_pinned_clock_on_left() {
    let mut state = PluginState::default();
    state.config.widgets.clock.enabled = true;
    state.config.widgets.git.enabled = false;
    let line = render_pinned(&state, 20, "12:34");
    let re = regex::Regex::new(r"^\d{2}:\d{2}").expect("valid static regex pattern");
    assert!(re.is_match(&line), "clock should be on the left: {:?}", line);
}

#[test]
fn test_render_pinned_git_on_right() {
    let mut state = PluginState::default();
    state.config.widgets.clock.enabled = false;
    state.config.widgets.git.enabled = true;
    state.git_status = Some(GitStatus {
        branch: "main".into(),
        ..GitStatus::default()
    });
    let line = render_pinned(&state, 20, "12:34");
    assert!(line.contains("main"), "git branch should appear: {:?}", line);
    assert_eq!(line.chars().count(), 20);
}

#[test]
fn test_render_pinned_clock_and_git_both_shown() {
    let mut state = PluginState::default();
    state.config.widgets.clock.enabled = true;
    state.config.widgets.git.enabled = true;
    state.git_status = Some(GitStatus {
        branch: "dev".into(),
        ..GitStatus::default()
    });
    let line = render_pinned(&state, 30, "12:34");
    assert_eq!(line.chars().count(), 30);
    assert!(line.contains("dev"), "branch should appear");
    let re = regex::Regex::new(r"\d{2}:\d{2}").expect("valid static regex pattern");
    assert!(re.is_match(&line), "clock should appear");
}

#[test]
fn test_render_pinned_ignores_stats_on_primary_line() {
    let mut state = PluginState::default();
    state.config.widgets.clock.enabled = false;
    state.config.widgets.git.enabled = false;
    state.config.widgets.stats.enabled = true;
    let stats = stats_line(&Some("23".to_string()), &Some("4.2".to_string()), Some(87));
    let lines = render_pinned_lines(&state, 40, "12:34", &stats, &None);
    let line = render_pinned(&state, 40, "12:34");
    assert_eq!(lines[0], line);
    assert!(!line.contains("CPU:"));
    assert!(!line.contains("MEM:"));
    assert!(!line.contains("BAT:"));
    assert!(lines[1].contains("CPU:23%"));
}

#[test]
fn pinned_line_keeps_a_space_between_long_parts() {
    let mut state = PluginState::default();
    state.git_status = Some(GitStatus {
        branch: "branch".into(),
        ..GitStatus::default()
    });
    let line = render_pinned(&state, 10, "12:34:56");
    assert_eq!(line, "12:34:56 branch");
    state.config.widgets.clock.enabled = false;
    assert_eq!(render_pinned(&state, 10, "x"), "    branch");
}
