use tabby_zj::pet::animation::{frames_for_mood, Animation, Mood};
use tabby_zj::pet::render::{render_pet, PetBars};
use tabby_zj::state::PluginState;
use tabby_zj::text::fit_line;
use tabby_zj::widgets::quota::QuotaData;
use tabby_zj::widgets::render_pinned_lines;
use tabby_zj::widgets::stats::{stats_fields, stats_line};

fn bars(name: &str, hunger: usize, happiness: usize, energy: usize) -> PetBars {
    PetBars { name: name.to_string(), hunger, happiness, energy }
}

#[test]
fn stats_fields_full_report() {
    let f = stats_fields("cpu=23 mem=4.2/16.0 bat=87");
    assert_eq!(f.cpu.as_deref(), Some("23"));
    assert_eq!(f.mem_used.as_deref(), Some("4.2"));
    assert_eq!(f.mem_total.as_deref(), Some("16.0"));
    assert_eq!(f.battery_pct, Some(87));
}

#[test]
fn stats_fields_empty_report() {
    let f = stats_fields("");
    assert!(f.cpu.is_none());
    assert!(f.mem_used.is_none());
    assert!(f.mem_total.is_none());
    assert!(f.battery_pct.is_none());
}

#[test]
fn stats_fields_partial_and_spaced_report() {
    let f = stats_fields("  cpu=50 \t bat=92\n");
    assert_eq!(f.cpu.as_deref(), Some("50"));
    assert!(f.mem_used.is_none());
    assert_eq!(f.battery_pct, Some(92));
}

#[test]
fn stats_fields_memory_needs_a_slash() {
    let f = stats_fields("mem=x/y mem=12");
    assert_eq!(f.mem_used.as_deref(), Some("x"));
    assert_eq!(f.mem_total.as_deref(), Some("y"));
}

#[test]
fn stats_fields_battery_must_be_a_byte() {
    assert_eq!(stats_fields("bat=256").battery_pct, None);
    assert_eq!(stats_fields("bat=+7").battery_pct, Some(7));
    assert_eq!(stats_fields("bat=abc").battery_pct, None);
    assert_eq!(stats_fields("bat=50 bat=").battery_pct, None);
}

#[test]
fn stats_fields_last_word_wins_and_others_ignored() {
    let f = stats_fields("cpu=1 gpu=9 cpu=2 nonsense");
    assert_eq!(f.cpu.as_deref(), Some("2"));
}

#[test]
fn stats_line_all_parts() {
    let s = stats_line(&Some("23".to_string()), &Some("4.2".to_string()), Some(87));
    assert_eq!(s, "CPU:23% MEM:4.2G BAT:87%");
}

#[test]
fn stats_line_some_parts() {
    assert_eq!(stats_line(&Some("10".to_string()), &None, None), "CPU:10%");
    assert_eq!(stats_line(&None, &None, Some(0)), "BAT:0%");
    assert_eq!(stats_line(&None, &None, None), "");
}

#[test]
fn fit_line_pads_and_cuts() {
    assert_eq!(fit_line("ab", 4), "ab  ");
    assert_eq!(fit_line("abcdef", 3), "abc");
    assert_eq!(fit_line("abc", 0), "");
}

#[test]
fn pet_lines_exact() {
    let lines = render_pet(&bars("Luna", 5, 3, 0), "(=^·ω·^=)", 30);
    assert_eq!(lines.len(), 3);
    assert_eq!(lines[0], format!("Luna {}", " ".repeat(25)));
    assert_eq!(lines[1], format!("(=^·ω·^=){}", " ".repeat(21)));
    assert_eq!(lines[2], "H[█████] J[███░░] E[░░░░░]    ");
    let narrow = render_pet(&bars("Luna", 5, 3, 0), "(=^·ω·^=)", 25);
    assert_eq!(narrow[2], "H[█████] J[███░░] E[░░░░░");
}

#[test]
fn pet_lines_padded_or_cut_to_cols() {
    for cols in [5usize, 30] {
        let lines = render_pet(&bars("Whiskers", 4, 4, 5), "(=^·ω·^=)", cols);
        for line in &lines {
            assert_eq!(line.chars().count(), cols);
        }
    }
}

#[test]
fn pet_bar_overfull_has_no_empty_cells() {
    let lines = render_pet(&bars("x", 6, 0, 0), "x", 40);
    assert!(lines[2].starts_with("H[██████] J"));
}

#[test]
fn pinned_lines_include_stats_line_when_enabled() {
    let mut state = PluginState::default();
    state.config.widgets.stats.enabled = true;
    let lines = render_pinned_lines(&state, 30, "", "CPU:10% MEM:2.0G BAT:90%", &None);
    assert!(lines.len() >= 2);
    assert!(lines[1].contains("CPU:10%"));
    assert_eq!(lines[1].chars().count(), 30);
}

#[test]
fn pinned_lines_skip_disabled_and_empty_widgets() {
    let mut state = PluginState::default();
    state.config.widgets.stats.enabled = false;
    state.config.widgets.quota.enabled = true;
    state.config.widgets.pet.enabled = false;
    let lines = render_pinned_lines(&state, 20, "", "CPU:10%", &Some(bars("Luna", 1, 1, 1)));
    assert_eq!(lines.len(), 1);
}

#[test]
fn pinned_lines_quota_and_pet() {
    let mut state = PluginState::default();
    state.config.widgets.quota.enabled = true;
    state.config.widgets.pet.enabled = true;
    state.quota = Some(QuotaData {
        remaining: Some(450),
        limit: Some(1000),
        resets: None,
        label: Some("Tokens".to_string()),
    });
    state.pet_animation = Some(Animation::new(frames_for_mood(&Mood::Happy), 4));
    let lines = render_pinned_lines(&state, 30, "", "", &Some(bars("Luna", 5, 5, 5)));
    assert_eq!(lines.len(), 5);
    assert!(lines[1].starts_with("Tokens: 450/1000"));
    assert!(lines[2].starts_with("Luna "));
    assert!(lines[3].starts_with("(=^◕ᴥ◕^=)"));
    assert!(lines[4].starts_with("H[█████]"));
}

#[test]
fn pinned_lines_default_face_without_animation() {
    let mut state = PluginState::default();
    state.config.widgets.pet.enabled = true;
    let lines = render_pinned_lines(&state, 20, "", "", &Some(bars("Luna", 0, 0, 0)));
    assert!(lines.iter().any(|l| l.starts_with("(=^·ω·^=)")));
}
