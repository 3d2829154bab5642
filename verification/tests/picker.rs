use tabby_zj::picker::{filter_entries, render_picker, render_picker_checked, EmojiEntry, EmojiPickerState};

#[test]
fn test_new_has_non_empty_results() {
    let picker = EmojiPickerState::new(0);
    assert!(!picker.results.is_empty());
}

#[test]
fn test_new_query_is_empty() {
    let picker = EmojiPickerState::new(0);
    assert_eq!(picker.query, "");
}

#[test]
fn test_new_selected_is_zero() {
    let picker = EmojiPickerState::new(0);
    assert_eq!(picker.selected, 0);
}

#[test]
fn test_new_target_tab() {
    let picker = EmojiPickerState::new(7);
    assert_eq!(picker.target_tab, 7);
}

#[test]
fn test_empty_query_returns_all() {
    let picker = EmojiPickerState::new(0);
    let all_count = emojis::iter().count();
    assert_eq!(picker.results.len(), all_count);
}

#[test]
fn test_filter_cat_returns_cat_emoji() {
    let mut picker = EmojiPickerState::new(0);
    picker.query = "cat".into();
    picker.filter();
    assert!(!picker.results.is_empty(), "filtering 'cat' should return results");
    for emoji in &picker.results {
        assert!(
            emoji.name.to_lowercase().contains("cat"),
            "expected 'cat' in name '{}' but wasn't",
            emoji.name
        );
    }
}

#[test]
fn test_filter_resets_selected_to_zero() {
    let mut picker = EmojiPickerState::new(0);
    picker.selected = 5;
    picker.query = "cat".into();
    picker.filter();
    assert_eq!(picker.selected, 0);
}

#[test]
fn test_filter_empty_query_shows_all() {
    let mut picker = EmojiPickerState::new(0);
    picker.query = "cat".into();
    picker.filter();
    let cat_count = picker.results.len();
    picker.query.clear();
    picker.filter();
    let all_count = emojis::iter().count();
    assert!(picker.results.len() > cat_count);
    assert_eq!(picker.results.len(), all_count);
}

#[test]
fn test_selected_emoji_returns_correct() {
    let mut picker = EmojiPickerState::new(0);
    picker.query = "cat".into();
    picker.filter();
    let emoji = picker.selected_emoji();
    assert!(emoji.is_some());
}

#[test]
fn test_selected_emoji_safe_when_empty_results() {
    let mut picker = EmojiPickerState::new(0);
    picker.query = "xyznotanemoji999abc".into();
    picker.filter();
    let _ = picker.selected_emoji();
}

#[test]
fn test_backspace_removes_last_char() {
    let mut picker = EmojiPickerState::new(0);
    picker.query = "cat".into();
    picker.query.pop();
    picker.filter();
    assert_eq!(picker.query, "ca");
}

#[test]
fn test_clone_works() {
    let picker = EmojiPickerState::new(3);
    let cloned = picker.clone();
    assert_eq!(cloned.target_tab, 3);
    assert_eq!(cloned.results.len(), picker.results.len());
}

#[test]
fn test_render_picker_has_header_as_first_line() {
    let picker = EmojiPickerState::new(0);
    let lines = render_picker(&picker, 20);
    assert!(!lines.is_empty());
    assert!(lines[0].contains("Search:"));
    assert!(lines[0].contains('\u{2588}'));
}

#[test]
fn test_render_picker_header_contains_query() {
    let mut picker = EmojiPickerState::new(0);
    picker.query = "cat".into();
    picker.filter();
    let lines = render_picker(&picker, 30);
    assert!(lines[0].contains("cat"));
}

#[test]
fn test_render_picker_no_results_shows_message() {
    let mut picker = EmojiPickerState::new(0);
    picker.query = "xyznotanemoji999abc".into();
    picker.filter();
    if picker.results.is_empty() {
        let lines = render_picker(&picker, 20);
        assert!(lines.iter().any(|l| l.contains("No results")));
    }
}

#[test]
fn test_render_picker_multiple_lines_when_results_exist() {
    let picker = EmojiPickerState::new(0);
    let lines = render_picker(&picker, 20);
    assert!(lines.len() >= 2);
}

#[test]
fn test_render_picker_selected_highlighted_with_reverse_video() {
    let mut picker = EmojiPickerState::new(0);
    picker.query = "cat".into();
    picker.filter();
    if !picker.results.is_empty() {
        picker.selected = 0;
        let lines = render_picker(&picker, 30);
        let all = lines.join("");
        assert!(all.contains("\x1b[7m"));
    }
}

fn entry(glyph: &str, name: &str) -> EmojiEntry {
    EmojiEntry {
        glyph: glyph.to_string(),
        name: name.to_string(),
    }
}

#[test]
fn filter_is_case_blind_and_keeps_order() {
    let catalog = vec![entry("a", "Big Cat"), entry("b", "dog"), entry("c", "catalog")];
    let r = filter_entries(&catalog, "cat");
    let names: Vec<&str> = r.iter().map(|e| e.name.as_str()).collect();
    assert_eq!(names, vec!["Big Cat", "catalog"]);
    assert_eq!(filter_entries(&catalog, "").len(), 3);
    assert!(filter_entries(&catalog, "zebra").is_empty());
}

#[test]
fn grid_of_plain_glyphs_is_exact() {
    let picker = EmojiPickerState {
        query: "x".to_string(),
        results: vec![entry("a", "a"), entry("b", "b"), entry("c", "c")],
        selected: 1,
        target_tab: 0,
    };
    let lines = render_picker(&picker, 6);
    assert_eq!(lines[0], "\x1b[7mSearch: x█\x1b[0m");
    assert_eq!(lines[1], "a \x1b[7mb\x1b[0m   ");
    assert_eq!(lines[2], "c     ");
    assert_eq!(lines.len(), 3);
}

#[test]
fn no_results_line_is_padded() {
    let picker = EmojiPickerState {
        query: String::new(),
        results: vec![],
        selected: 0,
        target_tab: 0,
    };
    let lines = render_picker(&picker, 16);
    assert_eq!(lines[1], "  No results    ");
    let narrow = render_picker(&picker, 2);
    assert_eq!(narrow[0], "\x1b[7mSearch: █\x1b[0m");
}

#[test]
fn checked_render_matches_render() {
    let mut picker = EmojiPickerState::new(0);
    picker.query = "rocket".to_string();
    picker.filter();
    let checked = render_picker_checked(&picker, 24).expect("rows fit");
    assert_eq!(checked, render_picker(&picker, 24));
}
