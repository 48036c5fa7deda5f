use docs_orchestrator::render::C_RESET;
use docs_orchestrator::state::{AppState, ViewKind};
use docs_orchestrator::text::strip_ansi;

fn sample_state() -> AppState {
    let mut s = AppState::new();
    s.apply_poll(
        r#"{"title": "A fairly long document title", "tabs": [
        {"tabProperties": {"tabId": "t.abcdefghijk", "title": "Intro [agent]"}},
        {"tabProperties": {"tabId": "t.2", "title": "Second"}}]}"#,
        "2024-05-01 10:00:00",
    );
    s
}

#[test]
fn frame_has_columns_and_footer() {
    let s = sample_state();
    let lines = s.render_frame();
    let left = s.left_lines();
    let right = s.right_lines();
    let body = left.len().max(right.len());
    assert_eq!(lines.len(), body + 5);
    for (i, row) in lines[..body].iter().enumerate() {
        let visible = strip_ansi(row);
        let left_width = if i < left.len() { strip_ansi(&left[i]).chars().count().max(32) } else { 32 };
        assert_eq!(visible.chars().nth(left_width + 2), Some('│'));
        assert!(visible.chars().count() >= 1 + 32 + 3 + 52);
    }
    assert_eq!(strip_ansi(&lines[body]), format!(" {}┼{}", "─".repeat(32), "─".repeat(55)));
    assert_eq!(strip_ansi(&lines[body + 1]), format!(" ┌{}┐", "─".repeat(87)));
    assert_eq!(strip_ansi(&lines[body + 4]), format!(" └{}┘", "─".repeat(87)));
    assert!(strip_ansi(&lines[body + 3]).contains("Current View: LOGS"));
}

#[test]
fn left_column_lists_document_and_menu() {
    let s = sample_state();
    let left: Vec<String> = s.left_lines().iter().map(|l| strip_ansi(l)).collect();
    assert_eq!(left[5], " • Title   : A fairly long doc...");
    assert_eq!(left[6], " • ID      : 1RIr-n3WgdfO...");
    assert_eq!(left[7], " • Updated : 10:00:00");
    assert_eq!(left[8], " • Interval: 5s");
    assert_eq!(left[11], " ▶ About");
    assert_eq!(left[12], "   Global Activity Logs");
    assert_eq!(left[13], "   Tab: Intro [agent]");
    assert_eq!(left[left.len() - 1], " (No active commands)");
}

#[test]
fn logs_pane_shows_tab_table() {
    let mut s = sample_state();
    s.add_log("10:00:01", "started");
    let right: Vec<String> = s.right_lines().iter().map(|l| strip_ansi(l)).collect();
    assert_eq!(right[0], "Document Tabs Status:");
    assert_eq!(right[1], format!("  {:<10} {:<26} {:<12}", "Tab ID", "Tab Title", "Status"));
    assert_eq!(right[2], format!("  {:<10} {:<26} {:<12}", "t.abcdef..", "Intro [agent]", "READY"));
    assert_eq!(right[3], format!("  {:<10} {:<26} {:<12}", "t.2", "Second", "Idle"));
    assert_eq!(right[5], "Global Activity Logs:");
    assert_eq!(right[6], "  [10:00:01] started");
    assert!(s.right_lines()[2].contains("\x1b[35m"));
    assert!(s.right_lines()[2].ends_with(C_RESET));
}

#[test]
fn tab_output_pane_shows_last_lines() {
    let mut s = sample_state();
    for i in 0..20 {
        s.record_tab_output("t.2", &format!("line {}", i));
    }
    s.current_view = ViewKind::TabOutput;
    s.selected_tab_id = Some("t.2".to_string());
    let right: Vec<String> = s.right_lines().iter().map(|l| strip_ansi(l)).collect();
    assert_eq!(right[0], "Output of tab: 'Second'");
    assert_eq!(right.len(), 3 + 15);
    assert_eq!(right[3], "  ▶ line 5");
    assert_eq!(right[17], "  ▶ line 19");
}

#[test]
fn tab_output_pane_without_output() {
    let mut s = sample_state();
    s.current_view = ViewKind::TabOutput;
    s.selected_tab_id = Some("missing".to_string());
    let right: Vec<String> = s.right_lines().iter().map(|l| strip_ansi(l)).collect();
    assert_eq!(right[0], "Output of tab: 'Unknown Tab'");
    assert_eq!(right[3], "  (No output captured for this tab yet.)");
}

#[test]
fn about_pane_mentions_tags() {
    let mut s = sample_state();
    s.current_view = ViewKind::About;
    let right: Vec<String> = s.right_lines().iter().map(|l| strip_ansi(l)).collect();
    assert_eq!(right[0], "About Orchestrator:");
    assert_eq!(right[14], "    \"read <Tab Title> of the 1RIr-n3WgdfOYiX...\\");
    assert_eq!(right.len(), 23);
}

#[test]
fn screen_clears_then_writes_lines() {
    let s = sample_state();
    let lines = s.render_frame();
    let screen = s.render_screen();
    let mut expected = String::from("\x1b[2J\x1b[H");
    for l in &lines {
        expected.push_str(l);
        expected.push_str("\r\n");
    }
    assert_eq!(screen, expected);
}
