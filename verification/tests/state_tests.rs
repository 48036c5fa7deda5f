use docs_orchestrator::state::{AppState, TabOutput, ViewKind};

#[test]
fn new_state_starts_loading() {
    let s = AppState::new();
    assert_eq!(s.doc_title, "Loading...");
    assert_eq!(s.last_polled, "Never");
    assert!(s.tabs_data.is_empty() && s.logs.is_empty() && s.running_commands.is_empty());
    assert!(s.running);
    assert_eq!(s.current_view, ViewKind::Logs);
    assert_eq!(s.selected_tab_id, None);
}

#[test]
fn add_log_formats_and_truncates() {
    let mut s = AppState::new();
    s.add_log("10:00:00", "hello");
    assert_eq!(s.logs, vec!["[10:00:00] hello".to_string()]);
    let long = "x".repeat(71);
    s.add_log("10:00:01", &long);
    assert_eq!(s.logs[1], format!("[10:00:01] {}...", "x".repeat(67)));
    let exact = "y".repeat(70);
    s.add_log("t", &exact);
    assert_eq!(s.logs[2], format!("[t] {}", exact));
}

#[test]
fn add_log_keeps_last_fifteen() {
    let mut s = AppState::new();
    for i in 0..20 {
        s.add_log("t", &format!("m{}", i));
        assert!(s.logs.len() <= 15);
    }
    assert_eq!(s.logs.len(), 15);
    assert_eq!(s.logs[0], "[t] m5");
    assert_eq!(s.logs[14], "[t] m19");
}

#[test]
fn record_agent_line_logs_and_captures() {
    let mut s = AppState::new();
    s.record_agent_line("t", "tab1", "  working on it \n", false);
    s.record_agent_line("t", "tab1", "   ", false);
    s.record_agent_line("t", "tab1", "oops", true);
    s.record_agent_line("t", "tab2", "other", false);
    assert_eq!(s.logs, vec!["[t]  agy: working on it", "[t]  agy err: oops", "[t]  agy: other"]);
    assert_eq!(s.tab_outputs.len(), 2);
    assert_eq!(s.tab_outputs[0].tab_id, "tab1");
    assert_eq!(s.tab_outputs[0].lines, vec!["working on it", "oops"]);
    assert_eq!(s.tab_outputs[1].lines, vec!["other"]);
}

#[test]
fn commands_start_and_finish() {
    let mut s = AppState::new();
    s.start_command("A", "agy a", "10:00");
    s.start_command("B", "agy b", "10:01");
    s.start_command("A", "agy a2", "10:02");
    assert_eq!(s.running_commands.len(), 3);
    s.finish_command("A");
    assert_eq!(s.running_commands.len(), 1);
    assert_eq!(s.running_commands[0].tab, "B");
    assert_eq!(s.running_commands[0].command, "agy b");
    assert_eq!(s.running_commands[0].start_time, "10:01");
}

#[test]
fn outputs_uniqueness_is_checked() {
    let mut s = AppState::new();
    s.record_tab_output("a", "x");
    s.record_tab_output("b", "y");
    s.record_tab_output("a", "z");
    assert!(s.outputs_are_unique());
    s.tab_outputs.push(TabOutput { tab_id: "a".to_string(), lines: Vec::new() });
    assert!(!s.outputs_are_unique());
}
