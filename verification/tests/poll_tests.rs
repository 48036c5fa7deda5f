use docs_orchestrator::document::status_of_title;
use docs_orchestrator::poll::{ready_renames, PollEvent};
use docs_orchestrator::state::AppState;

const DOC: &str = r#"{"title": "Plan", "tabs": [
 {"tabProperties": {"tabId": "a", "title": "One [agent]"}},
 {"tabProperties": {"tabId": "b", "title": "Two [human]"}},
 {"tabProperties": {"tabId": "c", "title": "[agent] Three [agent]"}}]}"#;

#[test]
fn apply_poll_updates_state_and_claims_ready_tabs() {
    let mut s = AppState::new();
    let renames = s.apply_poll(DOC, "2024-05-01 10:00:00");
    assert_eq!(s.doc_title, "Plan");
    assert_eq!(s.last_polled, "2024-05-01 10:00:00");
    assert_eq!(s.tabs_data.len(), 3);
    assert_eq!(renames.len(), 2);
    assert_eq!(renames[0].tab_id, "a");
    assert_eq!(renames[0].old_title, "One [agent]");
    assert_eq!(renames[0].new_title, "One [agent,working]");
    assert_eq!(renames[1].new_title, "[agent,working] Three [agent,working]");
    for r in &renames {
        assert_eq!(status_of_title(&r.new_title), "WORKING");
    }
}

#[test]
fn ready_renames_empty_without_ready_tabs() {
    let mut s = AppState::new();
    s.apply_poll(r#"{"tabProperties": {"tabId": "z", "title": "Done [human]"}}"#, "now");
    assert!(ready_renames(&s.tabs_data).is_empty());
}

#[test]
fn poll_outcome_starts_agent_only_after_rename() {
    let mut s = AppState::new();
    let mut renames = s.apply_poll(DOC, "now");
    let second = renames.pop().unwrap();
    let first = renames.pop().unwrap();
    let started = s.poll_outcome("10:00:00", PollEvent::RenameResult(first, Ok(())));
    let started = started.expect("successful rename starts the agent");
    assert_eq!(started.tab_id, "a");
    assert_eq!(started.new_title, "One [agent,working]");
    assert_eq!(s.logs.last().unwrap(), "[10:00:00] Tab renamed to 'One [agent,working]'");
    let failed = s.poll_outcome("10:00:01", PollEvent::RenameResult(second, Err("HTTP 403".to_string())));
    assert!(failed.is_none());
    assert_eq!(s.logs.last().unwrap(), "[10:00:01] Rename Error: HTTP 403");
}

#[test]
fn poll_outcome_logs_failures() {
    let mut s = AppState::new();
    assert!(s.poll_outcome("t", PollEvent::TokenFailed).is_none());
    assert!(s.poll_outcome("t", PollEvent::FetchFailed).is_none());
    assert_eq!(
        s.logs,
        vec![
            "[t] Token Error: Failed to print access token".to_string(),
            "[t] Poll Error: Failed to fetch document".to_string(),
        ]
    );
}
