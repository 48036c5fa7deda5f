use docs_orchestrator::document::{extract_doc_title, extract_tabs, status_of_title};

const SAMPLE: &str = r#"{
  "title": "Project Plan",
  "tabs": [
    {"tabProperties": {"tabId": "t.0", "title": "Intro [agent]", "index": 0}},
    {"tabProperties": {"tabId": "t.1", "title": "Draft [agent,working]"}},
    {"tabProperties": {"tabId": "t.2", "title": "Review [human]"}},
    {"tabProperties": {"tabId": "t.3", "title": "Notes"}},
    {"tabProperties": {"tabId": "t.0", "title": "Duplicate"}},
    {"tabProperties": {"tabId": "t.4"}}
  ]
}"#;

#[test]
fn extract_doc_title_reads_first_title() {
    assert_eq!(extract_doc_title(SAMPLE), "Project Plan");
}

#[test]
fn extract_doc_title_unknown_without_title() {
    assert_eq!(extract_doc_title(r#"{"documentId": "x"}"#), "Unknown");
    assert_eq!(extract_doc_title(r#"{"title": 5}"#), "Unknown");
}

#[test]
fn extract_tabs_reads_tabs_in_order() {
    let tabs = extract_tabs(SAMPLE);
    let got: Vec<(String, String, String)> = tabs
        .iter()
        .map(|t| (t.id.clone(), t.title.clone(), t.status.clone()))
        .collect();
    assert_eq!(
        got,
        vec![
            ("t.0".to_string(), "Intro [agent]".to_string(), "READY".to_string()),
            ("t.1".to_string(), "Draft [agent,working]".to_string(), "WORKING".to_string()),
            ("t.2".to_string(), "Review [human]".to_string(), "HUMAN".to_string()),
            ("t.3".to_string(), "Notes".to_string(), "Idle".to_string()),
        ]
    );
}

#[test]
fn extract_tabs_none_in_plain_json() {
    assert!(extract_tabs(r#"{"title": "x"}"#).is_empty());
}

#[test]
fn extract_tabs_skips_empty_values() {
    let tabs = extract_tabs(r#"{"tabProperties": {"tabId": "", "title": "x"}}"#);
    assert!(tabs.is_empty());
}

#[test]
fn status_of_title_prefers_working_tag() {
    assert_eq!(status_of_title("a [agent] b [agent,working]"), "WORKING");
    assert_eq!(status_of_title("[human] [agent]"), "READY");
    assert_eq!(status_of_title("[human]"), "HUMAN");
    assert_eq!(status_of_title("plain"), "Idle");
}
