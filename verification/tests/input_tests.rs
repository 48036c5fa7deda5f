use docs_orchestrator::document::extract_tabs;
use docs_orchestrator::input::{
    mouse_report_decodable_exec, parse_i32, parse_mouse_click, parse_usize,
};
use docs_orchestrator::state::{AppState, ViewKind};

fn state_with_tabs(n: usize) -> AppState {
    let mut json = String::new();
    for i in 0..n {
        json.push_str(&format!(
            "{{\"tabProperties\": {{\"tabId\": \"t.{}\", \"title\": \"Tab {}\"}}}}",
            i, i
        ));
    }
    let mut s = AppState::new();
    s.tabs_data = extract_tabs(&json);
    assert_eq!(s.tabs_data.len(), n);
    s
}

#[test]
fn parse_integers_like_std() {
    assert_eq!(parse_i32(b"0"), Some(0));
    assert_eq!(parse_i32(b"-0"), Some(0));
    assert_eq!(parse_i32(b"+17"), Some(17));
    assert_eq!(parse_i32(b"-2147483648"), Some(i32::MIN));
    assert_eq!(parse_i32(b"2147483648"), None);
    assert_eq!(parse_i32(b"-"), None);
    assert_eq!(parse_i32(b""), None);
    assert_eq!(parse_i32(b"1a"), None);
    assert_eq!(parse_usize(b"+42"), Some(42));
    assert_eq!(parse_usize(b"-1"), None);
    assert_eq!(parse_usize(b"-0"), None);
    assert_eq!(parse_usize(b"18446744073709551615"), Some(usize::MAX));
    assert_eq!(parse_usize(b"18446744073709551616"), None);
    for s in ["0", "+5", "-5", "12x", "", "+", "007", "99999999999"] {
        assert_eq!(parse_i32(s.as_bytes()), s.parse::<i32>().ok());
        assert_eq!(parse_usize(s.as_bytes()), s.parse::<usize>().ok());
    }
}

#[test]
fn parse_mouse_click_reads_sgr_report() {
    let c = parse_mouse_click(b"\x1b[<0;12;5M").unwrap();
    assert_eq!((c.cb, c.cx, c.cy, c.event), (0, 12, 5, 'M'));
    let c = parse_mouse_click(b"\x1b[<\x1b[<2;1;3m").unwrap();
    assert_eq!((c.cb, c.cx, c.cy, c.event), (2, 1, 3, 'm'));
}

#[test]
fn parse_mouse_click_rejects_other_input() {
    assert!(parse_mouse_click(b"k").is_none());
    assert!(parse_mouse_click(b"\x1b[<0;12M").is_none());
    assert!(parse_mouse_click(b"\x1b[<0;a;5M").is_none());
    assert!(parse_mouse_click(b"\x1b[<0;1;2;3M").is_none());
}

#[test]
fn down_key_wraps_around() {
    let mut s = state_with_tabs(1);
    assert_eq!(s.selected_selectable_idx, 0);
    s.handle_input_bytes(b"j");
    assert_eq!(s.selected_selectable_idx, 1);
    s.handle_input_bytes(b"\x1b[B");
    assert_eq!(s.selected_selectable_idx, 2);
    s.handle_input_bytes(b"s");
    assert_eq!(s.selected_selectable_idx, 0);
}

#[test]
fn up_key_wraps_to_last() {
    let mut s = state_with_tabs(2);
    s.handle_input_bytes(b"k");
    assert_eq!(s.selected_selectable_idx, 3);
    s.handle_input_bytes(b"\x1b[A");
    assert_eq!(s.selected_selectable_idx, 2);
    s.handle_input_bytes(b"w");
    assert_eq!(s.selected_selectable_idx, 1);
}

#[test]
fn navigation_down_then_up_returns() {
    let mut s = state_with_tabs(3);
    for start in 0..5 {
        s.selected_selectable_idx = start;
        s.handle_input_bytes(b"j");
        s.handle_input_bytes(b"k");
        assert_eq!(s.selected_selectable_idx, start);
    }
}

#[test]
fn enter_activates_selection() {
    let mut s = state_with_tabs(2);
    s.handle_input_bytes(b"\r");
    assert_eq!(s.current_view, ViewKind::About);
    s.selected_selectable_idx = 1;
    s.handle_input_bytes(b" ");
    assert_eq!(s.current_view, ViewKind::Logs);
    s.selected_selectable_idx = 3;
    s.handle_input_bytes(b"\n");
    assert_eq!(s.current_view, ViewKind::TabOutput);
    assert_eq!(s.selected_tab_id.as_deref(), Some("t.1"));
    s.selected_selectable_idx = 99;
    s.handle_input_bytes(b"\n");
    assert_eq!(s.selected_tab_id.as_deref(), Some("t.1"));
    assert_eq!(s.selected_selectable_idx, 99);
}

#[test]
fn quit_keys_stop_running() {
    for key in [&b"q"[..], &b"Q"[..], &b"\x03"[..]] {
        let mut s = state_with_tabs(1);
        s.handle_input_bytes(key);
        assert!(!s.running);
        assert_eq!(s.selected_selectable_idx, 0);
    }
}

#[test]
fn unknown_key_changes_nothing() {
    let mut s = state_with_tabs(1);
    s.handle_input_bytes(b"x");
    assert!(s.running);
    assert_eq!(s.selected_selectable_idx, 0);
    assert_eq!(s.current_view, ViewKind::Logs);
}

#[test]
fn click_in_menu_selects_item() {
    let mut s = state_with_tabs(2);
    s.handle_input_bytes(b"\x1b[<0;5;13M");
    assert_eq!(s.selected_selectable_idx, 1);
    assert_eq!(s.current_view, ViewKind::Logs);
    s.handle_input_bytes(b"\x1b[<0;5;14M");
    assert_eq!(s.selected_selectable_idx, 2);
    assert_eq!(s.current_view, ViewKind::TabOutput);
    assert_eq!(s.selected_tab_id.as_deref(), Some("t.0"));
    s.handle_input_bytes(b"\x1b[<0;5;12M");
    assert_eq!(s.current_view, ViewKind::About);
}

#[test]
fn click_below_menu_or_release_is_ignored() {
    let mut s = state_with_tabs(1);
    s.handle_input_bytes(b"\x1b[<0;5;40M");
    assert_eq!(s.selected_selectable_idx, 0);
    s.handle_input_bytes(b"\x1b[<0;5;13m");
    assert_eq!(s.selected_selectable_idx, 0);
    s.handle_input_bytes(b"\x1b[<1;5;13M");
    assert_eq!(s.selected_selectable_idx, 0);
}

#[test]
fn click_in_tab_table_opens_tab_output() {
    let mut s = state_with_tabs(3);
    s.handle_input_bytes(b"\x1b[<0;40;4M");
    assert_eq!(s.selected_selectable_idx, 3);
    assert_eq!(s.current_view, ViewKind::TabOutput);
    assert_eq!(s.selected_tab_id.as_deref(), Some("t.1"));
    s.handle_input_bytes(b"\x1b[<0;40;3M");
    assert_eq!(s.selected_tab_id.as_deref(), Some("t.1"));
}

#[test]
fn mouse_report_decodability() {
    assert!(mouse_report_decodable_exec(b"k"));
    assert!(mouse_report_decodable_exec(b"\x1b[<0;1;2M"));
    assert!(!mouse_report_decodable_exec(b"\x1b[<"));
    assert!(!mouse_report_decodable_exec(b"\x1b[<\x1b[<"));
    assert!(!mouse_report_decodable_exec(b"\x1b[<0;1;2\xc3"));
}

#[test]
fn mouse_report_round_trip_example() {
    for (cb, cx, cy) in [(0i32, 1usize, 1usize), (2, 34, 12), (64, 200, 55)] {
        let report = format!("\x1b[<{};{};{}M", cb, cx, cy);
        let c = parse_mouse_click(report.as_bytes()).unwrap();
        assert_eq!((c.cb, c.cx, c.cy, c.event), (cb, cx, cy, 'M'));
    }
}

#[test]
fn input_keeps_data_and_selection_valid() {
    let mut s = state_with_tabs(3);
    s.add_log("t", "before");
    let keys: [&[u8]; 8] = [b"\x1b[B", b"\x1b[A", b"\r", b"\x1b[<0;5;15M", b"\x1b[<0;40;5M", b"k", b" ", b"x"];
    for key in keys {
        s.handle_input_bytes(key);
        assert!(s.selected_selectable_idx < 2 + s.tabs_data.len());
        if let Some(id) = &s.selected_tab_id {
            assert!(s.tabs_data.iter().any(|t| &t.id == id));
        }
        assert_eq!(s.logs, vec!["[t] before".to_string()]);
        assert_eq!(s.tabs_data.len(), 3);
        assert!(s.running);
    }
    let before = s.selected_selectable_idx;
    s.handle_input_bytes(b"\x1b[B");
    s.handle_input_bytes(b"\x1b[A");
    assert_eq!(s.selected_selectable_idx, before);
}
