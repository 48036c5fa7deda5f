use docs_orchestrator::agent::{
    agent_args, agent_spawn_error_message, agent_wait_error_message, agent_command_line, agent_exit_message, agent_prompt, agent_start_message,
    auth_header, batch_update_url, document_url, rename_message, renamed_message,
    title_update_body,
};

#[test]
fn api_requests_are_formed() {
    assert_eq!(
        document_url(),
        "https://docs.googleapis.com/v1/documents/1RIr-n3WgdfOYiXgd7J8hk3NcPuIIZhNosTxYcKnEqwI?includeTabsContent=true"
    );
    assert_eq!(
        batch_update_url(),
        "https://docs.googleapis.com/v1/documents/1RIr-n3WgdfOYiXgd7J8hk3NcPuIIZhNosTxYcKnEqwI:batchUpdate"
    );
    assert_eq!(auth_header("tok"), "Authorization: Bearer tok");
    assert_eq!(
        title_update_body("t.1", "X [agent,working]"),
        r#"{"requests": [{"updateDocumentTabProperties": {"tabProperties": {"tabId": "t.1", "title": "X [agent,working]"}, "fields": "title"}}]}"#
    );
}

#[test]
fn agent_command_is_formed() {
    let prompt = agent_prompt("T [agent,working]");
    assert_eq!(
        prompt,
        "read T [agent,working] of the https://docs.google.com/document/d/1RIr-n3WgdfOYiXgd7J8hk3NcPuIIZhNosTxYcKnEqwI/edit?tab=t.a6bge8wm2nyh via API, and update the contents in the tab accordingly then update [agent,working] in the title to [human]"
    );
    let args = agent_args("T [agent,working]");
    assert_eq!(args, vec!["--dangerously-skip-permissions".to_string(), "--print".to_string(), prompt.clone()]);
    assert_eq!(agent_command_line("T [agent,working]"), format!("agy {}", args.join(" ")));
}

#[test]
fn messages_are_formed() {
    assert_eq!(agent_start_message("T"), "Starting agy for tab: 'T'");
    assert_eq!(agent_exit_message(true, Some(0), "T"), "agy finished successfully for tab: 'T'");
    assert_eq!(agent_exit_message(false, Some(3), "T"), "agy error code 3 for tab: 'T'");
    assert_eq!(agent_exit_message(false, None, "T"), "agy error code -1 for tab: 'T'");
    assert_eq!(rename_message("a [agent]", "a [agent,working]"), "Renaming tab 'a [agent]' -> 'a [agent,working]'...");
    assert_eq!(renamed_message("x"), "Tab renamed to 'x'");
}

#[test]
fn agent_error_messages_are_formed() {
    assert_eq!(agent_wait_error_message("interrupted"), "Error waiting for agy: interrupted");
    assert_eq!(agent_spawn_error_message("No such file"), "Error spawning agy: No such file");
}
