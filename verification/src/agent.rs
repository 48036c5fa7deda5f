//! What the orchestrator sends: the Docs API requests, the agent's command
//! line and prompt, and the messages it logs about them.
use vstd::prelude::*;

use crate::config::DOC_ID;
use crate::text::{i32_to_decimal, owned, signed_decimal};

verus! {

// ---------------------------------------------------------------------------
// Docs API requests
// ---------------------------------------------------------------------------

/// The URL that fetches the document with the content of all its tabs.
pub open spec fn document_url_spec() -> Seq<char> {
    "https://docs.googleapis.com/v1/documents/"@ + DOC_ID@ + "?includeTabsContent=true"@
}

/// The URL that fetches the document with the content of all its tabs.
pub fn document_url() -> (r: String)
    ensures
        r@ == document_url_spec(),
{
    let mut r = owned("https://docs.googleapis.com/v1/documents/");
    r.append(DOC_ID);
    r.append("?includeTabsContent=true");
    r
}

/// The URL of the document's batch update endpoint.
pub open spec fn batch_update_url_spec() -> Seq<char> {
    "https://docs.googleapis.com/v1/documents/"@ + DOC_ID@ + ":batchUpdate"@
}

/// The URL of the document's batch update endpoint.
pub fn batch_update_url() -> (r: String)
    ensures
        r@ == batch_update_url_spec(),
{
    let mut r = owned("https://docs.googleapis.com/v1/documents/");
    r.append(DOC_ID);
    r.append(":batchUpdate");
    r
}

/// The HTTP header that authorizes a request with `token`.
pub open spec fn auth_header_spec(token: Seq<char>) -> Seq<char> {
    "Authorization: Bearer "@ + token
}

/// The HTTP header that authorizes a request with `token`.
pub fn auth_header(token: &str) -> (r: String)
    ensures
        r@ == auth_header_spec(token@),
{
    let mut r = owned("Authorization: Bearer ");
    r.append(token);
    r
}

/// The batch update request that renames tab `tab_id` to `new_title`.
pub open spec fn title_update_body_spec(tab_id: Seq<char>, new_title: Seq<char>) -> Seq<char> {
    "{\"requests\": [{\"updateDocumentTabProperties\": {\"tabProperties\": {\"tabId\": \""@
        + tab_id + "\", \"title\": \""@ + new_title
        + "\"}, \"fields\": \"title\"}}]}"@
}

/// The batch update request that renames tab `tab_id` to `new_title`.
pub fn title_update_body(tab_id: &str, new_title: &str) -> (r: String)
    ensures
        r@ == title_update_body_spec(tab_id@, new_title@),
{
    let mut r = owned(
        "{\"requests\": [{\"updateDocumentTabProperties\": {\"tabProperties\": {\"tabId\": \"",
    );
    r.append(tab_id);
    r.append("\", \"title\": \"");
    r.append(new_title);
    r.append("\"}, \"fields\": \"title\"}}]}");
    r
}

// ---------------------------------------------------------------------------
// The agent command
// ---------------------------------------------------------------------------

/// The link to the document given to the agent.
pub open spec fn doc_link_spec() -> Seq<char> {
    "https://docs.google.com/document/d/"@ + DOC_ID@ + "/edit?tab=t.a6bge8wm2nyh"@
}

/// The link to the document given to the agent.
pub fn doc_link() -> (r: String)
    ensures
        r@ == doc_link_spec(),
{
    let mut r = owned("https://docs.google.com/document/d/");
    r.append(DOC_ID);
    r.append("/edit?tab=t.a6bge8wm2nyh");
    r
}

/// The agent's instructions for the tab titled `tab_title`.
pub open spec fn agent_prompt_spec(tab_title: Seq<char>) -> Seq<char> {
    "read "@ + tab_title + " of the "@ + doc_link_spec()
        + " via API, and update the contents in the tab accordingly then update [agent,working] in the title to [human]"@
}

/// The agent's instructions for the tab titled `tab_title`.
pub fn agent_prompt(tab_title: &str) -> (r: String)
    ensures
        r@ == agent_prompt_spec(tab_title@),
{
    let link = doc_link();
    let mut r = owned("read ");
    r.append(tab_title);
    r.append(" of the ");
    r.append(link.as_str());
    r.append(
        " via API, and update the contents in the tab accordingly then update [agent,working] in the title to [human]",
    );
    r
}

/// The agent's arguments for the tab titled `tab_title`.
pub open spec fn agent_args_spec(tab_title: Seq<char>) -> Seq<Seq<char>> {
    seq!["--dangerously-skip-permissions"@, "--print"@, agent_prompt_spec(tab_title)]
}

/// The agent's arguments for the tab titled `tab_title`: it skips permission
/// prompts, prints its answer, and gets its instructions.
pub fn agent_args(tab_title: &str) -> (r: Vec<String>)
    ensures
        r.deep_view() == agent_args_spec(tab_title@),
{
    let mut r: Vec<String> = Vec::new();
    r.push(owned("--dangerously-skip-permissions"));
    r.push(owned("--print"));
    r.push(agent_prompt(tab_title));
    assert(r.deep_view() =~= agent_args_spec(tab_title@));
    r
}

/// The agent's command line as shown to the user: `agy` and its arguments,
/// separated by spaces.
pub open spec fn agent_command_line_spec(tab_title: Seq<char>) -> Seq<char> {
    "agy "@ + "--dangerously-skip-permissions"@ + " "@ + "--print"@ + " "@ + agent_prompt_spec(
        tab_title,
    )
}

/// The agent's command line as shown to the user.
pub fn agent_command_line(tab_title: &str) -> (r: String)
    ensures
        r@ == agent_command_line_spec(tab_title@),
{
    let prompt = agent_prompt(tab_title);
    let mut r = owned("agy ");
    r.append("--dangerously-skip-permissions");
    r.append(" ");
    r.append("--print");
    r.append(" ");
    r.append(prompt.as_str());
    r
}

// ---------------------------------------------------------------------------
// Log messages
// ---------------------------------------------------------------------------

/// `prefix` followed by `title` in single quotes.
pub open spec fn quoted_message(prefix: Seq<char>, title: Seq<char>) -> Seq<char> {
    prefix + "'"@ + title + "'"@
}

/// `prefix` followed by `title` in single quotes.
pub fn quoted_message_exec(prefix: &str, title: &str) -> (r: String)
    ensures
        r@ == quoted_message(prefix@, title@),
{
    let mut r = owned(prefix);
    r.append("'");
    r.append(title);
    r.append("'");
    r
}

/// The message logged when the agent starts for a tab.
pub fn agent_start_message(tab_title: &str) -> (r: String)
    ensures
        r@ == quoted_message("Starting agy for tab: "@, tab_title@),
{
    quoted_message_exec("Starting agy for tab: ", tab_title)
}

/// The message logged when the agent ended: successfully, or with its exit
/// code (`-1` when it has none).
pub open spec fn agent_exit_message_spec(success: bool, code: Option<i32>, tab_title: Seq<char>) -> Seq<
    char,
> {
    if success {
        quoted_message("agy finished successfully for tab: "@, tab_title)
    } else {
        let c: int = match code {
            Some(c) => c as int,
            None => -1,
        };
        quoted_message("agy error code "@ + signed_decimal(c) + " for tab: "@, tab_title)
    }
}

/// The message logged when the agent ended.
pub fn agent_exit_message(success: bool, code: Option<i32>, tab_title: &str) -> (r: String)
    ensures
        r@ == agent_exit_message_spec(success, code, tab_title@),
{
    if success {
        quoted_message_exec("agy finished successfully for tab: ", tab_title)
    } else {
        let c = match code {
            Some(c) => c,
            None => -1,
        };
        let digits = i32_to_decimal(c);
        let mut prefix = owned("agy error code ");
        prefix.append(digits.as_str());
        prefix.append(" for tab: ");
        quoted_message_exec(prefix.as_str(), tab_title)
    }
}

/// The message logged before renaming a tab.
pub open spec fn rename_message_spec(old_title: Seq<char>, new_title: Seq<char>) -> Seq<char> {
    "Renaming tab '"@ + old_title + "' -> '"@ + new_title + "'..."@
}

/// The message logged before renaming a tab.
pub fn rename_message(old_title: &str, new_title: &str) -> (r: String)
    ensures
        r@ == rename_message_spec(old_title@, new_title@),
{
    let mut r = owned("Renaming tab '");
    r.append(old_title);
    r.append("' -> '");
    r.append(new_title);
    r.append("'...");
    r
}

/// The message logged after a tab was renamed.
pub fn renamed_message(new_title: &str) -> (r: String)
    ensures
        r@ == quoted_message("Tab renamed to "@, new_title@),
{
    quoted_message_exec("Tab renamed to ", new_title)
}

/// The message logged when waiting for the agent failed with `err`.
pub open spec fn agent_wait_error_message_spec(err: Seq<char>) -> Seq<char> {
    "Error waiting for agy: "@ + err
}

/// The message logged when waiting for the agent failed with `err`.
pub fn agent_wait_error_message(err: &str) -> (r: String)
    ensures
        r@ == agent_wait_error_message_spec(err@),
{
    let mut r = owned("Error waiting for agy: ");
    r.append(err);
    r
}

/// The message logged when the agent could not be started, with `err`.
pub open spec fn agent_spawn_error_message_spec(err: Seq<char>) -> Seq<char> {
    "Error spawning agy: "@ + err
}

/// The message logged when the agent could not be started, with `err`.
pub fn agent_spawn_error_message(err: &str) -> (r: String)
    ensures
        r@ == agent_spawn_error_message_spec(err@),
{
    let mut r = owned("Error spawning agy: ");
    r.append(err);
    r
}

} // verus!
