//! What every operation on the state keeps, and what finishing a command
//! undoes.
use vstd::prelude::*;

use crate::input::input_spec;
use crate::poll::poll_spec;
use crate::state::{
    add_log_spec, agent_line_spec, commands_without, lemma_add_log_keeps_wf, log_line, other_tab,
    output_index, outputs_after, outputs_for, outputs_unique, AppStateView, RunningCommandView,
    TabOutputView,
};
use crate::text::trim_spec;

verus! {

/// Appending captured output keeps at most one entry per tab.
pub proof fn lemma_outputs_after_unique(outs: Seq<TabOutputView>, tab_id: Seq<char>, line: Seq<char>)
    requires
        outputs_unique(outs),
    ensures
        outputs_unique(outputs_after(outs, tab_id, line)),
{
    let r = outputs_after(outs, tab_id, line);
    match crate::state::output_index(outs, tab_id) {
        Some(i) => {
            assert forall|a: int, b: int|
                0 <= a < r.len() && 0 <= b < r.len() && a != b implies r[a].tab_id
                != r[b].tab_id by {
                assert(r[a].tab_id == outs[a].tab_id);
                assert(r[b].tab_id == outs[b].tab_id);
            }
        },
        None => {
            assert forall|a: int, b: int|
                0 <= a < r.len() && 0 <= b < r.len() && a != b implies r[a].tab_id
                != r[b].tab_id by {
                if a < outs.len() {
                    assert(r[a] == outs[a]);
                }
                if b < outs.len() {
                    assert(r[b] == outs[b]);
                }
            }
        },
    }
}

/// Every operation keeps the state's invariant: the log never holds more
/// than 15 lines and captured output has at most one entry per tab.
pub proof fn lemma_operations_keep_wf(
    s: AppStateView,
    now: Seq<char>,
    msg: Seq<char>,
    tab: Seq<char>,
    line: Seq<char>,
    from_stderr: bool,
    doc_json: Seq<char>,
    bytes: Seq<u8>,
    cmd: RunningCommandView,
)
    requires
        s.wf(),
    ensures
        add_log_spec(s, now, msg).wf(),
        agent_line_spec(s, now, tab, line, from_stderr).wf(),
        poll_spec(s, doc_json, now).wf(),
        input_spec(s, bytes).wf(),
        (AppStateView { running_commands: s.running_commands.push(cmd), ..s }).wf(),
        (AppStateView { running_commands: commands_without(s.running_commands, tab), ..s }).wf(),
{
    lemma_add_log_keeps_wf(s, now, msg);
    let t = crate::text::trim_spec(line);
    let m = crate::state::agent_line_message(t, from_stderr);
    lemma_add_log_keeps_wf(s, now, m);
    lemma_outputs_after_unique(s.tab_outputs, tab, t);
}

/// Once the command of a tab finishes, no running command belongs to that
/// tab, and every other command is still running.
pub proof fn lemma_finish_removes_tab(cmds: Seq<RunningCommandView>, tab: Seq<char>)
    ensures
        forall|i: int|
            0 <= i < commands_without(cmds, tab).len() ==> (#[trigger] commands_without(
                cmds,
                tab,
            )[i]).tab != tab,
        forall|i: int|
            0 <= i < cmds.len() && (#[trigger] cmds[i]).tab != tab ==> commands_without(
                cmds,
                tab,
            ).contains(cmds[i]),
{
    assert forall|i: int|
        0 <= i < commands_without(cmds, tab).len() implies (#[trigger] commands_without(
        cmds,
        tab,
    )[i]).tab != tab by {
        cmds.lemma_filter_pred(other_tab(tab), i);
    }
    assert forall|i: int| 0 <= i < cmds.len() && (#[trigger] cmds[i]).tab != tab implies commands_without(
        cmds,
        tab,
    ).contains(cmds[i]) by {
        cmds.lemma_filter_contains(other_tab(tab), i);
    }
}

/// Starting a command for a tab and then finishing that tab's commands
/// leaves the running commands of the other tabs as they were.
pub proof fn lemma_start_then_finish(cmds: Seq<RunningCommandView>, cmd: RunningCommandView)
    ensures
        commands_without(cmds.push(cmd), cmd.tab) == commands_without(cmds, cmd.tab),
{
    reveal_with_fuel(Seq::filter, 1);
    assert(cmds.push(cmd).drop_last() =~= cmds);
}

/// The entry that `output_index` picks for `id` is the only one with that id.
proof fn lemma_output_index_is_the_entry(outs: Seq<TabOutputView>, id: Seq<char>, i: int)
    requires
        outputs_unique(outs),
        0 <= i < outs.len(),
        outs[i].tab_id == id,
    ensures
        output_index(outs, id) == Some(i),
{
    let j = choose|j: int| 0 <= j < outs.len() && outs[j].tab_id == id;
    assert(outs[j].tab_id == id);
}

/// Reading a tab's captured output after recording a line for it gives the
/// earlier output with that line at the end; every other tab's output reads
/// as before.
pub proof fn lemma_record_then_read_output(
    outs: Seq<TabOutputView>,
    tab_id: Seq<char>,
    line: Seq<char>,
    other: Seq<char>,
)
    requires
        outputs_unique(outs),
    ensures
        outputs_for(outputs_after(outs, tab_id, line), tab_id) == outputs_for(outs, tab_id).push(
            line,
        ),
        other != tab_id ==> outputs_for(outputs_after(outs, tab_id, line), other) == outputs_for(
            outs,
            other,
        ),
{
    let r = outputs_after(outs, tab_id, line);
    lemma_outputs_after_unique(outs, tab_id, line);
    match output_index(outs, tab_id) {
        Some(i) => {
            assert(0 <= i < outs.len() && outs[i].tab_id == tab_id);
            assert(r[i].tab_id == tab_id);
            lemma_output_index_is_the_entry(r, tab_id, i);
        },
        None => {
            assert(r[outs.len() as int].tab_id == tab_id);
            lemma_output_index_is_the_entry(r, tab_id, outs.len() as int);
            assert(outputs_for(outs, tab_id) =~= Seq::<Seq<char>>::empty());
            assert(seq![line] =~= Seq::<Seq<char>>::empty().push(line));
        },
    }
    if other != tab_id {
        if exists|j: int| 0 <= j < outs.len() && outs[j].tab_id == other {
            let j = choose|j: int| 0 <= j < outs.len() && outs[j].tab_id == other;
            lemma_output_index_is_the_entry(outs, other, j);
            assert(r[j] == outs[j]);
            lemma_output_index_is_the_entry(r, other, j);
        } else {
            assert forall|j: int| 0 <= j < r.len() implies r[j].tab_id != other by {
                if j < outs.len() {
                    assert(r[j].tab_id == outs[j].tab_id);
                }
            }
            assert(output_index(r, other) is None);
        }
    }
}

/// A line of agent output that is only white space changes nothing. Any
/// other line is logged, trimmed and after `" agy: "` (or `" agy err: "`
/// from the error stream), and its trimmed text is appended to the tab's
/// captured output.
pub proof fn lemma_agent_line_recorded(
    s: AppStateView,
    now: Seq<char>,
    tab_id: Seq<char>,
    line: Seq<char>,
    from_stderr: bool,
)
    requires
        outputs_unique(s.tab_outputs),
    ensures
        trim_spec(line).len() == 0 ==> agent_line_spec(s, now, tab_id, line, from_stderr) == s,
        trim_spec(line).len() > 0 ==> outputs_for(
            agent_line_spec(s, now, tab_id, line, from_stderr).tab_outputs,
            tab_id,
        ) == outputs_for(s.tab_outputs, tab_id).push(trim_spec(line)),
        trim_spec(line).len() > 0 ==> agent_line_spec(s, now, tab_id, line, from_stderr).logs.last()
            == log_line(
            now,
            (if from_stderr {
                " agy err: "@
            } else {
                " agy: "@
            }) + trim_spec(line),
        ),
{
    lemma_record_then_read_output(s.tab_outputs, tab_id, trim_spec(line), tab_id);
}

} // verus!
