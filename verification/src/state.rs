//! The orchestrator's shared state: document tabs, running agent commands,
//! the activity log, captured agent output, and the navigation selection.
use vstd::prelude::*;

use crate::text::{owned, str_eq, trim, trim_spec, truncate_chars, truncate_spec};

verus! {

/// The most lines the activity log holds.
pub const MAX_LOG_LINES: usize = 15;

/// A document tab as seen by the orchestrator.
#[derive(Clone, Debug)]
pub struct Tab {
    pub id: String,
    pub title: String,
    /// `"WORKING"`, `"READY"`, `"HUMAN"` or `"Idle"`, from the title's tag.
    pub status: String,
}

/// A tab as text values.
pub struct TabView {
    pub id: Seq<char>,
    pub title: Seq<char>,
    pub status: Seq<char>,
}

impl DeepView for Tab {
    type V = TabView;

    open spec fn deep_view(&self) -> TabView {
        TabView { id: self.id@, title: self.title@, status: self.status@ }
    }
}

/// An agent command that is running for a tab.
#[derive(Clone, Debug)]
pub struct RunningCommand {
    pub tab: String,
    pub command: String,
    pub start_time: String,
}

/// A running command as text values.
pub struct RunningCommandView {
    pub tab: Seq<char>,
    pub command: Seq<char>,
    pub start_time: Seq<char>,
}

impl DeepView for RunningCommand {
    type V = RunningCommandView;

    open spec fn deep_view(&self) -> RunningCommandView {
        RunningCommandView { tab: self.tab@, command: self.command@, start_time: self.start_time@ }
    }
}

/// The output lines captured from agent runs for one tab.
pub struct TabOutput {
    pub tab_id: String,
    pub lines: Vec<String>,
}

/// Captured output as text values.
pub struct TabOutputView {
    pub tab_id: Seq<char>,
    pub lines: Seq<Seq<char>>,
}

impl DeepView for TabOutput {
    type V = TabOutputView;

    open spec fn deep_view(&self) -> TabOutputView {
        TabOutputView { tab_id: self.tab_id@, lines: self.lines.deep_view() }
    }
}

/// What the right-hand pane shows.
#[derive(Clone, Copy, PartialEq, Eq, Structural, Debug)]
pub enum ViewKind {
    Logs,
    About,
    TabOutput,
}

/// The state shared by the input, polling and rendering loops.
pub struct AppState {
    pub doc_title: String,
    pub last_polled: String,
    pub tabs_data: Vec<Tab>,
    pub running_commands: Vec<RunningCommand>,
    pub logs: Vec<String>,
    /// Captured agent output, at most one entry per tab id.
    pub tab_outputs: Vec<TabOutput>,
    pub running: bool,
    pub selected_selectable_idx: usize,
    pub current_view: ViewKind,
    pub selected_tab_id: Option<String>,
}

/// The state as mathematical values.
pub struct AppStateView {
    pub doc_title: Seq<char>,
    pub last_polled: Seq<char>,
    pub tabs: Seq<TabView>,
    pub running_commands: Seq<RunningCommandView>,
    pub logs: Seq<Seq<char>>,
    pub tab_outputs: Seq<TabOutputView>,
    pub running: bool,
    pub selected: nat,
    pub current_view: ViewKind,
    pub selected_tab_id: Option<Seq<char>>,
}

/// The text of an optional string.
pub open spec fn opt_view(o: Option<String>) -> Option<Seq<char>> {
    match o {
        Some(s) => Some(s@),
        None => None,
    }
}

impl View for AppState {
    type V = AppStateView;

    open spec fn view(&self) -> AppStateView {
        AppStateView {
            doc_title: self.doc_title@,
            last_polled: self.last_polled@,
            tabs: self.tabs_data.deep_view(),
            running_commands: self.running_commands.deep_view(),
            logs: self.logs.deep_view(),
            tab_outputs: self.tab_outputs.deep_view(),
            running: self.running,
            selected: self.selected_selectable_idx as nat,
            current_view: self.current_view,
            selected_tab_id: opt_view(self.selected_tab_id),
        }
    }
}

/// No two captured-output entries share a tab id.
pub open spec fn outputs_unique(outs: Seq<TabOutputView>) -> bool {
    forall|i: int, j: int|
        0 <= i < outs.len() && 0 <= j < outs.len() && i != j ==> outs[i].tab_id != outs[j].tab_id
}

impl AppStateView {
    /// The state's invariant: the log holds at most `MAX_LOG_LINES` lines and
    /// captured output has at most one entry per tab.
    pub open spec fn wf(self) -> bool {
        &&& self.logs.len() <= MAX_LOG_LINES
        &&& outputs_unique(self.tab_outputs)
    }
}

// ---------------------------------------------------------------------------
// Activity log
// ---------------------------------------------------------------------------

/// The longest log message kept whole; longer ones are cut.
pub const MAX_LOG_MSG: usize = 70;

/// How many characters of a cut log message are kept before `"..."`.
pub const LOG_MSG_KEEP: usize = 67;

/// The log line for `msg` logged at `now`: `"[now] msg"`, the message cut to
/// its first 67 characters and `"..."` when longer than 70.
pub open spec fn log_line(now: Seq<char>, msg: Seq<char>) -> Seq<char> {
    "["@ + now + "] "@ + truncate_spec(msg, MAX_LOG_MSG as nat, LOG_MSG_KEEP as nat)
}

/// The log after appending `line`: the oldest line goes when there would be
/// more than `MAX_LOG_LINES`.
pub open spec fn logs_after(logs: Seq<Seq<char>>, line: Seq<char>) -> Seq<Seq<char>> {
    if logs.len() + 1 > MAX_LOG_LINES {
        logs.push(line).drop_first()
    } else {
        logs.push(line)
    }
}

/// The state unchanged but for its log.
pub open spec fn with_logs(s: AppStateView, logs: Seq<Seq<char>>) -> AppStateView {
    AppStateView { logs, ..s }
}

/// The state after logging `msg` at time `now`.
pub open spec fn add_log_spec(s: AppStateView, now: Seq<char>, msg: Seq<char>) -> AppStateView {
    with_logs(s, logs_after(s.logs, log_line(now, msg)))
}

// ---------------------------------------------------------------------------
// Captured output and running commands
// ---------------------------------------------------------------------------

/// The index of the output entry for `tab_id`, if any.
pub open spec fn output_index(outs: Seq<TabOutputView>, tab_id: Seq<char>) -> Option<int> {
    if exists|i: int| 0 <= i < outs.len() && outs[i].tab_id == tab_id {
        Some(choose|i: int| 0 <= i < outs.len() && outs[i].tab_id == tab_id)
    } else {
        None
    }
}

/// The output lines captured for `tab_id` (none when there is no entry).
pub open spec fn outputs_for(outs: Seq<TabOutputView>, tab_id: Seq<char>) -> Seq<Seq<char>> {
    match output_index(outs, tab_id) {
        Some(i) => outs[i].lines,
        None => Seq::empty(),
    }
}

/// Captured output after appending `line` for `tab_id`: appended to its
/// entry, or a new entry at the end when the tab has none.
pub open spec fn outputs_after(outs: Seq<TabOutputView>, tab_id: Seq<char>, line: Seq<char>) -> Seq<
    TabOutputView,
> {
    match output_index(outs, tab_id) {
        Some(i) => outs.update(i, TabOutputView { tab_id, lines: outs[i].lines.push(line) }),
        None => outs.push(TabOutputView { tab_id, lines: seq![line] }),
    }
}

/// The line logged for a line of agent output: `" agy: "` or, from its error
/// stream, `" agy err: "`, then the line.
pub open spec fn agent_line_message(line: Seq<char>, from_stderr: bool) -> Seq<char> {
    if from_stderr {
        " agy err: "@ + line
    } else {
        " agy: "@ + line
    }
}

/// The state after the agent printed `line` for tab `tab_id` at time `now`:
/// trimmed, and unless empty, logged and appended to the tab's output.
pub open spec fn agent_line_spec(
    s: AppStateView,
    now: Seq<char>,
    tab_id: Seq<char>,
    line: Seq<char>,
    from_stderr: bool,
) -> AppStateView {
    let t = trim_spec(line);
    if t.len() == 0 {
        s
    } else {
        let logged = add_log_spec(s, now, agent_line_message(t, from_stderr));
        AppStateView { tab_outputs: outputs_after(s.tab_outputs, tab_id, t), ..logged }
    }
}

/// The running commands left when the one for `tab` ends: all that belong to
/// other tabs, in order.
pub open spec fn commands_without(cmds: Seq<RunningCommandView>, tab: Seq<char>) -> Seq<
    RunningCommandView,
> {
    cmds.filter(other_tab(tab))
}

/// Holds of the commands that do not belong to tab `tab`.
pub open spec fn other_tab(tab: Seq<char>) -> spec_fn(RunningCommandView) -> bool {
    |c: RunningCommandView| c.tab != tab
}

impl AppState {
    /// The state when the orchestrator starts: no document yet, no tabs,
    /// nothing logged, the log pane shown and the first menu item selected.
    pub fn new() -> (r: AppState)
        ensures
            r@ == (AppStateView {
                doc_title: "Loading..."@,
                last_polled: "Never"@,
                tabs: Seq::empty(),
                running_commands: Seq::empty(),
                logs: Seq::empty(),
                tab_outputs: Seq::empty(),
                running: true,
                selected: 0,
                current_view: ViewKind::Logs,
                selected_tab_id: None,
            }),
            r@.wf(),
    {
        let r = AppState {
            doc_title: owned("Loading..."),
            last_polled: owned("Never"),
            tabs_data: Vec::new(),
            running_commands: Vec::new(),
            logs: Vec::new(),
            tab_outputs: Vec::new(),
            running: true,
            selected_selectable_idx: 0,
            current_view: ViewKind::Logs,
            selected_tab_id: None,
        };
        assert(r.tabs_data.deep_view() =~= Seq::<TabView>::empty());
        assert(r.running_commands.deep_view() =~= Seq::<RunningCommandView>::empty());
        assert(r.logs.deep_view() =~= Seq::<Seq<char>>::empty());
        assert(r.tab_outputs.deep_view() =~= Seq::<TabOutputView>::empty());
        r
    }

    /// Appends `"[now] msg"` to the activity log, cutting a message longer
    /// than 70 characters to 67 and `"..."`, and dropping the oldest line
    /// when the log would hold more than 15.
    pub fn add_log(&mut self, now: &str, msg: &str)
        ensures
            final(self)@ == add_log_spec(old(self)@, now@, msg@),
            msg@.len() > 70 ==> final(self)@.logs.last() == "["@ + now@ + "] "@ + msg@.take(67)
                + "..."@,
            msg@.len() <= 70 ==> final(self)@.logs.last() == "["@ + now@ + "] "@ + msg@,
    {
        proof {
            lemma_log_line_keeps_message_head(old(self)@, now@, msg@);
        }
        let display = truncate_chars(msg, MAX_LOG_MSG, LOG_MSG_KEEP);
        let mut line = owned("[");
        line.append(now);
        line.append("] ");
        line.append(display.as_str());
        let ghost old_logs = self.logs.deep_view();
        self.logs.push(line);
        assert(self.logs.deep_view() =~= old_logs.push(line@));
        if self.logs.len() > MAX_LOG_LINES {
            self.logs.remove(0);
            assert(self.logs.deep_view() =~= old_logs.push(line@).drop_first());
        }
    }

    /// Appends `line` to the captured output of tab `tab_id`, creating its
    /// entry when there is none.
    pub fn record_tab_output(&mut self, tab_id: &str, line: &str)
        requires
            outputs_unique(old(self)@.tab_outputs),
        ensures
            final(self)@ == (AppStateView {
                tab_outputs: outputs_after(old(self)@.tab_outputs, tab_id@, line@),
                ..old(self)@
            }),
            outputs_unique(final(self)@.tab_outputs),
    {
        let ghost outs = self.tab_outputs.deep_view();
        let mut i: usize = 0;
        while i < self.tab_outputs.len()
            invariant
                i <= self.tab_outputs@.len(),
                self@ == old(self)@,
                outputs_unique(outs),
                outs == self.tab_outputs.deep_view(),
                forall|j: int| 0 <= j < i ==> outs[j].tab_id != tab_id@,
            decreases self.tab_outputs@.len() - i,
        {
            if str_eq(self.tab_outputs[i].tab_id.as_str(), tab_id) {
                proof {
                    assert(outs[i as int].tab_id == tab_id@);
                    let k = output_index(outs, tab_id@).unwrap();
                    assert(outs[k].tab_id == tab_id@);
                    assert(k == i);
                }
                let mut entry = self.tab_outputs.remove(i);
                let ghost old_lines = entry.lines.deep_view();
                entry.lines.push(owned(line));
                assert(entry.lines.deep_view() =~= old_lines.push(line@));
                self.tab_outputs.insert(i, entry);
                proof {
                    let new_outs = outs.update(
                        i as int,
                        TabOutputView { tab_id: tab_id@, lines: old_lines.push(line@) },
                    );
                    assert(self.tab_outputs.deep_view() =~= new_outs);
                    assert(outputs_unique(new_outs)) by {
                        assert forall|a: int, b: int|
                            0 <= a < new_outs.len() && 0 <= b < new_outs.len() && a != b implies new_outs[a].tab_id
                            != new_outs[b].tab_id by {
                            assert(new_outs[a].tab_id == outs[a].tab_id);
                            assert(new_outs[b].tab_id == outs[b].tab_id);
                        }
                    }
                }
                return;
            }
            i += 1;
        }
        let mut lines: Vec<String> = Vec::new();
        lines.push(owned(line));
        assert(lines.deep_view() =~= seq![line@]);
        self.tab_outputs.push(TabOutput { tab_id: owned(tab_id), lines });
        proof {
            assert(output_index(outs, tab_id@) is None);
            let new_outs = outs.push(TabOutputView { tab_id: tab_id@, lines: seq![line@] });
            assert(self.tab_outputs.deep_view() =~= new_outs);
            assert(outputs_unique(new_outs)) by {
                assert forall|a: int, b: int|
                    0 <= a < new_outs.len() && 0 <= b < new_outs.len() && a != b implies new_outs[a].tab_id
                    != new_outs[b].tab_id by {
                    if a < outs.len() && b < outs.len() {
                        assert(new_outs[a] == outs[a]);
                        assert(new_outs[b] == outs[b]);
                    } else if a < outs.len() {
                        assert(new_outs[a] == outs[a]);
                    } else {
                        assert(new_outs[b] == outs[b]);
                    }
                }
            }
        }
    }

    /// Handles one line printed by the agent for tab `tab_id`: the line is
    /// trimmed, and unless empty it is logged (prefixed by `" agy: "`, or by
    /// `" agy err: "` for the error stream) and appended to the tab's output.
    pub fn record_agent_line(&mut self, now: &str, tab_id: &str, line: &str, from_stderr: bool)
        requires
            outputs_unique(old(self)@.tab_outputs),
        ensures
            final(self)@ == agent_line_spec(old(self)@, now@, tab_id@, line@, from_stderr),
            outputs_unique(final(self)@.tab_outputs),
    {
        let t = trim(line);
        if t.as_str().is_empty() {
            return;
        }
        let msg = if from_stderr {
            let mut m = owned(" agy err: ");
            m.append(t.as_str());
            m
        } else {
            let mut m = owned(" agy: ");
            m.append(t.as_str());
            m
        };
        self.add_log(now, msg.as_str());
        self.record_tab_output(tab_id, t.as_str());
    }

    /// Records that an agent command started for tab `tab`.
    pub fn start_command(&mut self, tab: &str, command: &str, start_time: &str)
        ensures
            final(self)@ == (AppStateView {
                running_commands: old(self)@.running_commands.push(
                    RunningCommandView { tab: tab@, command: command@, start_time: start_time@ },
                ),
                ..old(self)@
            }),
    {
        let ghost old_cmds = self.running_commands.deep_view();
        self.running_commands.push(
            RunningCommand { tab: owned(tab), command: owned(command), start_time: owned(start_time) },
        );
        assert(self.running_commands.deep_view() =~= old_cmds.push(
            RunningCommandView { tab: tab@, command: command@, start_time: start_time@ },
        ));
    }

    /// Removes every running command of tab `tab`, keeping the others in
    /// order.
    pub fn finish_command(&mut self, tab: &str)
        ensures
            final(self)@ == (AppStateView {
                running_commands: commands_without(old(self)@.running_commands, tab@),
                ..old(self)@
            }),
    {
        let ghost cmds = self.running_commands.deep_view();
        let mut kept: Vec<RunningCommand> = Vec::new();
        let mut rest: Vec<RunningCommand> = Vec::new();
        std::mem::swap(&mut rest, &mut self.running_commands);
        let n = rest.len();
        let mut i: usize = 0;
        proof {
            reveal_with_fuel(Seq::filter, 1);
            assert(cmds.take(0).filter(other_tab(tab@)) =~= Seq::<RunningCommandView>::empty());
        }
        while i < n
            invariant
                n == rest@.len(),
                i <= n,
                rest.deep_view() == cmds,
                kept.deep_view() == cmds.take(i as int).filter(other_tab(tab@)),
            decreases n - i,
        {
            let ghost before = kept.deep_view();
            assert(cmds.take(i + 1).drop_last() =~= cmds.take(i as int));
            proof {
                reveal_with_fuel(Seq::filter, 1);
            }
            if !str_eq(rest[i].tab.as_str(), tab) {
                let c = RunningCommand {
                    tab: rest[i].tab.clone(),
                    command: rest[i].command.clone(),
                    start_time: rest[i].start_time.clone(),
                };
                kept.push(c);
                assert(kept.deep_view() =~= before.push(cmds[i as int]));
            }
            i += 1;
        }
        assert(cmds.take(n as int) =~= cmds);
        self.running_commands = kept;
    }
}

impl AppState {
    /// Whether captured output has at most one entry per tab.
    pub fn outputs_are_unique(&self) -> (r: bool)
        ensures
            r == outputs_unique(self@.tab_outputs),
    {
        let ghost outs = self@.tab_outputs;
        let n = self.tab_outputs.len();
        let mut i: usize = 0;
        while i < n
            invariant
                outs == self@.tab_outputs,
                n == outs.len(),
                i <= n,
                forall|a: int, b: int| 0 <= a < i && 0 <= b < n && a != b ==> outs[a].tab_id
                    != outs[b].tab_id,
            decreases n - i,
        {
            let mut j: usize = 0;
            while j < n
                invariant
                    outs == self@.tab_outputs,
                    n == outs.len(),
                    i < n,
                    j <= n,
                    forall|a: int, b: int| 0 <= a < i && 0 <= b < n && a != b ==> outs[a].tab_id
                        != outs[b].tab_id,
                    forall|b: int| 0 <= b < j && i != b ==> outs[i as int].tab_id != outs[b].tab_id,
                decreases n - j,
            {
                if i != j && str_eq(
                    self.tab_outputs[i].tab_id.as_str(),
                    self.tab_outputs[j].tab_id.as_str(),
                ) {
                    assert(outs[i as int].tab_id == outs[j as int].tab_id);
                    return false;
                }
                j += 1;
            }
            i += 1;
        }
        true
    }
}

/// Logging keeps the state's invariant, and the newest line is the last one.
pub proof fn lemma_add_log_keeps_wf(s: AppStateView, now: Seq<char>, msg: Seq<char>)
    requires
        s.wf(),
    ensures
        add_log_spec(s, now, msg).wf(),
        add_log_spec(s, now, msg).logs.last() == log_line(now, msg),
        add_log_spec(s, now, msg).logs.len() == if s.logs.len() < MAX_LOG_LINES {
            s.logs.len() + 1
        } else {
            MAX_LOG_LINES as nat
        },
{
}

/// A logged message shows at most 70 characters of the message.
pub proof fn lemma_log_message_bounded(msg: Seq<char>)
    ensures
        truncate_spec(msg, MAX_LOG_MSG as nat, LOG_MSG_KEEP as nat).len() <= MAX_LOG_MSG,
{
    reveal_strlit("...");
}

/// A logged line is `"[now] "` and the message: whole when it has at most 70
/// characters, else its first 67 characters and `"..."`. It becomes the
/// newest line of the log, after the earlier lines in their order; the log
/// grows by one line unless it already holds 15 or more, when its oldest
/// line goes and it keeps its length.
pub proof fn lemma_log_line_keeps_message_head(s: AppStateView, now: Seq<char>, msg: Seq<char>)
    ensures
        msg.len() > 70 ==> log_line(now, msg) == "["@ + now + "] "@ + msg.take(67) + "..."@,
        msg.len() <= 70 ==> log_line(now, msg) == "["@ + now + "] "@ + msg,
        add_log_spec(s, now, msg).logs.last() == log_line(now, msg),
        s.logs.len() < 15 ==> add_log_spec(s, now, msg).logs.len() == s.logs.len() + 1,
        s.logs.len() >= 15 ==> add_log_spec(s, now, msg).logs.len() == s.logs.len(),
        forall|i: int|
            0 <= i < s.logs.len() && s.logs.len() < 15 ==> #[trigger] add_log_spec(
                s,
                now,
                msg,
            ).logs[i] == s.logs[i],
        forall|i: int|
            0 <= i < s.logs.len() - 1 && s.logs.len() >= 15 ==> #[trigger] add_log_spec(
                s,
                now,
                msg,
            ).logs[i] == s.logs[i + 1],
{
}

} // verus!
