//! The terminal frame: a navigation column on the left, the selected pane on
//! the right, a separator and a footer, built as lines of text with ANSI
//! colours.
use vstd::prelude::*;
use vstd::string::StringSliceAdditionalSpecFns;
use vstd::utf8::{decode_utf8, encode_utf8, encode_utf8_decode_utf8, is_char_boundary};

use crate::config::{DOC_ID, POLL_INTERVAL_SECS};
use crate::input::{activate, first_tab_with_id, left_click, menu_len};
use crate::state::{outputs_for, AppState, AppStateView, TabView, ViewKind};
use crate::text::{
    ansi_closed, contains, decimal, esc_after, fill, is_ascii_alpha, lemma_fill_plain,
    lemma_pad_colored_visible_width, lemma_visible_concat, lemma_visible_plain, no_esc,
    strip_ansi_spec, visible_from, ljust, ljust_exec, owned, pad_colored, pad_colored_spec,
    repeat_char, str_contains, str_eq, string_of_range, truncate_chars, truncate_spec,
    u64_to_decimal, chars_of,
};

verus! {

/// Resets colours and attributes.
pub const C_RESET: &'static str = "\x1b[0m";

/// Bold text.
pub const C_BOLD: &'static str = "\x1b[1m";

/// Cyan text.
pub const C_CYAN: &'static str = "\x1b[36m";

/// Green text.
pub const C_GREEN: &'static str = "\x1b[32m";

/// Yellow text.
pub const C_YELLOW: &'static str = "\x1b[33m";

/// Magenta text.
pub const C_MAGENTA: &'static str = "\x1b[35m";

/// Blue text.
pub const C_BLUE: &'static str = "\x1b[34m";

/// Gray text.
pub const C_GRAY: &'static str = "\x1b[90m";

/// Visible width of the navigation column.
pub const LEFT_WIDTH: usize = 32;

/// Visible width of the right-hand pane.
pub const RIGHT_WIDTH: usize = 52;

/// Visible width of the footer's text lines.
pub const FOOTER_WIDTH: usize = 85;

/// The most captured output lines shown for a tab.
pub const MAX_OUTPUT_LINES: usize = 15;

// ---------------------------------------------------------------------------
// Left column
// ---------------------------------------------------------------------------

/// A section title in cyan and bold.
pub open spec fn section_title(t: Seq<char>) -> Seq<char> {
    C_CYAN@ + C_BOLD@ + t + C_RESET@
}

/// The banner at the top of the navigation column.
pub open spec fn banner_lines() -> Seq<Seq<char>> {
    seq![
        C_BOLD@ + C_CYAN@ + "┌──────────────────────────────┐"@ + C_RESET@,
        C_BOLD@ + C_CYAN@ + "│     ORCHESTRATOR PANEL       │"@ + C_RESET@,
        C_BOLD@ + C_CYAN@ + "└──────────────────────────────┘"@ + C_RESET@,
        Seq::empty(),
    ]
}

/// The text after the last space of `s` (all of `s` when it has none).
pub open spec fn after_last_space(s: Seq<char>) -> Seq<char>
    decreases s.len(),
{
    if s.len() == 0 {
        s
    } else if s.last() == ' ' {
        Seq::empty()
    } else {
        after_last_space(s.drop_last()).push(s.last())
    }
}

/// The poll time as shown: its last space-separated part (the time of day).
pub open spec fn short_polled(s: Seq<char>) -> Seq<char> {
    if contains(s, " "@) {
        after_last_space(s)
    } else {
        s
    }
}

/// `s` cut to its first `n` characters when longer.
pub open spec fn prefix_chars(s: Seq<char>, n: nat) -> Seq<char> {
    if s.len() > n {
        s.take(n as int)
    } else {
        s
    }
}

/// The document card: title, id, last poll time and polling interval.
pub open spec fn doc_info_lines(s: AppStateView) -> Seq<Seq<char>> {
    seq![
        section_title("Document Info:"@),
        " • Title   : "@ + C_BOLD@ + truncate_spec(s.doc_title, 20, 17) + C_RESET@,
        " • ID      : "@ + C_BLUE@ + prefix_chars(DOC_ID@, 12) + "..."@ + C_RESET@,
        " • Updated : "@ + C_GRAY@ + short_polled(s.last_polled) + C_RESET@,
        " • Interval: "@ + decimal(POLL_INTERVAL_SECS as nat) + "s"@,
        Seq::empty(),
    ]
}

/// The label of menu item `i`: "About", "Global Activity Logs", then
/// "Tab: " and the title of each tab.
pub open spec fn menu_label(s: AppStateView, i: int) -> Seq<char> {
    if i == 0 {
        "About"@
    } else if i == 1 {
        "Global Activity Logs"@
    } else {
        "Tab: "@ + s.tabs[i - 2].title
    }
}

/// The line of menu item `i`, with a green marker when it is selected.
pub open spec fn menu_line(s: AppStateView, i: int) -> Seq<char> {
    let label = truncate_spec(menu_label(s, i), 24, 21);
    if i == s.selected {
        " "@ + C_GREEN@ + "▶"@ + C_RESET@ + " "@ + C_BOLD@ + C_GREEN@ + label
    } else {
        "   "@ + label
    }
}

/// The navigation menu: its title, one line per item, and a blank line.
pub open spec fn menu_lines(s: AppStateView) -> Seq<Seq<char>> {
    seq![section_title("Navigation Menu:"@)] + Seq::new(
        s.tabs.len() + 2,
        |i: int| menu_line(s, i),
    ) + seq![Seq::<char>::empty()]
}

/// The running commands card.
pub open spec fn running_lines(s: AppStateView) -> Seq<Seq<char>> {
    seq![section_title("Running Commands:"@)] + if s.running_commands.len() > 0 {
        Seq::new(
            s.running_commands.len(),
            |i: int|
                " • "@ + s.running_commands[i].start_time + " "@ + C_YELLOW@ + truncate_spec(
                    s.running_commands[i].tab,
                    18,
                    15,
                ) + C_RESET@,
        )
    } else {
        seq![" "@ + C_GRAY@ + "(No active commands)"@ + C_RESET@]
    }
}

/// The navigation column.
pub open spec fn left_lines_spec(s: AppStateView) -> Seq<Seq<char>> {
    banner_lines() + doc_info_lines(s) + menu_lines(s) + running_lines(s)
}

// ---------------------------------------------------------------------------
// Right pane
// ---------------------------------------------------------------------------

/// A tab id as shown in the table: when longer than 10 bytes, its first 8
/// bytes and `".."`.
pub open spec fn short_tab_id(id: Seq<char>) -> Seq<char> {
    if encode_utf8(id).len() > 10 {
        decode_utf8(encode_utf8(id).take(8)) + ".."@
    } else {
        id
    }
}

/// The colour of a status: magenta for `READY`, yellow for `WORKING`, blue
/// for `HUMAN`, green otherwise.
pub open spec fn status_color(status: Seq<char>) -> Seq<char> {
    if status == "READY"@ {
        C_MAGENTA@
    } else if status == "WORKING"@ {
        C_YELLOW@
    } else if status == "HUMAN"@ {
        C_BLUE@
    } else {
        C_GREEN@
    }
}

/// The table row of a tab: id, title and coloured status in columns of 10,
/// 26 and 12 characters.
pub open spec fn tab_row(t: TabView) -> Seq<char> {
    "  "@ + ljust(short_tab_id(t.id), 10) + " "@ + ljust(truncate_spec(t.title, 26, 23), 26) + " "@
        + status_color(t.status) + ljust(t.status, 12) + C_RESET@
}

/// The log pane: the tab table and the activity log.
pub open spec fn logs_pane(s: AppStateView) -> Seq<Seq<char>> {
    seq![
        section_title("Document Tabs Status:"@),
        "  "@ + C_BOLD@ + ljust("Tab ID"@, 10) + " "@ + ljust("Tab Title"@, 26) + " "@ + ljust(
            "Status"@,
            12,
        ) + C_RESET@,
    ] + Seq::new(s.tabs.len(), |i: int| tab_row(s.tabs[i])) + seq![
        Seq::<char>::empty(),
        section_title("Global Activity Logs:"@),
    ] + if s.logs.len() > 0 {
        Seq::new(s.logs.len(), |i: int| "  "@ + s.logs[i])
    } else {
        seq!["  (No logs yet. Initializing...)"@]
    }
}

/// The about pane.
pub open spec fn about_pane() -> Seq<Seq<char>> {
    seq![
        section_title("About Orchestrator:"@),
        Seq::empty(),
        "  Google Docs Agent Orchestrator TUI (Rust Edition)"@,
        Seq::empty(),
        "  "@ + C_CYAN@ + "★ PRIMARY SYSTEM INPUT:"@ + C_RESET@,
        "  Each individual Google Doc Tab serves as a direct"@,
        "  input/job channel to this orchestration system."@,
        "  Trigger/Input state transitions on Tab Titles:"@,
        "   • [agent]         -> System Input / Job Trigger"@,
        "   • [agent,working] -> Running Background Process"@,
        "   • [human]         -> Task Completed"@,
        Seq::empty(),
        "  "@ + C_BOLD@ + "Active Command Template:"@ + C_RESET@,
        "  "@ + C_YELLOW@ + "agy --dangerously-skip-permissions --print \\"@ + C_RESET@,
        "    "@ + C_YELLOW@ + "\"read <Tab Title> of the "@ + prefix_chars(DOC_ID@, 15)
            + "...\\"@ + C_RESET@,
        "    "@ + C_YELLOW@ + "via API, and update the contents in the tab\\"@ + C_RESET@,
        "    "@ + C_YELLOW@ + "accordingly then update to [human]\""@ + C_RESET@,
        Seq::empty(),
        "  "@ + C_BOLD@ + "Navigation Info:"@ + C_RESET@,
        "  • Use arrow keys [↑/↓] or [w/s] or [j/k] to navigate."@,
        "  • Press [Enter] or [Space] on a tab to select it."@,
        "  • Click on navigation menu or table tabs using mouse."@,
        "  • Select \"Global Activity Logs\" to return to logs."@,
    ]
}

/// The title of the selected tab (its first tab with that id), or
/// `"Unknown Tab"`.
pub open spec fn selected_tab_name(s: AppStateView) -> Seq<char> {
    match s.selected_tab_id {
        Some(id) => {
            let j = first_tab_with_id(s, id, 0);
            if 0 <= j < s.tabs.len() {
                s.tabs[j].title
            } else {
                "Unknown Tab"@
            }
        },
        None => "Unknown Tab"@,
    }
}

/// The output captured for the selected tab.
pub open spec fn selected_outputs(s: AppStateView) -> Seq<Seq<char>> {
    match s.selected_tab_id {
        Some(id) => outputs_for(s.tab_outputs, id),
        None => Seq::empty(),
    }
}

/// The last `MAX_OUTPUT_LINES` lines of `outs`.
pub open spec fn output_tail(outs: Seq<Seq<char>>) -> Seq<Seq<char>> {
    if outs.len() > MAX_OUTPUT_LINES {
        outs.skip(outs.len() - MAX_OUTPUT_LINES)
    } else {
        outs
    }
}

/// The output pane of the selected tab.
pub open spec fn tab_output_pane(s: AppStateView) -> Seq<Seq<char>> {
    let outs = selected_outputs(s);
    let tail = output_tail(outs);
    seq![
        section_title(
            "Output of tab: '"@ + truncate_spec(selected_tab_name(s), 24, 21) + "'"@,
        ),
        "  "@ + C_GRAY@ + "Last execution stream output:"@ + C_RESET@,
        Seq::empty(),
    ] + if outs.len() > 0 {
        Seq::new(tail.len(), |i: int| "  "@ + C_GREEN@ + "▶"@ + C_RESET@ + " "@ + tail[i])
    } else {
        seq![
            "  (No output captured for this tab yet.)"@,
            Seq::empty(),
            "  To capture output, set the tab title status tag"@,
            "  to [agent] in Google Docs. TUI will trigger a run"@,
            "  and capture the stdout/stderr stream here."@,
        ]
    }
}

/// The right-hand pane for the current view.
pub open spec fn right_lines_spec(s: AppStateView) -> Seq<Seq<char>> {
    match s.current_view {
        ViewKind::Logs => logs_pane(s),
        ViewKind::About => about_pane(),
        ViewKind::TabOutput => tab_output_pane(s),
    }
}

// ---------------------------------------------------------------------------
// The frame
// ---------------------------------------------------------------------------

/// Line `i` of `lines`, or the empty text past its end.
pub open spec fn line_or_empty(lines: Seq<Seq<char>>, i: int) -> Seq<char> {
    if 0 <= i < lines.len() {
        lines[i]
    } else {
        Seq::empty()
    }
}

/// A body row: the two columns padded to their widths, with a gray bar
/// between them.
pub open spec fn body_row(left: Seq<char>, right: Seq<char>) -> Seq<char> {
    " "@ + pad_colored_spec(left, LEFT_WIDTH as nat, ' ', "left"@) + " "@ + C_GRAY@ + "│"@
        + C_RESET@ + " "@ + pad_colored_spec(right, RIGHT_WIDTH as nat, ' ', "left"@)
}

/// The body: one row per line of the longer column.
pub open spec fn body_rows(s: AppStateView) -> Seq<Seq<char>> {
    let l = left_lines_spec(s);
    let r = right_lines_spec(s);
    let n = if l.len() >= r.len() {
        l.len()
    } else {
        r.len()
    };
    Seq::new(n, |i: int| body_row(line_or_empty(l, i), line_or_empty(r, i)))
}

/// The name of a view as shown in the footer.
pub open spec fn view_name(v: ViewKind) -> Seq<char> {
    match v {
        ViewKind::Logs => "LOGS"@,
        ViewKind::About => "ABOUT"@,
        ViewKind::TabOutput => "TAB_OUTPUT"@,
    }
}

/// The separator under the body and the boxed footer.
pub open spec fn footer_lines(s: AppStateView) -> Seq<Seq<char>> {
    let line1 = pad_colored_spec(
        C_BOLD@ + C_RESET@ + "Quick Controls:"@ + C_RESET@
            + " [↑/↓] Navigate | [Enter] Select/Click | [q] Exit"@,
        FOOTER_WIDTH as nat,
        ' ',
        "left"@,
    );
    let line2 = pad_colored_spec(
        C_BOLD@ + C_RESET@ + "Current View:"@ + C_RESET@ + " "@ + C_GREEN@ + view_name(
            s.current_view,
        ) + C_RESET@,
        FOOTER_WIDTH as nat,
        ' ',
        "left"@,
    );
    seq![
        " "@ + C_GRAY@ + fill('─', LEFT_WIDTH as nat) + "┼"@ + "─"@ + fill('─', 54) + C_RESET@,
        " "@ + C_GRAY@ + "┌"@ + fill('─', (FOOTER_WIDTH + 2) as nat) + "┐"@ + C_RESET@,
        " "@ + C_GRAY@ + "│"@ + C_RESET@ + " "@ + line1 + " │"@ + C_RESET@,
        " "@ + C_GRAY@ + "│"@ + C_RESET@ + " "@ + line2 + " │"@ + C_RESET@,
        " "@ + C_GRAY@ + "└"@ + fill('─', (FOOTER_WIDTH + 2) as nat) + "┘"@ + C_RESET@,
    ]
}

/// Every line of the frame, top to bottom.
pub open spec fn frame_spec(s: AppStateView) -> Seq<Seq<char>> {
    body_rows(s) + footer_lines(s)
}

/// The frame can be drawn without failing: in the log pane every tab id
/// longer than 10 bytes has a character boundary at byte 8 (and, as for any
/// string in memory, its length in bytes fits in a `usize`).
pub open spec fn frame_drawable(s: AppStateView) -> bool {
    s.current_view == ViewKind::Logs ==> forall|i: int|
        0 <= i < s.tabs.len() ==> {
            &&& encode_utf8(#[trigger] s.tabs[i].id).len() <= usize::MAX
            &&& encode_utf8(s.tabs[i].id).len() > 10 ==> is_char_boundary(
                encode_utf8(s.tabs[i].id),
                8,
            )
        }
}


// ---------------------------------------------------------------------------
// Building the lines
// ---------------------------------------------------------------------------

/// Appends `line` to `lines`.
fn push_line(lines: &mut Vec<String>, line: String)
    ensures
        final(lines).deep_view() == old(lines).deep_view().push(line@),
{
    let ghost before = lines.deep_view();
    lines.push(line);
    assert(lines.deep_view() =~= before.push(line@));
}

/// Appends all of `more` to `lines`.
fn append_lines(lines: &mut Vec<String>, more: Vec<String>)
    ensures
        final(lines).deep_view() == old(lines).deep_view() + more.deep_view(),
{
    let ghost before = lines.deep_view();
    let ghost added = more.deep_view();
    let mut more = more;
    lines.append(&mut more);
    assert(lines.deep_view() =~= before + added);
}

/// A section title in cyan and bold.
fn section_title_exec(t: &str) -> (r: String)
    ensures
        r@ == section_title(t@),
{
    let mut r = owned(C_CYAN);
    r.append(C_BOLD);
    r.append(t);
    r.append(C_RESET);
    r
}

/// The first `n` characters of `s`, or all of it when shorter.
fn prefix_chars_exec(s: &str, n: usize) -> (r: String)
    ensures
        r@ == prefix_chars(s@, n as nat),
{
    let v = chars_of(s);
    if v.len() > n {
        string_of_range(v.as_slice(), 0, n)
    } else {
        owned(s)
    }
}

proof fn lemma_after_last_space(s: Seq<char>, j: int)
    requires
        0 <= j <= s.len(),
        forall|i: int| j <= i < s.len() ==> s[i] != ' ',
        j == 0 || s[j - 1] == ' ',
    ensures
        after_last_space(s) == s.subrange(j, s.len() as int),
    decreases s.len(),
{
    if s.len() == j {
        if j > 0 {
            assert(s.last() == ' ');
        }
        assert(s.subrange(j, j) =~= Seq::<char>::empty());
        if j == 0 {
            assert(s =~= Seq::<char>::empty());
        }
    } else {
        lemma_after_last_space(s.drop_last(), j);
        assert(s.drop_last().subrange(j, s.len() - 1).push(s.last()) =~= s.subrange(
            j,
            s.len() as int,
        ));
    }
}

/// The poll time as shown.
fn short_polled_exec(s: &str) -> (r: String)
    ensures
        r@ == short_polled(s@),
{
    if str_contains(s, " ") {
        let v = chars_of(s);
        let n = v.len();
        let mut j = n;
        while j > 0 && v[j - 1] != ' '
            invariant
                v@ == s@,
                n == v@.len(),
                j <= n,
                forall|i: int| j <= i < n ==> s@[i] != ' ',
            decreases j,
        {
            j -= 1;
        }
        proof {
            lemma_after_last_space(s@, j as int);
        }
        string_of_range(v.as_slice(), j, n)
    } else {
        owned(s)
    }
}

/// The banner at the top of the navigation column.
fn banner_exec() -> (r: Vec<String>)
    ensures
        r.deep_view() == banner_lines(),
{
    let mut r: Vec<String> = Vec::new();
    let mut l1 = owned(C_BOLD);
    l1.append(C_CYAN);
    l1.append("┌──────────────────────────────┐");
    l1.append(C_RESET);
    push_line(&mut r, l1);
    let mut l2 = owned(C_BOLD);
    l2.append(C_CYAN);
    l2.append("│     ORCHESTRATOR PANEL       │");
    l2.append(C_RESET);
    push_line(&mut r, l2);
    let mut l3 = owned(C_BOLD);
    l3.append(C_CYAN);
    l3.append("└──────────────────────────────┘");
    l3.append(C_RESET);
    push_line(&mut r, l3);
    push_line(&mut r, String::new());
    assert(r.deep_view() =~= banner_lines());
    r
}

impl AppState {
    /// The document card.
    fn doc_info_exec(&self) -> (r: Vec<String>)
        ensures
            r.deep_view() == doc_info_lines(self@),
    {
        let mut r: Vec<String> = Vec::new();
        push_line(&mut r, section_title_exec("Document Info:"));
        let title = truncate_chars(self.doc_title.as_str(), 20, 17);
        let mut l = owned(" • Title   : ");
        l.append(C_BOLD);
        l.append(title.as_str());
        l.append(C_RESET);
        push_line(&mut r, l);
        let id_short = prefix_chars_exec(DOC_ID, 12);
        let mut l = owned(" • ID      : ");
        l.append(C_BLUE);
        l.append(id_short.as_str());
        l.append("...");
        l.append(C_RESET);
        push_line(&mut r, l);
        let polled = short_polled_exec(self.last_polled.as_str());
        let mut l = owned(" • Updated : ");
        l.append(C_GRAY);
        l.append(polled.as_str());
        l.append(C_RESET);
        push_line(&mut r, l);
        let secs = u64_to_decimal(POLL_INTERVAL_SECS);
        let mut l = owned(" • Interval: ");
        l.append(secs.as_str());
        l.append("s");
        push_line(&mut r, l);
        push_line(&mut r, String::new());
        assert(r.deep_view() =~= doc_info_lines(self@));
        r
    }

    /// The label of menu item `i`.
    fn menu_label_exec(&self, i: usize) -> (r: String)
        requires
            i < self.tabs_data@.len() + 2,
        ensures
            r@ == menu_label(self@, i as int),
    {
        if i == 0 {
            owned("About")
        } else if i == 1 {
            owned("Global Activity Logs")
        } else {
            let mut r = owned("Tab: ");
            r.append(self.tabs_data[i - 2].title.as_str());
            r
        }
    }

    /// The navigation menu.
    fn menu_exec(&self) -> (r: Vec<String>)
        requires
            self.tabs_data@.len() + 2 <= usize::MAX,
        ensures
            r.deep_view() == menu_lines(self@),
    {
        let n = self.tabs_data.len() + 2;
        let ghost items = Seq::new(n as nat, |i: int| menu_line(self@, i));
        let mut r: Vec<String> = Vec::new();
        push_line(&mut r, section_title_exec("Navigation Menu:"));
        let mut i: usize = 0;
        assert(r.deep_view() =~= seq![section_title("Navigation Menu:"@)] + items.take(0));
        while i < n
            invariant
                n == self.tabs_data@.len() + 2,
                i <= n,
                items == Seq::new(n as nat, |i: int| menu_line(self@, i)),
                r.deep_view() == seq![section_title("Navigation Menu:"@)] + items.take(i as int),
            decreases n - i,
        {
            let label = self.menu_label_exec(i);
            let label = truncate_chars(label.as_str(), 24, 21);
            let line = if i == self.selected_selectable_idx {
                let mut l = owned(" ");
                l.append(C_GREEN);
                l.append("▶");
                l.append(C_RESET);
                l.append(" ");
                l.append(C_BOLD);
                l.append(C_GREEN);
                l.append(label.as_str());
                l
            } else {
                let mut l = owned("   ");
                l.append(label.as_str());
                l
            };
            let ghost before = r.deep_view();
            push_line(&mut r, line);
            assert(items.take(i + 1) =~= items.take(i as int).push(items[i as int]));
            assert(r.deep_view() =~= seq![section_title("Navigation Menu:"@)] + items.take(
                i + 1,
            ));
            i += 1;
        }
        push_line(&mut r, String::new());
        assert(items.take(n as int) =~= items);
        assert(r.deep_view() =~= menu_lines(self@));
        r
    }

    /// The running commands card.
    fn running_exec(&self) -> (r: Vec<String>)
        ensures
            r.deep_view() == running_lines(self@),
    {
        let mut r: Vec<String> = Vec::new();
        push_line(&mut r, section_title_exec("Running Commands:"));
        let ghost cmds = self@.running_commands;
        if self.running_commands.len() > 0 {
            let n = self.running_commands.len();
            let ghost items = Seq::new(
                cmds.len(),
                |i: int|
                    " • "@ + cmds[i].start_time + " "@ + C_YELLOW@ + truncate_spec(cmds[i].tab, 18, 15)
                        + C_RESET@,
            );
            let mut i: usize = 0;
            assert(r.deep_view() =~= seq![section_title("Running Commands:"@)] + items.take(0));
            while i < n
                invariant
                    n == self.running_commands@.len(),
                    cmds == self@.running_commands,
                    i <= n,
                    items == Seq::new(
                        cmds.len(),
                        |i: int|
                            " • "@ + cmds[i].start_time + " "@ + C_YELLOW@ + truncate_spec(
                                cmds[i].tab,
                                18,
                                15,
                            ) + C_RESET@,
                    ),
                    r.deep_view() == seq![section_title("Running Commands:"@)] + items.take(
                        i as int,
                    ),
                decreases n - i,
            {
                let c = &self.running_commands[i];
                let tab = truncate_chars(c.tab.as_str(), 18, 15);
                let mut l = owned(" • ");
                l.append(c.start_time.as_str());
                l.append(" ");
                l.append(C_YELLOW);
                l.append(tab.as_str());
                l.append(C_RESET);
                push_line(&mut r, l);
                assert(items.take(i + 1) =~= items.take(i as int).push(items[i as int]));
                i += 1;
            }
            assert(items.take(n as int) =~= items);
        } else {
            let mut l = owned(" ");
            l.append(C_GRAY);
            l.append("(No active commands)");
            l.append(C_RESET);
            push_line(&mut r, l);
        }
        assert(r.deep_view() =~= running_lines(self@));
        r
    }

    /// The navigation column.
    pub fn left_lines(&self) -> (r: Vec<String>)
        requires
            self.tabs_data@.len() + 2 <= usize::MAX,
        ensures
            r.deep_view() == left_lines_spec(self@),
    {
        let mut r = banner_exec();
        append_lines(&mut r, self.doc_info_exec());
        append_lines(&mut r, self.menu_exec());
        append_lines(&mut r, self.running_exec());
        r
    }
}

/// A tab id as shown in the table.
fn short_tab_id_exec(id: &str) -> (r: String)
    requires
        encode_utf8(id@).len() <= usize::MAX,
        encode_utf8(id@).len() > 10 ==> is_char_boundary(encode_utf8(id@), 8),
    ensures
        r@ == short_tab_id(id@),
{
    if id.len() > 10 {
        let (head, _) = id.split_at(8);
        proof {
            encode_utf8_decode_utf8(head@);
            assert(head.spec_bytes() == encode_utf8(head@));
            assert(id.spec_bytes() == encode_utf8(id@));
            assert(encode_utf8(id@).take(8) =~= encode_utf8(id@).subrange(0, 8));
            assert(head@ == decode_utf8(encode_utf8(id@).take(8)));
        }
        let mut r = owned(head);
        r.append("..");
        r
    } else {
        owned(id)
    }
}

/// The colour of a status.
fn status_color_exec(status: &str) -> (r: &'static str)
    ensures
        r@ == status_color(status@),
{
    if str_eq(status, "READY") {
        C_MAGENTA
    } else if str_eq(status, "WORKING") {
        C_YELLOW
    } else if str_eq(status, "HUMAN") {
        C_BLUE
    } else {
        C_GREEN
    }
}

impl AppState {
    /// The log pane.
    fn logs_pane_exec(&self) -> (r: Vec<String>)
        requires
            frame_drawable(self@),
            self.current_view == ViewKind::Logs,
        ensures
            r.deep_view() == logs_pane(self@),
    {
        let ghost s = self@;
        let mut r: Vec<String> = Vec::new();
        push_line(&mut r, section_title_exec("Document Tabs Status:"));
        let c1 = ljust_exec("Tab ID", 10);
        let c2 = ljust_exec("Tab Title", 26);
        let c3 = ljust_exec("Status", 12);
        let mut h = owned("  ");
        h.append(C_BOLD);
        h.append(c1.as_str());
        h.append(" ");
        h.append(c2.as_str());
        h.append(" ");
        h.append(c3.as_str());
        h.append(C_RESET);
        push_line(&mut r, h);
        let ghost head = r.deep_view();
        let ghost rows = Seq::new(s.tabs.len(), |i: int| tab_row(s.tabs[i]));
        let n = self.tabs_data.len();
        let mut i: usize = 0;
        assert(r.deep_view() =~= head + rows.take(0));
        while i < n
            invariant
                s == self@,
                frame_drawable(s),
                s.current_view == ViewKind::Logs,
                n == s.tabs.len(),
                i <= n,
                rows == Seq::new(s.tabs.len(), |i: int| tab_row(s.tabs[i])),
                r.deep_view() == head + rows.take(i as int),
            decreases n - i,
        {
            let t = &self.tabs_data[i];
            assert(s.tabs[i as int] == t.deep_view());
            assert(encode_utf8(s.tabs[i as int].id).len() <= usize::MAX);
            assert(encode_utf8(s.tabs[i as int].id).len() > 10 ==> is_char_boundary(
                encode_utf8(s.tabs[i as int].id),
                8,
            ));
            let tid = short_tab_id_exec(t.id.as_str());
            let tid = ljust_exec(tid.as_str(), 10);
            let title = truncate_chars(t.title.as_str(), 26, 23);
            let title = ljust_exec(title.as_str(), 26);
            let status = ljust_exec(t.status.as_str(), 12);
            let mut l = owned("  ");
            l.append(tid.as_str());
            l.append(" ");
            l.append(title.as_str());
            l.append(" ");
            l.append(status_color_exec(t.status.as_str()));
            l.append(status.as_str());
            l.append(C_RESET);
            push_line(&mut r, l);
            assert(rows.take(i + 1) =~= rows.take(i as int).push(rows[i as int]));
            assert(head + rows.take(i + 1) =~= (head + rows.take(i as int)).push(rows[i as int]));
            i += 1;
        }
        assert(rows.take(n as int) =~= rows);
        push_line(&mut r, String::new());
        push_line(&mut r, section_title_exec("Global Activity Logs:"));
        let ghost mid = r.deep_view();
        if self.logs.len() > 0 {
            let ghost items = Seq::new(s.logs.len(), |i: int| "  "@ + s.logs[i]);
            let m = self.logs.len();
            let mut k: usize = 0;
            assert(r.deep_view() =~= mid + items.take(0));
            while k < m
                invariant
                    s == self@,
                    m == s.logs.len(),
                    k <= m,
                    items == Seq::new(s.logs.len(), |i: int| "  "@ + s.logs[i]),
                    r.deep_view() == mid + items.take(k as int),
                decreases m - k,
            {
                let mut l = owned("  ");
                l.append(self.logs[k].as_str());
                push_line(&mut r, l);
                assert(items.take(k + 1) =~= items.take(k as int).push(items[k as int]));
                assert(mid + items.take(k + 1) =~= (mid + items.take(k as int)).push(
                    items[k as int],
                ));
                k += 1;
            }
            assert(items.take(m as int) =~= items);
        } else {
            push_line(&mut r, owned("  (No logs yet. Initializing...)"));
        }
        assert(r.deep_view() =~= logs_pane(s));
        r
    }
}

/// The about pane.
fn about_pane_exec() -> (r: Vec<String>)
    ensures
        r.deep_view() == about_pane(),
{
    let mut r: Vec<String> = Vec::new();
    push_line(&mut r, section_title_exec("About Orchestrator:"));
    push_line(&mut r, String::new());
    push_line(&mut r, owned("  Google Docs Agent Orchestrator TUI (Rust Edition)"));
    push_line(&mut r, String::new());
    let mut l = owned("  ");
    l.append(C_CYAN);
    l.append("★ PRIMARY SYSTEM INPUT:");
    l.append(C_RESET);
    push_line(&mut r, l);
    push_line(&mut r, owned("  Each individual Google Doc Tab serves as a direct"));
    push_line(&mut r, owned("  input/job channel to this orchestration system."));
    push_line(&mut r, owned("  Trigger/Input state transitions on Tab Titles:"));
    push_line(&mut r, owned("   • [agent]         -> System Input / Job Trigger"));
    push_line(&mut r, owned("   • [agent,working] -> Running Background Process"));
    push_line(&mut r, owned("   • [human]         -> Task Completed"));
    push_line(&mut r, String::new());
    let mut l = owned("  ");
    l.append(C_BOLD);
    l.append("Active Command Template:");
    l.append(C_RESET);
    push_line(&mut r, l);
    let mut l = owned("  ");
    l.append(C_YELLOW);
    l.append("agy --dangerously-skip-permissions --print \\");
    l.append(C_RESET);
    push_line(&mut r, l);
    let id15 = prefix_chars_exec(DOC_ID, 15);
    let mut l = owned("    ");
    l.append(C_YELLOW);
    l.append("\"read <Tab Title> of the ");
    l.append(id15.as_str());
    l.append("...\\");
    l.append(C_RESET);
    push_line(&mut r, l);
    let mut l = owned("    ");
    l.append(C_YELLOW);
    l.append("via API, and update the contents in the tab\\");
    l.append(C_RESET);
    push_line(&mut r, l);
    let mut l = owned("    ");
    l.append(C_YELLOW);
    l.append("accordingly then update to [human]\"");
    l.append(C_RESET);
    push_line(&mut r, l);
    push_line(&mut r, String::new());
    let mut l = owned("  ");
    l.append(C_BOLD);
    l.append("Navigation Info:");
    l.append(C_RESET);
    push_line(&mut r, l);
    push_line(&mut r, owned("  • Use arrow keys [↑/↓] or [w/s] or [j/k] to navigate."));
    push_line(&mut r, owned("  • Press [Enter] or [Space] on a tab to select it."));
    push_line(&mut r, owned("  • Click on navigation menu or table tabs using mouse."));
    push_line(&mut r, owned("  • Select \"Global Activity Logs\" to return to logs."));
    assert(r.deep_view() =~= about_pane());
    r
}


impl AppState {
    /// The title of the selected tab, or `"Unknown Tab"`.
    fn selected_tab_name_exec(&self) -> (r: String)
        ensures
            r@ == selected_tab_name(self@),
    {
        match &self.selected_tab_id {
            Some(id) => {
                let ghost s = self@;
                let n = self.tabs_data.len();
                let mut j: usize = 0;
                while j < n && !str_eq(self.tabs_data[j].id.as_str(), id.as_str())
                    invariant
                        s == self@,
                        n == s.tabs.len(),
                        j <= n,
                        first_tab_with_id(s, id@, 0) == first_tab_with_id(s, id@, j as int),
                    decreases n - j,
                {
                    j += 1;
                }
                if j < n {
                    self.tabs_data[j].title.clone()
                } else {
                    owned("Unknown Tab")
                }
            },
            None => owned("Unknown Tab"),
        }
    }

    /// The index of the captured-output entry of the selected tab, if any.
    fn selected_output_entry(&self) -> (r: Option<usize>)
        requires
            crate::state::outputs_unique(self@.tab_outputs),
        ensures
            match r {
                Some(k) => k < self.tab_outputs@.len() && selected_outputs(self@)
                    == self@.tab_outputs[k as int].lines,
                None => selected_outputs(self@) == Seq::<Seq<char>>::empty(),
            },
    {
        match &self.selected_tab_id {
            Some(id) => {
                let ghost outs = self@.tab_outputs;
                let n = self.tab_outputs.len();
                let mut k: usize = 0;
                while k < n
                    invariant
                        outs == self@.tab_outputs,
                        self@.selected_tab_id == Some(id@),
                        crate::state::outputs_unique(outs),
                        n == outs.len(),
                        k <= n,
                        forall|j: int| 0 <= j < k ==> outs[j].tab_id != id@,
                    decreases n - k,
                {
                    if str_eq(self.tab_outputs[k].tab_id.as_str(), id.as_str()) {
                        proof {
                            assert(outs[k as int].tab_id == id@);
                            let c = choose|i: int| 0 <= i < outs.len() && outs[i].tab_id == id@;
                            assert(outs[c].tab_id == id@);
                            assert(c == k);
                            assert(crate::state::output_index(outs, id@) == Some(k as int));
                            assert(self@.selected_tab_id == Some(id@));
                            assert(selected_outputs(self@) == outs[k as int].lines);
                        }
                        return Some(k);
                    }
                    k += 1;
                }
                None
            },
            None => None,
        }
    }

    /// The output pane of the selected tab.
    fn tab_output_pane_exec(&self) -> (r: Vec<String>)
        requires
            crate::state::outputs_unique(self@.tab_outputs),
        ensures
            r.deep_view() == tab_output_pane(self@),
    {
        let ghost s = self@;
        let mut r: Vec<String> = Vec::new();
        let name = self.selected_tab_name_exec();
        let name = truncate_chars(name.as_str(), 24, 21);
        let mut t = owned("Output of tab: '");
        t.append(name.as_str());
        t.append("'");
        push_line(&mut r, section_title_exec(t.as_str()));
        let mut l = owned("  ");
        l.append(C_GRAY);
        l.append("Last execution stream output:");
        l.append(C_RESET);
        push_line(&mut r, l);
        push_line(&mut r, String::new());
        let ghost head = r.deep_view();
        let ghost outs = selected_outputs(s);
        let entry = self.selected_output_entry();
        match entry {
            Some(e) => {
                let lines = &self.tab_outputs[e].lines;
                assert(lines.deep_view() == outs);
                let len = lines.len();
                if len > 0 {
                    let start = if len > MAX_OUTPUT_LINES {
                        len - MAX_OUTPUT_LINES
                    } else {
                        0
                    };
                    let ghost tail = output_tail(outs);
                    let ghost items = Seq::new(
                        tail.len(),
                        |i: int| "  "@ + C_GREEN@ + "▶"@ + C_RESET@ + " "@ + tail[i],
                    );
                    let mut i = start;
                    assert(r.deep_view() =~= head + items.take(0));
                    while i < len
                        invariant
                            lines.deep_view() == outs,
                            len == outs.len(),
                            start <= i <= len,
                            start == if len > MAX_OUTPUT_LINES {
                                len - MAX_OUTPUT_LINES
                            } else {
                                0
                            },
                            tail == output_tail(outs),
                            tail.len() == len - start,
                            items == Seq::new(
                                tail.len(),
                                |i: int| "  "@ + C_GREEN@ + "▶"@ + C_RESET@ + " "@ + tail[i],
                            ),
                            r.deep_view() == head + items.take(i - start),
                        decreases len - i,
                    {
                        assert(tail[i - start] == outs[i as int]);
                        let mut l = owned("  ");
                        l.append(C_GREEN);
                        l.append("▶");
                        l.append(C_RESET);
                        l.append(" ");
                        l.append(lines[i].as_str());
                        push_line(&mut r, l);
                        assert(items.take(i - start + 1) =~= items.take(i - start).push(
                            items[i - start],
                        ));
                        assert(head + items.take(i - start + 1) =~= (head + items.take(
                            i - start,
                        )).push(items[i - start]));
                        i += 1;
                    }
                    assert(items.take(len - start) =~= items);
                    assert(r.deep_view() =~= tab_output_pane(s));
                    return r;
                }
            },
            None => {},
        }
        push_line(&mut r, owned("  (No output captured for this tab yet.)"));
        push_line(&mut r, String::new());
        push_line(&mut r, owned("  To capture output, set the tab title status tag"));
        push_line(&mut r, owned("  to [agent] in Google Docs. TUI will trigger a run"));
        push_line(&mut r, owned("  and capture the stdout/stderr stream here."));
        assert(r.deep_view() =~= tab_output_pane(s));
        r
    }

    /// The right-hand pane for the current view.
    pub fn right_lines(&self) -> (r: Vec<String>)
        requires
            frame_drawable(self@),
            crate::state::outputs_unique(self@.tab_outputs),
        ensures
            r.deep_view() == right_lines_spec(self@),
    {
        match self.current_view {
            ViewKind::Logs => self.logs_pane_exec(),
            ViewKind::About => about_pane_exec(),
            ViewKind::TabOutput => self.tab_output_pane_exec(),
        }
    }

    /// The footer.
    fn footer_exec(&self) -> (r: Vec<String>)
        ensures
            r.deep_view() == footer_lines(self@),
    {
        let mut r: Vec<String> = Vec::new();
        let mut sep = owned(" ");
        sep.append(C_GRAY);
        let bar = repeat_char('─', LEFT_WIDTH);
        sep.append(bar.as_str());
        sep.append("┼");
        sep.append("─");
        let bar = repeat_char('─', 54);
        sep.append(bar.as_str());
        sep.append(C_RESET);
        push_line(&mut r, sep);
        let bar = repeat_char('─', FOOTER_WIDTH + 2);
        let mut top = owned(" ");
        top.append(C_GRAY);
        top.append("┌");
        top.append(bar.as_str());
        top.append("┐");
        top.append(C_RESET);
        push_line(&mut r, top);
        let mut q = owned(C_BOLD);
        q.append(C_RESET);
        q.append("Quick Controls:");
        q.append(C_RESET);
        q.append(" [↑/↓] Navigate | [Enter] Select/Click | [q] Exit");
        let line1 = pad_colored(q.as_str(), FOOTER_WIDTH, ' ', "left");
        let mut l = owned(" ");
        l.append(C_GRAY);
        l.append("│");
        l.append(C_RESET);
        l.append(" ");
        l.append(line1.as_str());
        l.append(" │");
        l.append(C_RESET);
        push_line(&mut r, l);
        let name = match self.current_view {
            ViewKind::Logs => "LOGS",
            ViewKind::About => "ABOUT",
            ViewKind::TabOutput => "TAB_OUTPUT",
        };
        let mut c = owned(C_BOLD);
        c.append(C_RESET);
        c.append("Current View:");
        c.append(C_RESET);
        c.append(" ");
        c.append(C_GREEN);
        c.append(name);
        c.append(C_RESET);
        let line2 = pad_colored(c.as_str(), FOOTER_WIDTH, ' ', "left");
        let mut l = owned(" ");
        l.append(C_GRAY);
        l.append("│");
        l.append(C_RESET);
        l.append(" ");
        l.append(line2.as_str());
        l.append(" │");
        l.append(C_RESET);
        push_line(&mut r, l);
        let mut bottom = owned(" ");
        bottom.append(C_GRAY);
        bottom.append("└");
        bottom.append(bar.as_str());
        bottom.append("┘");
        bottom.append(C_RESET);
        push_line(&mut r, bottom);
        assert(r.deep_view() =~= footer_lines(self@));
        r
    }

    /// Draws the whole frame as lines of text, top to bottom: the navigation
    /// column and the current pane side by side, padded to 32 and 52 visible
    /// characters, then the separator and the footer.
    pub fn render_frame(&self) -> (r: Vec<String>)
        requires
            self@.tabs.len() + 2 <= usize::MAX,
            frame_drawable(self@),
            crate::state::outputs_unique(self@.tab_outputs),
        ensures
            r.deep_view() == frame_spec(self@),
    {
        let ghost s = self@;
        let left = self.left_lines();
        let right = self.right_lines();
        let ghost l = left.deep_view();
        let ghost rl = right.deep_view();
        let n = if left.len() >= right.len() {
            left.len()
        } else {
            right.len()
        };
        let ghost rows = body_rows(s);
        let mut r: Vec<String> = Vec::new();
        let mut i: usize = 0;
        assert(r.deep_view() =~= rows.take(0));
        while i < n
            invariant
                s == self@,
                l == left.deep_view(),
                rl == right.deep_view(),
                l == left_lines_spec(s),
                rl == right_lines_spec(s),
                n == if l.len() >= rl.len() {
                    l.len()
                } else {
                    rl.len()
                },
                rows == body_rows(s),
                i <= n,
                r.deep_view() == rows.take(i as int),
            decreases n - i,
        {
            let lpad = if i < left.len() {
                pad_colored(left[i].as_str(), LEFT_WIDTH, ' ', "left")
            } else {
                pad_colored("", LEFT_WIDTH, ' ', "left")
            };
            let rpad = if i < right.len() {
                pad_colored(right[i].as_str(), RIGHT_WIDTH, ' ', "left")
            } else {
                pad_colored("", RIGHT_WIDTH, ' ', "left")
            };
            proof {
                reveal_strlit("");
                assert(""@ =~= Seq::<char>::empty());
                if i < left.len() {
                    assert(line_or_empty(l, i as int) == left[i as int]@);
                }
                if i < right.len() {
                    assert(line_or_empty(rl, i as int) == right[i as int]@);
                }
            }
            let mut row = owned(" ");
            row.append(lpad.as_str());
            row.append(" ");
            row.append(C_GRAY);
            row.append("│");
            row.append(C_RESET);
            row.append(" ");
            row.append(rpad.as_str());
            push_line(&mut r, row);
            assert(rows.take(i + 1) =~= rows.take(i as int).push(rows[i as int]));
            i += 1;
        }
        assert(rows.take(n as int) =~= rows);
        append_lines(&mut r, self.footer_exec());
        r
    }
}


/// The lines, each followed by a carriage return and a line feed (the
/// terminal is in raw mode).
pub open spec fn crlf_lines(lines: Seq<Seq<char>>) -> Seq<char>
    decreases lines.len(),
{
    if lines.len() == 0 {
        Seq::empty()
    } else {
        crlf_lines(lines.drop_last()) + lines.last() + "\r\n"@
    }
}

/// What is written to the terminal for one frame: clear the screen, move the
/// cursor home, then the frame's lines.
pub open spec fn screen_spec(s: AppStateView) -> Seq<char> {
    "\x1b[2J\x1b[H"@ + crlf_lines(frame_spec(s))
}

impl AppState {
    /// The text written to the terminal for one frame.
    pub fn render_screen(&self) -> (r: String)
        requires
            self@.tabs.len() + 2 <= usize::MAX,
            frame_drawable(self@),
            crate::state::outputs_unique(self@.tab_outputs),
        ensures
            r@ == screen_spec(self@),
    {
        let lines = self.render_frame();
        let ghost f = lines.deep_view();
        let mut r = owned("\x1b[2J\x1b[H");
        let n = lines.len();
        let mut i: usize = 0;
        assert(f.take(0) =~= Seq::<Seq<char>>::empty());
        while i < n
            invariant
                n == f.len(),
                f == lines.deep_view(),
                i <= n,
                r@ == "\x1b[2J\x1b[H"@ + crlf_lines(f.take(i as int)),
            decreases n - i,
        {
            assert(f.take(i + 1).drop_last() =~= f.take(i as int));
            assert(f.take(i + 1).last() == lines[i as int]@);
            r.append(lines[i].as_str());
            r.append("\r\n");
            proof {
                let a = "\x1b[2J\x1b[H"@;
                let c = crlf_lines(f.take(i as int));
                assert(a + c + lines[i as int]@ + "\r\n"@ =~= a + (c + lines[i as int]@
                    + "\r\n"@));
            }
            i += 1;
        }
        assert(f.take(n as int) =~= f);
        r
    }
}

// ---------------------------------------------------------------------------
// Where things are drawn and where clicks land
// ---------------------------------------------------------------------------

/// Menu item `i` is drawn on line `11 + i` of the frame (terminal row
/// `12 + i`), and a left click in the navigation column on row `12 + i`
/// selects and activates exactly that item.
pub proof fn lemma_menu_click_hits_drawn_item(s: AppStateView, i: nat, cx: int)
    requires
        i < menu_len(s),
        cx <= 34,
    ensures
        left_lines_spec(s)[11 + i as int] == menu_line(s, i as int),
        line_or_empty(left_lines_spec(s), 11 + i as int) == menu_line(s, i as int),
        left_click(s, cx, 12 + i as int) == activate(AppStateView { selected: i, ..s }, i),
{
    let items = Seq::new(s.tabs.len() + 2, |k: int| menu_line(s, k));
    let head = banner_lines() + doc_info_lines(s);
    assert(head.len() == 10);
    let menu = menu_lines(s);
    assert(menu[1 + i as int] == items[i as int]);
    let l = left_lines_spec(s);
    assert(l == head + menu + running_lines(s));
    assert(l[11 + i as int] == menu[1 + i as int]);
}

/// Tab `k` is drawn on line `2 + k` of the log pane (terminal row `3 + k`),
/// and a left click right of the navigation column on that row, while the
/// log pane is shown, opens the output of that tab.
pub proof fn lemma_table_click_hits_drawn_tab(s: AppStateView, k: nat, cx: int)
    requires
        k < s.tabs.len(),
        cx > 34,
        s.current_view == ViewKind::Logs,
    ensures
        right_lines_spec(s)[2 + k as int] == tab_row(s.tabs[k as int]),
        left_click(s, cx, 3 + k as int).current_view == ViewKind::TabOutput,
        left_click(s, cx, 3 + k as int).selected_tab_id == Some(s.tabs[k as int].id),
{
    let rows = Seq::new(s.tabs.len(), |i: int| tab_row(s.tabs[i]));
    let pane = logs_pane(s);
    assert(pane[2 + k as int] == rows[k as int]);
}


/// The running-commands card lists every running command, in order. Its
/// first line is its title; with `k > 0` commands it has `k + 1` lines, line
/// `i + 1` showing the start time of command `i` and, in yellow, its tab (cut
/// to 15 characters and `"..."` when longer than 18); with no command it has
/// two lines. In the navigation column the card follows the banner (4 lines),
/// the document card (6 lines) and the menu (its title, one line per item
/// and a blank line), and ends the column.
pub proof fn lemma_running_card_lists_commands(s: AppStateView)
    ensures
        running_lines(s)[0] == section_title("Running Commands:"@),
        s.running_commands.len() > 0 ==> running_lines(s).len() == s.running_commands.len() + 1,
        s.running_commands.len() == 0 ==> running_lines(s).len() == 2,
        forall|i: int|
            #![trigger s.running_commands[i]]
            0 <= i < s.running_commands.len() ==> running_lines(s)[i + 1] == " • "@
                + s.running_commands[i].start_time + " "@ + C_YELLOW@ + (if s.running_commands[i].tab.len()
                > 18 {
                s.running_commands[i].tab.take(15) + "..."@
            } else {
                s.running_commands[i].tab
            }) + C_RESET@,
        left_lines_spec(s).len() == s.tabs.len() + 14 + running_lines(s).len(),
        forall|i: int|
            0 <= i < running_lines(s).len() ==> left_lines_spec(s)[s.tabs.len() + 14 + i]
                == #[trigger] running_lines(s)[i],
{
    let head = banner_lines() + doc_info_lines(s);
    assert(head.len() == 10);
    let menu = menu_lines(s);
    assert(menu.len() == s.tabs.len() + 4);
    let l = left_lines_spec(s);
    assert(l == head + menu + running_lines(s));
}

/// The output pane of the selected tab shows, after its three heading lines,
/// the last 15 lines captured for that tab (all of them when fewer), oldest
/// first, each after a green marker.
pub proof fn lemma_output_pane_shows_last_lines(s: AppStateView)
    requires
        selected_outputs(s).len() > 0,
    ensures
        tab_output_pane(s).len() == 3 + if selected_outputs(s).len() > 15 {
            15
        } else {
            selected_outputs(s).len()
        },
        forall|i: int|
            #![trigger tab_output_pane(s)[3 + i]]
            0 <= i < tab_output_pane(s).len() - 3 ==> tab_output_pane(s)[3 + i] == "  "@ + C_GREEN@
                + "▶"@ + C_RESET@ + " "@ + selected_outputs(s)[selected_outputs(s).len() - (
            tab_output_pane(s).len() - 3) + i],
{
    let outs = selected_outputs(s);
    let tail = output_tail(outs);
    let head = seq![
        section_title(
            "Output of tab: '"@ + truncate_spec(selected_tab_name(s), 24, 21) + "'"@,
        ),
        "  "@ + C_GRAY@ + "Last execution stream output:"@ + C_RESET@,
        Seq::<char>::empty(),
    ];
    let body = Seq::new(tail.len(), |i: int| "  "@ + C_GREEN@ + "▶"@ + C_RESET@ + " "@ + tail[i]);
    assert(tab_output_pane(s) == head + body);
    assert forall|i: int| 0 <= i < tail.len() implies #[trigger] tail[i] == outs[outs.len()
        - tail.len() + i] by {}
    assert forall|i: int|
        #![trigger tab_output_pane(s)[3 + i]]
        0 <= i < tab_output_pane(s).len() - 3 implies tab_output_pane(s)[3 + i] == "  "@ + C_GREEN@
            + "▶"@ + C_RESET@ + " "@ + outs[outs.len() - tail.len() + i] by {
        assert((head + body)[3 + i] == body[i]);
        assert(tail[i] == outs[outs.len() - tail.len() + i]);
    }
}

/// The log pane shows, after the tab table and the heading of the log, every
/// line of the activity log in order, indented by two spaces.
pub proof fn lemma_logs_pane_shows_log(s: AppStateView)
    requires
        s.logs.len() > 0,
    ensures
        logs_pane(s).len() == s.tabs.len() + 4 + s.logs.len(),
        forall|i: int|
            0 <= i < s.logs.len() ==> logs_pane(s)[s.tabs.len() + 4 + i] == "  "@
                + #[trigger] s.logs[i],
{
    let rows = Seq::new(s.tabs.len(), |i: int| tab_row(s.tabs[i]));
    let head = seq![
        section_title("Document Tabs Status:"@),
        "  "@ + C_BOLD@ + ljust("Tab ID"@, 10) + " "@ + ljust("Tab Title"@, 26) + " "@ + ljust(
            "Status"@,
            12,
        ) + C_RESET@,
    ] + rows + seq![Seq::<char>::empty(), section_title("Global Activity Logs:"@)];
    let body = Seq::new(s.logs.len(), |i: int| "  "@ + s.logs[i]);
    assert(head.len() == s.tabs.len() + 4);
    assert(logs_pane(s) == head + body);
    assert forall|i: int| 0 <= i < s.logs.len() implies logs_pane(s)[s.tabs.len() + 4 + i] == "  "@
        + #[trigger] s.logs[i] by {
        assert((head + body)[head.len() + i] == body[i]);
    }
}

/// The frame has one body row for each line of the longer column, then the
/// five footer lines. Body row `i` holds line `i` of the navigation column
/// and line `i` of the current pane, a column that has run out of lines
/// giving an empty cell.
pub proof fn lemma_frame_rows_pair_columns(s: AppStateView)
    ensures
        frame_spec(s).len() == 5 + if left_lines_spec(s).len() >= right_lines_spec(s).len() {
            left_lines_spec(s).len()
        } else {
            right_lines_spec(s).len()
        },
        forall|i: int|
            0 <= i < frame_spec(s).len() - 5 ==> #[trigger] frame_spec(s)[i] == body_row(
                if i < left_lines_spec(s).len() {
                    left_lines_spec(s)[i]
                } else {
                    Seq::empty()
                },
                if i < right_lines_spec(s).len() {
                    right_lines_spec(s)[i]
                } else {
                    Seq::empty()
                },
            ),
{
    let rows = body_rows(s);
    assert(footer_lines(s).len() == 5);
    assert forall|i: int| 0 <= i < frame_spec(s).len() - 5 implies #[trigger] frame_spec(s)[i]
        == rows[i] by {}
}

/// A closed text followed by any text shows what each shows.
proof fn lemma_closed_concat(a: Seq<char>, b: Seq<char>)
    requires
        ansi_closed(a),
    ensures
        strip_ansi_spec(a + b) == strip_ansi_spec(a) + strip_ansi_spec(b),
        ansi_closed(a + b) == ansi_closed(b),
{
    lemma_visible_concat(a, b, false);
}

/// A colour code shows nothing and closes itself.
proof fn lemma_color_code_invisible(c: Seq<char>)
    requires
        c.len() == 5 && c[0] == '\x1b' && c[1] == '[' && c[2] != '\x1b' && !is_ascii_alpha(c[2])
            && c[3] != '\x1b' && !is_ascii_alpha(c[3]) && c[4] == 'm'
        || c.len() == 4 && c[0] == '\x1b' && c[1] == '[' && c[2] != '\x1b' && !is_ascii_alpha(
            c[2],
        ) && c[3] == 'm',
    ensures
        strip_ansi_spec(c) == Seq::<char>::empty(),
        ansi_closed(c),
{
    reveal_with_fuel(visible_from, 6);
    reveal_with_fuel(esc_after, 6);
    assert(c.drop_first().drop_first().drop_first().drop_first().len() == c.len() - 4);
    if c.len() == 5 {
        assert(c.drop_first().drop_first().drop_first().drop_first().drop_first().len() == 0);
    }
    assert(Seq::<char>::empty() + Seq::<char>::empty() =~= Seq::<char>::empty());
}

/// Plain text shows as it is and leaves no sequence open.
proof fn lemma_plain_closed(s: Seq<char>)
    requires
        no_esc(s),
    ensures
        strip_ansi_spec(s) == s,
        ansi_closed(s),
{
    lemma_visible_plain(s);
}

/// A body row whose two columns close their escape sequences shows the
/// left column padded to at least 32 characters and the right one to at
/// least 52, around a 3-character bar: rows line up as a two-column table.
pub proof fn lemma_body_row_width(left: Seq<char>, right: Seq<char>)
    requires
        ansi_closed(left),
        ansi_closed(right),
    ensures
        strip_ansi_spec(body_row(left, right)).len() == 4 + (if strip_ansi_spec(left).len()
            > LEFT_WIDTH {
            strip_ansi_spec(left).len()
        } else {
            LEFT_WIDTH as nat
        }) + (if strip_ansi_spec(right).len() > RIGHT_WIDTH {
            strip_ansi_spec(right).len()
        } else {
            RIGHT_WIDTH as nat
        }),
{
    reveal_strlit(" ");
    reveal_strlit("│");
    reveal_strlit("\x1b[90m");
    reveal_strlit("\x1b[0m");
    reveal_strlit("left");
    let sp = " "@;
    let bar = "│"@;
    let pl = pad_colored_spec(left, LEFT_WIDTH as nat, ' ', "left"@);
    let pr = pad_colored_spec(right, RIGHT_WIDTH as nat, ' ', "left"@);
    lemma_plain_closed(sp);
    lemma_plain_closed(bar);
    lemma_color_code_invisible(C_GRAY@);
    lemma_color_code_invisible(C_RESET@);
    lemma_pad_colored_visible_width(left, LEFT_WIDTH as nat, ' ', "left"@);
    lemma_pad_colored_visible_width(right, RIGHT_WIDTH as nat, ' ', "left"@);
    let plain_l = strip_ansi_spec(left).len();
    let padding: nat = if LEFT_WIDTH > plain_l {
        (LEFT_WIDTH - plain_l) as nat
    } else {
        0
    };
    lemma_fill_plain(' ', padding);
    lemma_visible_concat(left, fill(' ', padding), false);
    assert(ansi_closed(pl));
    let a1 = sp + pl;
    lemma_closed_concat(sp, pl);
    let a2 = a1 + sp;
    lemma_closed_concat(a1, sp);
    let a3 = a2 + C_GRAY@;
    lemma_closed_concat(a2, C_GRAY@);
    let a4 = a3 + bar;
    lemma_closed_concat(a3, bar);
    let a5 = a4 + C_RESET@;
    lemma_closed_concat(a4, C_RESET@);
    let a6 = a5 + sp;
    lemma_closed_concat(a5, sp);
    lemma_closed_concat(a6, pr);
    assert(body_row(left, right) == a6 + pr);
}

} // verus!
