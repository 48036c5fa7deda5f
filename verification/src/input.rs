//! Terminal input: decoding SGR mouse reports and applying key presses and
//! clicks to the navigation state.
use vstd::prelude::*;

use crate::state::{AppState, AppStateView, ViewKind};
use crate::text::str_eq;

verus! {

// ---------------------------------------------------------------------------
// Byte sequences
// ---------------------------------------------------------------------------

/// `s` begins with `p`.
pub open spec fn starts_with(s: Seq<u8>, p: Seq<u8>) -> bool {
    p.len() <= s.len() && s.take(p.len() as int) == p
}

/// `s` with every leading repetition of the non-empty `p` removed
/// (`str::trim_start_matches`).
pub open spec fn trim_prefixes(s: Seq<u8>, p: Seq<u8>) -> Seq<u8>
    decreases s.len(),
{
    if p.len() > 0 && starts_with(s, p) {
        trim_prefixes(s.skip(p.len() as int), p)
    } else {
        s
    }
}

/// The pieces of `s` between occurrences of `sep` (`str::split`): one more
/// piece than there are separators.
pub open spec fn split_on(s: Seq<u8>, sep: u8) -> Seq<Seq<u8>>
    decreases s.len(),
{
    if s.len() == 0 {
        seq![Seq::empty()]
    } else {
        let prev = split_on(s.drop_last(), sep);
        if s.last() == sep {
            prev.push(Seq::empty())
        } else {
            prev.update(prev.len() - 1, prev.last().push(s.last()))
        }
    }
}

proof fn lemma_split_on_nonempty(s: Seq<u8>, sep: u8)
    ensures
        split_on(s, sep).len() >= 1,
    decreases s.len(),
{
    if s.len() > 0 {
        lemma_split_on_nonempty(s.drop_last(), sep);
    }
}

/// Whether `a` and `b` hold the same bytes.
pub fn bytes_eq(a: &[u8], b: &[u8]) -> (r: bool)
    ensures
        r == (a@ == b@),
{
    if a.len() != b.len() {
        return false;
    }
    let mut i: usize = 0;
    while i < a.len()
        invariant
            a@.len() == b@.len(),
            i <= a@.len(),
            forall|j: int| 0 <= j < i ==> a@[j] == b@[j],
        decreases a@.len() - i,
    {
        if a[i] != b[i] {
            return false;
        }
        i += 1;
    }
    assert(a@ =~= b@);
    true
}

/// Whether `s` begins with `p`.
pub fn starts_with_exec(s: &[u8], p: &[u8]) -> (r: bool)
    ensures
        r == starts_with(s@, p@),
{
    if p.len() > s.len() {
        return false;
    }
    let head = &s[0..p.len()];
    assert(head@ =~= s@.take(p@.len() as int));
    bytes_eq(head, p)
}

// ---------------------------------------------------------------------------
// Decimal integers
// ---------------------------------------------------------------------------

/// An ASCII decimal digit.
pub open spec fn is_digit(b: u8) -> bool {
    48 <= b <= 57
}

/// The value of the decimal digits `ds`.
pub open spec fn digits_value(ds: Seq<u8>) -> nat
    decreases ds.len(),
{
    if ds.len() == 0 {
        0
    } else {
        digits_value(ds.drop_last()) * 10 + (ds.last() - 48) as nat
    }
}

/// The value of `ds` when it is a non-empty run of decimal digits.
pub open spec fn unsigned_value(ds: Seq<u8>) -> Option<nat> {
    if ds.len() > 0 && forall|i: int| 0 <= i < ds.len() ==> is_digit(#[trigger] ds[i]) {
        Some(digits_value(ds))
    } else {
        None
    }
}

/// The integer written in `p`: an optional `+` (or `-` when `signed`) and a
/// non-empty run of decimal digits, as `str::parse` reads integers before
/// checking their range.
pub open spec fn decimal_value(p: Seq<u8>, signed: bool) -> Option<int> {
    if p.len() > 0 && p[0] == 43u8 {
        match unsigned_value(p.skip(1)) {
            Some(v) => Some(v as int),
            None => None,
        }
    } else if signed && p.len() > 0 && p[0] == 45u8 {
        match unsigned_value(p.skip(1)) {
            Some(v) => Some(-v),
            None => None,
        }
    } else {
        match unsigned_value(p) {
            Some(v) => Some(v as int),
            None => None,
        }
    }
}

/// `p` parsed as an `i32` (`str::parse::<i32>`).
pub open spec fn parse_i32_spec(p: Seq<u8>) -> Option<int> {
    match decimal_value(p, true) {
        Some(v) => if i32::MIN <= v <= i32::MAX {
            Some(v)
        } else {
            None
        },
        None => None,
    }
}

/// `p` parsed as a `usize` (`str::parse::<usize>`).
pub open spec fn parse_usize_spec(p: Seq<u8>) -> Option<int> {
    match decimal_value(p, false) {
        Some(v) => if v <= usize::MAX {
            Some(v)
        } else {
            None
        },
        None => None,
    }
}

proof fn lemma_digits_value_grows(ds: Seq<u8>, k: int)
    requires
        0 <= k <= ds.len(),
    ensures
        digits_value(ds.take(k)) <= digits_value(ds),
    decreases ds.len() - k,
{
    if k < ds.len() {
        lemma_digits_value_grows(ds.drop_last(), k);
        assert(ds.drop_last().take(k) =~= ds.take(k));
    } else {
        assert(ds.take(k) =~= ds);
    }
}

/// The value of the digits `ds` when they are a non-empty run of decimal
/// digits worth at most `limit`.
fn magnitude(ds: &[u8], limit: u128) -> (r: Option<u128>)
    ensures
        match r {
            Some(v) => unsigned_value(ds@) == Some(v as nat) && v <= limit,
            None => match unsigned_value(ds@) {
                Some(v) => v > limit,
                None => true,
            },
        },
{
    let n = ds.len();
    if n == 0 {
        return None;
    }
    let mut acc: u128 = 0;
    let mut i: usize = 0;
    assert(ds@.take(0) =~= Seq::<u8>::empty());
    while i < n
        invariant
            n == ds@.len(),
            i <= n,
            forall|j: int| 0 <= j < i ==> is_digit(#[trigger] ds@[j]),
            acc as nat == digits_value(ds@.take(i as int)),
            acc <= limit,
        decreases n - i,
    {
        let b = ds[i];
        if b < 48 || b > 57 {
            return None;
        }
        assert(ds@.take(i + 1).drop_last() =~= ds@.take(i as int));
        let d = (b - 48) as u128;
        if d > limit || acc > (limit - d) / 10 {
            proof {
                assert(acc * 10 + d > limit) by (nonlinear_arith)
                    requires
                        d > limit || acc > (limit - d) / 10,
                ;
                lemma_digits_value_grows(ds@, i + 1);
                assert(digits_value(ds@.take(i + 1)) == acc * 10 + d);
            }
            return None;
        }
        proof {
            assert(acc * 10 + d <= limit) by (nonlinear_arith)
                requires
                    acc <= (limit - d) / 10,
                    d <= limit,
            ;
        }
        acc = acc * 10 + d;
        i += 1;
    }
    assert(ds@.take(n as int) =~= ds@);
    Some(acc)
}

/// Reads `p` as an `i32`: an optional sign and decimal digits, in range.
pub fn parse_i32(p: &[u8]) -> (r: Option<i32>)
    ensures
        match r {
            Some(v) => parse_i32_spec(p@) == Some(v as int),
            None => parse_i32_spec(p@) is None,
        },
{
    if p.len() > 0 && p[0] == 45u8 {
        let rest = &p[1..p.len()];
        assert(rest@ =~= p@.skip(1));
        match magnitude(rest, 0x8000_0000u128) {
            Some(m) => Some((0i64 - (m as i64)) as i32),
            None => None,
        }
    } else {
        let digits = if p.len() > 0 && p[0] == 43u8 {
            &p[1..p.len()]
        } else {
            p
        };
        assert(p.len() > 0 && p[0] == 43u8 ==> digits@ =~= p@.skip(1));
        match magnitude(digits, 0x7fff_ffffu128) {
            Some(m) => Some(m as i32),
            None => None,
        }
    }
}

/// Reads `p` as a `usize`: an optional `+` and decimal digits, in range.
pub fn parse_usize(p: &[u8]) -> (r: Option<usize>)
    ensures
        match r {
            Some(v) => parse_usize_spec(p@) == Some(v as int),
            None => parse_usize_spec(p@) is None,
        },
{
    let digits = if p.len() > 0 && p[0] == 43u8 {
        &p[1..p.len()]
    } else {
        p
    };
    assert(p.len() > 0 && p[0] == 43u8 ==> digits@ =~= p@.skip(1));
    match magnitude(digits, usize::MAX as u128) {
        Some(m) => Some(m as usize),
        None => None,
    }
}

// ---------------------------------------------------------------------------
// SGR mouse reports
// ---------------------------------------------------------------------------

/// A mouse report: button code, column, row and the final character
/// (`M` for press, `m` for release).
pub struct MouseClick {
    pub cb: i32,
    pub cx: usize,
    pub cy: usize,
    pub event: char,
}

/// The bytes that open an SGR mouse report: escape, `[`, `<`.
pub open spec fn sgr_prefix() -> Seq<u8> {
    seq![0x1bu8, 0x5bu8, 0x3cu8]
}

/// The report body: `bytes` after the opening repetitions of the prefix.
pub open spec fn sgr_body(bytes: Seq<u8>) -> Seq<u8> {
    trim_prefixes(bytes, sgr_prefix())
}

/// A report can be decoded without failing: when it opens like a report, its
/// body is not empty and it ends in an ASCII character.
pub open spec fn mouse_report_decodable(bytes: Seq<u8>) -> bool {
    starts_with(bytes, sgr_prefix()) ==> sgr_body(bytes).len() > 0 && bytes.last() < 128
}

/// The report in `bytes`: the prefix, three `;`-separated integers (button
/// as `i32`, column and row as `usize`) and a final character.
pub open spec fn mouse_click_spec(bytes: Seq<u8>) -> Option<(int, int, int, char)> {
    if !starts_with(bytes, sgr_prefix()) {
        None
    } else {
        let event = bytes.last() as char;
        let parts = split_on(sgr_body(bytes).drop_last(), 0x3bu8);
        if parts.len() == 3 {
            match (parse_i32_spec(parts[0]), parse_usize_spec(parts[1]), parse_usize_spec(
                parts[2],
            )) {
                (Some(cb), Some(cx), Some(cy)) => Some((cb, cx, cy, event)),
                _ => None,
            }
        } else {
            None
        }
    }
}

/// The pieces of `s` between `;` bytes.
fn split_semicolons(s: &[u8]) -> (r: Vec<Vec<u8>>)
    ensures
        r.deep_view() == split_on(s@, 0x3bu8),
{
    let mut parts: Vec<Vec<u8>> = Vec::new();
    parts.push(Vec::new());
    let n = s.len();
    let mut i: usize = 0;
    assert(parts.deep_view() =~~= split_on(s@.take(0), 0x3bu8));
    while i < n
        invariant
            n == s@.len(),
            i <= n,
            parts.deep_view() == split_on(s@.take(i as int), 0x3bu8),
            parts@.len() >= 1,
        decreases n - i,
    {
        let ghost prev = parts.deep_view();
        assert(s@.take(i + 1).drop_last() =~= s@.take(i as int));
        assert(s@.take(i + 1).last() == s@[i as int]);
        let b = s[i];
        if b == 0x3bu8 {
            parts.push(Vec::new());
            assert(parts.deep_view() =~~= prev.push(Seq::empty()));
        } else {
            let last = parts.len() - 1;
            let mut piece = parts.remove(last);
            piece.push(b);
            parts.push(piece);
            assert(parts.deep_view() =~~= prev.update(prev.len() - 1, prev.last().push(b)));
        }
        i += 1;
    }
    assert(s@.take(n as int) =~= s@);
    parts
}

/// Where the report body of `bytes` starts: after the opening repetitions of
/// the prefix.
fn sgr_body_start(bytes: &[u8]) -> (start: usize)
    ensures
        start <= bytes@.len(),
        sgr_body(bytes@) == bytes@.skip(start as int),
{
    let prefix: [u8; 3] = [0x1bu8, 0x5bu8, 0x3cu8];
    assert(prefix@ =~= sgr_prefix());
    let n = bytes.len();
    let mut start: usize = 0;
    assert(bytes@.skip(0) =~= bytes@);
    while n - start >= 3 && starts_with_exec(&bytes[start..n], &prefix)
        invariant
            n == bytes@.len(),
            start <= n,
            prefix@ == sgr_prefix(),
            sgr_body(bytes@) == trim_prefixes(bytes@.skip(start as int), sgr_prefix()),
        decreases n - start,
    {
        proof {
            let rest = bytes@.skip(start as int);
            assert(bytes@.subrange(start as int, n as int) =~= rest);
            assert(rest.skip(3) =~= bytes@.skip(start + 3));
        }
        start = start + 3;
    }
    proof {
        let rest = bytes@.skip(start as int);
        assert(bytes@.subrange(start as int, n as int) =~= rest);
        assert(trim_prefixes(rest, sgr_prefix()) == rest);
    }
    start
}

/// Whether `bytes` can be decoded as a mouse report without failing.
pub fn mouse_report_decodable_exec(bytes: &[u8]) -> (r: bool)
    ensures
        r == mouse_report_decodable(bytes@),
{
    let prefix: [u8; 3] = [0x1bu8, 0x5bu8, 0x3cu8];
    assert(prefix@ =~= sgr_prefix());
    if !starts_with_exec(bytes, &prefix) {
        return true;
    }
    let start = sgr_body_start(bytes);
    start < bytes.len() && bytes[bytes.len() - 1] < 128
}

/// Decodes an SGR mouse report such as `ESC [ < 0 ; 12 ; 5 M` into its
/// button, column, row and final character.
pub fn parse_mouse_click(bytes: &[u8]) -> (r: Option<MouseClick>)
    requires
        mouse_report_decodable(bytes@),
    ensures
        match r {
            Some(c) => mouse_click_spec(bytes@) == Some(
                (c.cb as int, c.cx as int, c.cy as int, c.event),
            ),
            None => mouse_click_spec(bytes@) is None,
        },
{
    let prefix: [u8; 3] = [0x1bu8, 0x5bu8, 0x3cu8];
    assert(prefix@ =~= sgr_prefix());
    if !starts_with_exec(bytes, &prefix) {
        return None;
    }
    let n = bytes.len();
    let start = sgr_body_start(bytes);
    let event = bytes[n - 1] as char;
    let content = &bytes[start..n - 1];
    assert(content@ =~= sgr_body(bytes@).drop_last());
    let parts = split_semicolons(content);
    if parts.len() == 3 {
        assert(parts[0]@ == parts.deep_view()[0]);
        assert(parts[1]@ == parts.deep_view()[1]);
        assert(parts[2]@ == parts.deep_view()[2]);
        let cb = match parse_i32(parts[0].as_slice()) {
            Some(v) => v,
            None => return None,
        };
        let cx = match parse_usize(parts[1].as_slice()) {
            Some(v) => v,
            None => return None,
        };
        let cy = match parse_usize(parts[2].as_slice()) {
            Some(v) => v,
            None => return None,
        };
        Some(MouseClick { cb, cx, cy, event })
    } else {
        None
    }
}


// ---------------------------------------------------------------------------
// Navigation
// ---------------------------------------------------------------------------

/// The keys that move the selection up: the up arrow, `k` and `w`.
pub open spec fn is_up_key(b: Seq<u8>) -> bool {
    b == seq![0x1bu8, 0x5bu8, 0x41u8] || b == seq![0x6bu8] || b == seq![0x77u8]
}

/// The keys that move the selection down: the down arrow, `j` and `s`.
pub open spec fn is_down_key(b: Seq<u8>) -> bool {
    b == seq![0x1bu8, 0x5bu8, 0x42u8] || b == seq![0x6au8] || b == seq![0x73u8]
}

/// The keys that activate the selection: carriage return, line feed, space.
pub open spec fn is_enter_key(b: Seq<u8>) -> bool {
    b == seq![0x0du8] || b == seq![0x0au8] || b == seq![0x20u8]
}

/// The keys that quit: `q`, `Q` and Ctrl-C.
pub open spec fn is_quit_key(b: Seq<u8>) -> bool {
    b == seq![0x71u8] || b == seq![0x51u8] || b == seq![0x03u8]
}

/// The number of menu items: "About", "Global Activity Logs", then one per
/// tab.
pub open spec fn menu_len(s: AppStateView) -> nat {
    s.tabs.len() + 2
}

/// The state after activating menu item `idx`: item 0 shows the about pane,
/// item 1 the log pane, and item `k + 2` the output of tab `k`, which
/// becomes the selected tab.
pub open spec fn activate(s: AppStateView, idx: nat) -> AppStateView {
    if idx == 0 {
        AppStateView { current_view: ViewKind::About, ..s }
    } else if idx == 1 {
        AppStateView { current_view: ViewKind::Logs, ..s }
    } else {
        AppStateView {
            current_view: ViewKind::TabOutput,
            selected_tab_id: Some(s.tabs[idx - 2].id),
            ..s
        }
    }
}

/// The selection after moving up: one item up, or from the first item to the
/// last.
pub open spec fn selection_up(selected: nat, n: nat) -> nat {
    if selected > 0 {
        (selected - 1) as nat
    } else {
        (n - 1) as nat
    }
}

/// The selection after moving down: one item down, from the last item back
/// to the first.
pub open spec fn selection_down(selected: nat, n: nat) -> nat {
    (selected + 1) % n
}

/// The first index from `from` on of a tab with id `id`.
pub open spec fn first_tab_with_id(s: AppStateView, id: Seq<char>, from: int) -> int
    decreases s.tabs.len() - from,
{
    if from < 0 || from >= s.tabs.len() || s.tabs[from].id == id {
        from
    } else {
        first_tab_with_id(s, id, from + 1)
    }
}

/// The state after a left click at column `cx`, row `cy`: in the menu column
/// (up to column 34), row 12 and below select and activate menu items; in the
/// table of the log pane, row 3 and below select the clicked tab (its first
/// menu item with that id) and show its output.
pub open spec fn left_click(s: AppStateView, cx: int, cy: int) -> AppStateView {
    if cx <= 34 {
        if cy >= 12 && cy - 12 < menu_len(s) {
            activate(AppStateView { selected: (cy - 12) as nat, ..s }, (cy - 12) as nat)
        } else {
            s
        }
    } else if s.current_view == ViewKind::Logs {
        if cy >= 3 && cy - 3 < s.tabs.len() {
            let id = s.tabs[cy - 3].id;
            AppStateView {
                selected: (first_tab_with_id(s, id, 0) + 2) as nat,
                current_view: ViewKind::TabOutput,
                selected_tab_id: Some(id),
                ..s
            }
        } else {
            s
        }
    } else {
        s
    }
}

/// The state after the terminal sent `bytes`.
pub open spec fn input_spec(s: AppStateView, bytes: Seq<u8>) -> AppStateView {
    let n = menu_len(s);
    if starts_with(bytes, sgr_prefix()) {
        match mouse_click_spec(bytes) {
            Some((cb, cx, cy, event)) => if event == 'M' && cb == 0 {
                left_click(s, cx, cy)
            } else {
                s
            },
            None => s,
        }
    } else if is_up_key(bytes) {
        AppStateView { selected: selection_up(s.selected, n), ..s }
    } else if is_down_key(bytes) {
        AppStateView { selected: selection_down(s.selected, n), ..s }
    } else if is_enter_key(bytes) {
        activate(s, if s.selected < n { s.selected } else { (n - 1) as nat })
    } else if is_quit_key(bytes) {
        AppStateView { running: false, ..s }
    } else {
        s
    }
}

/// Whether `bytes` is one of the keys in `keys`.
fn is_one_of(bytes: &[u8], k1: &[u8], k2: &[u8], k3: &[u8]) -> (r: bool)
    ensures
        r == (bytes@ == k1@ || bytes@ == k2@ || bytes@ == k3@),
{
    bytes_eq(bytes, k1) || bytes_eq(bytes, k2) || bytes_eq(bytes, k3)
}

impl AppState {
    /// Activates menu item `idx`.
    fn activate_item(&mut self, idx: usize)
        requires
            idx < menu_len(old(self)@),
        ensures
            final(self)@ == activate(old(self)@, idx as nat),
    {
        if idx == 0 {
            self.current_view = ViewKind::About;
        } else if idx == 1 {
            self.current_view = ViewKind::Logs;
        } else {
            self.current_view = ViewKind::TabOutput;
            let id = self.tabs_data[idx - 2].id.clone();
            self.selected_tab_id = Some(id);
        }
    }

    /// Applies what the terminal sent: an SGR mouse report (left presses
    /// select), an arrow or `w`/`s`/`j`/`k` key (moves the selection, wrapping
    /// around), Enter or Space (activates the selection), or `q`/`Q`/Ctrl-C
    /// (stops the orchestrator).
    pub fn handle_input_bytes(&mut self, bytes: &[u8])
        requires
            mouse_report_decodable(bytes@),
            menu_len(old(self)@) <= usize::MAX,
            is_down_key(bytes@) ==> old(self).selected_selectable_idx < usize::MAX,
        ensures
            final(self)@ == input_spec(old(self)@, bytes@),
    {
        let n = self.tabs_data.len() + 2;
        let prefix: [u8; 3] = [0x1bu8, 0x5bu8, 0x3cu8];
        assert(prefix@ =~= sgr_prefix());
        if starts_with_exec(bytes, &prefix) {
            if let Some(click) = parse_mouse_click(bytes) {
                if click.event == 'M' && click.cb == 0 {
                    if click.cx <= 34 {
                        if click.cy >= 12 {
                            let idx = click.cy - 12;
                            if idx < n {
                                self.selected_selectable_idx = idx;
                                self.activate_item(idx);
                            }
                        }
                    } else if click.cx > 34 && self.current_view == ViewKind::Logs {
                        if click.cy >= 3 {
                            let tab_idx = click.cy - 3;
                            if tab_idx < self.tabs_data.len() {
                                let clicked = self.tabs_data[tab_idx].id.clone();
                                let ghost s0 = self@;
                                let mut j: usize = 0;
                                while j < tab_idx
                                    && !str_eq(self.tabs_data[j].id.as_str(), clicked.as_str())
                                    invariant
                                        self@ == s0,
                                        tab_idx < self.tabs_data@.len(),
                                        clicked@ == s0.tabs[tab_idx as int].id,
                                        j <= tab_idx,
                                        first_tab_with_id(s0, clicked@, 0) == first_tab_with_id(
                                            s0,
                                            clicked@,
                                            j as int,
                                        ),
                                    decreases tab_idx - j,
                                {
                                    assert(s0.tabs[j as int].id != clicked@);
                                    j += 1;
                                }
                                proof {
                                    if j < tab_idx {
                                        assert(s0.tabs[j as int].id == clicked@);
                                    }
                                    assert(s0.tabs[j as int].id == clicked@);
                                }
                                self.selected_selectable_idx = j + 2;
                                self.current_view = ViewKind::TabOutput;
                                self.selected_tab_id = Some(clicked);
                            }
                        }
                    }
                }
            }
            return;
        }
        let up_arrow: [u8; 3] = [0x1bu8, 0x5bu8, 0x41u8];
        let down_arrow: [u8; 3] = [0x1bu8, 0x5bu8, 0x42u8];
        assert(up_arrow@ =~= seq![0x1bu8, 0x5bu8, 0x41u8]);
        assert(down_arrow@ =~= seq![0x1bu8, 0x5bu8, 0x42u8]);
        let k: [u8; 1] = [0x6bu8];
        let w: [u8; 1] = [0x77u8];
        let j: [u8; 1] = [0x6au8];
        let s: [u8; 1] = [0x73u8];
        let cr: [u8; 1] = [0x0du8];
        let lf: [u8; 1] = [0x0au8];
        let sp: [u8; 1] = [0x20u8];
        let q: [u8; 1] = [0x71u8];
        let big_q: [u8; 1] = [0x51u8];
        let ctrl_c: [u8; 1] = [0x03u8];
        assert(k@ =~= seq![0x6bu8] && w@ =~= seq![0x77u8] && j@ =~= seq![0x6au8] && s@ =~= seq![
            0x73u8,
        ]);
        assert(cr@ =~= seq![0x0du8] && lf@ =~= seq![0x0au8] && sp@ =~= seq![0x20u8]);
        assert(q@ =~= seq![0x71u8] && big_q@ =~= seq![0x51u8] && ctrl_c@ =~= seq![0x03u8]);
        if is_one_of(bytes, &up_arrow, &k, &w) {
            if self.selected_selectable_idx > 0 {
                self.selected_selectable_idx = self.selected_selectable_idx - 1;
            } else {
                self.selected_selectable_idx = n - 1;
            }
        } else if is_one_of(bytes, &down_arrow, &j, &s) {
            self.selected_selectable_idx = (self.selected_selectable_idx + 1) % n;
        } else if is_one_of(bytes, &cr, &lf, &sp) {
            let idx = if self.selected_selectable_idx < n - 1 {
                self.selected_selectable_idx
            } else {
                n - 1
            };
            self.activate_item(idx);
        } else if is_one_of(bytes, &q, &big_q, &ctrl_c) {
            self.running = false;
        }
    }
}

/// Moving down always selects an existing menu item; moving down then up,
/// or up then down, from an existing item comes back to it.
pub proof fn lemma_navigation_cycles(selected: nat, n: nat)
    requires
        n > 0,
    ensures
        selection_down(selected, n) < n,
        selection_up(selected, n) < n || selected > n,
        selected < n ==> selection_up(selection_down(selected, n), n) == selected,
        selected < n ==> selection_down(selection_up(selected, n), n) == selected,
{
    if selected < n {
        if selected + 1 < n {
            assert((selected + 1) % n == selected + 1) by (nonlinear_arith)
                requires
                    selected + 1 < n,
            ;
        } else {
            assert((selected + 1) % n == 0) by (nonlinear_arith)
                requires
                    selected + 1 == n,
            ;
        }
        if selected > 0 {
            assert(selected % n == selected) by (nonlinear_arith)
                requires
                    selected < n,
            ;
        } else {
            assert(n % n == 0) by (nonlinear_arith)
                requires
                    n > 0,
            ;
        }
    }
    assert((selected + 1) % n < n) by (nonlinear_arith)
        requires
            n > 0,
    ;
}

/// A quit key only stops the orchestrator.
pub proof fn lemma_quit_only_stops(s: AppStateView, bytes: Seq<u8>)
    requires
        is_quit_key(bytes),
    ensures
        input_spec(s, bytes) == (AppStateView { running: false, ..s }),
{
    assert(bytes.len() == 1);
    let b = bytes[0];
    assert(b == 0x71u8 || b == 0x51u8 || b == 0x03u8);
    assert(!starts_with(bytes, sgr_prefix()));
    assert(!is_up_key(bytes)) by {
        assert(seq![0x1bu8, 0x5bu8, 0x41u8].len() == 3);
        assert(seq![0x6bu8][0] == 0x6bu8);
        assert(seq![0x77u8][0] == 0x77u8);
    }
    assert(!is_down_key(bytes)) by {
        assert(seq![0x1bu8, 0x5bu8, 0x42u8].len() == 3);
        assert(seq![0x6au8][0] == 0x6au8);
        assert(seq![0x73u8][0] == 0x73u8);
    }
    assert(!is_enter_key(bytes)) by {
        assert(seq![0x0du8][0] == 0x0du8);
        assert(seq![0x0au8][0] == 0x0au8);
        assert(seq![0x20u8][0] == 0x20u8);
    }
}


// ---------------------------------------------------------------------------
// Mouse reports round trip
// ---------------------------------------------------------------------------

/// The decimal numeral of `n` as ASCII bytes.
pub open spec fn decimal_bytes(n: nat) -> Seq<u8>
    decreases n,
{
    if n < 10 {
        seq![(n + 48) as u8]
    } else {
        decimal_bytes(n / 10).push((n % 10 + 48) as u8)
    }
}

/// The SGR report a terminal sends for button `cb` at column `cx`, row `cy`,
/// ending in `event`.
pub open spec fn sgr_report(cb: nat, cx: nat, cy: nat, event: u8) -> Seq<u8> {
    sgr_prefix() + decimal_bytes(cb) + seq![0x3bu8] + decimal_bytes(cx) + seq![0x3bu8]
        + decimal_bytes(cy) + seq![event]
}

proof fn lemma_decimal_bytes(n: nat)
    ensures
        decimal_bytes(n).len() >= 1,
        forall|i: int| 0 <= i < decimal_bytes(n).len() ==> is_digit(#[trigger] decimal_bytes(n)[i]),
        digits_value(decimal_bytes(n)) == n,
    decreases n,
{
    if n >= 10 {
        lemma_decimal_bytes(n / 10);
        let d = decimal_bytes(n / 10);
        let x = (n % 10 + 48) as u8;
        assert(d.push(x).drop_last() =~= d);
        assert forall|i: int| 0 <= i < d.push(x).len() implies is_digit(#[trigger] d.push(x)[i]) by {
            if i < d.len() {
                assert(d.push(x)[i] == d[i]);
            }
        }
    } else {
        assert(digits_value(seq![(n + 48) as u8].drop_last()) == 0);
    }
}

proof fn lemma_decimal_bytes_value(n: nat, signed: bool)
    ensures
        decimal_value(decimal_bytes(n), signed) == Some(n as int),
{
    lemma_decimal_bytes(n);
    let d = decimal_bytes(n);
    assert(is_digit(d[0]));
}

proof fn lemma_split_extend(a: Seq<u8>, b: Seq<u8>, sep: u8)
    requires
        forall|i: int| 0 <= i < b.len() ==> b[i] != sep,
    ensures
        split_on(a + b, sep) == split_on(a, sep).update(
            split_on(a, sep).len() - 1,
            split_on(a, sep).last() + b,
        ),
    decreases b.len(),
{
    lemma_split_on_nonempty(a, sep);
    let p = split_on(a, sep);
    if b.len() == 0 {
        assert(a + b =~= a);
        assert(p.last() + b =~= p.last());
        assert(p.update(p.len() - 1, p.last()) =~= p);
    } else {
        lemma_split_extend(a, b.drop_last(), sep);
        assert((a + b).drop_last() =~= a + b.drop_last());
        assert((a + b).last() == b.last());
        let q = split_on(a + b.drop_last(), sep);
        assert(q.last() == p.last() + b.drop_last());
        assert((p.last() + b.drop_last()).push(b.last()) =~= p.last() + b);
        assert(q.update(q.len() - 1, q.last().push(b.last())) =~= p.update(
            p.len() - 1,
            p.last() + b,
        ));
    }
}

proof fn lemma_split_sep(a: Seq<u8>, sep: u8)
    ensures
        split_on(a.push(sep), sep) == split_on(a, sep).push(Seq::empty()),
{
    assert(a.push(sep).drop_last() =~= a);
}

proof fn lemma_split_three(d1: Seq<u8>, d2: Seq<u8>, d3: Seq<u8>)
    requires
        forall|i: int| 0 <= i < d1.len() ==> is_digit(#[trigger] d1[i]),
        forall|i: int| 0 <= i < d2.len() ==> is_digit(#[trigger] d2[i]),
        forall|i: int| 0 <= i < d3.len() ==> is_digit(#[trigger] d3[i]),
    ensures
        split_on(d1 + seq![0x3bu8] + d2 + seq![0x3bu8] + d3, 0x3bu8) == seq![d1, d2, d3],
{
    let e = Seq::<u8>::empty();
    let sep = 0x3bu8;
    lemma_split_extend(e, d1, sep);
    assert(e + d1 =~= d1);
    assert(split_on(e, sep) =~= seq![e]);
    assert(split_on(d1, sep) =~= seq![d1]);
    lemma_split_sep(d1, sep);
    assert(d1 + seq![sep] =~= d1.push(sep));
    let a2 = d1 + seq![sep];
    assert(split_on(a2, sep) =~= seq![d1, e]);
    lemma_split_extend(a2, d2, sep);
    let a3 = a2 + d2;
    assert(split_on(a3, sep) =~= seq![d1, d2]);
    lemma_split_sep(a3, sep);
    assert(a3 + seq![sep] =~= a3.push(sep));
    let a4 = a3 + seq![sep];
    assert(split_on(a4, sep) =~= seq![d1, d2, e]);
    lemma_split_extend(a4, d3, sep);
    assert(split_on(a4 + d3, sep) =~= seq![d1, d2, d3]);
}

/// The report a terminal sends for a click decodes back to the click: its
/// button, column and row, and its final character.
pub proof fn lemma_mouse_report_round_trip(cb: nat, cx: nat, cy: nat, event: u8)
    requires
        cb <= i32::MAX,
        cx <= usize::MAX,
        cy <= usize::MAX,
        event < 128,
    ensures
        mouse_report_decodable(sgr_report(cb, cx, cy, event)),
        mouse_click_spec(sgr_report(cb, cx, cy, event)) == Some(
            (cb as int, cx as int, cy as int, event as char),
        ),
{
    let d1 = decimal_bytes(cb);
    let d2 = decimal_bytes(cx);
    let d3 = decimal_bytes(cy);
    lemma_decimal_bytes(cb);
    lemma_decimal_bytes(cx);
    lemma_decimal_bytes(cy);
    lemma_decimal_bytes_value(cb, true);
    lemma_decimal_bytes_value(cx, false);
    lemma_decimal_bytes_value(cy, false);
    let content = d1 + seq![0x3bu8] + d2 + seq![0x3bu8] + d3;
    let r = sgr_report(cb, cx, cy, event);
    assert(r =~= sgr_prefix() + (content + seq![event]));
    assert(r.take(3) =~= sgr_prefix());
    assert(starts_with(r, sgr_prefix()));
    let rest = r.skip(3);
    assert(rest =~= content + seq![event]);
    assert(rest[0] == d1[0]);
    assert(is_digit(d1[0]));
    assert(!starts_with(rest, sgr_prefix())) by {
        if starts_with(rest, sgr_prefix()) {
            assert(rest.take(3)[0] == 0x1bu8);
        }
    }
    assert(trim_prefixes(rest, sgr_prefix()) == rest);
    assert(sgr_prefix().len() == 3);
    assert(trim_prefixes(r, sgr_prefix()) == trim_prefixes(r.skip(3), sgr_prefix()));
    assert(sgr_body(r) == rest);
    assert(rest.drop_last() =~= content);
    lemma_split_three(d1, d2, d3);
    assert(r.last() == event);
}


// ---------------------------------------------------------------------------
// What input changes
// ---------------------------------------------------------------------------

/// The navigation keys are told apart from mouse reports and from each
/// other.
proof fn lemma_key_classes(b: Seq<u8>)
    ensures
        is_up_key(b) ==> !starts_with(b, sgr_prefix()),
        is_down_key(b) ==> !starts_with(b, sgr_prefix()) && !is_up_key(b),
        is_enter_key(b) ==> !starts_with(b, sgr_prefix()) && !is_up_key(b) && !is_down_key(b),
{
    assert(seq![0x0du8][0] == 0x0du8 && seq![0x0au8][0] == 0x0au8 && seq![0x20u8][0] == 0x20u8);
    let up_arrow = seq![0x1bu8, 0x5bu8, 0x41u8];
    let down_arrow = seq![0x1bu8, 0x5bu8, 0x42u8];
    assert(up_arrow[2] == 0x41u8 && down_arrow[2] == 0x42u8);
    assert(seq![0x6bu8][0] == 0x6bu8 && seq![0x77u8][0] == 0x77u8);
    assert(seq![0x6au8][0] == 0x6au8 && seq![0x73u8][0] == 0x73u8);
    if starts_with(b, sgr_prefix()) {
        assert(b.take(3)[2] == 0x3cu8);
        assert(b[2] == 0x3cu8);
    }
}

/// Input only moves the selection, switches the pane, picks the selected
/// tab or stops the orchestrator: the document, tabs, commands, log and
/// captured output stay as they were, and a stopped orchestrator is never
/// started again.
pub proof fn lemma_input_changes_only_navigation(s: AppStateView, bytes: Seq<u8>)
    ensures
        input_spec(s, bytes).doc_title == s.doc_title,
        input_spec(s, bytes).last_polled == s.last_polled,
        input_spec(s, bytes).tabs == s.tabs,
        input_spec(s, bytes).running_commands == s.running_commands,
        input_spec(s, bytes).logs == s.logs,
        input_spec(s, bytes).tab_outputs == s.tab_outputs,
        input_spec(s, bytes).running ==> s.running,
{
}

/// The selection stays a menu item and the selected tab, if any, one of the
/// tabs: input keeps both.
pub open spec fn navigation_valid(s: AppStateView) -> bool {
    &&& s.selected < menu_len(s)
    &&& match s.selected_tab_id {
        Some(id) => crate::document::has_id(s.tabs, id),
        None => true,
    }
}

/// Input keeps the selection on a menu item and the selected tab among the
/// tabs.
pub proof fn lemma_input_keeps_navigation_valid(s: AppStateView, bytes: Seq<u8>)
    requires
        navigation_valid(s),
    ensures
        navigation_valid(input_spec(s, bytes)),
{
    let n = menu_len(s);
    lemma_navigation_cycles(s.selected, n);
    let r = input_spec(s, bytes);
    if starts_with(bytes, sgr_prefix()) {
        match mouse_click_spec(bytes) {
            Some((cb, cx, cy, event)) => {
                if event == 'M' && cb == 0 {
                    if cx <= 34 {
                        if cy >= 12 && cy - 12 < n {
                            let i = (cy - 12) as nat;
                            if i >= 2 {
                                assert(s.tabs[i - 2].id == s.tabs[i - 2].id);
                                assert(crate::document::has_id(s.tabs, s.tabs[i - 2].id));
                            }
                        }
                    } else if s.current_view == ViewKind::Logs {
                        if cy >= 3 && cy - 3 < s.tabs.len() {
                            let id = s.tabs[cy - 3].id;
                            lemma_first_tab_with_id(s, id, 0, cy - 3);
                            assert(crate::document::has_id(s.tabs, s.tabs[cy - 3].id));
                        }
                    }
                }
            },
            None => {},
        }
    } else if is_up_key(bytes) || is_down_key(bytes) {
    } else if is_enter_key(bytes) {
        let idx = s.selected;
        if idx >= 2 {
            assert(crate::document::has_id(s.tabs, s.tabs[idx - 2].id));
        }
    }
}

/// The first tab with an id, searched from `from`, is at or before any tab
/// from `from` on that has it.
proof fn lemma_first_tab_with_id(s: AppStateView, id: Seq<char>, from: int, k: int)
    requires
        0 <= from <= k < s.tabs.len(),
        s.tabs[k].id == id,
    ensures
        from <= first_tab_with_id(s, id, from) <= k,
        s.tabs[first_tab_with_id(s, id, from)].id == id,
    decreases s.tabs.len() - from,
{
    if s.tabs[from].id != id {
        lemma_first_tab_with_id(s, id, from + 1, k);
    }
}

/// Moving down then up, or up then down, from a menu item leaves the state
/// as it was.
pub proof fn lemma_down_up_round_trip(s: AppStateView, down: Seq<u8>, up: Seq<u8>)
    requires
        s.selected < menu_len(s),
        is_down_key(down),
        is_up_key(up),
    ensures
        input_spec(input_spec(s, down), up) == s,
        input_spec(input_spec(s, up), down) == s,
{
    lemma_key_classes(down);
    lemma_key_classes(up);
    let n = menu_len(s);
    lemma_navigation_cycles(s.selected, n);
    let d = input_spec(s, down);
    assert(d == AppStateView { selected: selection_down(s.selected, n), ..s });
    assert(menu_len(d) == n);
    assert(input_spec(d, up) == AppStateView { selected: selection_up(d.selected, n), ..d });
    let u = input_spec(s, up);
    assert(u == AppStateView { selected: selection_up(s.selected, n), ..s });
    assert(input_spec(u, down) == AppStateView { selected: selection_down(u.selected, n), ..u });
}

/// The menu lists "About", "Global Activity Logs" and then the tabs. The
/// down arrow (or `j`, `s`) moves the selection to the next item, from the
/// last item back to "About"; the up arrow (or `k`, `w`) moves it to the
/// previous item, from "About" to the last item; only the selection changes.
/// Enter (or line feed, space) opens the selected item: the about pane, the
/// log pane, or the captured output of the selected tab.
pub proof fn lemma_keys_move_and_open(
    s: AppStateView,
    down: Seq<u8>,
    up: Seq<u8>,
    enter: Seq<u8>,
)
    requires
        s.selected < s.tabs.len() + 2,
        down == seq![0x1bu8, 0x5bu8, 0x42u8] || down == seq![0x6au8] || down == seq![0x73u8],
        up == seq![0x1bu8, 0x5bu8, 0x41u8] || up == seq![0x6bu8] || up == seq![0x77u8],
        enter == seq![0x0du8] || enter == seq![0x0au8] || enter == seq![0x20u8],
    ensures
        input_spec(s, down) == (AppStateView { selected: input_spec(s, down).selected, ..s }),
        input_spec(s, up) == (AppStateView { selected: input_spec(s, up).selected, ..s }),
        s.selected + 1 < s.tabs.len() + 2 ==> input_spec(s, down).selected == s.selected + 1,
        s.selected + 1 == s.tabs.len() + 2 ==> input_spec(s, down).selected == 0,
        s.selected > 0 ==> input_spec(s, up).selected == s.selected - 1,
        s.selected == 0 ==> input_spec(s, up).selected == s.tabs.len() + 1,
        s.selected == 0 ==> input_spec(s, enter) == (AppStateView {
            current_view: ViewKind::About,
            ..s
        }),
        s.selected == 1 ==> input_spec(s, enter) == (AppStateView {
            current_view: ViewKind::Logs,
            ..s
        }),
        s.selected >= 2 ==> input_spec(s, enter) == (AppStateView {
            current_view: ViewKind::TabOutput,
            selected_tab_id: Some(s.tabs[s.selected - 2].id),
            ..s
        }),
{
    lemma_key_classes(down);
    lemma_key_classes(up);
    lemma_key_classes(enter);
    let n = menu_len(s);
    if s.selected + 1 < n {
        assert((s.selected + 1) % n == s.selected + 1) by (nonlinear_arith)
            requires
                s.selected + 1 < n,
        ;
    } else {
        assert((s.selected + 1) % n == 0) by (nonlinear_arith)
            requires
                s.selected + 1 == n,
        ;
    }
}

} // verus!
