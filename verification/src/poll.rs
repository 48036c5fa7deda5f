//! One polling round's decisions: what the state learns from the fetched
//! document, and which tabs are claimed for the agent.
use vstd::prelude::*;

use crate::document::{
    doc_title_spec, extract_doc_title, extract_tabs, extract_tabs_spec, lemma_extract_tabs_wf,
    status_of,
};
use crate::agent::{quoted_message, renamed_message};
use crate::state::{add_log_spec, AppState, AppStateView, Tab, TabView};
use crate::text::{
    contains, lemma_replace_absent, lemma_replace_after_plain_prefix, lemma_replace_contains,
    lemma_replace_front, matches_at, owned, replace_all, replace_spec, str_eq,
};

verus! {

/// A tab to be renamed from `old_title` to `new_title`.
pub struct TitleRename {
    pub tab_id: String,
    pub old_title: String,
    pub new_title: String,
}

/// A rename as text values.
pub struct TitleRenameView {
    pub tab_id: Seq<char>,
    pub old_title: Seq<char>,
    pub new_title: Seq<char>,
}

impl DeepView for TitleRename {
    type V = TitleRenameView;

    open spec fn deep_view(&self) -> TitleRenameView {
        TitleRenameView {
            tab_id: self.tab_id@,
            old_title: self.old_title@,
            new_title: self.new_title@,
        }
    }
}

/// The title a claimed tab gets: every `[agent]` tag becomes
/// `[agent,working]`.
pub open spec fn working_title(title: Seq<char>) -> Seq<char> {
    replace_spec(title, "[agent]"@, "[agent,working]"@)
}

/// The renames for the tabs that are ready for the agent, in tab order.
pub open spec fn renames_spec(tabs: Seq<TabView>) -> Seq<TitleRenameView>
    decreases tabs.len(),
{
    if tabs.len() == 0 {
        Seq::empty()
    } else {
        let prev = renames_spec(tabs.drop_last());
        let t = tabs.last();
        if t.status == "READY"@ {
            prev.push(
                TitleRenameView { tab_id: t.id, old_title: t.title, new_title: working_title(t.title) },
            )
        } else {
            prev
        }
    }
}

/// The renames that claim every tab whose status is `READY`: its `[agent]`
/// tag becomes `[agent,working]`.
pub fn ready_renames(tabs: &Vec<Tab>) -> (r: Vec<TitleRename>)
    ensures
        r.deep_view() == renames_spec(tabs.deep_view()),
{
    let mut r: Vec<TitleRename> = Vec::new();
    let n = tabs.len();
    let mut i: usize = 0;
    proof {
        reveal_strlit("[agent]");
    }
    assert(tabs.deep_view().take(0) =~= Seq::<TabView>::empty());
    assert(r.deep_view() =~= Seq::<TitleRenameView>::empty());
    while i < n
        invariant
            n == tabs@.len(),
            i <= n,
            "[agent]"@.len() > 0,
            r.deep_view() == renames_spec(tabs.deep_view().take(i as int)),
        decreases n - i,
    {
        let ghost before = r.deep_view();
        assert(tabs.deep_view().take(i + 1).drop_last() =~= tabs.deep_view().take(i as int));
        assert(tabs.deep_view().take(i + 1).last() == tabs.deep_view()[i as int]);
        let t = &tabs[i];
        if str_eq(t.status.as_str(), "READY") {
            let new_title = replace_all(t.title.as_str(), "[agent]", "[agent,working]");
            r.push(
                TitleRename { tab_id: t.id.clone(), old_title: t.title.clone(), new_title },
            );
            assert(r.deep_view() =~= before.push(
                TitleRenameView {
                    tab_id: t.id@,
                    old_title: t.title@,
                    new_title: working_title(t.title@),
                },
            ));
        }
        i += 1;
    }
    assert(tabs.deep_view().take(n as int) =~= tabs.deep_view());
    r
}

/// The state after a poll that fetched `doc_json` at time `polled_at`.
pub open spec fn poll_spec(s: AppStateView, doc_json: Seq<char>, polled_at: Seq<char>) -> AppStateView {
    AppStateView {
        doc_title: doc_title_spec(doc_json),
        last_polled: polled_at,
        tabs: extract_tabs_spec(doc_json),
        ..s
    }
}

/// A poll replaces the tab list with the tabs read from the fetched reply,
/// whatever the list held before, sets the title and the poll time, and
/// keeps the rest of the state. So two states polled with the same reply end
/// with the same tabs, and polling the same reply again leaves the tab list
/// as the first poll made it.
pub proof fn lemma_poll_replaces_tabs(
    s1: AppStateView,
    s2: AppStateView,
    doc_json: Seq<char>,
    at1: Seq<char>,
    at2: Seq<char>,
)
    ensures
        poll_spec(s1, doc_json, at1).tabs == extract_tabs_spec(doc_json),
        poll_spec(s1, doc_json, at1).tabs == poll_spec(s2, doc_json, at2).tabs,
        poll_spec(poll_spec(s1, doc_json, at1), doc_json, at2).tabs == poll_spec(
            s1,
            doc_json,
            at1,
        ).tabs,
        poll_spec(s1, doc_json, at1).doc_title == doc_title_spec(doc_json),
        poll_spec(s1, doc_json, at1).last_polled == at1,
        poll_spec(s1, doc_json, at1).running_commands == s1.running_commands,
        poll_spec(s1, doc_json, at1).logs == s1.logs,
        poll_spec(s1, doc_json, at1).tab_outputs == s1.tab_outputs,
        poll_spec(s1, doc_json, at1).running == s1.running,
        poll_spec(s1, doc_json, at1).selected == s1.selected,
        poll_spec(s1, doc_json, at1).current_view == s1.current_view,
        poll_spec(s1, doc_json, at1).selected_tab_id == s1.selected_tab_id,
{
}

impl AppState {
    /// Takes in a fetched document: its title, the poll time and its tabs;
    /// returns the renames that claim the tabs ready for the agent.
    pub fn apply_poll(&mut self, doc_json: &str, polled_at: &str) -> (r: Vec<TitleRename>)
        ensures
            final(self)@ == poll_spec(old(self)@, doc_json@, polled_at@),
            final(self).tabs_data.deep_view() == extract_tabs_spec(doc_json@),
            final(self).doc_title@ == doc_title_spec(doc_json@),
            final(self).last_polled@ == polled_at@,
            final(self).running_commands.deep_view() == old(self).running_commands.deep_view(),
            final(self).logs.deep_view() == old(self).logs.deep_view(),
            final(self).tab_outputs.deep_view() == old(self).tab_outputs.deep_view(),
            final(self).running == old(self).running,
            final(self).selected_selectable_idx == old(self).selected_selectable_idx,
            final(self).current_view == old(self).current_view,
            r.deep_view() == renames_spec(extract_tabs_spec(doc_json@)),
    {
        let title = extract_doc_title(doc_json);
        let tabs = extract_tabs(doc_json);
        let renames = ready_renames(&tabs);
        self.doc_title = title;
        self.last_polled = owned(polled_at);
        self.tabs_data = tabs;
        renames
    }
}

/// A claimed tab's new title carries the `[agent,working]` tag, so the next
/// poll sees it as `WORKING`.
pub proof fn lemma_claimed_tab_is_working(title: Seq<char>)
    requires
        status_of(title) == "READY"@,
    ensures
        contains(working_title(title), "[agent,working]"@),
        status_of(working_title(title)) == "WORKING"@,
{
    reveal_strlit("READY");
    reveal_strlit("WORKING");
    reveal_strlit("HUMAN");
    reveal_strlit("Idle");
    reveal_strlit("[agent]");
    assert("READY"@.len() != "WORKING"@.len());
    assert("READY"@.len() != "Idle"@.len());
    assert("READY"@[0] != "HUMAN"@[0]);
    assert(contains(title, "[agent]"@));
    lemma_replace_contains(title, "[agent]"@, "[agent,working]"@);
}

/// Claiming a tab turns its `[agent]` tag into `[agent,working]` where it
/// stands and keeps the rest of the title: for a title made of `a`, the tag
/// and `b`, where `a` holds no `[` and `b` no further `[agent]` tag, the
/// working title is `a`, then `[agent,working]`, then `b`.
pub proof fn lemma_working_title_replaces_tag(a: Seq<char>, b: Seq<char>)
    requires
        forall|j: int| 0 <= j < a.len() ==> a[j] != '[',
        !contains(b, "[agent]"@),
    ensures
        working_title(a + "[agent]"@ + b) == a + "[agent,working]"@ + b,
{
    reveal_strlit("[agent]");
    let tag = "[agent]"@;
    let rest = tag + b;
    assert forall|j: int| 0 <= j < a.len() implies !#[trigger] matches_at(a + rest, tag, j) by {
        if matches_at(a + rest, tag, j) {
            assert((a + rest).subrange(j, j + 7)[0] == a[j]);
        }
    }
    lemma_replace_after_plain_prefix(a, rest, tag, "[agent,working]"@);
    lemma_replace_front(b, tag, "[agent,working]"@);
    lemma_replace_absent(b, tag, "[agent,working]"@);
    assert(a + tag + b =~= a + rest);
    assert(a + ("[agent,working]"@ + b) =~= a + "[agent,working]"@ + b);
}

/// `rn` claims one of the tabs in `tabs` that is ready for the agent.
pub open spec fn claims_ready_tab(tabs: Seq<TabView>, rn: TitleRenameView) -> bool {
    exists|k: int|
        0 <= k < tabs.len() && #[trigger] tabs[k].status == "READY"@ && rn == (TitleRenameView {
            tab_id: tabs[k].id,
            old_title: tabs[k].title,
            new_title: working_title(tabs[k].title),
        })
}

/// Every rename claims a tab that was ready, and gives it its working title.
pub proof fn lemma_renames_claim_ready_tabs(tabs: Seq<TabView>)
    ensures
        forall|i: int|
            0 <= i < renames_spec(tabs).len() ==> claims_ready_tab(
                tabs,
                #[trigger] renames_spec(tabs)[i],
            ),
    decreases tabs.len(),
{
    if tabs.len() > 0 {
        lemma_renames_claim_ready_tabs(tabs.drop_last());
        let prev = renames_spec(tabs.drop_last());
        let r = renames_spec(tabs);
        assert forall|i: int| 0 <= i < r.len() implies claims_ready_tab(tabs, #[trigger] r[i]) by {
            if i < prev.len() {
                assert(r[i] == prev[i]);
                assert(claims_ready_tab(tabs.drop_last(), prev[i]));
                let k = choose|k: int|
                    0 <= k < tabs.drop_last().len() && #[trigger] tabs.drop_last()[k].status
                        == "READY"@ && prev[i] == (TitleRenameView {
                        tab_id: tabs.drop_last()[k].id,
                        old_title: tabs.drop_last()[k].title,
                        new_title: working_title(tabs.drop_last()[k].title),
                    });
                assert(tabs[k] == tabs.drop_last()[k]);
            } else {
                let k = tabs.len() - 1;
                assert(tabs[k] == tabs.last());
            }
        }
    }
}


// ---------------------------------------------------------------------------
// Outcomes of a polling round
// ---------------------------------------------------------------------------

/// What happened in a step of a polling round.
pub enum PollEvent {
    /// No access token could be obtained.
    TokenFailed,
    /// The document could not be fetched.
    FetchFailed,
    /// The rename of a claimed tab was attempted; `Err` holds the failure.
    RenameResult(TitleRename, Result<(), String>),
}

/// The message logged for a step of a polling round.
pub open spec fn poll_message(ev: PollEvent) -> Seq<char> {
    match ev {
        PollEvent::TokenFailed => "Token Error: Failed to print access token"@,
        PollEvent::FetchFailed => "Poll Error: Failed to fetch document"@,
        PollEvent::RenameResult(rn, Ok(())) => quoted_message("Tab renamed to "@, rn.new_title@),
        PollEvent::RenameResult(_, Err(e)) => "Rename Error: "@ + e@,
    }
}

/// The agent a step starts: the claimed tab, exactly when its rename
/// succeeded.
pub open spec fn poll_spawn(ev: PollEvent) -> Option<TitleRenameView> {
    match ev {
        PollEvent::RenameResult(rn, Ok(())) => Some(rn.deep_view()),
        _ => None,
    }
}

impl AppState {
    /// Takes in what happened in a step of a polling round: logs it, and
    /// returns the claimed tab whose agent is to be started, which is there
    /// exactly when the tab's rename succeeded.
    pub fn poll_outcome(&mut self, now: &str, ev: PollEvent) -> (r: Option<TitleRename>)
        ensures
            final(self)@ == add_log_spec(old(self)@, now@, poll_message(ev)),
            match r {
                Some(t) => poll_spawn(ev) == Some(t.deep_view()),
                None => poll_spawn(ev) is None,
            },
    {
        match ev {
            PollEvent::TokenFailed => {
                self.add_log(now, "Token Error: Failed to print access token");
                None
            },
            PollEvent::FetchFailed => {
                self.add_log(now, "Poll Error: Failed to fetch document");
                None
            },
            PollEvent::RenameResult(rn, res) => match res {
                Ok(()) => {
                    let msg = renamed_message(rn.new_title.as_str());
                    self.add_log(now, msg.as_str());
                    Some(rn)
                },
                Err(e) => {
                    let mut msg = owned("Rename Error: ");
                    msg.append(e.as_str());
                    self.add_log(now, msg.as_str());
                    None
                },
            },
        }
    }
}

/// In a polling round, the agent is started for a claimed tab exactly when
/// that tab's rename succeeded, and then for that tab with its working
/// title; failed steps start nothing.
pub proof fn lemma_agent_started_iff_renamed(ev: PollEvent)
    ensures
        poll_spawn(ev) is Some <==> (ev matches PollEvent::RenameResult(_, Ok(()))),
        ev matches PollEvent::RenameResult(rn, Ok(())) ==> poll_spawn(ev) == Some(rn.deep_view()),
{
}

/// Every tab that is ready for the agent is claimed: the renames hold, for
/// each `READY` tab, its id, its title and its working title.
pub proof fn lemma_every_ready_tab_is_claimed(tabs: Seq<TabView>)
    ensures
        forall|k: int|
            #![trigger tabs[k]]
            0 <= k < tabs.len() && tabs[k].status == "READY"@ ==> exists|i: int|
                0 <= i < renames_spec(tabs).len() && #[trigger] renames_spec(tabs)[i] == (
                TitleRenameView {
                    tab_id: tabs[k].id,
                    old_title: tabs[k].title,
                    new_title: working_title(tabs[k].title),
                }),
    decreases tabs.len(),
{
    if tabs.len() > 0 {
        let d = tabs.drop_last();
        lemma_every_ready_tab_is_claimed(d);
        let prev = renames_spec(d);
        let r = renames_spec(tabs);
        assert forall|k: int|
            #![trigger tabs[k]]
            0 <= k < tabs.len() && tabs[k].status == "READY"@ implies exists|i: int|
                0 <= i < r.len() && #[trigger] r[i] == (TitleRenameView {
                    tab_id: tabs[k].id,
                    old_title: tabs[k].title,
                    new_title: working_title(tabs[k].title),
                }) by {
            if k < d.len() {
                assert(d[k] == tabs[k]);
                let i = choose|i: int|
                    0 <= i < prev.len() && #[trigger] prev[i] == (TitleRenameView {
                        tab_id: d[k].id,
                        old_title: d[k].title,
                        new_title: working_title(d[k].title),
                    });
                assert(r[i] == prev[i]);
            } else {
                assert(r[prev.len() as int] == (TitleRenameView {
                    tab_id: tabs[k].id,
                    old_title: tabs[k].title,
                    new_title: working_title(tabs[k].title),
                }));
            }
        }
    }
}

/// The agents started over a round's renames, given the result of each
/// rename: the claimed tabs whose rename succeeded, in order.
pub open spec fn round_spawns(
    renames: Seq<TitleRenameView>,
    ok: Seq<bool>,
) -> Seq<TitleRenameView>
    decreases renames.len(),
{
    if renames.len() == 0 || ok.len() != renames.len() {
        Seq::empty()
    } else {
        let prev = round_spawns(renames.drop_last(), ok.drop_last());
        if ok.last() {
            prev.push(renames.last())
        } else {
            prev
        }
    }
}

/// `x` is one of `renames` whose rename succeeded.
pub open spec fn succeeded_rename(
    renames: Seq<TitleRenameView>,
    ok: Seq<bool>,
    x: TitleRenameView,
) -> bool {
    exists|j: int| 0 <= j < renames.len() && #[trigger] ok[j] && renames[j] == x
}

/// Over a round on the tabs of a fetched document, every agent started is
/// for a tab that was READY, gets its working title (status `WORKING`, so the
/// next round does not claim it again), and had its rename succeed; every
/// claimed tab whose rename succeeded gets its agent.
pub proof fn lemma_round_starts_only_claimed_tabs(json: Seq<char>, ok: Seq<bool>)
    requires
        ok.len() == renames_spec(extract_tabs_spec(json)).len(),
    ensures
        forall|i: int|
            0 <= i < round_spawns(renames_spec(extract_tabs_spec(json)), ok).len() ==> {
                &&& claims_ready_tab(
                    extract_tabs_spec(json),
                    #[trigger] round_spawns(renames_spec(extract_tabs_spec(json)), ok)[i],
                )
                &&& succeeded_rename(
                    renames_spec(extract_tabs_spec(json)),
                    ok,
                    round_spawns(renames_spec(extract_tabs_spec(json)), ok)[i],
                )
                &&& status_of(
                    round_spawns(renames_spec(extract_tabs_spec(json)), ok)[i].new_title,
                ) == "WORKING"@
            },
        forall|j: int|
            0 <= j < ok.len() && ok[j] ==> round_spawns(
                renames_spec(extract_tabs_spec(json)),
                ok,
            ).contains(#[trigger] renames_spec(extract_tabs_spec(json))[j]),
{
    let tabs = extract_tabs_spec(json);
    let rs = renames_spec(tabs);
    lemma_extract_tabs_wf(json);
    lemma_renames_claim_ready_tabs(tabs);
    lemma_round_spawns_subset(rs, ok);
    assert forall|i: int| 0 <= i < round_spawns(rs, ok).len() implies {
        &&& claims_ready_tab(tabs, #[trigger] round_spawns(rs, ok)[i])
        &&& succeeded_rename(rs, ok, round_spawns(rs, ok)[i])
        &&& status_of(round_spawns(rs, ok)[i].new_title) == "WORKING"@
    } by {
        let x = round_spawns(rs, ok)[i];
        assert(succeeded_rename(rs, ok, x));
        let j = choose|j: int| 0 <= j < rs.len() && #[trigger] ok[j] && rs[j] == x;
        assert(claims_ready_tab(tabs, rs[j]));
        let k = choose|k: int|
            0 <= k < tabs.len() && #[trigger] tabs[k].status == "READY"@ && rs[j] == (
            TitleRenameView {
                tab_id: tabs[k].id,
                old_title: tabs[k].title,
                new_title: working_title(tabs[k].title),
            });
        assert(tabs[k].status == status_of(tabs[k].title));
        lemma_claimed_tab_is_working(tabs[k].title);
    }
}

/// A started agent is one of the renames, and its rename succeeded; every
/// successful rename starts its agent.
pub proof fn lemma_round_spawns_subset(renames: Seq<TitleRenameView>, ok: Seq<bool>)
    requires
        ok.len() == renames.len(),
    ensures
        forall|i: int|
            0 <= i < round_spawns(renames, ok).len() ==> succeeded_rename(
                renames,
                ok,
                #[trigger] round_spawns(renames, ok)[i],
            ),
        forall|j: int|
            0 <= j < renames.len() && ok[j] ==> round_spawns(renames, ok).contains(
                #[trigger] renames[j],
            ),
    decreases renames.len(),
{
    if renames.len() > 0 {
        let rd = renames.drop_last();
        let od = ok.drop_last();
        lemma_round_spawns_subset(rd, od);
        let prev = round_spawns(rd, od);
        let r = round_spawns(renames, ok);
        assert forall|i: int| 0 <= i < r.len() implies succeeded_rename(
            renames,
            ok,
            #[trigger] r[i],
        ) by {
            if i < prev.len() {
                assert(r[i] == prev[i]);
                assert(succeeded_rename(rd, od, prev[i]));
                let j = choose|j: int| 0 <= j < rd.len() && #[trigger] od[j] && rd[j] == prev[i];
                assert(renames[j] == rd[j] && ok[j] == od[j]);
            } else {
                let j = renames.len() - 1;
                assert(renames[j] == r[i] && ok[j]);
            }
        }
        assert forall|j: int| 0 <= j < renames.len() && ok[j] implies r.contains(
            #[trigger] renames[j],
        ) by {
            if j < rd.len() {
                assert(renames[j] == rd[j] && ok[j] == od[j]);
                assert(prev.contains(rd[j]));
                let k = choose|k: int| 0 <= k < prev.len() && prev[k] == rd[j];
                assert(r[k] == prev[k]);
            } else {
                assert(r[r.len() - 1] == renames[j]);
            }
        }
    }
}

} // verus!
