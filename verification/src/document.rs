//! Reading the document title and its tabs out of the Docs API's JSON reply
//! by scanning for keys, and classifying tabs by the tag in their title.
use vstd::prelude::*;

use crate::state::{Tab, TabView};
use crate::text::{
    chars_of, contains, contains_exec, find, find_from, find_from_exec, lemma_find_contains,
    lemma_find_from, lemma_find_from_first, lemma_matches_char, matches_at, owned, str_eq,
    string_of_range,
};

verus! {

// ---------------------------------------------------------------------------
// Quoted values after a key
// ---------------------------------------------------------------------------

/// The text between the first two double quotes that follow the first `:`
/// after the first occurrence of `key` in `s`, if all of these exist.
pub open spec fn quoted_value_after(s: Seq<char>, key: Seq<char>) -> Option<Seq<char>> {
    match find(s, key) {
        None => None,
        Some(k) => match find_from(s, seq![':'], k) {
            None => None,
            Some(c) => match find_from(s, seq!['"'], c) {
                None => None,
                Some(q1) => match find_from(s, seq!['"'], q1 + 1) {
                    None => None,
                    Some(q2) => Some(s.subrange(q1 + 1, q2)),
                },
            },
        },
    }
}

/// The quoted value after `key`, or the empty text when there is none.
pub open spec fn value_or_empty(s: Seq<char>, key: Seq<char>) -> Seq<char> {
    match quoted_value_after(s, key) {
        Some(v) => v,
        None => Seq::empty(),
    }
}

/// The quoted value that follows `key` in `s`.
pub fn quoted_value_after_exec(s: &[char], key: &[char]) -> (r: Option<String>)
    ensures
        match r {
            Some(v) => quoted_value_after(s@, key@) == Some(v@),
            None => quoted_value_after(s@, key@) is None,
        },
{
    let _n = s.len();
    let colon: [char; 1] = [':'];
    let quote: [char; 1] = ['"'];
    assert(colon@ =~= seq![':']);
    assert(quote@ =~= seq!['"']);
    let k = match find_from_exec(s, key, 0) {
        Some(k) => k,
        None => return None,
    };
    proof {
        lemma_find_from(s@, key@, 0);
    }
    let c = match find_from_exec(s, &colon, k) {
        Some(c) => c,
        None => return None,
    };
    proof {
        lemma_find_from(s@, seq![':'], k as int);
    }
    let q1 = match find_from_exec(s, &quote, c) {
        Some(q1) => q1,
        None => return None,
    };
    proof {
        lemma_find_from(s@, seq!['"'], c as int);
    }
    let q2 = match find_from_exec(s, &quote, q1 + 1) {
        Some(q2) => q2,
        None => return None,
    };
    proof {
        lemma_find_from(s@, seq!['"'], q1 + 1);
    }
    Some(string_of_range(s, q1 + 1, q2))
}

// ---------------------------------------------------------------------------
// Document title
// ---------------------------------------------------------------------------

/// The document's title: the quoted value after the first `"title"` key, or
/// `"Unknown"` when there is none.
pub open spec fn doc_title_spec(json: Seq<char>) -> Seq<char> {
    match quoted_value_after(json, "\"title\""@) {
        Some(t) => t,
        None => "Unknown"@,
    }
}

/// Reads the document's title out of the API's JSON reply.
pub fn extract_doc_title(json: &str) -> (r: String)
    ensures
        r@ == doc_title_spec(json@),
{
    let s = chars_of(json);
    let key = chars_of("\"title\"");
    match quoted_value_after_exec(s.as_slice(), key.as_slice()) {
        Some(t) => t,
        None => owned("Unknown"),
    }
}

/// The quoted value after `key` in a text made of `p`, `key`, `w`, a colon,
/// `ws`, a double quote, `t`, a double quote and `rest` in that order, where
/// `key` occurs nowhere before its place after `p`, neither `key` nor `w`
/// holds a colon, and neither `ws` nor `t` holds a double quote, is `t`.
pub proof fn lemma_quoted_value_layout(
    p: Seq<char>,
    key: Seq<char>,
    w: Seq<char>,
    ws: Seq<char>,
    t: Seq<char>,
    rest: Seq<char>,
)
    requires
        key.len() > 0,
        forall|j: int| 0 <= j < key.len() ==> key[j] != ':',
        forall|j: int|
            0 <= j < p.len() ==> !#[trigger] matches_at(
                p + key + w + ":"@ + ws + "\""@ + t + "\""@ + rest,
                key,
                j,
            ),
        forall|j: int| 0 <= j < w.len() ==> w[j] != ':',
        forall|j: int| 0 <= j < ws.len() ==> ws[j] != '"',
        forall|j: int| 0 <= j < t.len() ==> t[j] != '"',
    ensures
        quoted_value_after(p + key + w + ":"@ + ws + "\""@ + t + "\""@ + rest, key) == Some(t),
{
    reveal_strlit(":");
    reveal_strlit("\"");
    let a1 = p + key;
    let a2 = a1 + w;
    let a3 = a2 + ":"@;
    let a4 = a3 + ws;
    let a5 = a4 + "\""@;
    let a6 = a5 + t;
    let a7 = a6 + "\""@;
    let s = a7 + rest;
    let n = key.len() as int;
    let k = p.len() as int;
    let c = k + n + w.len();
    let q1 = c + 1 + ws.len();
    let q2 = q1 + 1 + t.len();
    assert(a7.len() == q2 + 1);
    assert forall|j: int| 0 <= j < a7.len() implies s[j] == a7[j] by {}
    assert forall|j: int| 0 <= j < a6.len() implies a7[j] == a6[j] by {}
    assert forall|j: int| 0 <= j < a5.len() implies a6[j] == a5[j] by {}
    assert forall|j: int| 0 <= j < a4.len() implies a5[j] == a4[j] by {}
    assert forall|j: int| 0 <= j < a3.len() implies a4[j] == a3[j] by {}
    assert forall|j: int| 0 <= j < a2.len() implies a3[j] == a2[j] by {}
    assert forall|j: int| 0 <= j < a1.len() implies a2[j] == a1[j] by {}
    // the key, found first at `k`
    assert(s.subrange(k, k + n) =~= key);
    assert(matches_at(s, key, k));
    lemma_find_from_first(s, key, 0, k);
    // the first colon after it, at `c`
    lemma_matches_char(s, ':', c);
    assert(s[c] == ':');
    assert forall|j: int| k <= j < c implies !#[trigger] matches_at(s, seq![':'], j) by {
        lemma_matches_char(s, ':', j);
        if j < k + n {
            assert(s[j] == key[j - k]);
        } else {
            assert(s[j] == w[j - k - n]);
        }
    }
    lemma_find_from_first(s, seq![':'], k, c);
    // the opening quote, at `q1`
    lemma_matches_char(s, '"', q1);
    assert forall|j: int| c <= j < q1 implies !#[trigger] matches_at(s, seq!['"'], j) by {
        lemma_matches_char(s, '"', j);
        if j > c {
            assert(s[j] == ws[j - c - 1]);
        }
    }
    lemma_find_from_first(s, seq!['"'], c, q1);
    // the closing quote, at `q2`
    lemma_matches_char(s, '"', q2);
    assert forall|j: int| q1 + 1 <= j < q2 implies !#[trigger] matches_at(s, seq!['"'], j) by {
        lemma_matches_char(s, '"', j);
        assert(s[j] == t[j - q1 - 1]);
    }
    lemma_find_from_first(s, seq!['"'], q1 + 1, q2);
    assert(s.subrange(q1 + 1, q2) =~= t);
}

/// The document title is the whole quoted value after the first `"title"`
/// key. In a reply made of `p`, the key `"title"`, `w`, a colon, `ws`, a
/// double quote, `t`, a double quote and `rest` in that order, where `p`,
/// `ws` and `t` hold no double quote and `w` holds no colon, the title is
/// `t`, whatever other characters `t` holds.
pub proof fn lemma_doc_title_is_quoted_value(
    p: Seq<char>,
    w: Seq<char>,
    ws: Seq<char>,
    t: Seq<char>,
    rest: Seq<char>,
)
    requires
        forall|j: int| 0 <= j < p.len() ==> p[j] != '"',
        forall|j: int| 0 <= j < w.len() ==> w[j] != ':',
        forall|j: int| 0 <= j < ws.len() ==> ws[j] != '"',
        forall|j: int| 0 <= j < t.len() ==> t[j] != '"',
    ensures
        doc_title_spec(p + "\"title\""@ + w + ":"@ + ws + "\""@ + t + "\""@ + rest) == t,
{
    reveal_strlit("\"title\"");
    let key = "\"title\""@;
    let s = p + key + w + ":"@ + ws + "\""@ + t + "\""@ + rest;
    assert forall|j: int| 0 <= j < p.len() implies !#[trigger] matches_at(s, key, j) by {
        assert(s[j] == p[j]);
        if matches_at(s, key, j) {
            assert(s.subrange(j, j + 7)[0] == s[j]);
        }
    }
    lemma_quoted_value_layout(p, key, w, ws, t, rest);
}

/// A reply without a `"title"` key gives the title `"Unknown"`.
pub proof fn lemma_doc_title_unknown_without_key(json: Seq<char>)
    requires
        !contains(json, "\"title\""@),
    ensures
        doc_title_spec(json) == "Unknown"@,
{
    lemma_find_contains(json, "\"title\""@);
}

/// For every `t` without a double quote, the title read from
/// `{"title": "` + `t` + `"}` is `t`.
pub proof fn lemma_doc_title_of_simple_reply(t: Seq<char>)
    requires
        forall|j: int| 0 <= j < t.len() ==> t[j] != '"',
    ensures
        doc_title_spec("{\"title\": \""@ + t + "\"}"@) == t,
{
    reveal_strlit("{\"title\": \"");
    reveal_strlit("\"}");
    reveal_strlit("{");
    reveal_strlit(" ");
    reveal_strlit("}");
    reveal_strlit("\"title\"");
    reveal_strlit(":");
    reveal_strlit("\"");
    let e = Seq::<char>::empty();
    lemma_doc_title_is_quoted_value("{"@, e, " "@, t, "}"@);
    assert("{\"title\": \""@ + t + "\"}"@ =~= "{"@ + "\"title\""@ + e + ":"@ + " "@ + "\""@ + t
        + "\""@ + "}"@);
}

// ---------------------------------------------------------------------------
// Tab status
// ---------------------------------------------------------------------------

/// A tab's status from the tag in its title: `"WORKING"` for
/// `[agent,working]`, else `"READY"` for `[agent]`, else `"HUMAN"` for
/// `[human]`, else `"Idle"`.
pub open spec fn status_of(title: Seq<char>) -> Seq<char> {
    if contains(title, "[agent,working]"@) {
        "WORKING"@
    } else if contains(title, "[agent]"@) {
        "READY"@
    } else if contains(title, "[human]"@) {
        "HUMAN"@
    } else {
        "Idle"@
    }
}

/// The status a tab with this title has.
pub fn status_of_title(title: &str) -> (r: String)
    ensures
        r@ == status_of(title@),
        contains(title@, "[agent,working]"@) ==> r@ == "WORKING"@,
        !contains(title@, "[agent,working]"@) && contains(title@, "[agent]"@) ==> r@ == "READY"@,
        !contains(title@, "[agent,working]"@) && !contains(title@, "[agent]"@) && contains(
            title@,
            "[human]"@,
        ) ==> r@ == "HUMAN"@,
        !contains(title@, "[agent,working]"@) && !contains(title@, "[agent]"@) && !contains(
            title@,
            "[human]"@,
        ) ==> r@ == "Idle"@,
{
    proof {
        lemma_status_follows_tags(title@);
    }
    let t = chars_of(title);
    let working = chars_of("[agent,working]");
    let agent = chars_of("[agent]");
    let human = chars_of("[human]");
    if contains_exec(t.as_slice(), working.as_slice()) {
        owned("WORKING")
    } else if contains_exec(t.as_slice(), agent.as_slice()) {
        owned("READY")
    } else if contains_exec(t.as_slice(), human.as_slice()) {
        owned("HUMAN")
    } else {
        owned("Idle")
    }
}

/// A tab's status follows the tags its title carries, wherever in the title
/// they stand: `[agent,working]` anywhere makes it `WORKING`; otherwise
/// `[agent]` anywhere makes it `READY`; otherwise `[human]` anywhere makes it
/// `HUMAN`; a title with none of these tags is `Idle`.
pub proof fn lemma_status_follows_tags(t: Seq<char>)
    ensures
        contains(t, "[agent,working]"@) ==> status_of(t) == "WORKING"@,
        !contains(t, "[agent,working]"@) && contains(t, "[agent]"@) ==> status_of(t) == "READY"@,
        !contains(t, "[agent,working]"@) && !contains(t, "[agent]"@) && contains(t, "[human]"@)
            ==> status_of(t) == "HUMAN"@,
        !contains(t, "[agent,working]"@) && !contains(t, "[agent]"@) && !contains(t, "[human]"@)
            ==> status_of(t) == "Idle"@,
{
}

/// An `[agent]` tag at any position of a title that has no
/// `[agent,working]` tag makes the tab ready for the agent.
pub proof fn lemma_agent_tag_anywhere_is_ready(t: Seq<char>, i: int)
    requires
        0 <= i,
        i + "[agent]"@.len() <= t.len(),
        t.subrange(i, i + "[agent]"@.len()) == "[agent]"@,
        !contains(t, "[agent,working]"@),
    ensures
        status_of(t) == "READY"@,
{
    assert(matches_at(t, "[agent]"@, i));
    lemma_status_follows_tags(t);
}

// ---------------------------------------------------------------------------
// Tabs
// ---------------------------------------------------------------------------

/// The key that opens each tab's properties.
pub open spec fn tab_key() -> Seq<char> {
    "\"tabProperties\""@
}

/// The tab described by the text `seg` of one tab's properties: present when
/// both its `"tabId"` and `"title"` values are non-empty.
pub open spec fn segment_tab(seg: Seq<char>) -> Option<TabView> {
    let id = value_or_empty(seg, "\"tabId\""@);
    let title = value_or_empty(seg, "\"title\""@);
    if id.len() > 0 && title.len() > 0 {
        Some(TabView { id, title, status: status_of(title) })
    } else {
        None
    }
}

/// For each occurrence of `key` in `s` at or after `from`, the tab described
/// by the text between it and the next occurrence (or the end of `s`).
pub open spec fn tab_candidates(s: Seq<char>, key: Seq<char>, from: int) -> Seq<Option<TabView>>
    decreases s.len() - from,
{
    if from < 0 || key.len() == 0 {
        Seq::empty()
    } else {
        match find_from(s, key, from) {
            None => Seq::empty(),
            Some(p) => {
                let next = p + key.len();
                let limit = match find_from(s, key, next) {
                    Some(q) => q,
                    None => s.len() as int,
                };
                proof {
                    lemma_find_from(s, key, from);
                }
                seq![segment_tab(s.subrange(next, limit))] + tab_candidates(s, key, next)
            },
        }
    }
}

/// Some tab in `tabs` has id `id`.
pub open spec fn has_id(tabs: Seq<TabView>, id: Seq<char>) -> bool {
    exists|i: int| 0 <= i < tabs.len() && tabs[i].id == id
}

/// The tabs among `cands`, each id kept only at its first occurrence.
pub open spec fn unique_tabs(cands: Seq<Option<TabView>>) -> Seq<TabView>
    decreases cands.len(),
{
    if cands.len() == 0 {
        Seq::empty()
    } else {
        let prev = unique_tabs(cands.drop_last());
        match cands.last() {
            None => prev,
            Some(t) => if has_id(prev, t.id) {
                prev
            } else {
                prev.push(t)
            },
        }
    }
}

/// The tabs listed in the API's JSON reply, in order of appearance, one per
/// id.
pub open spec fn extract_tabs_spec(json: Seq<char>) -> Seq<TabView> {
    unique_tabs(tab_candidates(json, tab_key(), 0))
}

/// A reply that lists one tab: `p`, then `"tabProperties": {"tabId": "`,
/// the id, `", "title": "`, the title, `"}` and `rest`.
pub open spec fn one_tab_reply(
    p: Seq<char>,
    id: Seq<char>,
    title: Seq<char>,
    rest: Seq<char>,
) -> Seq<char> {
    p + "\"tabProperties\": {\"tabId\": \""@ + id + "\", \"title\": \""@ + title + "\"}"@ + rest
}

/// In the text that follows a tab's `"tabProperties"` key, no `"title"` key
/// starts before the one after the id, unless the id is `title` itself.
proof fn lemma_title_key_after_id(id: Seq<char>, s1: Seq<char>)
    requires
        id.len() > 0,
        forall|j: int| 0 <= j < id.len() ==> id[j] != '"',
        id != "title"@,
        s1.len() >= 16 + id.len() + 7,
        forall|m: int| 0 <= m < 13 ==> s1[m] == #[trigger] ": {\"tabId\": \""@[m],
        forall|m: int| 0 <= m < id.len() ==> s1[13 + m] == #[trigger] id[m],
        s1[13 + id.len() as int] == '"',
        s1[14 + id.len() as int] == ',',
        s1[15 + id.len() as int] == ' ',
    ensures
        forall|j: int| 0 <= j < 16 + id.len() ==> !#[trigger] matches_at(s1, "\"title\""@, j),
{
    reveal_strlit(": {\"tabId\": \"");
    reveal_strlit("\"title\"");
    reveal_strlit("title");
    let key = "\"title\""@;
    let n = id.len() as int;
    let pre = ": {\"tabId\": \""@;
    assert forall|j: int| 0 <= j < 16 + n implies !#[trigger] matches_at(s1, key, j) by {
        if matches_at(s1, key, j) {
            let sub = s1.subrange(j, j + 7);
            assert(sub[0] == s1[j]);
            assert(s1[j] == '"');
            if j < 13 {
                assert(s1[j] == pre[j]);
                if j == 3 {
                    assert(sub[2] == s1[5]);
                    assert(s1[5] == pre[5]);
                } else if j == 9 {
                    assert(sub[1] == s1[10]);
                    assert(s1[10] == pre[10]);
                } else {
                    assert(j == 12);
                    if n < 5 {
                        assert(sub[1 + n] == s1[13 + n]);
                    } else if n == 5 {
                        assert forall|m: int| 0 <= m < 5 implies id[m] == "title"@[m] by {
                            assert(s1[13 + m] == id[m]);
                            assert(sub[1 + m] == s1[13 + m]);
                        }
                        assert(id =~= "title"@);
                    } else {
                        assert(s1[18] == id[5]);
                        assert(sub[6] == s1[18]);
                    }
                }
            } else if j < 13 + n {
                assert(s1[13 + (j - 13)] == id[j - 13]);
            } else if j == 13 + n {
                assert(sub[1] == s1[14 + n]);
            }
        }
    }
}

/// A reply that lists one tab, whose `"tabProperties"` key occurs nowhere
/// else, with a non-empty id and title that hold no double quote and an id
/// other than `title`, gives exactly that tab, with the status its title's
/// tag gives.
pub proof fn lemma_reply_with_one_tab(
    p: Seq<char>,
    id: Seq<char>,
    title: Seq<char>,
    rest: Seq<char>,
)
    requires
        id.len() > 0,
        title.len() > 0,
        forall|j: int| 0 <= j < id.len() ==> id[j] != '"',
        forall|j: int| 0 <= j < title.len() ==> title[j] != '"',
        id != "title"@,
        forall|j: int|
            #[trigger] matches_at(one_tab_reply(p, id, title, rest), "\"tabProperties\""@, j) ==> j
                == p.len(),
    ensures
        extract_tabs_spec(one_tab_reply(p, id, title, rest)) == seq![
            TabView { id, title, status: status_of(title) },
        ],
{
    reveal_strlit("\"tabProperties\": {\"tabId\": \"");
    reveal_strlit("\", \"title\": \"");
    reveal_strlit("\"}");
    reveal_strlit("\"tabProperties\"");
    reveal_strlit("\"tabId\"");
    reveal_strlit("\"title\"");
    reveal_strlit(": {\"tabId\": \"");
    reveal_strlit(": {");
    reveal_strlit(":");
    reveal_strlit(" ");
    reveal_strlit("\"");
    reveal_strlit("\", ");
    reveal_strlit("}");
    let l1 = "\"tabProperties\": {\"tabId\": \""@;
    let l2 = "\", \"title\": \""@;
    let l3 = "\"}"@;
    let key = "\"tabProperties\""@;
    let json = one_tab_reply(p, id, title, rest);
    let k = p.len() as int;
    let n = id.len() as int;
    // the key is found at `k`, and not again after it
    assert(json.subrange(k, k + 15) =~= key);
    lemma_find_from_first(json, key, 0, k);
    lemma_find_from(json, key, k + 15);
    assert(find_from(json, key, k + 15) is None);
    assert(tab_candidates(json, key, k + 15) =~= Seq::<Option<TabView>>::empty());
    let seg = json.subrange(k + 15, json.len() as int);
    assert(tab_candidates(json, key, 0) =~= seq![segment_tab(seg)]);
    let e = Seq::<char>::empty();
    // the id
    let rest0 = l2.skip(1) + title + l3 + rest;
    assert(seg =~= ": {"@ + "\"tabId\""@ + e + ":"@ + " "@ + "\""@ + id + "\""@ + rest0);
    assert forall|j: int| 0 <= j < 3 implies !#[trigger] matches_at(seg, "\"tabId\""@, j) by {
        if matches_at(seg, "\"tabId\""@, j) {
            assert(seg.subrange(j, j + 7)[0] == seg[j]);
        }
    }
    lemma_quoted_value_layout(": {"@, "\"tabId\""@, e, " "@, id, rest0);
    // the title
    let p1 = ": {\"tabId\": \""@ + id + "\", "@;
    let rest1 = "}"@ + rest;
    assert(seg =~= p1 + "\"title\""@ + e + ":"@ + " "@ + "\""@ + title + "\""@ + rest1);
    lemma_title_key_after_id(id, seg);
    lemma_quoted_value_layout(p1, "\"title\""@, e, " "@, title, rest1);
    assert(segment_tab(seg) == Some(TabView { id, title, status: status_of(title) }));
    let cands = seq![Some(TabView { id, title, status: status_of(title) })];
    let none = Seq::<Option<TabView>>::empty();
    assert(cands.drop_last() =~= none);
    assert(unique_tabs(none) =~= Seq::<TabView>::empty());
    assert(!has_id(Seq::<TabView>::empty(), id));
    assert(cands.last() == Some(TabView { id, title, status: status_of(title) }));
    assert(unique_tabs(cands) =~= Seq::<TabView>::empty().push(
        TabView { id, title, status: status_of(title) },
    ));
}

/// Whether some tab in `tabs` has id `id`.
pub fn has_tab_id(tabs: &Vec<Tab>, id: &str) -> (r: bool)
    ensures
        r == has_id(tabs.deep_view(), id@),
{
    let mut i: usize = 0;
    while i < tabs.len()
        invariant
            i <= tabs@.len(),
            forall|j: int| 0 <= j < i ==> tabs.deep_view()[j].id != id@,
        decreases tabs@.len() - i,
    {
        if str_eq(tabs[i].id.as_str(), id) {
            assert(tabs.deep_view()[i as int].id == id@);
            return true;
        }
        i += 1;
    }
    false
}

/// The tab described by the characters `s[lo..hi]`.
fn segment_tab_exec(s: &[char], lo: usize, hi: usize) -> (r: Option<Tab>)
    requires
        lo <= hi <= s@.len(),
    ensures
        match r {
            Some(t) => segment_tab(s@.subrange(lo as int, hi as int)) == Some(t.deep_view()),
            None => segment_tab(s@.subrange(lo as int, hi as int)) is None,
        },
{
    let mut seg: Vec<char> = Vec::new();
    let mut i = lo;
    while i < hi
        invariant
            lo <= i <= hi <= s@.len(),
            seg@ == s@.subrange(lo as int, i as int),
        decreases hi - i,
    {
        seg.push(s[i]);
        i += 1;
    }
    let id_key = chars_of("\"tabId\"");
    let title_key = chars_of("\"title\"");
    let id = match quoted_value_after_exec(seg.as_slice(), id_key.as_slice()) {
        Some(v) => v,
        None => String::new(),
    };
    let title = match quoted_value_after_exec(seg.as_slice(), title_key.as_slice()) {
        Some(v) => v,
        None => String::new(),
    };
    if !id.as_str().is_empty() && !title.as_str().is_empty() {
        let status = status_of_title(title.as_str());
        Some(Tab { id, title, status })
    } else {
        None
    }
}

/// Reads the document's tabs out of the API's JSON reply: each
/// `"tabProperties"` occurrence opens a tab whose `"tabId"` and `"title"`
/// values are taken from the text up to the next occurrence; tabs lacking
/// either are skipped, and a repeated id keeps its first tab.
pub fn extract_tabs(json: &str) -> (r: Vec<Tab>)
    ensures
        r.deep_view() == extract_tabs_spec(json@),
{
    let s = chars_of(json);
    let key = chars_of("\"tabProperties\"");
    let n = s.len();
    let klen = key.len();
    let mut tabs: Vec<Tab> = Vec::new();
    let mut search_idx: usize = 0;
    let ghost mut done: Seq<Option<TabView>> = Seq::empty();
    proof {
        reveal_strlit("\"tabProperties\"");
        assert(tabs.deep_view() =~= Seq::<TabView>::empty());
        assert(tab_candidates(s@, key@, 0) =~= done + tab_candidates(s@, key@, 0));
    }
    loop
        invariant
            s@ == json@,
            key@ == tab_key(),
            key@.len() > 0,
            n == s@.len(),
            klen == key@.len(),
            search_idx <= n,
            tab_candidates(s@, key@, 0) == done + tab_candidates(s@, key@, search_idx as int),
            tabs.deep_view() == unique_tabs(done),
        ensures
            tab_candidates(s@, key@, 0) == done,
            tabs.deep_view() == unique_tabs(done),
        decreases n - search_idx,
    {
        let ghost before = tabs.deep_view();
        match find_from_exec(s.as_slice(), key.as_slice(), search_idx) {
            None => {
                assert(done + Seq::<Option<TabView>>::empty() =~= done);
                break;
            },
            Some(p) => {
                proof {
                    lemma_find_from(s@, key@, search_idx as int);
                }
                let next_start = p + klen;
                let limit = match find_from_exec(s.as_slice(), key.as_slice(), next_start) {
                    Some(q) => q,
                    None => n,
                };
                proof {
                    lemma_find_from(s@, key@, next_start as int);
                }
                let cand = segment_tab_exec(s.as_slice(), next_start, limit);
                let ghost cand_view: Option<TabView> = match &cand {
                    Some(t) => Some(t.deep_view()),
                    None => None,
                };
                proof {
                    assert(cand_view == segment_tab(
                        s@.subrange(next_start as int, limit as int),
                    ));
                    let rest = tab_candidates(s@, key@, next_start as int);
                    assert(tab_candidates(s@, key@, search_idx as int) == seq![cand_view] + rest);
                    assert(done + (seq![cand_view] + rest) =~= done.push(cand_view) + rest);
                    assert(done.push(cand_view).drop_last() =~= done);
                }
                match cand {
                    Some(t) => {
                        if !has_tab_id(&tabs, t.id.as_str()) {
                            tabs.push(t);
                            assert(tabs.deep_view() =~= before.push(cand_view->0));
                        }
                    },
                    None => {},
                }
                proof {
                    done = done.push(cand_view);
                }
                search_idx = next_start;
            },
        }
    }
    tabs
}

/// Tabs read from a reply have distinct ids, non-empty ids and titles, and
/// the status that their title's tag gives.
pub proof fn lemma_unique_tabs_wf(cands: Seq<Option<TabView>>)
    ensures
        forall|i: int, j: int|
            0 <= i < unique_tabs(cands).len() && 0 <= j < unique_tabs(cands).len() && i != j
                ==> unique_tabs(cands)[i].id != unique_tabs(cands)[j].id,
        forall|i: int|
            0 <= i < unique_tabs(cands).len() ==> exists|k: int|
                0 <= k < cands.len() && cands[k] == Some(#[trigger] unique_tabs(cands)[i]),
    decreases cands.len(),
{
    if cands.len() > 0 {
        let prev = unique_tabs(cands.drop_last());
        lemma_unique_tabs_wf(cands.drop_last());
        let u = unique_tabs(cands);
        assert forall|i: int| 0 <= i < u.len() implies exists|k: int|
            0 <= k < cands.len() && cands[k] == Some(#[trigger] u[i]) by {
            if i < prev.len() {
                assert(u[i] == prev[i]);
                let k = choose|k: int|
                    0 <= k < cands.drop_last().len() && cands.drop_last()[k] == Some(prev[i]);
                assert(cands[k] == cands.drop_last()[k]);
            } else {
                assert(cands[cands.len() - 1] == Some(u[i]));
            }
        }
        match cands.last() {
            None => {},
            Some(t) => {
                if !has_id(prev, t.id) {
                    assert forall|i: int, j: int|
                        0 <= i < u.len() && 0 <= j < u.len() && i != j implies u[i].id
                        != u[j].id by {
                        if i == prev.len() {
                            assert(u[j] == prev[j]);
                        } else if j == prev.len() {
                            assert(u[i] == prev[i]);
                        } else {
                            assert(u[i] == prev[i]);
                            assert(u[j] == prev[j]);
                        }
                    }
                }
            },
        }
    }
}

/// Every tab read from a reply has a non-empty id and title, its status is
/// the one its title's tag gives, and no two tabs share an id.
pub proof fn lemma_extract_tabs_wf(json: Seq<char>)
    ensures
        forall|i: int, j: int|
            0 <= i < extract_tabs_spec(json).len() && 0 <= j < extract_tabs_spec(json).len() && i
                != j ==> extract_tabs_spec(json)[i].id != extract_tabs_spec(json)[j].id,
        forall|i: int|
            0 <= i < extract_tabs_spec(json).len() ==> {
                let t = #[trigger] extract_tabs_spec(json)[i];
                t.id.len() > 0 && t.title.len() > 0 && t.status == status_of(t.title)
            },
{
    let cands = tab_candidates(json, tab_key(), 0);
    lemma_unique_tabs_wf(cands);
    assert forall|i: int| 0 <= i < extract_tabs_spec(json).len() implies {
        let t = #[trigger] extract_tabs_spec(json)[i];
        t.id.len() > 0 && t.title.len() > 0 && t.status == status_of(t.title)
    } by {
        let t = extract_tabs_spec(json)[i];
        let k = choose|k: int| 0 <= k < cands.len() && cands[k] == Some(t);
        lemma_candidates_are_segments(json, tab_key(), 0, k);
    }
}

/// Each candidate is the tab of some text of `s`.
proof fn lemma_candidates_are_segments(s: Seq<char>, key: Seq<char>, from: int, k: int)
    requires
        0 <= k < tab_candidates(s, key, from).len(),
    ensures
        exists|seg: Seq<char>| segment_tab(seg) == #[trigger] tab_candidates(s, key, from)[k],
    decreases s.len() - from,
{
    if from < 0 || key.len() == 0 {
    } else {
        match find_from(s, key, from) {
            None => {},
            Some(p) => {
                lemma_find_from(s, key, from);
                let next = p + key.len();
                let limit = match find_from(s, key, next) {
                    Some(q) => q,
                    None => s.len() as int,
                };
                let seg = s.subrange(next, limit);
                if k == 0 {
                    assert(segment_tab(seg) == tab_candidates(s, key, from)[k]);
                } else {
                    lemma_candidates_are_segments(s, key, next, k - 1);
                    let seg2 = choose|seg2: Seq<char>|
                        segment_tab(seg2) == #[trigger] tab_candidates(s, key, next)[k - 1];
                    assert(segment_tab(seg2) == tab_candidates(s, key, from)[k]);
                }
            },
        }
    }
}

} // verus!
