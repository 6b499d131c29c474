//! What the application hands the user interface when it starts: the
//! stored sessions' histories and changed files merged with the running
//! ones, and the state of the IDE terminal.
use vstd::prelude::*;
use crate::model::{CleanupState, ide_status_from_name, is_idle_ide, IdeTerminalState, SessionDiffUpdate, SessionHistoryUpdate};
use crate::rows::{CommandHistoryRow, FileChangeRow, IdeTerminalRow};
use crate::persistence::{history_in_order, ide_state_from_row, ide_state_of_row, session_diff_snapshot_from_rows, session_history_entries_from_rows, latest_changes, latest_time};
use crate::keyed::{ascending_keys, distinct_keys, merge_by_key, pairs_map};
use crate::lifecycle::{ide_live, is_ide_live};
use crate::order::{has_view, is_stable_order, key_eq, key_le, stable_order, strictly_ascending, SortKey};
use crate::text::{str_eq, views_of_strings};

verus! {

/// The command history of a stored session.
pub fn history_update_for_session(session_id: &str, workspace_id: &str, rows: &Vec<CommandHistoryRow>) -> (u: SessionHistoryUpdate)
    ensures
        u.session_id@ == session_id@,
        u.workspace_id@ == workspace_id@,
        exists|order: Seq<usize>| #[trigger] history_in_order(rows@, order, u.entries@),
{
    let entries = session_history_entries_from_rows(rows);
    let ghost o = choose|o: Seq<usize>| #[trigger] history_in_order(rows@, o, entries@);
    let u = SessionHistoryUpdate { session_id: session_id.to_owned(), workspace_id: workspace_id.to_owned(), entries };
    assert(history_in_order(rows@, o, u.entries@));
    u
}

/// The changed files of a stored session: none once its working copy is
/// removed (as of its creation); otherwise those its stored file changes
/// give.
pub fn diff_update_for_session(
    session_id: &str,
    workspace_id: &str,
    cleanup_state: CleanupState,
    rows: &Vec<FileChangeRow>,
    created_at: i64,
) -> (d: SessionDiffUpdate)
    ensures
        d.session_id@ == session_id@,
        d.workspace_id@ == workspace_id@,
        cleanup_state == CleanupState::Removed ==> d.modified_paths@.len() == 0 && d.updated_at == created_at,
        cleanup_state != CleanupState::Removed ==> {
            &&& d.updated_at == latest_time(rows@, created_at)
            &&& strictly_ascending(d.modified_paths@)
            &&& forall|t: Seq<char>| has_view(d.modified_paths@, t) <==> (latest_changes(rows@).contains_key(t)
                && latest_changes(rows@)[t].1 != "deleted"@)
        },
{
    if cleanup_state == CleanupState::Removed {
        SessionDiffUpdate {
            session_id: session_id.to_owned(),
            workspace_id: workspace_id.to_owned(),
            modified_paths: Vec::new(),
            updated_at: created_at,
        }
    } else {
        session_diff_snapshot_from_rows(session_id, workspace_id, rows, created_at)
    }
}

/// The state of the IDE terminal shown at start: the running one, else
/// the stored one while it was live, else idle.
pub fn bootstrap_ide_state(live: Option<IdeTerminalState>, stored: Option<IdeTerminalRow>) -> (s: IdeTerminalState)
    ensures
        live is Some ==> s == live->0,
        live is None && stored is Some && ide_live(ide_status_from_name(stored->0.status@)) ==> ide_state_of_row(
            stored->0,
            s,
        ),
        live is None && !(stored is Some && ide_live(ide_status_from_name(stored->0.status@))) ==> is_idle_ide(s),
{
    if let Some(l) = live {
        return l;
    }
    if let Some(row) = stored {
        let state = ide_state_from_row(&row);
        if is_ide_live(state.status) {
            return state;
        }
    }
    IdeTerminalState::idle()
}

/// Histories paired with their session's id.
pub open spec fn keyed_histories(s: Seq<SessionHistoryUpdate>) -> Seq<(String, SessionHistoryUpdate)> {
    Seq::new(s.len(), |i: int| (s[i].session_id, s[i]))
}

/// Changed files paired with their session's id.
pub open spec fn keyed_diffs(s: Seq<SessionDiffUpdate>) -> Seq<(String, SessionDiffUpdate)> {
    Seq::new(s.len(), |i: int| (s[i].session_id, s[i]))
}

/// The stored histories with the running sessions' in place of theirs,
/// one per session, in ascending order of session id.
pub fn merge_histories(stored: Vec<SessionHistoryUpdate>, live: Vec<SessionHistoryUpdate>) -> (out: Vec<SessionHistoryUpdate>)
    ensures
        distinct_keys(keyed_histories(out@)),
        ascending_keys(keyed_histories(out@)),
        pairs_map(keyed_histories(out@)) == pairs_map(keyed_histories(stored@ + live@)),
{
    let a = key_histories(stored);
    let b = key_histories(live);
    proof {
        assert(a@ + b@ =~= keyed_histories(stored@ + live@));
    }
    let merged = merge_by_key(a, b);
    let ghost mv = merged@;
    proof {
        crate::keyed::lemma_pairs_map_distinct(mv);
        assert forall|x: int| 0 <= x < mv.len() implies (#[trigger] mv[x]).0@ == mv[x].1.session_id@ by {
            let k = mv[x].0@;
            assert(pairs_map(mv).contains_key(k));
            assert(pairs_map(mv)[k] == mv[x].1@);
            crate::keyed::lemma_pairs_map_value(a@ + b@, k);
            let y = choose|y: int| 0 <= y < (a@ + b@).len() && #[trigger] (a@ + b@)[y].0@ == k && pairs_map(a@ + b@)[k]
                == (a@ + b@)[y].1@;
            assert((a@ + b@)[y].0 == (a@ + b@)[y].1.session_id);
        }
    }
    let mut out: Vec<SessionHistoryUpdate> = Vec::new();
    let mut rest = merged;
    let mut stack: Vec<SessionHistoryUpdate> = Vec::new();
    while rest.len() > 0
        invariant
            rest@ == mv.take(rest@.len() as int),
            forall|x: int| 0 <= x < stack@.len() ==> #[trigger] stack@[x] == mv[mv.len() - 1 - x].1,
            rest@.len() + stack@.len() == mv.len(),
            forall|x: int| 0 <= x < mv.len() ==> (#[trigger] mv[x]).0@ == mv[x].1.session_id@,
        decreases rest@.len(),
    {
        let (_, u) = rest.pop().unwrap();
        stack.push(u);
        proof {
            assert(rest@ =~= mv.take(rest@.len() as int));
        }
    }
    while stack.len() > 0
        invariant
            forall|x: int| 0 <= x < stack@.len() ==> #[trigger] stack@[x] == mv[mv.len() - 1 - x].1,
            out@.len() + stack@.len() == mv.len(),
            forall|x: int| 0 <= x < out@.len() ==> #[trigger] out@[x] == mv[x].1,
        decreases stack@.len(),
    {
        let u = stack.pop().unwrap();
        out.push(u);
    }
    proof {
        crate::keyed::lemma_pairs_map_congruent(keyed_histories(out@), mv);
    }
    out
}

fn key_histories(v: Vec<SessionHistoryUpdate>) -> (out: Vec<(String, SessionHistoryUpdate)>)
    ensures
        out@ == keyed_histories(v@),
{
    let ghost orig = v@;
    let mut rest = v;
    let mut stack: Vec<SessionHistoryUpdate> = Vec::new();
    while rest.len() > 0
        invariant
            rest@ == orig.take(rest@.len() as int),
            rest@.len() + stack@.len() == orig.len(),
            forall|x: int| 0 <= x < stack@.len() ==> #[trigger] stack@[x] == orig[orig.len() - 1 - x],
        decreases rest@.len(),
    {
        let u = rest.pop().unwrap();
        stack.push(u);
        proof {
            assert(rest@ =~= orig.take(rest@.len() as int));
        }
    }
    let mut out: Vec<(String, SessionHistoryUpdate)> = Vec::new();
    while stack.len() > 0
        invariant
            rest@.len() == 0,
            out@.len() + stack@.len() == orig.len(),
            forall|x: int| 0 <= x < stack@.len() ==> #[trigger] stack@[x] == orig[orig.len() - 1 - x],
            forall|x: int| 0 <= x < out@.len() ==> #[trigger] out@[x] == (orig[x].session_id, orig[x]),
        decreases stack@.len(),
    {
        let u = stack.pop().unwrap();
        let id = u.session_id.clone();
        out.push((id, u));
    }
    assert(out@ =~= keyed_histories(orig));
    out
}

/// The stored changed files with the running sessions' in place of
/// theirs, one per session, in ascending order of session id.
pub fn merge_diffs(stored: Vec<SessionDiffUpdate>, live: Vec<SessionDiffUpdate>) -> (out: Vec<SessionDiffUpdate>)
    ensures
        distinct_keys(keyed_diffs(out@)),
        ascending_keys(keyed_diffs(out@)),
        pairs_map(keyed_diffs(out@)) == pairs_map(keyed_diffs(stored@ + live@)),
{
    let a = key_diffs(stored);
    let b = key_diffs(live);
    proof {
        assert(a@ + b@ =~= keyed_diffs(stored@ + live@));
    }
    let merged = merge_by_key(a, b);
    let ghost mv = merged@;
    proof {
        crate::keyed::lemma_pairs_map_distinct(mv);
        assert forall|x: int| 0 <= x < mv.len() implies (#[trigger] mv[x]).0@ == mv[x].1.session_id@ by {
            let k = mv[x].0@;
            assert(pairs_map(mv).contains_key(k));
            assert(pairs_map(mv)[k] == mv[x].1@);
            crate::keyed::lemma_pairs_map_value(a@ + b@, k);
            let y = choose|y: int| 0 <= y < (a@ + b@).len() && #[trigger] (a@ + b@)[y].0@ == k && pairs_map(a@ + b@)[k]
                == (a@ + b@)[y].1@;
            assert((a@ + b@)[y].0 == (a@ + b@)[y].1.session_id);
        }
    }
    let mut out: Vec<SessionDiffUpdate> = Vec::new();
    let mut rest = merged;
    let mut stack: Vec<SessionDiffUpdate> = Vec::new();
    while rest.len() > 0
        invariant
            rest@ == mv.take(rest@.len() as int),
            forall|x: int| 0 <= x < stack@.len() ==> #[trigger] stack@[x] == mv[mv.len() - 1 - x].1,
            rest@.len() + stack@.len() == mv.len(),
            forall|x: int| 0 <= x < mv.len() ==> (#[trigger] mv[x]).0@ == mv[x].1.session_id@,
        decreases rest@.len(),
    {
        let (_, u) = rest.pop().unwrap();
        stack.push(u);
        proof {
            assert(rest@ =~= mv.take(rest@.len() as int));
        }
    }
    while stack.len() > 0
        invariant
            forall|x: int| 0 <= x < stack@.len() ==> #[trigger] stack@[x] == mv[mv.len() - 1 - x].1,
            out@.len() + stack@.len() == mv.len(),
            forall|x: int| 0 <= x < out@.len() ==> #[trigger] out@[x] == mv[x].1,
        decreases stack@.len(),
    {
        let u = stack.pop().unwrap();
        out.push(u);
    }
    proof {
        crate::keyed::lemma_pairs_map_congruent(keyed_diffs(out@), mv);
    }
    out
}

fn key_diffs(v: Vec<SessionDiffUpdate>) -> (out: Vec<(String, SessionDiffUpdate)>)
    ensures
        out@ == keyed_diffs(v@),
{
    let ghost orig = v@;
    let mut rest = v;
    let mut stack: Vec<SessionDiffUpdate> = Vec::new();
    while rest.len() > 0
        invariant
            rest@ == orig.take(rest@.len() as int),
            rest@.len() + stack@.len() == orig.len(),
            forall|x: int| 0 <= x < stack@.len() ==> #[trigger] stack@[x] == orig[orig.len() - 1 - x],
        decreases rest@.len(),
    {
        let u = rest.pop().unwrap();
        stack.push(u);
        proof {
            assert(rest@ =~= orig.take(rest@.len() as int));
        }
    }
    let mut out: Vec<(String, SessionDiffUpdate)> = Vec::new();
    while stack.len() > 0
        invariant
            out@.len() + stack@.len() == orig.len(),
            forall|x: int| 0 <= x < stack@.len() ==> #[trigger] stack@[x] == orig[orig.len() - 1 - x],
            forall|x: int| 0 <= x < out@.len() ==> #[trigger] out@[x] == (orig[x].session_id, orig[x]),
        decreases stack@.len(),
    {
        let u = stack.pop().unwrap();
        let id = u.session_id.clone();
        out.push((id, u));
    }
    assert(out@ =~= keyed_diffs(orig));
    out
}

/// A stored session or tab, as the start-up listing sees it.
pub struct StoredKey {
    pub id: String,
    pub workspace_id: String,
    pub created_at: i64,
}

/// A running session or tab, as the start-up listing sees it.
pub struct LiveKey {
    pub id: String,
    pub created_at: i64,
}

/// An item of the start-up listing: its id, whether it runs now, its
/// index among the running or the stored ones, and when it was created.
pub type Listed = (String, ((bool, usize), i64));

/// The stored items of known workspaces, each under its id with its index.
pub open spec fn stored_pairs(stored: Seq<StoredKey>, known: Seq<Seq<char>>) -> Seq<Listed>
    decreases stored.len(),
{
    if stored.len() == 0 {
        Seq::empty()
    } else {
        let rest = stored_pairs(stored.drop_last(), known);
        let k = stored.last();
        if known.contains(k.workspace_id@) {
            rest.push((k.id, ((false, (stored.len() - 1) as usize), k.created_at)))
        } else {
            rest
        }
    }
}

/// The running items, each under its id with its index.
pub open spec fn live_pairs(live: Seq<LiveKey>) -> Seq<Listed> {
    Seq::new(live.len(), |j: int| (live[j].id, ((true, j as usize), live[j].created_at)))
}

fn knows(known: &Vec<String>, workspace_id: &str) -> (r: bool)
    ensures
        r == views_of_strings(known@).contains(workspace_id@),
{
    let mut i: usize = 0;
    while i < known.len()
        invariant
            i <= known@.len(),
            forall|k: int| 0 <= k < i ==> known@[k]@ != workspace_id@,
        decreases known@.len() - i,
    {
        if str_eq(known[i].as_str(), workspace_id) {
            assert(views_of_strings(known@)[i as int] == workspace_id@);
            return true;
        }
        i = i + 1;
    }
    false
}

/// The items shown at start, one per id in ascending order of id: the
/// stored ones of known workspaces, with a running one in place of any
/// stored one with its id.
pub fn merge_listing(stored: &Vec<StoredKey>, known: &Vec<String>, live: &Vec<LiveKey>) -> (out: Vec<Listed>)
    requires
        stored@.len() <= usize::MAX,
        live@.len() <= usize::MAX,
    ensures
        distinct_keys(out@),
        ascending_keys(out@),
        pairs_map(out@) == pairs_map(stored_pairs(stored@, views_of_strings(known@)) + live_pairs(live@)),
{
    let ghost kv = views_of_strings(known@);
    let mut first: Vec<Listed> = Vec::new();
    let mut i: usize = 0;
    while i < stored.len()
        invariant
            i <= stored@.len(),
            kv == views_of_strings(known@),
            first@ == stored_pairs(stored@.take(i as int), kv),
        decreases stored@.len() - i,
    {
        proof {
            assert(stored@.take(i + 1).drop_last() =~= stored@.take(i as int));
            assert(stored@.take(i + 1).last() == stored@[i as int]);
        }
        let k = &stored[i];
        if knows(known, k.workspace_id.as_str()) {
            first.push((k.id.clone(), ((false, i), k.created_at)));
        }
        i = i + 1;
    }
    assert(stored@.take(stored@.len() as int) =~= stored@);
    let mut second: Vec<Listed> = Vec::new();
    let mut j: usize = 0;
    while j < live.len()
        invariant
            j <= live@.len(),
            second@ == live_pairs(live@).take(j as int),
        decreases live@.len() - j,
    {
        second.push((live[j].id.clone(), ((true, j), live[j].created_at)));
        j = j + 1;
        proof {
            assert(second@ =~= live_pairs(live@).take(j as int));
        }
    }
    assert(live_pairs(live@).take(live@.len() as int) =~= live_pairs(live@));
    merge_by_key(first, second)
}

/// `out` lists the items newest first: a reordering of `items`, by
/// creation time from the latest, items created at the same time keeping
/// their order.
pub open spec fn newest_first_of(items: Seq<Listed>, out: Seq<Listed>) -> bool {
    exists|order: Seq<usize>| {
        &&& #[trigger] order.len() == items.len()
        &&& out.len() == items.len()
        &&& forall|i: int| 0 <= i < order.len() ==> order[i] < items.len() && out[i] == items[order[i] as int]
        &&& forall|i: int, j: int| 0 <= i < j < order.len() ==> order[i] != order[j]
        &&& forall|i: int, j: int| 0 <= i < j < out.len() ==> out[i].1.1 >= out[j].1.1
        &&& forall|i: int, j: int| 0 <= i < j < out.len() && out[i].1.1 == out[j].1.1 ==> order[i] < order[j]
    }
}

/// Orders the items of the start-up listing newest first.
pub fn newest_first(items: &Vec<Listed>) -> (out: Vec<Listed>)
    ensures
        newest_first_of(items@, out@),
{
    let mut keys: Vec<SortKey> = Vec::new();
    let mut i: usize = 0;
    while i < items.len()
        invariant
            i <= items@.len(),
            keys@.len() == i,
            forall|k: int| 0 <= k < i ==> {
                &&& (#[trigger] keys@[k]).major == -(items@[k].1.1 as i128)
                &&& keys@[k].minor == 0
                &&& keys@[k].text@ == Seq::<char>::empty()
            },
        decreases items@.len() - i,
    {
        let created: i128 = items[i].1.1 as i128;
        keys.push(SortKey { major: -created, minor: 0, text: Vec::new() });
        i = i + 1;
    }
    let order = stable_order(&keys);
    let mut out: Vec<Listed> = Vec::new();
    let mut p: usize = 0;
    while p < order.len()
        invariant
            p <= order@.len(),
            is_stable_order(keys@, order@),
            keys@.len() == items@.len(),
            out@.len() == p,
            forall|k: int| 0 <= k < p ==> #[trigger] out@[k] == items@[order@[k] as int],
        decreases order@.len() - p,
    {
        let idx = order[p];
        let item = &items[idx];
        out.push((item.0.clone(), item.1));
        p = p + 1;
    }
    proof {
        assert forall|a: int, b: int| 0 <= a < b < out@.len() implies out@[a].1.1 >= out@[b].1.1 by {
            assert(key_le(keys@[order@[a] as int], keys@[order@[b] as int]));
        }
        assert forall|a: int, b: int| 0 <= a < b < out@.len() && out@[a].1.1 == out@[b].1.1 implies order@[a] < order@[b] by {
            let ka = keys@[order@[a] as int];
            let kb = keys@[order@[b] as int];
            assert(!crate::order::chars_lt(ka.text@, kb.text@)) by {
                assert(ka.text@ == kb.text@);
                crate::order::lemma_chars_lt_irreflexive(ka.text@);
            }
            assert(key_eq(ka, kb));
        }
        assert(newest_first_of(items@, out@)) by {
            assert(order@.len() == items@.len());
        }
    }
    out
}

proof fn lemma_stored_pairs(stored: Seq<StoredKey>, known: Seq<Seq<char>>, x: int)
    requires
        stored.len() <= usize::MAX,
        0 <= x < stored_pairs(stored, known).len(),
    ensures
        exists|i: int|
            0 <= i < stored.len() && #[trigger] stored[i].id == stored_pairs(stored, known)[x].0 && known.contains(stored[i].workspace_id@)
                && stored_pairs(stored, known)[x].1 == ((false, i as usize), stored[i].created_at),
    decreases stored.len(),
{
    let init = stored.drop_last();
    let rest = stored_pairs(init, known);
    if x < rest.len() {
        lemma_stored_pairs(init, known, x);
        let i = choose|i: int|
            0 <= i < init.len() && #[trigger] init[i].id == rest[x].0 && known.contains(init[i].workspace_id@) && rest[x].1 == (
            (false, i as usize), init[i].created_at);
        assert(stored[i] == init[i]);
        assert(stored_pairs(stored, known)[x] == rest[x]);
    } else {
        assert(stored[stored.len() - 1] == stored.last());
    }
}

/// The start-up listing holds an item under an id exactly when one runs
/// under it, or one of a known workspace is stored under it; a running
/// item (the last one listed with that id) is the one shown, and a stored
/// one only where none runs.
pub proof fn law_listing_prefers_running(stored: Seq<StoredKey>, known: Seq<Seq<char>>, live: Seq<LiveKey>, id: Seq<char>)
    requires
        stored.len() <= usize::MAX,
        live.len() <= usize::MAX,
    ensures
        ({
            let m = pairs_map(stored_pairs(stored, known) + live_pairs(live));
            &&& m.contains_key(id) <==> ((exists|j: int| 0 <= j < live.len() && (#[trigger] live[j]).id@ == id) || (exists|i: int|
                0 <= i < stored.len() && (#[trigger] stored[i]).id@ == id && known.contains(stored[i].workspace_id@)))
            &&& forall|j: int|
                0 <= j < live.len() && (#[trigger] live[j]).id@ == id && (forall|z: int| j < z < live.len() ==> (#[trigger] live[z]).id@
                    != id) ==> m[id] == ((true, j as usize), live[j].created_at)
            &&& (forall|j: int| 0 <= j < live.len() ==> (#[trigger] live[j]).id@ != id) && m.contains_key(id) ==> exists|i: int|
                0 <= i < stored.len() && (#[trigger] stored[i]).id@ == id && known.contains(stored[i].workspace_id@) && m[id] == (
                (false, i as usize), stored[i].created_at)
        }),
{
    let a = stored_pairs(stored, known);
    let b = live_pairs(live);
    let e = a + b;
    let m = pairs_map(e);
    if m.contains_key(id) {
        crate::keyed::lemma_pairs_map_value(e, id);
        let y = choose|y: int| 0 <= y < e.len() && #[trigger] e[y].0@ == id && m[id] == e[y].1@;
        if y < a.len() {
            assert(e[y] == a[y]);
            lemma_stored_pairs(stored, known, y);
        } else {
            assert(e[y] == b[y - a.len()]);
            assert(live[y - a.len()].id@ == id);
        }
    }
    assert forall|j: int|
        0 <= j < live.len() && (#[trigger] live[j]).id@ == id && (forall|z: int| j < z < live.len() ==> (#[trigger] live[z]).id@ != id)
        implies m[id] == ((true, j as usize), live[j].created_at) && m.contains_key(id) by {
        let y = a.len() + j;
        assert(e[y] == b[j]);
        assert forall|z: int| y < z < e.len() implies (#[trigger] e[z]).0@ != e[y].0@ by {
            assert(e[z] == b[z - a.len()]);
            assert(live[z - a.len()].id@ != id);
        }
        crate::keyed::lemma_pairs_map_last(e, y);
    }
    if exists|j: int| 0 <= j < live.len() && (#[trigger] live[j]).id@ == id {
        let j0 = choose|j: int| 0 <= j < live.len() && (#[trigger] live[j]).id@ == id;
        let y = a.len() + j0;
        assert(e[y] == b[j0]);
        assert(e[y].0@ == id);
        lemma_last_with_key(e, y);
    }
    if exists|i: int| 0 <= i < stored.len() && (#[trigger] stored[i]).id@ == id && known.contains(stored[i].workspace_id@) {
        let i0 = choose|i: int| 0 <= i < stored.len() && (#[trigger] stored[i]).id@ == id && known.contains(stored[i].workspace_id@);
        lemma_stored_in_pairs(stored, known, i0);
        let x = choose|x: int| 0 <= x < a.len() && #[trigger] a[x].0 == stored[i0].id;
        assert(e[x] == a[x]);
        lemma_last_with_key(e, x);
    }
}

proof fn lemma_last_with_key(e: Seq<Listed>, y: int)
    requires
        0 <= y < e.len(),
    ensures
        pairs_map(e).contains_key(e[y].0@),
    decreases e.len(),
{
    if y < e.len() - 1 {
        lemma_last_with_key(e.drop_last(), y);
        assert(e.drop_last()[y] == e[y]);
    }
}

proof fn lemma_stored_in_pairs(stored: Seq<StoredKey>, known: Seq<Seq<char>>, i: int)
    requires
        0 <= i < stored.len(),
        known.contains(stored[i].workspace_id@),
    ensures
        exists|x: int| 0 <= x < stored_pairs(stored, known).len() && #[trigger] stored_pairs(stored, known)[x].0 == stored[i].id,
    decreases stored.len(),
{
    let init = stored.drop_last();
    if i < stored.len() - 1 {
        assert(init[i] == stored[i]);
        lemma_stored_in_pairs(init, known, i);
        let x = choose|x: int| 0 <= x < stored_pairs(init, known).len() && #[trigger] stored_pairs(init, known)[x].0 == init[i].id;
        assert(stored_pairs(stored, known)[x] == stored_pairs(init, known)[x]);
    } else {
        assert(stored.last() == stored[i]);
        assert(stored_pairs(stored, known)[stored_pairs(init, known).len() as int].0 == stored[i].id);
    }
}

} // verus!
