//! What every scan and every tick preserve: each agent is kept under its
//! own id, and the agents are exactly the sessions that the tracker knows.
//! Also: a poll that reads only the tail of a log is a poll of the log.

use crate::app::ascending_ids;
use crate::app::AppView;
use crate::state::agent::lemma_records_keep_identity;
use crate::state::agent::AgentView;
use crate::watcher::discovery::active_sessions;
use crate::watcher::discovery::lemma_admitted;
use crate::watcher::discovery::lemma_still_known;
use crate::watcher::discovery::removed_ids;
use crate::watcher::discovery::SessionFileView;
use crate::watcher::file_watcher::cursor_at;
use crate::watcher::file_watcher::read_outcome;
use vstd::prelude::*;

verus! {

/// Whether each agent is kept under its own id, with the ids of its
/// active tools distinct.
pub open spec fn agents_in_place(agents: Map<u32, AgentView>) -> bool {
    forall|id: u32|
        agents.contains_key(id) ==> (#[trigger] agents[id]).id == id && agents[id].wf()
}

/// New sessions leave each agent under its own id.
pub proof fn lemma_sessions_in_place(app: AppView, new: Seq<(u32, Seq<char>)>, now: u64)
    requires
        agents_in_place(app.agents),
    ensures
        agents_in_place(app.with_sessions(new, now).agents),
    decreases new.len(),
{
    if new.len() > 0 {
        lemma_sessions_in_place(app, new.drop_last(), now);
    }
}

/// Sessions that go leave each remaining agent under its own id.
pub proof fn lemma_removals_in_place(app: AppView, ids: Seq<u32>)
    requires
        agents_in_place(app.agents),
    ensures
        agents_in_place(app.without_sessions(ids).agents),
    decreases ids.len(),
{
    if ids.len() > 0 {
        lemma_removals_in_place(app, ids.drop_last());
    }
}

/// Polls leave each agent under its own id.
pub proof fn lemma_polls_in_place(
    app: AppView,
    ids: Seq<u32>,
    files: Seq<SessionFileView>,
    now: u64,
)
    requires
        agents_in_place(app.agents),
    ensures
        agents_in_place(app.after_polls(ids, files, now).agents),
    decreases ids.len(),
{
    if ids.len() > 0 {
        let before = app.after_polls(ids.drop_last(), files, now);
        lemma_polls_in_place(app, ids.drop_last(), files, now);
        let id = ids.last();
        let file = before.log_of(id, files);
        if before.agents.contains_key(id) && file is Some {
            let path = before.agents[id].session_file;
            let outcome = read_outcome(cursor_at(before.cursors, path), file->0);
            lemma_records_keep_identity(
                before.agents[id],
                outcome.records,
                now,
            );
        }
    }
}

/// A tick leaves each agent under its own id, with the ids of its active
/// tools distinct: no two agents share an id.
pub proof fn lemma_tick_in_place(app: AppView, files: Seq<SessionFileView>, now: u64)
    requires
        agents_in_place(app.agents),
    ensures
        agents_in_place(app.after_tick(files, now).agents),
{
    let ticked = app.ticked();
    let scanned = ticked.after_due_scan(files, now);
    if ticked.scan_due() {
        let sessions = active_sessions(files, now);
        let renewed = ticked.with_tracker(ticked.tracker.updated(sessions));
        lemma_sessions_in_place(renewed, ticked.tracker.new_sessions(sessions), now);
        lemma_removals_in_place(
            renewed.with_sessions(ticked.tracker.new_sessions(sessions), now),
            removed_ids(ticked.tracker.known, sessions),
        );
    }
    lemma_polls_in_place(scanned, ascending_ids(scanned.agents.dom()), files, now);
}

/// Whether a session with the id `id` is among `known`.
pub open spec fn has_id(known: Seq<(Seq<char>, u32)>, id: u32) -> bool {
    exists|i: int| 0 <= i < known.len() && (#[trigger] known[i]).1 == id
}

/// Whether the agents are the tracked sessions: the tracker is
/// well-formed, each session that it knows has an agent under its id
/// that reads the session's log, and there is no other agent.
pub open spec fn in_step(app: AppView) -> bool {
    &&& app.tracker.wf()
    &&& forall|i: int|
        0 <= i < app.tracker.known.len() ==> app.agents.contains_key(
            (#[trigger] app.tracker.known[i]).1,
        ) && app.agents[app.tracker.known[i].1].session_file == app.tracker.known[i].0
    &&& forall|id: u32| #[trigger] app.agents.contains_key(id) ==> has_id(app.tracker.known, id)
}

/// The agents after new sessions came: those that were there, and a
/// fresh one for each new session.
pub proof fn lemma_with_sessions(app: AppView, new: Seq<(u32, Seq<char>)>, now: u64)
    requires
        forall|i: int, j: int| 0 <= i < j < new.len() ==> (#[trigger] new[i]).0 != (#[trigger] new[j]).0,
    ensures
        app.with_sessions(new, now).tracker == app.tracker,
        forall|id: u32|
            #[trigger] app.with_sessions(new, now).agents.contains_key(id) <==> app.agents.contains_key(
                id,
            ) || exists|j: int| 0 <= j < new.len() && (#[trigger] new[j]).0 == id,
        forall|j: int|
            0 <= j < new.len() ==> app.with_sessions(new, now).agents[(#[trigger] new[j]).0]
                == AgentView::fresh(new[j].0, new[j].1, now),
        forall|id: u32|
            app.agents.contains_key(id) && !(exists|j: int|
                0 <= j < new.len() && (#[trigger] new[j]).0 == id) ==> #[trigger] app.with_sessions(
                new,
                now,
            ).agents[id] == app.agents[id],
    decreases new.len(),
{
    if new.len() > 0 {
        let head = new.drop_last();
        let before = app.with_sessions(head, now);
        let after = app.with_sessions(new, now);
        let last = new.last();
        assert forall|i: int, j: int| 0 <= i < j < head.len() implies (#[trigger] head[i]).0 != (
        #[trigger] head[j]).0 by {
            assert(new[i].0 != new[j].0);
        }
        lemma_with_sessions(app, head, now);
        assert forall|id: u32| #[trigger] after.agents.contains_key(id) <==> app.agents.contains_key(
            id,
        ) || exists|j: int| 0 <= j < new.len() && (#[trigger] new[j]).0 == id by {
            if id == last.0 {
                assert(new[new.len() - 1].0 == id);
            } else {
                if exists|j: int| 0 <= j < new.len() && (#[trigger] new[j]).0 == id {
                    let j = choose|j: int| 0 <= j < new.len() && (#[trigger] new[j]).0 == id;
                    assert(head[j].0 == id);
                }
                if exists|j: int| 0 <= j < head.len() && (#[trigger] head[j]).0 == id {
                    let j = choose|j: int| 0 <= j < head.len() && (#[trigger] head[j]).0 == id;
                    assert(new[j].0 == id);
                }
            }
        }
        assert forall|j: int| 0 <= j < new.len() implies after.agents[(#[trigger] new[j]).0]
            == AgentView::fresh(new[j].0, new[j].1, now) by {
            if j < head.len() {
                assert(new[j].0 != new[new.len() - 1].0);
                assert(head[j] == new[j]);
            }
        }
        assert forall|id: u32|
            app.agents.contains_key(id) && !(exists|j: int|
                0 <= j < new.len() && (#[trigger] new[j]).0 == id) implies #[trigger] after.agents[id]
            == app.agents[id] by {
            assert(new[new.len() - 1].0 != id);
            if exists|j: int| 0 <= j < head.len() && (#[trigger] head[j]).0 == id {
                let j = choose|j: int| 0 <= j < head.len() && (#[trigger] head[j]).0 == id;
                assert(new[j].0 == id);
            }
        }
    }
}

/// The agents after sessions went: those that were there but for the
/// ones that went, each as it was.
pub proof fn lemma_without_sessions(app: AppView, ids: Seq<u32>)
    ensures
        app.without_sessions(ids).tracker == app.tracker,
        forall|id: u32|
            #[trigger] app.without_sessions(ids).agents.contains_key(id) <==> app.agents.contains_key(
                id,
            ) && !ids.contains(id),
        forall|id: u32|
            #[trigger] app.without_sessions(ids).agents.contains_key(id) ==> app.without_sessions(
                ids,
            ).agents[id] == app.agents[id],
    decreases ids.len(),
{
    if ids.len() > 0 {
        let head = ids.drop_last();
        let after = app.without_sessions(ids);
        lemma_without_sessions(app, head);
        assert forall|id: u32| #[trigger] after.agents.contains_key(id) <==> app.agents.contains_key(
            id,
        ) && !ids.contains(id) by {
            if ids.contains(id) && id != ids.last() {
                let j = choose|j: int| 0 <= j < ids.len() && ids[j] == id;
                assert(head[j] == id);
            }
            if head.contains(id) {
                let j = choose|j: int| 0 <= j < head.len() && head[j] == id;
                assert(ids[j] == id);
            }
            if id == ids.last() {
                assert(ids[ids.len() - 1] == id);
            }
        }
    }
}

/// The ids that an update reports as gone are those of the sessions whose
/// path is no longer among the active logs.
pub proof fn lemma_removed_ids(known: Seq<(Seq<char>, u32)>, current: Seq<Seq<char>>)
    ensures
        forall|id: u32|
            #[trigger] removed_ids(known, current).contains(id) <==> exists|i: int|
                0 <= i < known.len() && (#[trigger] known[i]).1 == id && !current.contains(
                    known[i].0,
                ),
    decreases known.len(),
{
    let all = removed_ids(known, current);
    if known.len() > 0 {
        let head = known.drop_last();
        let head_all = removed_ids(head, current);
        lemma_removed_ids(head, current);
        assert(all == if current.contains(known.last().0) {
            head_all
        } else {
            head_all + seq![known.last().1]
        });
        assert forall|id: u32| #[trigger] all.contains(id) <==> exists|i: int|
            0 <= i < known.len() && (#[trigger] known[i]).1 == id && !current.contains(
                known[i].0,
            ) by {
            if all.contains(id) {
                let k = choose|k: int| 0 <= k < all.len() && all[k] == id;
                if k < head_all.len() {
                    assert(head_all[k] == id);
                    assert(head_all.contains(id));
                    let i = choose|i: int|
                        0 <= i < head.len() && (#[trigger] head[i]).1 == id && !current.contains(
                            head[i].0,
                        );
                    assert(known[i].1 == id);
                } else {
                    assert(known[known.len() - 1].1 == id);
                }
            }
            if exists|i: int|
                0 <= i < known.len() && (#[trigger] known[i]).1 == id && !current.contains(
                    known[i].0,
                ) {
                let i = choose|i: int|
                    0 <= i < known.len() && (#[trigger] known[i]).1 == id && !current.contains(
                        known[i].0,
                    );
                if i < head.len() {
                    assert(head[i].1 == id);
                    assert(head_all.contains(id));
                    let k = choose|k: int| 0 <= k < head_all.len() && head_all[k] == id;
                    assert(all[k] == id);
                } else {
                    assert(all[all.len() - 1] == id);
                }
            }
        }
    } else {
        assert(all =~= Seq::empty());
    }
}

/// A scan keeps the agents in step with the tracker: afterwards the
/// agents are the sessions that the tracker knows, each under its id and
/// with its log.
pub proof fn lemma_scan_in_step(app: AppView, sessions: Seq<Seq<char>>, now: u64)
    requires
        in_step(app),
        app.tracker.next_id + sessions.len() <= u32::MAX,
    ensures
        in_step(app.after_scan(sessions, now)),
{
    let known = app.tracker.known;
    let keep = |e: (Seq<char>, u32)| sessions.contains(e.0);
    let kept = known.filter(keep);
    let pruned = app.tracker.pruned(sessions);
    let updated = app.tracker.updated(sessions);
    let new = app.tracker.new_sessions(sessions);
    let removed = removed_ids(known, sessions);
    let grown = app.with_tracker(updated).with_sessions(new, now);
    let after = app.after_scan(sessions, now);
    lemma_still_known(app.tracker, sessions);
    lemma_admitted(pruned, sessions);
    crate::order::lemma_filter_keeps_order(known, keep);
    lemma_removed_ids(known, sessions);
    assert forall|i: int, j: int| 0 <= i < j < new.len() implies (#[trigger] new[i]).0 != (
    #[trigger] new[j]).0 by {
        assert(updated.known[kept.len() + i].1 < updated.known[kept.len() + j].1);
    }
    lemma_with_sessions(app.with_tracker(updated), new, now);
    lemma_without_sessions(grown, removed);
    assert(after.tracker == updated);
    assert forall|i: int| 0 <= i < updated.known.len() implies after.agents.contains_key(
        (#[trigger] updated.known[i]).1,
    ) && after.agents[updated.known[i].1].session_file == updated.known[i].0 by {
        let entry = updated.known[i];
        if i < kept.len() {
            assert(updated.known.take(kept.len() as int)[i] == entry);
            assert(kept[i] == entry);
            assert(known.contains(entry) && keep(entry));
            let k = choose|k: int| 0 <= k < known.len() && known[k] == entry;
            assert(app.agents.contains_key(known[k].1));
            assert(entry.1 < app.tracker.next_id);
            if exists|j: int| 0 <= j < new.len() && (#[trigger] new[j]).0 == entry.1 {
                let j = choose|j: int| 0 <= j < new.len() && (#[trigger] new[j]).0 == entry.1;
                assert(updated.known[kept.len() + j].1 >= app.tracker.next_id);
            }
            if removed.contains(entry.1) {
                let m = choose|m: int|
                    0 <= m < known.len() && (#[trigger] known[m]).1 == entry.1 && !sessions.contains(
                        known[m].0,
                    );
                if m < k {
                    assert(known[m].1 < known[k].1);
                } else if k < m {
                    assert(known[k].1 < known[m].1);
                } else {
                    assert(sessions.contains(known[k].0));
                }
                assert(false);
            }
            assert(grown.agents.contains_key(entry.1));
            assert(grown.agents[entry.1] == app.agents[entry.1]);
            assert(after.agents.contains_key(entry.1));
            assert(after.agents[entry.1] == grown.agents[entry.1]);
            assert(app.agents[known[k].1].session_file == known[k].0);
        } else {
            let j = i - kept.len();
            assert(new[j] == (entry.1, entry.0));
            assert(entry.1 >= app.tracker.next_id);
            if removed.contains(entry.1) {
                let m = choose|m: int|
                    0 <= m < known.len() && (#[trigger] known[m]).1 == entry.1 && !sessions.contains(
                        known[m].0,
                    );
                assert(known[m].1 < app.tracker.next_id);
                assert(false);
            }
            assert(grown.agents.contains_key(new[j].0));
            assert(grown.agents[new[j].0] == AgentView::fresh(new[j].0, new[j].1, now));
            assert(after.agents.contains_key(entry.1));
            assert(after.agents[entry.1] == grown.agents[entry.1]);
        }
    }
    assert forall|id: u32| #[trigger] after.agents.contains_key(id) implies has_id(
        updated.known,
        id,
    ) by {
        assert(grown.agents.contains_key(id) && !removed.contains(id));
        if exists|j: int| 0 <= j < new.len() && (#[trigger] new[j]).0 == id {
            let j = choose|j: int| 0 <= j < new.len() && (#[trigger] new[j]).0 == id;
            assert(updated.known[kept.len() + j].1 == id);
        } else {
            assert(app.agents.contains_key(id));
            let k = choose|k: int| 0 <= k < known.len() && (#[trigger] known[k]).1 == id;
            assert(sessions.contains(known[k].0));
            assert(keep(known[k]));
            known.lemma_filter_contains(keep, k);
            let m = choose|m: int| 0 <= m < kept.len() && kept[m] == known[k];
            assert(updated.known.take(kept.len() as int)[m] == kept[m]);
            assert(updated.known[m].1 == id);
        }
    }
}

/// Polls change neither the tracker nor which agents there are nor the
/// log of any agent.
pub proof fn lemma_polls_keep_logs(
    app: AppView,
    ids: Seq<u32>,
    files: Seq<SessionFileView>,
    now: u64,
)
    ensures
        app.after_polls(ids, files, now).tracker == app.tracker,
        app.after_polls(ids, files, now).agents.dom() == app.agents.dom(),
        forall|id: u32|
            app.agents.contains_key(id) ==> (#[trigger] app.after_polls(
                ids,
                files,
                now,
            ).agents[id]).session_file == app.agents[id].session_file,
    decreases ids.len(),
{
    if ids.len() > 0 {
        let before = app.after_polls(ids.drop_last(), files, now);
        let after = app.after_polls(ids, files, now);
        lemma_polls_keep_logs(app, ids.drop_last(), files, now);
        let id = ids.last();
        let file = before.log_of(id, files);
        if before.agents.contains_key(id) && file is Some {
            let path = before.agents[id].session_file;
            let outcome = read_outcome(cursor_at(before.cursors, path), file->0);
            lemma_records_keep_identity(
                before.agents[id],
                outcome.records,
                now,
            );
            assert(after.agents.dom() =~= before.agents.dom());
        }
    }
}

/// No more logs are active than there are files.
pub proof fn lemma_active_sessions_len(files: Seq<SessionFileView>, now: u64)
    ensures
        active_sessions(files, now).len() <= files.len(),
    decreases files.len(),
{
    if files.len() > 0 {
        lemma_active_sessions_len(files.drop_last(), now);
    }
}

/// A tick keeps the agents in step with the tracker: there is one agent
/// for each tracked session, under the session's id and with its log.
pub proof fn lemma_tick_in_step(app: AppView, files: Seq<SessionFileView>, now: u64)
    requires
        in_step(app),
        app.tracker.next_id + files.len() <= u32::MAX,
    ensures
        in_step(app.after_tick(files, now)),
{
    let ticked = app.ticked();
    let scanned = ticked.after_due_scan(files, now);
    assert(in_step(ticked));
    if ticked.scan_due() {
        lemma_active_sessions_len(files, now);
        lemma_scan_in_step(ticked, active_sessions(files, now), now);
    }
    let ids = ascending_ids(scanned.agents.dom());
    let polled = scanned.after_polls(ids, files, now);
    lemma_polls_keep_logs(scanned, ids, files, now);
    let after = polled.swept(now);
    assert(after.agents.dom() =~= polled.agents.dom());
    assert forall|i: int| 0 <= i < after.tracker.known.len() implies after.agents.contains_key(
        (#[trigger] after.tracker.known[i]).1,
    ) && after.agents[after.tracker.known[i].1].session_file == after.tracker.known[i].0 by {
        let id = scanned.tracker.known[i].1;
        assert(scanned.agents.contains_key(id));
        assert(polled.agents.dom().contains(id));
        assert(polled.agents[id].session_file == scanned.agents[id].session_file);
    }
    assert forall|id: u32| #[trigger] after.agents.contains_key(id) implies has_id(
        after.tracker.known,
        id,
    ) by {
        assert(polled.agents.dom().contains(id));
        assert(scanned.agents.contains_key(id));
    }
}

/// A poll that reads only what the log holds from its read start on does
/// what a poll of the whole log does.
pub proof fn lemma_tail_is_poll(app: AppView, id: u32, content: Seq<u8>, now: u64)
    requires
        app.agents.contains_key(id),
        content.len() <= u64::MAX,
    ensures
        app.after_tail(
            id,
            app.read_start(id, content.len()) as u64,
            content.skip(app.read_start(id, content.len()) as int),
            now,
        ) == app.after_poll(id, Some(content), now),
{
    crate::watcher::file_watcher::lemma_consumed(
        content.skip(app.read_start(id, content.len()) as int),
    );
}

} // verus!
