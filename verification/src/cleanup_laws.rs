//! What cleaning up and the killing of many leave behind, row by row.

use crate::bulk;
use crate::cleanup;
use crate::entry::{EntryView, FailureView, SessionState};
use crate::laws;
use crate::reconcile;
use crate::reconcile_laws;
use crate::registry;
use crate::registry::RowView;
use crate::replay;
use crate::service::{Exchange, ServiceView};
use crate::session_laws;
use crate::sessions;
use crate::workspace::{WorkspaceStatus, WorkspaceView};
use vstd::prelude::*;

verus! {

/// That no row has an id.
pub open spec fn is_gone(rows: Seq<RowView>, id: Seq<char>) -> bool {
    forall|k: int| 0 <= k < rows.len() ==> (#[trigger] rows[k]).workspace.id != id
}

/// That one row went and every other stayed as it was.
pub open spec fn loses_only(before: Seq<RowView>, after: Seq<RowView>, id: Seq<char>) -> bool {
    &&& after.len() == before.len() - 1
    &&& is_gone(after, id)
    &&& forall|k: int| 0 <= k < after.len() ==> before.contains(#[trigger] after[k])
    &&& forall|k: int|
        0 <= k < before.len() && (#[trigger] before[k]).workspace.id != id ==> after.contains(
            before[k],
        )
}

/// What deleting a row leaves.
proof fn lemma_loses(rows: Seq<RowView>, id: Seq<char>)
    requires
        registry::is_table(rows),
        !is_gone(rows, id),
    ensures
        loses_only(rows, registry::without(rows, id), id),
        registry::is_table(registry::without(rows, id)),
{
    registry::lemma_position(rows, id);
    let k = choose|k: int| 0 <= k < rows.len() && (#[trigger] rows[k]).workspace.id == id;
    registry::lemma_position_is(rows, id, k);
    session_laws::lemma_without(rows, id);
}

/// A row whose status was written before it went leaves what it would have left.
proof fn lemma_loses_through(
    before: Seq<RowView>,
    between: Seq<RowView>,
    after: Seq<RowView>,
    id: Seq<char>,
)
    requires
        session_laws::differs_only_at(before, between, id),
        loses_only(between, after, id),
    ensures
        loses_only(before, after, id),
{
    assert forall|k: int| 0 <= k < after.len() implies before.contains(#[trigger] after[k]) by {
        let j = choose|j: int| 0 <= j < between.len() && between[j] == after[k];
        assert(between[j].workspace.id != id);
        assert(before[j] == between[j]);
    }
    assert forall|k: int|
        0 <= k < before.len() && (#[trigger] before[k]).workspace.id
            != id implies after.contains(before[k]) by {
        assert(between[k] == before[k]);
    }
}

/// A host that was reached for a probe is not looked for again.
proof fn lemma_kill_connects(state: ServiceView, later: ServiceView, workspace: WorkspaceView)
    requires
        sessions::probing(state, later, workspace).result == Ok::<SessionState, FailureView>(
            SessionState::Dead,
        ),
    ensures
        ({
            let probe = sessions::probing(state, later, workspace);
            let kill = sessions::killing_and_deleting(probe.state, later, probe.workspace);
            &&& kill.state.connects == probe.state.connects
            &&& kill.state.hosts == probe.state.hosts
            &&& !session_laws::is_unreached(state, kill.state, workspace.remote_host)
        }),
{
    session_laws::lemma_reached(state, later, workspace.remote_host);
    let probe = sessions::probing(state, later, workspace);
    assert(probe.state.hosts.contains(workspace.remote_host));
    assert(probe.workspace.remote_host == workspace.remote_host);
}

/// A row found dead once is asked after again. It goes when its own host says that
/// the session is gone and agrees to end the record, and only then. A row whose
/// session answers runs again; one without a session, or whose host says nothing,
/// stays as it was. No other row changes.
pub proof fn law_a_row_goes_when_it_was_dead_twice(
    state: ServiceView,
    later: ServiceView,
    workspace: WorkspaceView,
)
    requires
        registry::is_table(state.rows),
        session_laws::stores(state.rows, workspace),
    ensures
        ({
            let run = cleanup::cleaning_row(state, later, workspace.id);
            let n = state.log.len() as int;
            let host = workspace.remote_host;
            let spared = run.result == Ok::<bool, FailureView>(false);
            match workspace.terminal_session_id {
                None => run.state == state && spared,
                Some(session) => if session_laws::is_unreached(state, run.state, host) {
                    run.state.log == state.log && run.state.rows == state.rows && spared
                } else {
                    &&& run.state.log.len() > n
                    &&& run.state.log.take(n) == state.log
                    &&& run.state.log[n] matches Exchange::Exists {
                        host: asked,
                        session: named,
                        expected,
                        reply,
                    }
                    &&& asked == host && named == session && expected == workspace.daemon_id
                    &&& match reply {
                        Err(_) => run.state.log.len() == n + 1 && run.state.rows == state.rows
                            && spared,
                        Ok(true) => {
                            &&& run.state.log.len() == n + 1
                            &&& session_laws::differs_only_at(
                                state.rows,
                                run.state.rows,
                                workspace.id,
                            )
                            &&& session_laws::stores(
                                run.state.rows,
                                WorkspaceView { status: WorkspaceStatus::Running, ..workspace },
                            )
                            &&& spared
                        },
                        Ok(false) => match run.result {
                            Ok(removed) => {
                                &&& removed
                                &&& loses_only(state.rows, run.state.rows, workspace.id)
                                &&& run.state.log.last() matches Exchange::KillWorkspace {
                                    host: asked,
                                    workspace_id,
                                    reply: Ok(()),
                                    ..
                                }
                                &&& asked == host && workspace_id == session
                            },
                            Err(_) => {
                                &&& session_laws::differs_only_at(
                                    state.rows,
                                    run.state.rows,
                                    workspace.id,
                                )
                                &&& session_laws::stores(
                                    run.state.rows,
                                    WorkspaceView {
                                        status: WorkspaceStatus::Disconnected,
                                        ..workspace
                                    },
                                )
                            },
                        },
                    }
                },
            }
        }),
{
    let id = workspace.id;
    let n = state.log.len() as int;
    let k = choose|k: int|
        0 <= k < state.rows.len() && (#[trigger] state.rows[k]).workspace == workspace;
    registry::lemma_position_is(state.rows, id, k);
    session_laws::law_a_probe_is_recorded(state, later, workspace);
    let probe = sessions::probing(state, later, workspace);
    let run = cleanup::cleaning_row(state, later, id);
    session_laws::lemma_reached(state, later, workspace.remote_host);
    if probe.result == Ok::<SessionState, FailureView>(SessionState::Dead) {
        let found = probe.workspace;
        session_laws::law_a_deleted_row_went_behind_its_record(probe.state, later, found);
        let kill = sessions::killing_and_deleting(probe.state, later, found);
        assert(kill.state.log.take(n) =~= probe.state.log.take(n)) by {
            assert(kill.state.log.take(n + 1) == probe.state.log);
            assert(forall|i: int| 0 <= i < n ==> kill.state.log[i] == kill.state.log.take(n + 1)[i]);
        }
        assert(kill.state.log[n] == kill.state.log.take(n + 1)[n]);
        if kill.result is Ok {
            lemma_loses(probe.state.rows, id);
            lemma_loses_through(state.rows, probe.state.rows, kill.state.rows, id);
        }
        lemma_kill_connects(state, later, workspace);
    }
}

/// Whether there is a reason that a row was left in the table: it has no session,
/// or its host did not say that the session is gone.
pub open spec fn is_spared(
    from: ServiceView,
    now: ServiceView,
    workspace: WorkspaceView,
) -> bool {
    match workspace.terminal_session_id {
        None => true,
        Some(session) => {
            ||| has_no_way(from, now, workspace.remote_host)
            ||| exists|n: int|
                {
                    &&& from.log.len() <= n < now.log.len()
                    &&& #[trigger] now.log[n] matches Exchange::Exists {
                        host,
                        session: named,
                        reply,
                        ..
                    }
                    &&& host == workspace.remote_host && named == session
                    &&& reply != Ok::<bool, Seq<char>>(false)
                }
        },
    }
}

/// That a host could not be reached since an earlier time.
pub open spec fn has_no_way(from: ServiceView, now: ServiceView, host: Option<Seq<char>>) -> bool {
    match host {
        None => !from.hosts.contains(host),
        Some(name) => exists|c: int|
            from.connects.len() <= c < now.connects.len() && (#[trigger] now.connects[c]).0 == name
                && now.connects[c].1 is Err,
    }
}

/// That an id has no row, or one that there is a reason to keep.
pub open spec fn is_settled(from: ServiceView, now: ServiceView, id: Seq<char>) -> bool {
    forall|k: int|
        0 <= k < now.rows.len() && (#[trigger] now.rows[k]).workspace.id == id ==> is_spared(
            from,
            now,
            now.rows[k].workspace,
        )
}

/// That rows only went or got another status, and that what was asked and
/// connected before stays so.
#[verifier::opaque]
spec fn goes_down(before: ServiceView, after: ServiceView) -> bool {
    &&& replay::goes_on(before, after)
    &&& forall|host: Option<Seq<char>>|
        before.hosts.contains(host) ==> #[trigger] after.hosts.contains(host)
    &&& registry::is_table(after.rows)
    &&& forall|k: int|
        #![trigger after.rows[k]]
        0 <= k < after.rows.len() ==> is_of(before.rows, after.rows[k])
}

spec fn is_of(rows: Seq<RowView>, row: RowView) -> bool {
    exists|j: int|
        #![trigger rows[j]]
        0 <= j < rows.len() && row == (RowView {
            workspace: WorkspaceView { status: row.workspace.status, ..rows[j].workspace },
            ..rows[j]
        })
}

proof fn lemma_settled_stays(
    from: ServiceView,
    before: ServiceView,
    after: ServiceView,
    id: Seq<char>,
)
    requires
        is_settled(from, before, id),
        goes_down(before, after),
    ensures
        is_settled(from, after, id),
{
    reveal(goes_down);
    assert forall|k: int|
        0 <= k < after.rows.len() && (#[trigger] after.rows[k]).workspace.id == id implies is_spared(
        from,
        after,
        after.rows[k].workspace,
    ) by {
        let row = after.rows[k];
        assert(is_of(before.rows, row));
        let j = choose|j: int|
            #![trigger before.rows[j]]
            0 <= j < before.rows.len() && row == (RowView {
                workspace: WorkspaceView {
                    status: row.workspace.status,
                    ..before.rows[j].workspace
                },
                ..before.rows[j]
            });
        assert(is_spared(from, before, before.rows[j].workspace));
        lemma_spared_stays(from, before, after, before.rows[j].workspace);
    }
}

proof fn lemma_spared_stays(
    from: ServiceView,
    before: ServiceView,
    after: ServiceView,
    workspace: WorkspaceView,
)
    requires
        is_spared(from, before, workspace),
        replay::goes_on(before, after),
    ensures
        is_spared(from, after, workspace),
{
    if let Some(session) = workspace.terminal_session_id {
        if has_no_way(from, before, workspace.remote_host) {
            if let Some(name) = workspace.remote_host {
                let c = choose|c: int|
                    from.connects.len() <= c < before.connects.len() && (
                    #[trigger] before.connects[c]).0 == name && before.connects[c].1 is Err;
                assert(after.connects[c] == before.connects[c]);
            }
        } else {
            let n = choose|n: int|
                {
                    &&& from.log.len() <= n < before.log.len()
                    &&& #[trigger] before.log[n] matches Exchange::Exists {
                        host,
                        session: named,
                        reply,
                        ..
                    }
                    &&& host == workspace.remote_host && named == session
                    &&& reply != Ok::<bool, Seq<char>>(false)
                };
            assert(after.log[n] == before.log[n]);
        }
    }
}

proof fn lemma_goes_down(a: ServiceView, b: ServiceView, c: ServiceView)
    requires
        goes_down(a, b),
        goes_down(b, c),
    ensures
        goes_down(a, c),
{
    reveal(goes_down);
    assert forall|k: int|
        #![trigger c.rows[k]]
        0 <= k < c.rows.len() implies is_of(a.rows, c.rows[k]) by {
        let row = c.rows[k];
        assert(is_of(b.rows, row));
        let j = choose|j: int|
            #![trigger b.rows[j]]
            0 <= j < b.rows.len() && row == (RowView {
                workspace: WorkspaceView { status: row.workspace.status, ..b.rows[j].workspace },
                ..b.rows[j]
            });
        assert(is_of(a.rows, b.rows[j]));
        let i = choose|i: int|
            #![trigger a.rows[i]]
            0 <= i < a.rows.len() && b.rows[j] == (RowView {
                workspace: WorkspaceView {
                    status: b.rows[j].workspace.status,
                    ..a.rows[i].workspace
                },
                ..a.rows[i]
            });
        assert(row == (RowView {
            workspace: WorkspaceView { status: row.workspace.status, ..a.rows[i].workspace },
            ..a.rows[i]
        }));
    }
    assert forall|host: Option<Seq<char>>| a.hosts.contains(host) implies #[trigger] c.hosts.contains(
        host,
    ) by {
        assert(b.hosts.contains(host));
    }
}

proof fn lemma_same_goes_down(state: ServiceView)
    requires
        registry::is_table(state.rows),
    ensures
        goes_down(state, state),
{
    reveal(goes_down);
    assert forall|k: int|
        #![trigger state.rows[k]]
        0 <= k < state.rows.len() implies is_of(state.rows, state.rows[k]) by {
        let row = state.rows[k];
        assert(row == (RowView {
            workspace: WorkspaceView { status: row.workspace.status, ..state.rows[k].workspace },
            ..state.rows[k]
        }));
    }
}

proof fn lemma_is_table(before: ServiceView, after: ServiceView)
    requires
        goes_down(before, after),
    ensures
        registry::is_table(after.rows),
{
    reveal(goes_down);
}

/// What the removal of one row leaves.
#[verifier::rlimit(50)]
proof fn lemma_cleaning_row(
    from: ServiceView,
    state: ServiceView,
    later: ServiceView,
    id: Seq<char>,
)
    requires
        registry::is_table(state.rows),
        goes_down(from, state),
    ensures
        ({
            let run = cleanup::cleaning_row(state, later, id);
            &&& goes_down(state, run.state)
            &&& run.result is Ok ==> is_settled(from, run.state, id)
            &&& run.state.rows.len() == state.rows.len() - (if run.result == Ok::<
                bool,
                FailureView,
            >(true) {
                1int
            } else {
                0int
            })
        }),
{
    reveal(goes_down);
    registry::lemma_position(state.rows, id);
    lemma_same_goes_down(state);
    let run = cleanup::cleaning_row(state, later, id);
    if let Some(current) = registry::workspace_of(state.rows, id) {
        let at = registry::position(state.rows, id);
        assert(state.rows[at].workspace == current);
        assert(session_laws::stores(state.rows, current));
        law_a_row_goes_when_it_was_dead_twice(state, later, current);
        session_laws::law_a_probe_is_recorded(state, later, current);
        session_laws::lemma_reached(state, later, current.remote_host);
        let probe = sessions::probing(state, later, current);
        lemma_rows_of(state.rows, probe.state.rows, current, probe.workspace);
        let n = state.log.len() as int;
        assert(state.log.is_prefix_of(run.state.log)) by {
            if run.state.log.len() > n {
                assert(forall|i: int| 0 <= i < n ==> run.state.log.take(n)[i] == run.state.log[i]);
            }
        }
        assert forall|host: Option<Seq<char>>|
            state.hosts.contains(host) implies #[trigger] probe.state.hosts.contains(host) by {
            let i = choose|i: int| 0 <= i < state.hosts.len() && state.hosts[i] == host;
            assert(probe.state.hosts[i] == host);
        }
        assert(state.connects.is_prefix_of(probe.state.connects));
        if probe.result == Ok::<SessionState, FailureView>(SessionState::Dead) {
            lemma_kill_connects(state, later, current);
            if run.result is Ok {
                lemma_loses(probe.state.rows, id);
                assert(run.state.rows == registry::without(probe.state.rows, id));
            }
            assert forall|k: int|
                #![trigger run.state.rows[k]]
                0 <= k < run.state.rows.len() implies is_of(state.rows, run.state.rows[k]) by {
                if run.result is Ok {
                    let j = choose|j: int|
                        0 <= j < probe.state.rows.len() && probe.state.rows[j] == run.state.rows[k];
                    assert(is_of(state.rows, probe.state.rows[j]));
                }
            }
            assert(goes_down(state, run.state));
        } else {
            assert(run.state == probe.state);
            assert(goes_down(state, run.state));
            assert forall|k: int|
                0 <= k < run.state.rows.len() && (#[trigger] run.state.rows[k]).workspace.id
                    == id implies is_spared(from, run.state, run.state.rows[k].workspace) by {
                if k < at {
                    assert(state.rows[k].workspace.id != state.rows[at].workspace.id);
                } else if k > at {
                    assert(state.rows[at].workspace.id != state.rows[k].workspace.id);
                }
                assert(is_of(state.rows, run.state.rows[k]));
                lemma_kept_row(state.rows, run.state.rows[k], at);
                if let Some(session) = current.terminal_session_id {
                    if session_laws::is_unreached(state, run.state, current.remote_host) {
                        if let Some(name) = current.remote_host {
                            let c = state.connects.len() as int;
                            assert(run.state.connects[c].0 == name);
                        }
                        assert(has_no_way(from, run.state, current.remote_host));
                    } else {
                        assert(run.state.log[n] is Exists);
                    }
                }
            }
        }
    }
}

/// A row of an id is made of the one row that had it.
proof fn lemma_kept_row(rows: Seq<RowView>, row: RowView, at: int)
    requires
        registry::is_table(rows),
        is_of(rows, row),
        0 <= at < rows.len(),
        rows[at].workspace.id == row.workspace.id,
    ensures
        row.workspace == (WorkspaceView { status: row.workspace.status, ..rows[at].workspace }),
{
    let j = choose|j: int|
        #![trigger rows[j]]
        0 <= j < rows.len() && row == (RowView {
            workspace: WorkspaceView { status: row.workspace.status, ..rows[j].workspace },
            ..rows[j]
        });
    if j < at {
        assert(rows[j].workspace.id != rows[at].workspace.id);
    } else if at < j {
        assert(rows[at].workspace.id != rows[j].workspace.id);
    }
}

proof fn lemma_rows_of(
    before: Seq<RowView>,
    after: Seq<RowView>,
    was: WorkspaceView,
    now: WorkspaceView,
)
    requires
        registry::is_table(before),
        registry::is_table(after),
        session_laws::differs_only_at(before, after, was.id),
        session_laws::stores(before, was),
        session_laws::stores(after, now),
        now == (WorkspaceView { status: now.status, ..was }),
    ensures
        forall|k: int| #![trigger after[k]] 0 <= k < after.len() ==> is_of(before, after[k]),
{
    let i = choose|i: int| 0 <= i < before.len() && (#[trigger] before[i]).workspace == was;
    let j = choose|j: int| 0 <= j < after.len() && (#[trigger] after[j]).workspace == now;
    assert(before[j].workspace.id == after[j].workspace.id);
    assert(i == j) by {
        if i < j {
            assert(before[i].workspace.id != before[j].workspace.id);
        } else if j < i {
            assert(before[j].workspace.id != before[i].workspace.id);
        }
    }
    assert forall|k: int| #![trigger after[k]] 0 <= k < after.len() implies is_of(
        before,
        after[k],
    ) by {
        if k != i {
            if k < i {
                assert(before[k].workspace.id != before[i].workspace.id);
            } else {
                assert(before[i].workspace.id != before[k].workspace.id);
            }
            assert(after[k] == before[k]);
        }
        assert(after[k] == (RowView {
            workspace: WorkspaceView { status: after[k].workspace.status, ..before[k].workspace },
            ..before[k]
        }));
    }
}

/// Cleaning up goes through all that was found dead. Where nothing refused, each
/// candidate that was found dead is gone from the table or there is a reason that
/// it stays, and the number answered is the number of rows that went.
pub proof fn law_every_dead_candidate_is_settled(
    state: ServiceView,
    later: ServiceView,
    candidates: Seq<Seq<char>>,
    found: Seq<EntryView>,
)
    requires
        registry::is_table(state.rows),
    ensures
        ({
            let run = cleanup::cleaning(state, later, candidates, found);
            run.result matches Ok(count) ==> {
                &&& run.state.rows.len() + count == state.rows.len()
                &&& forall|k: int|
                    0 <= k < found.len() ==> (#[trigger] found[k] matches EntryView::Persisted(
                        row,
                        SessionState::Dead,
                    ) ==> candidates.contains(row.id) ==> is_settled(state, run.state, row.id))
            }
        }),
{
    lemma_cleaning(state, later, candidates, found);
}

/// Whether a table has a row with an id.
pub open spec fn is_there(rows: Seq<RowView>, id: Seq<char>) -> bool {
    !is_gone(rows, id)
}

/// Whether a row was looked at, and was settled where it was found dead.
pub open spec fn is_cleaned(from: ServiceView, now: ServiceView, j: int) -> bool {
    exists|seen: ServiceView, errors: Seq<(Seq<char>, Seq<char>)>, entry: EntryView|
        {
            &&& #[trigger] reconcile_laws::is_reported(from, seen, true, errors, entry, j)
            &&& from.log.is_prefix_of(seen.log)
            &&& entry is Persisted && entry.state() == SessionState::Dead ==> is_settled(
                seen,
                now,
                from.rows[j].workspace.id,
            )
        }
}

/// A cleanup looks at every row this client uses, and settles those it is asked to
/// clean up and finds dead. It removes no row that it was not asked to, and none
/// that this client does not use; the number it answers is the number of rows that
/// went.
#[verifier::rlimit(40)]
pub proof fn law_a_cleanup_removes_dead_rows_in_use(
    state: ServiceView,
    later: ServiceView,
    candidates: Seq<Seq<char>>,
    j: int,
)
    requires
        registry::is_table(state.rows),
        state.hosts.no_duplicates(),
        0 <= j < state.rows.len(),
    ensures
        ({
            let run = cleanup::cleaning_up(state, later, candidates);
            let row = state.rows[j];
            let asked = candidates.contains(row.workspace.id);
            let used = row.used_by_client_at is Some;
            &&& !asked || !used ==> is_there(run.state.rows, row.workspace.id)
            &&& run.result matches Ok(count) ==> {
                &&& run.state.rows.len() + count == state.rows.len()
                &&& asked && used ==> is_cleaned(state, run.state, j)
            }
        }),
{
    let keep = registry::used_rows();
    let rows = registry::listing(state.rows, keep);
    let (after, found) = reconcile::reconciling(state, later, rows, true);
    let run = cleanup::cleaning_up(state, later, candidates);
    let id = state.rows[j].workspace.id;
    reconcile_laws::law_a_pass_writes_back_what_each_host_said(state, later, keep, true);
    law_every_dead_candidate_is_settled(after, later, candidates, found.entries);
    let asked = candidates.contains(id);
    let used = state.rows[j].used_by_client_at is Some;
    assert(keep(state.rows[j]) == used);
    if asked && used {
        let k = choose|k: int|
            0 <= k < rows.len() && reconcile_laws::is_reported(
                state,
                after,
                true,
                found.host_errors,
                #[trigger] found.entries[k],
                j,
            );
        let entry = found.entries[k];
        if run.result is Ok {
            assert(reconcile_laws::is_reported(state, after, true, found.host_errors, entry, j));
        }
    } else {
        let others = candidates.filter(|name: Seq<char>| name != id);
        assert forall|k: int| 0 <= k < found.entries.len() implies (
        #[trigger] found.entries[k] matches EntryView::Persisted(row, _) ==> candidates.contains(
            row.id,
        ) == others.contains(row.id)) by {
            if let EntryView::Persisted(row, _) = found.entries[k] {
                lemma_filtered(candidates, id, row.id);
                let i = choose|i: int|
                    0 <= i < state.rows.len() && keep(#[trigger] state.rows[i])
                        && reconcile_laws::is_reported(
                        state,
                        after,
                        true,
                        found.host_errors,
                        found.entries[k],
                        i,
                    );
                assert(row.id == state.rows[i].workspace.id);
                if row.id == id && asked {
                    assert(i == j);
                }
            }
        }
        lemma_filtered(candidates, id, id);
        lemma_cleaning_by_candidates(after, later, candidates, others, found.entries);
        laws::law_cleanup_spares_the_others(after, later, others, found.entries, id);
        registry::lemma_position(after.rows, id);
        registry::lemma_position(run.state.rows, id);
        assert(after.rows[j].workspace.id == id);
    }
}

proof fn lemma_filtered(candidates: Seq<Seq<char>>, id: Seq<char>, other: Seq<char>)
    ensures
        candidates.filter(|name: Seq<char>| name != id).contains(other) == (candidates.contains(
            other,
        ) && other != id),
    decreases candidates.len(),
{
    reveal(Seq::filter);
    let keep = |name: Seq<char>| name != id;
    if candidates.len() > 0 {
        let (rest, last) = (candidates.drop_last(), candidates.last());
        lemma_filtered(rest, id, other);
        let kept = rest.filter(keep);
        assert(candidates =~= rest.push(last));
        vstd::seq_lib::lemma_seq_contains_after_push(rest, last, other);
        vstd::seq_lib::lemma_seq_contains_after_push(kept, last, other);
    }
}

proof fn lemma_cleaning_by_candidates(
    state: ServiceView,
    later: ServiceView,
    candidates: Seq<Seq<char>>,
    others: Seq<Seq<char>>,
    found: Seq<EntryView>,
)
    requires
        forall|k: int|
            0 <= k < found.len() ==> (#[trigger] found[k] matches EntryView::Persisted(row, _)
                ==> candidates.contains(row.id) == others.contains(row.id)),
    ensures
        cleanup::cleaning(state, later, candidates, found) == cleanup::cleaning(
            state,
            later,
            others,
            found,
        ),
    decreases found.len(),
{
    if found.len() > 0 {
        let rest = found.drop_last();
        assert forall|k: int| 0 <= k < rest.len() implies (
        #[trigger] rest[k] matches EntryView::Persisted(row, _) ==> candidates.contains(row.id)
            == others.contains(row.id)) by {
            assert(rest[k] == found[k]);
        }
        lemma_cleaning_by_candidates(state, later, candidates, others, rest);
        assert(found.last() == found[found.len() - 1]);
    }
}

proof fn lemma_cleaning(
    state: ServiceView,
    later: ServiceView,
    candidates: Seq<Seq<char>>,
    found: Seq<EntryView>,
)
    requires
        registry::is_table(state.rows),
    ensures
        ({
            let run = cleanup::cleaning(state, later, candidates, found);
            &&& goes_down(state, run.state)
            &&& run.result matches Ok(count) ==> {
                &&& run.state.rows.len() + count == state.rows.len()
                &&& forall|k: int|
                    0 <= k < found.len() ==> (#[trigger] found[k] matches EntryView::Persisted(
                        row,
                        SessionState::Dead,
                    ) ==> candidates.contains(row.id) ==> is_settled(state, run.state, row.id))
            }
        }),
    decreases found.len(),
{
    lemma_same_goes_down(state);
    if found.len() > 0 {
        let rest = found.drop_last();
        lemma_cleaning(state, later, candidates, rest);
        let before = cleanup::cleaning(state, later, candidates, rest);
        if before.result is Ok {
            let entry = found.last();
            let one = cleanup::cleaning_one(before.state, later, candidates, entry);
            lemma_is_table(state, before.state);
            lemma_same_goes_down(before.state);
            if let EntryView::Persisted(row, SessionState::Dead) = entry {
                if candidates.contains(row.id) {
                    lemma_cleaning_row(state, before.state, later, row.id);
                }
            }
            lemma_goes_down(state, before.state, one.state);
            if one.result is Ok {
                assert forall|k: int| 0 <= k < found.len() implies (
                #[trigger] found[k] matches EntryView::Persisted(row, SessionState::Dead)
                    ==> candidates.contains(row.id) ==> is_settled(state, one.state, row.id)) by {
                    if k < rest.len() {
                        assert(rest[k] == found[k]);
                        if let EntryView::Persisted(row, SessionState::Dead) = found[k] {
                            if candidates.contains(row.id) {
                                lemma_settled_stays(state, before.state, one.state, row.id);
                            }
                        }
                    }
                }
            }
        }
    }
}

/// Whether the row of an id is stored as stopped.
pub open spec fn is_stopped(rows: Seq<RowView>, id: Seq<char>) -> bool {
    exists|k: int|
        0 <= k < rows.len() && (#[trigger] rows[k]).workspace.id == id && rows[k].workspace.status
            == WorkspaceStatus::Stopped
}

/// Whether one of the lines is about a workspace.
pub open spec fn names(lines: Seq<Seq<char>>, name: Seq<char>) -> bool {
    exists|k: int, said: Seq<char>|
        #![trigger lines[k], name + ": "@ + said]
        0 <= k < lines.len() && lines[k] == name + ": "@ + said
}

/// Killing the sessions of many workspaces in use goes through all of them: each
/// is then stored as stopped, or a line names it. No workspace is lost, and there
/// are no more lines than workspaces.
pub proof fn law_every_target_is_stopped_or_named(
    state: ServiceView,
    later: ServiceView,
    targets: Seq<(EntryView, Seq<char>)>,
    now: i64,
)
    requires
        registry::is_table(state.rows),
        forall|k: int| 0 <= k < targets.len() ==> (#[trigger] targets[k]).0 is Persisted,
    ensures
        ({
            let (after, lines) = bulk::killing_targets(state, later, targets, now);
            &&& registry::is_table(after.rows)
            &&& after.rows.len() == state.rows.len()
            &&& lines.len() <= targets.len()
            &&& forall|j: int|
                #![trigger after.rows[j]]
                0 <= j < state.rows.len() ==> after.rows[j] == (RowView {
                    workspace: WorkspaceView {
                        status: after.rows[j].workspace.status,
                        ..state.rows[j].workspace
                    },
                    ..state.rows[j]
                })
            &&& forall|j: int|
                #![trigger after.rows[j]]
                0 <= j < state.rows.len() && after.rows[j].workspace.status
                    != state.rows[j].workspace.status ==> after.rows[j].workspace.status
                    == WorkspaceStatus::Stopped
            &&& forall|k: int|
                #![trigger targets[k]]
                0 <= k < targets.len() ==> {
                    let id = targets[k].0->Persisted_0.id;
                    is_stopped(after.rows, id) || names(lines, id)
                }
        }),
    decreases targets.len(),
{
    if targets.len() > 0 {
        let rest = targets.drop_last();
        assert forall|k: int| 0 <= k < rest.len() implies (#[trigger] rest[k]).0 is Persisted by {
            assert(rest[k] == targets[k]);
        }
        law_every_target_is_stopped_or_named(state, later, rest, now);
        let (before, fewer) = bulk::killing_targets(state, later, rest, now);
        let (after, lines) = bulk::killing_targets(state, later, targets, now);
        let target = targets.last();
        assert(targets[targets.len() - 1].0 is Persisted);
        let id = target.0->Persisted_0.id;
        lemma_killing(before, later, id);
        let run = sessions::killing_session_of(before, later, id);
        assert(after == run.state);
        if let Err(failure) = run.result {
            let said = failure.message();
            assert(lines[fewer.len() as int] == id + ": "@ + said);
        }
        assert forall|k: int|
            #![trigger targets[k]]
            0 <= k < targets.len() implies {
            let id = targets[k].0->Persisted_0.id;
            is_stopped(after.rows, id) || names(lines, id)
        } by {
            if k < rest.len() {
                assert(rest[k] == targets[k]);
                let id = targets[k].0->Persisted_0.id;
                if names(fewer, id) {
                    let (i, said) = choose|i: int, said: Seq<char>|
                        #![trigger fewer[i], id + ": "@ + said]
                        0 <= i < fewer.len() && fewer[i] == id + ": "@ + said;
                    assert(lines[i] == id + ": "@ + said);
                } else {
                    let i = choose|i: int|
                        0 <= i < before.rows.len() && (#[trigger] before.rows[i]).workspace.id == id
                            && before.rows[i].workspace.status == WorkspaceStatus::Stopped;
                    assert(after.rows[i].workspace.id == id);
                }
            }
        }
    }
}

proof fn lemma_killing(state: ServiceView, later: ServiceView, id: Seq<char>)
    requires
        registry::is_table(state.rows),
    ensures
        ({
            let run = sessions::killing_session_of(state, later, id);
            &&& registry::is_table(run.state.rows)
            &&& run.state.rows.len() == state.rows.len()
            &&& forall|j: int|
                #![trigger run.state.rows[j]]
                0 <= j < state.rows.len() ==> {
                    &&& run.state.rows[j] == (RowView {
                        workspace: WorkspaceView {
                            status: run.state.rows[j].workspace.status,
                            ..state.rows[j].workspace
                        },
                        ..state.rows[j]
                    })
                    &&& run.state.rows[j].workspace.status == state.rows[j].workspace.status
                        || run.state.rows[j].workspace.status == WorkspaceStatus::Stopped
                }
            &&& run.result is Ok ==> is_stopped(run.state.rows, id)
        }),
{
    registry::lemma_position(state.rows, id);
    let run = sessions::killing_session_of(state, later, id);
    if let Some(current) = registry::workspace_of(state.rows, id) {
        let at = registry::position(state.rows, id);
        assert(state.rows[at].workspace == current);
        session_laws::law_a_killed_session_leaves_its_workspace_stopped(state, later, current);
        let row = RowView {
            workspace: WorkspaceView { status: WorkspaceStatus::Stopped, ..current },
            ..state.rows[at]
        };
        session_laws::lemma_record_is_free(state.rows, at, row);
        registry::lemma_update_keeps_the_rules(state.rows, at, row);
        if run.result is Ok {
            let k = choose|k: int|
                0 <= k < run.state.rows.len() && (#[trigger] run.state.rows[k]).workspace
                    == row.workspace;
            assert(state.rows[k].workspace.id == run.state.rows[k].workspace.id);
            if k < at {
                assert(state.rows[k].workspace.id != state.rows[at].workspace.id);
            } else if at < k {
                assert(state.rows[at].workspace.id != state.rows[k].workspace.id);
            }
            assert(run.state.rows =~= state.rows.update(at, row)) by {
                assert forall|j: int| 0 <= j < state.rows.len() implies run.state.rows[j]
                    == state.rows.update(at, row)[j] by {
                    if j < at {
                        assert(state.rows[j].workspace.id != state.rows[at].workspace.id);
                    } else if at < j {
                        assert(state.rows[at].workspace.id != state.rows[j].workspace.id);
                    }
                }
            }
        }
    }
}

} // verus!
