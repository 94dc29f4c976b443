//! What an operation on one workspace leaves behind: the row that is stored, the
//! answer, and the questions that were asked, each said by itself.
//!
//! Everything here is said of rows and of questions, whatever the steps were that
//! led to them.

use crate::entry::{FailureView, SessionState};
use crate::opening;
use crate::opening::NewWorkspace;
use crate::registry;
use crate::registry::RowView;
use crate::replay;
use crate::reset;
use crate::service::{Exchange, ServiceView};
use crate::session_backend::SpecView;
use crate::sessions;
use crate::text;
use crate::workspace;
use crate::workspace::{WorkspaceStatus, WorkspaceView};
use vstd::prelude::*;

verus! {

/// Whether a table has this workspace, as it is.
pub open spec fn stores(rows: Seq<RowView>, workspace: WorkspaceView) -> bool {
    exists|k: int| 0 <= k < rows.len() && (#[trigger] rows[k]).workspace == workspace
}

/// Whether a table has this workspace, as one this client uses.
pub open spec fn stores_as_used(rows: Seq<RowView>, workspace: WorkspaceView) -> bool {
    exists|k: int|
        0 <= k < rows.len() && (#[trigger] rows[k]).workspace == workspace
            && rows[k].used_by_client_at is Some
}

/// That at most the row of one id differs, and that it is still that row, in use
/// or not as before.
pub open spec fn differs_only_at(
    before: Seq<RowView>,
    after: Seq<RowView>,
    id: Seq<char>,
) -> bool {
    &&& after.len() == before.len()
    &&& forall|k: int|
        #![trigger after[k]]
        0 <= k < before.len() ==> {
            &&& after[k].workspace.id == before[k].workspace.id
            &&& after[k].used_by_client_at == before[k].used_by_client_at
            &&& before[k].workspace.id != id ==> after[k] == before[k]
        }
}

/// That a host has no backend and did not get one.
pub open spec fn is_unreached(
    before: ServiceView,
    after: ServiceView,
    host: Option<Seq<char>>,
) -> bool {
    &&& !before.hosts.contains(host)
    &&& host matches Some(name) ==> {
        &&& after.connects.len() > before.connects.len()
        &&& after.connects[before.connects.len() as int].0 == name
        &&& after.connects[before.connects.len() as int].1 is Err
    }
}

/// The id a workspace's own host knows it by: the session it has, or the name
/// made of its own where it has none.
pub open spec fn wire_id(workspace: WorkspaceView) -> Seq<char> {
    match workspace.terminal_session_id {
        Some(session) => session,
        None => workspace::derived_session_name(workspace.name, workspace.id),
    }
}

/// Whether a session is asked for under the workspace's own id, in its own
/// checkout, and in its own project where it has one.
pub open spec fn is_spec_for(spec: SpecView, workspace: WorkspaceView) -> bool {
    &&& spec.id == wire_id(workspace)
    &&& spec.directory == workspace.repository_path
    &&& spec.project_scope == (match workspace.project_identity {
        Some(identity) => Some((workspace.project_id, identity)),
        None => None,
    })
}

/// The daemon a row belongs to once another has answered: the one it had.
pub open spec fn owner_after(
    workspace: WorkspaceView,
    answered: Option<Seq<char>>,
) -> Option<Seq<char>> {
    if workspace.daemon_id is Some {
        workspace.daemon_id
    } else {
        answered
    }
}

/// That another row in use already stands for a record under this session id.
pub open spec fn is_taken(rows: Seq<RowView>, id: Seq<char>, session: Seq<char>) -> bool {
    exists|k: int|
        0 <= k < rows.len() && (#[trigger] rows[k]).workspace.id != id
            && rows[k].used_by_client_at is Some && rows[k].workspace.terminal_session_id == Some(
            session,
        )
}

/// That nothing asked between two states could bring a session into existence.
pub open spec fn creates_nothing(before: ServiceView, after: ServiceView) -> bool {
    &&& before.log.is_prefix_of(after.log)
    &&& forall|n: int|
        before.log.len() <= n < after.log.len() ==> !(#[trigger] after.log[n]).creates()
}

pub proof fn lemma_creates_nothing(a: ServiceView, b: ServiceView, c: ServiceView)
    requires
        creates_nothing(a, b),
        creates_nothing(b, c),
    ensures
        creates_nothing(a, c),
{
    assert forall|n: int| a.log.len() <= n < c.log.len() implies !(
    #[trigger] c.log[n]).creates() by {
        if n < b.log.len() {
            assert(c.log[n] == b.log[n]);
        }
    }
}

/// A row found by its id is in the table.
proof fn lemma_found(rows: Seq<RowView>, id: Seq<char>)
    ensures
        registry::row_of(rows, id) matches Some(row) ==> row.workspace.id == id && stores(
            rows,
            row.workspace,
        ) && rows.contains(row),
        registry::row_of(rows, id) is None ==> forall|k: int|
            0 <= k < rows.len() ==> (#[trigger] rows[k]).workspace.id != id,
{
    registry::lemma_position(rows, id);
    let at = registry::position(rows, id);
    if at < rows.len() {
        assert(rows[at].workspace == registry::row_of(rows, id)->0.workspace);
    }
}

/// What a change of one row leaves.
proof fn lemma_changed(
    rows: Seq<RowView>,
    id: Seq<char>,
    change: spec_fn(RowView) -> RowView,
)
    requires
        registry::is_table(rows),
        registry::row_of(rows, id) is Some,
        forall|row: RowView|
            (#[trigger] change(row)).workspace.id == row.workspace.id
                && change(row).used_by_client_at == row.used_by_client_at,
    ensures
        registry::changed(rows, id, change) matches Some(after) ==> {
            &&& registry::is_table(after)
            &&& differs_only_at(rows, after, id)
            &&& registry::row_of(after, id) == Some(change(registry::row_of(rows, id)->0))
            &&& stores(after, change(registry::row_of(rows, id)->0).workspace)
        },
        registry::changed(rows, id, change) is None ==> registry::collides(
            rows,
            registry::position(rows, id),
            change(registry::row_of(rows, id)->0),
        ),
{
    registry::lemma_position(rows, id);
    let at = registry::position(rows, id);
    if let Some(after) = registry::changed(rows, id, change) {
        registry::lemma_update_keeps_the_rules(rows, at, change(rows[at]));
        registry::law_a_change_is_read_back(rows, id, change);
        assert(after[at] == change(rows[at]));
    }
}

proof fn lemma_differs_transitive(
    a: Seq<RowView>,
    b: Seq<RowView>,
    c: Seq<RowView>,
    id: Seq<char>,
)
    requires
        differs_only_at(a, b, id),
        differs_only_at(b, c, id),
    ensures
        differs_only_at(a, c, id),
{
    assert forall|k: int|
        #![trigger c[k]]
        0 <= k < a.len() implies {
        &&& c[k].workspace.id == a[k].workspace.id
        &&& c[k].used_by_client_at == a[k].used_by_client_at
        &&& a[k].workspace.id != id ==> c[k] == a[k]
    } by {
        assert(b[k].workspace.id == a[k].workspace.id);
    }
}

/// A change that leaves a row's record alone is never refused.
pub proof fn lemma_record_is_free(rows: Seq<RowView>, at: int, row: RowView)
    requires
        registry::is_table(rows),
        0 <= at < rows.len(),
        row.used_by_client_at == rows[at].used_by_client_at,
        row.workspace.terminal_session_id == rows[at].workspace.terminal_session_id,
        row.workspace.daemon_id == rows[at].workspace.daemon_id,
        row.workspace.remote_host == rows[at].workspace.remote_host,
    ensures
        !registry::collides(rows, at, row),
{
    if registry::collides(rows, at, row) {
        let k = choose|k: int|
            0 <= k < rows.len() && k != at && row.same_record(#[trigger] rows[k]);
        assert(rows[at].same_record(rows[k]));
        assert(rows[k].same_record(rows[at]));
        if k < at {
            assert(!rows[k].same_record(rows[at]));
        } else {
            assert(!rows[at].same_record(rows[k]));
        }
    }
}

/// A recorded status is read back, and nothing else changed.
pub proof fn lemma_status(state: ServiceView, workspace: WorkspaceView, status: WorkspaceStatus)
    requires
        registry::is_table(state.rows),
        registry::workspace_of(state.rows, workspace.id) == Some(workspace),
    ensures
        ({
            let (after, touched) = sessions::setting_status(state, workspace, status);
            &&& touched == (WorkspaceView { status, ..workspace })
            &&& after == (ServiceView { rows: after.rows, ..state })
            &&& registry::is_table(after.rows)
            &&& registry::workspace_of(after.rows, workspace.id) == Some(touched)
            &&& stores(after.rows, touched)
            &&& differs_only_at(state.rows, after.rows, workspace.id)
        }),
{
    let id = workspace.id;
    let change = registry::status_change(status);
    registry::lemma_position(state.rows, id);
    lemma_found(state.rows, id);
    let at = registry::position(state.rows, id);
    lemma_record_is_free(state.rows, at, change(state.rows[at]));
    lemma_changed(state.rows, id, change);
    let (after, touched) = sessions::setting_status(state, workspace, status);
    if workspace.status == status {
        assert(touched == (WorkspaceView { status, ..workspace }));
    }
}

/// A workspace pointed at a session is stored with it, as running.
proof fn lemma_adopting(state: ServiceView, workspace: WorkspaceView, session: Seq<char>)
    requires
        registry::is_table(state.rows),
        registry::workspace_of(state.rows, workspace.id) == Some(workspace),
    ensures
        ({
            let run = sessions::adopting(state, workspace, session);
            &&& run.state == (ServiceView { rows: run.state.rows, ..state })
            &&& match run.result {
                Ok(()) => {
                    &&& run.workspace == (WorkspaceView {
                        terminal_session_id: Some(session),
                        status: WorkspaceStatus::Running,
                        ..workspace
                    })
                    &&& registry::is_table(run.state.rows)
                    &&& registry::workspace_of(run.state.rows, workspace.id) == Some(run.workspace)
                    &&& stores(run.state.rows, run.workspace)
                    &&& differs_only_at(state.rows, run.state.rows, workspace.id)
                },
                Err(_) => {
                    &&& run.state == state
                    &&& workspace.terminal_session_id != Some(session)
                    &&& is_taken(state.rows, workspace.id, session)
                },
            }
        }),
{
    let id = workspace.id;
    registry::lemma_position(state.rows, id);
    if workspace.terminal_session_id == Some(session) {
        lemma_status(state, workspace, WorkspaceStatus::Running);
    } else {
        let change = registry::session_change(Some(session));
        lemma_changed(state.rows, id, change);
        match registry::changed(state.rows, id, change) {
            Some(rows) => {
                let pointed = WorkspaceView { terminal_session_id: Some(session), ..workspace };
                let between = ServiceView { rows, ..state };
                lemma_status(between, pointed, WorkspaceStatus::Running);
                let run = sessions::adopting(state, workspace, session);
                lemma_differs_transitive(state.rows, rows, run.state.rows, id);
            },
            None => {
                let at = registry::position(state.rows, id);
                let row = change(state.rows[at]);
                let k = choose|k: int|
                    0 <= k < state.rows.len() && k != at && row.same_record(
                        #[trigger] state.rows[k],
                    );
                if k < at {
                    assert(state.rows[k].workspace.id != state.rows[at].workspace.id);
                } else {
                    assert(state.rows[at].workspace.id != state.rows[k].workspace.id);
                }
                assert(state.rows[k].workspace.id != id);
            },
        }
    }
}

/// What the giving of a session to a workspace comes to.
pub open spec fn is_started(
    before: ServiceView,
    after: ServiceView,
    workspace: WorkspaceView,
    result: Result<(), FailureView>,
    left: WorkspaceView,
) -> bool {
    let n = before.log.len() as int;
    let host = workspace.remote_host;
    &&& differs_only_at(before.rows, after.rows, workspace.id)
    &&& if is_unreached(before, after, host) {
        &&& after.log == before.log
        &&& result is Err
        &&& left == (WorkspaceView { status: WorkspaceStatus::Error, ..workspace })
        &&& stores(after.rows, left)
    } else {
        &&& after.log.len() == n + 1
        &&& after.log.take(n) == before.log
        &&& after.log[n] matches Exchange::Create { host: asked, spec, expected, reply }
        &&& asked == host
        &&& is_spec_for(spec, workspace)
        &&& expected == workspace.daemon_id
        &&& match reply {
            Err(_) => {
                &&& result is Err
                &&& left == (WorkspaceView { status: WorkspaceStatus::Error, ..workspace })
                &&& stores(after.rows, left)
            },
            Ok((session, daemon)) => match result {
                Ok(()) => {
                    &&& left == (WorkspaceView {
                        daemon_id: owner_after(workspace, daemon),
                        terminal_session_id: Some(session),
                        status: WorkspaceStatus::Running,
                        ..workspace
                    })
                    &&& stores(after.rows, left)
                },
                Err(_) => exists|taken: Seq<char>| #[trigger]
                    is_taken(before.rows, workspace.id, taken) && (taken == session
                        || workspace.terminal_session_id == Some(taken)),
            },
        }
    }
}

pub proof fn lemma_starting(state: ServiceView, later: ServiceView, workspace: WorkspaceView)
    requires
        registry::is_table(state.rows),
        registry::workspace_of(state.rows, workspace.id) == Some(workspace),
    ensures
        ({
            let run = sessions::starting(state, later, workspace);
            &&& is_started(state, run.state, workspace, run.result, run.workspace)
            &&& registry::is_table(run.state.rows)
            &&& run.result is Ok ==> registry::workspace_of(run.state.rows, workspace.id) == Some(
                run.workspace,
            )
        }),
{
    let id = workspace.id;
    let spec = sessions::spec_of(workspace);
    let run = sessions::starting(state, later, workspace);
    let (reached, connected) = replay::connect(state, later, workspace.remote_host);
    registry::lemma_position(state.rows, id);
    match connected {
        Err(failure) => {
            lemma_status(reached, workspace, WorkspaceStatus::Error);
        },
        Ok(()) => {
            let (asked, reply) = replay::create(
                reached,
                later,
                workspace.remote_host,
                spec,
                workspace.daemon_id,
            );
            assert(asked.log.take(state.log.len() as int) =~= state.log);
            match reply {
                Err(cause) => lemma_status(asked, workspace, WorkspaceStatus::Error),
                Ok((session, daemon)) => {
                    let owner = sessions::or_else(workspace.daemon_id, daemon);
                    let change = registry::route_change(workspace.remote_host, owner);
                    lemma_changed(asked.rows, id, change);
                    match registry::changed(asked.rows, id, change) {
                        None => {
                            let at = registry::position(asked.rows, id);
                            let row = change(asked.rows[at]);
                            let k = choose|k: int|
                                0 <= k < asked.rows.len() && k != at && row.same_record(
                                    #[trigger] asked.rows[k],
                                );
                            if k < at {
                                assert(asked.rows[k].workspace.id != asked.rows[at].workspace.id);
                            } else {
                                assert(asked.rows[at].workspace.id != asked.rows[k].workspace.id);
                            }
                            let taken = workspace.terminal_session_id->0;
                            assert(is_taken(state.rows, id, taken));
                        },
                        Some(rows) => {
                            let bound = ServiceView { rows, ..asked };
                            let owned = WorkspaceView { daemon_id: owner, ..workspace };
                            lemma_adopting(bound, owned, session);
                            let adopted = sessions::adopting(bound, owned, session);
                            if adopted.result is Ok {
                                lemma_differs_transitive(
                                    state.rows,
                                    rows,
                                    adopted.state.rows,
                                    id,
                                );
                            } else {
                                let k = choose|k: int|
                                    0 <= k < rows.len() && (#[trigger] rows[k]).workspace.id != id
                                        && rows[k].used_by_client_at is Some
                                        && rows[k].workspace.terminal_session_id == Some(session);
                                assert(state.rows[k] == rows[k]);
                                assert(is_taken(state.rows, id, session));
                            }
                        },
                    }
                },
            }
        },
    }
}

/// A host that was reached has a backend from then on, and asking for one asks
/// nothing of any.
pub proof fn lemma_reached(state: ServiceView, later: ServiceView, host: Option<Seq<char>>)
    ensures
        ({
            let (reached, connected) = replay::connect(state, later, host);
            &&& connected is Ok <==> reached.hosts.contains(host)
            &&& connected is Err <==> is_unreached(state, reached, host)
            &&& reached.rows == state.rows
            &&& reached.log == state.log
        }),
{
    let (reached, connected) = replay::connect(state, later, host);
    if connected is Ok && !state.hosts.contains(host) {
        assert(reached.hosts[state.hosts.len() as int] == host);
    }
}

/// A stored workspace is what its id finds.
proof fn lemma_stored(rows: Seq<RowView>, workspace: WorkspaceView)
    requires
        registry::is_table(rows),
        stores(rows, workspace),
    ensures
        registry::workspace_of(rows, workspace.id) == Some(workspace),
{
    let k = choose|k: int| 0 <= k < rows.len() && (#[trigger] rows[k]).workspace == workspace;
    registry::lemma_position_is(rows, workspace.id, k);
}

/// An id that no row has is refused by every operation that takes one, with
/// nothing asked and nothing written.
pub proof fn law_an_unknown_id_is_refused(
    state: ServiceView,
    later: ServiceView,
    id: Seq<char>,
    name: Seq<char>,
    daemon: Option<Seq<char>>,
    now: i64,
)
    requires
        forall|k: int| 0 <= k < state.rows.len() ==> (#[trigger] state.rows[k]).workspace.id != id,
    ensures
        sessions::opening(state, later, id, now).result is Err,
        sessions::opening(state, later, id, now).state == state,
        sessions::recreating(state, later, id).result is Err,
        sessions::recreating(state, later, id).state == state,
        sessions::stopping(state, later, id).result is Err,
        sessions::stopping(state, later, id).state == state,
        sessions::killing_session_of(state, later, id).result is Err,
        sessions::killing_session_of(state, later, id).state == state,
        sessions::killing_workspace(state, later, id).result is Err,
        sessions::killing_workspace(state, later, id).state == state,
        sessions::recording_attached(state, id, daemon).result is Err,
        sessions::recording_attached(state, id, daemon).state == state,
        sessions::renaming(state, later, id, name).result is Err,
        sessions::renaming(state, later, id, name).state == state,
        reset::resetting(state, later, id).result is Err,
        reset::resetting(state, later, id).state == state,
{
    registry::lemma_position(state.rows, id);
}

/// Stopping a workspace drops the clients of its session where that is alive, on
/// its own host, and asks nothing more. Where nothing failed, the workspace is
/// answered and stored as stopped and is otherwise what it was; where something
/// did, no row changed.
pub proof fn law_a_stopped_workspace_is_stored_as_stopped(
    state: ServiceView,
    later: ServiceView,
    workspace: WorkspaceView,
)
    requires
        registry::is_table(state.rows),
        stores(state.rows, workspace),
    ensures
        ({
            let run = sessions::stopping(state, later, workspace.id);
            let n = state.log.len() as int;
            let host = workspace.remote_host;
            let written = run.result == Ok::<WorkspaceView, FailureView>(
                WorkspaceView { status: WorkspaceStatus::Stopped, ..workspace },
            ) && stores(
                run.state.rows,
                WorkspaceView { status: WorkspaceStatus::Stopped, ..workspace },
            ) && differs_only_at(state.rows, run.state.rows, workspace.id);
            let refused = run.result is Err && run.state.rows == state.rows;
            match workspace.terminal_session_id {
                None => run.state.log == state.log && written,
                Some(session) => if is_unreached(state, run.state, host) {
                    run.state.log == state.log && refused
                } else {
                    &&& run.state.log.len() > n
                    &&& run.state.log.take(n) == state.log
                    &&& run.state.log[n] matches Exchange::Exists {
                        host: asked,
                        session: named,
                        expected,
                        reply,
                    }
                    &&& asked == host && named == session && expected == workspace.daemon_id
                    &&& match reply {
                        Err(_) => run.state.log.len() == n + 1 && refused,
                        Ok(false) => run.state.log.len() == n + 1 && written,
                        Ok(true) => {
                            &&& run.state.log.len() == n + 2
                            &&& run.state.log[n + 1] matches Exchange::Detach {
                                host: asked,
                                session: named,
                                reply,
                            }
                            &&& asked == host && named == session
                            &&& if reply is Ok {
                                written
                            } else {
                                refused
                            }
                        },
                    }
                },
            }
        }),
{
    lemma_stored(state.rows, workspace);
    let run = sessions::stopping(state, later, workspace.id);
    let n = state.log.len() as int;
    match workspace.terminal_session_id {
        None => lemma_status(state, workspace, WorkspaceStatus::Stopped),
        Some(session) => {
            let (reached, connected) = replay::connect(state, later, workspace.remote_host);
            if connected is Ok {
                let (asked, reply) = replay::session_exists(
                    reached,
                    later,
                    workspace.remote_host,
                    session,
                    workspace.daemon_id,
                );
                let (detached, dropped) = replay::detach(
                    asked,
                    later,
                    workspace.remote_host,
                    session,
                );
                lemma_status(asked, workspace, WorkspaceStatus::Stopped);
                lemma_status(detached, workspace, WorkspaceStatus::Stopped);
                assert(asked.log.take(n) =~= state.log);
                assert(detached.log.take(n) =~= state.log);
            }
        },
    }
}

/// Recreating a session asks first whether it is there. One that is alive is
/// adopted, with no session asked for; a session is asked for exactly when the
/// answer is that there is none. What is answered is what is then stored.
pub proof fn law_a_live_session_is_adopted_and_a_dead_one_created(
    state: ServiceView,
    later: ServiceView,
    workspace: WorkspaceView,
)
    requires
        registry::is_table(state.rows),
        stores(state.rows, workspace),
    ensures
        ({
            let run = sessions::recreating(state, later, workspace.id);
            let n = state.log.len() as int;
            let host = workspace.remote_host;
            if is_unreached(state, run.state, host) {
                run.state.log == state.log && run.result is Err && run.state.rows == state.rows
            } else {
                &&& run.state.log.len() > n
                &&& run.state.log.take(n) == state.log
                &&& run.state.log[n] matches Exchange::Exists {
                    host: asked,
                    session: named,
                    expected,
                    reply,
                }
                &&& asked == host && named == wire_id(workspace) && expected == workspace.daemon_id
                &&& match reply {
                    Err(_) => run.state.log.len() == n + 1 && run.result is Err && run.state.rows
                        == state.rows,
                    Ok(true) => {
                        &&& run.state.log.len() == n + 1
                        &&& match run.result {
                            Ok(left) => {
                                &&& left == (WorkspaceView {
                                    terminal_session_id: Some(wire_id(workspace)),
                                    status: WorkspaceStatus::Running,
                                    ..workspace
                                })
                                &&& stores(run.state.rows, left)
                                &&& differs_only_at(state.rows, run.state.rows, workspace.id)
                            },
                            Err(_) => run.state.rows == state.rows && is_taken(
                                state.rows,
                                workspace.id,
                                wire_id(workspace),
                            ),
                        }
                    },
                    Ok(false) => {
                        &&& run.state.log.len() == n + 2
                        &&& run.state.log[n + 1] matches Exchange::Create {
                            host: asked,
                            spec,
                            expected,
                            reply,
                        }
                        &&& asked == host && is_spec_for(spec, workspace) && expected
                            == workspace.daemon_id
                        &&& differs_only_at(state.rows, run.state.rows, workspace.id)
                        &&& match (reply, run.result) {
                            (Ok((session, daemon)), Ok(left)) => {
                                &&& left == (WorkspaceView {
                                    daemon_id: owner_after(workspace, daemon),
                                    terminal_session_id: Some(session),
                                    status: WorkspaceStatus::Running,
                                    ..workspace
                                })
                                &&& stores(run.state.rows, left)
                            },
                            (Ok((session, _)), Err(_)) => is_taken(
                                state.rows,
                                workspace.id,
                                session,
                            ) || is_taken(state.rows, workspace.id, wire_id(workspace)),
                            (Err(_), answered) => answered is Err && stores(
                                run.state.rows,
                                WorkspaceView { status: WorkspaceStatus::Error, ..workspace },
                            ),
                        }
                    },
                }
            }
        }),
{
    lemma_stored(state.rows, workspace);
    let run = sessions::recreating(state, later, workspace.id);
    let n = state.log.len() as int;
    let (reached, connected) = replay::connect(state, later, workspace.remote_host);
    if connected is Ok {
        let (asked, reply) = replay::session_exists(
            reached,
            later,
            workspace.remote_host,
            workspace.daemon_workspace_id(),
            workspace.daemon_id,
        );
        assert(asked.log.take(n) =~= state.log);
        if reply == Ok::<bool, Seq<char>>(true) {
            lemma_adopting(asked, workspace, workspace.daemon_workspace_id());
        } else if reply == Ok::<bool, Seq<char>>(false) {
            lemma_starting(asked, later, workspace);
            let started = sessions::starting(asked, later, workspace);
            lemma_reached(state, later, workspace.remote_host);
            assert(started.state.log.take(n + 1).take(n) =~= started.state.log.take(n));
            assert(started.state.log[n] == started.state.log.take(n + 1)[n]);
        }
    }
}

/// Opening a workspace marks it as opened now and asks after its session, where
/// it has one: a live one is stored as running, a dead one as disconnected, and
/// the answer says which.
pub proof fn law_an_opened_workspace_is_stored_as_found(
    state: ServiceView,
    later: ServiceView,
    workspace: WorkspaceView,
    now: i64,
)
    requires
        registry::is_table(state.rows),
        stores(state.rows, workspace),
    ensures
        ({
            let run = sessions::opening(state, later, workspace.id, now);
            let n = state.log.len() as int;
            let host = workspace.remote_host;
            let opened = WorkspaceView { last_opened_at: now, ..workspace };
            &&& differs_only_at(state.rows, run.state.rows, workspace.id)
            &&& match workspace.terminal_session_id {
                None => run.state.log == state.log && stores(run.state.rows, opened) && run.result
                    == Ok::<(WorkspaceView, SessionState), FailureView>(
                    (opened, SessionState::NeverCreated),
                ),
                Some(session) => if is_unreached(state, run.state, host) {
                    run.state.log == state.log && run.result is Err && stores(
                        run.state.rows,
                        opened,
                    )
                } else {
                    &&& run.state.log.len() == n + 1
                    &&& run.state.log.take(n) == state.log
                    &&& run.state.log[n] matches Exchange::Exists {
                        host: asked,
                        session: named,
                        expected,
                        reply,
                    }
                    &&& asked == host && named == session && expected == workspace.daemon_id
                    &&& match reply {
                        Err(_) => run.result is Err && stores(run.state.rows, opened),
                        Ok(alive) => {
                            let left = WorkspaceView {
                                status: if alive {
                                    WorkspaceStatus::Running
                                } else {
                                    WorkspaceStatus::Disconnected
                                },
                                ..opened
                            };
                            &&& run.result == Ok::<(WorkspaceView, SessionState), FailureView>(
                                (
                                    left,
                                    if alive {
                                        SessionState::Alive
                                    } else {
                                        SessionState::Dead
                                    },
                                ),
                            )
                            &&& stores(run.state.rows, left)
                        },
                    }
                },
            }
        }),
{
    lemma_stored(state.rows, workspace);
    let id = workspace.id;
    let change = registry::opening_change(now);
    registry::lemma_position(state.rows, id);
    let at = registry::position(state.rows, id);
    lemma_record_is_free(state.rows, at, change(state.rows[at]));
    lemma_changed(state.rows, id, change);
    let marked = ServiceView { rows: registry::changed(state.rows, id, change)->0, ..state };
    let opened = WorkspaceView { last_opened_at: now, ..workspace };
    law_a_probe_is_recorded(marked, later, opened);
    let run = sessions::opening(state, later, id, now);
    lemma_differs_transitive(state.rows, marked.rows, run.state.rows, id);
}

/// Probing a workspace asks after its session, where it has one, on its own host:
/// a live one is recorded as running, a dead one as disconnected, and the answer
/// says which. Nothing is recorded where there was no answer.
pub proof fn law_a_probe_is_recorded(
    state: ServiceView,
    later: ServiceView,
    workspace: WorkspaceView,
)
    requires
        registry::is_table(state.rows),
        stores(state.rows, workspace),
    ensures
        ({
            let run = sessions::probing(state, later, workspace);
            let n = state.log.len() as int;
            let host = workspace.remote_host;
            let untouched = run.state.rows == state.rows && run.workspace == workspace;
            &&& registry::is_table(run.state.rows)
            &&& differs_only_at(state.rows, run.state.rows, workspace.id)
            &&& stores(run.state.rows, run.workspace)
            &&& match workspace.terminal_session_id {
                None => run.state == state && untouched && run.result == Ok::<
                    SessionState,
                    FailureView,
                >(SessionState::NeverCreated),
                Some(session) => if is_unreached(state, run.state, host) {
                    run.state.log == state.log && run.result is Err && untouched
                } else {
                    &&& run.state.log.len() == n + 1
                    &&& run.state.log.take(n) == state.log
                    &&& run.state.log[n] matches Exchange::Exists {
                        host: asked,
                        session: named,
                        expected,
                        reply,
                    }
                    &&& asked == host && named == session && expected == workspace.daemon_id
                    &&& match reply {
                        Err(_) => run.result is Err && untouched,
                        Ok(alive) => {
                            &&& run.workspace == (WorkspaceView {
                                status: if alive {
                                    WorkspaceStatus::Running
                                } else {
                                    WorkspaceStatus::Disconnected
                                },
                                ..workspace
                            })
                            &&& run.result == Ok::<SessionState, FailureView>(
                                if alive {
                                    SessionState::Alive
                                } else {
                                    SessionState::Dead
                                },
                            )
                        },
                    }
                },
            }
        }),
{
    lemma_stored(state.rows, workspace);
    let run = sessions::probing(state, later, workspace);
    let n = state.log.len() as int;
    if let Some(session) = workspace.terminal_session_id {
        let (reached, connected) = replay::connect(state, later, workspace.remote_host);
        if connected is Ok {
            let (asked, reply) = replay::session_exists(
                reached,
                later,
                workspace.remote_host,
                session,
                workspace.daemon_id,
            );
            assert(asked.log.take(n) =~= state.log);
            lemma_status(asked, workspace, WorkspaceStatus::Running);
            lemma_status(asked, workspace, WorkspaceStatus::Disconnected);
        }
    }
}

/// A row as a request asks for it, before it has a session.
pub open spec fn is_requested(row: WorkspaceView, request: NewWorkspace) -> bool {
    &&& row.id == request.id@
    &&& row.name == request.name@
    &&& row.project_id == request.project_id@
    &&& row.project_identity == text::opt(request.project_identity)
    &&& row.repository_path == request.repository_path@
    &&& row.branch == text::opt(request.branch)
    &&& row.remote_host == text::opt(request.remote_host)
    &&& row.terminal_session_id is None
    &&& row.daemon_id is None
    &&& row.created_at == request.now
    &&& row.last_opened_at == request.now
}

/// That one row came, in use, and the others are what they were. A row of the
/// same id gave way to it.
pub open spec fn came(before: Seq<RowView>, after: Seq<RowView>, workspace: WorkspaceView) -> bool {
    &&& stores_as_used(after, workspace)
    &&& forall|k: int|
        0 <= k < before.len() && (#[trigger] before[k]).workspace.id != workspace.id
            ==> after.contains(before[k])
    &&& forall|k: int|
        0 <= k < after.len() && (#[trigger] after[k]).workspace.id != workspace.id
            ==> before.contains(after[k])
}

proof fn lemma_came(
    before: Seq<RowView>,
    between: Seq<RowView>,
    after: Seq<RowView>,
    row: RowView,
    left: WorkspaceView,
)
    requires
        registry::is_table(before),
        registry::with_workspace(before, row) == Some(between),
        row.used_by_client_at is Some,
        row.workspace.terminal_session_id is None,
        differs_only_at(between, after, row.workspace.id),
        left.id == row.workspace.id,
        stores(after, left),
    ensures
        came(before, after, left),
{
    let id = row.workspace.id;
    let at = registry::position(before, id);
    registry::lemma_position(before, id);
    assert(!registry::collides(before, at, row));
    let k = choose|k: int| 0 <= k < after.len() && (#[trigger] after[k]).workspace == left;
    assert(between[k].workspace.id == id);
    assert(k == at) by {
        if k != at && k < before.len() {
            assert(before[k].workspace.id == id);
            registry::lemma_position_is(before, id, k);
        }
    }
    assert(after[at].used_by_client_at == between[at].used_by_client_at);
    assert forall|k: int| 0 <= k < before.len() && (#[trigger] before[k]).workspace.id
        != id implies after.contains(before[k]) by {
        assert(k != at);
        assert(between[k] == before[k]);
        assert(after[k] == before[k]);
    }
    assert forall|k: int| 0 <= k < after.len() && (#[trigger] after[k]).workspace.id
        != id implies before.contains(after[k]) by {
        assert(between[k].workspace.id != id);
        assert(after[k] == between[k]);
        assert(k < before.len());
        assert(before[k] == between[k]);
    }
}

pub proof fn lemma_creating(state: ServiceView, later: ServiceView, row: WorkspaceView, now: i64)
    requires
        registry::is_table(state.rows),
        row.terminal_session_id is None,
    ensures
        ({
            let run = opening::creating(state, later, row, now);
            let n = state.log.len() as int;
            if is_unreached(state, run.state, row.remote_host) {
                &&& run.state.log == state.log
                &&& run.result is Err
                &&& came(
                    state.rows,
                    run.state.rows,
                    WorkspaceView { status: WorkspaceStatus::Error, ..row },
                )
            } else {
                &&& run.state.log.len() == n + 1
                &&& run.state.log.take(n) == state.log
                &&& run.state.log[n] matches Exchange::Create { host, spec, expected, reply }
                &&& host == row.remote_host && is_spec_for(spec, row) && expected == row.daemon_id
                &&& match (reply, run.result) {
                    (Ok((session, daemon)), Ok(left)) => {
                        &&& left == (WorkspaceView {
                            daemon_id: owner_after(row, daemon),
                            terminal_session_id: Some(session),
                            status: WorkspaceStatus::Running,
                            ..row
                        })
                        &&& came(state.rows, run.state.rows, left)
                    },
                    (Ok((session, _)), Err(_)) => is_taken(state.rows, row.id, session),
                    (Err(_), answered) => answered is Err && came(
                        state.rows,
                        run.state.rows,
                        WorkspaceView { status: WorkspaceStatus::Error, ..row },
                    ),
                }
            }
        }),
{
    let run = opening::creating(state, later, row, now);
    let new_row = RowView { workspace: row, used_by_client_at: Some(now) };
    let at = registry::position(state.rows, row.id);
    registry::lemma_position(state.rows, row.id);
    assert(!registry::collides(state.rows, at, new_row));
    let rows = registry::with_workspace(state.rows, new_row)->0;
    let placed = ServiceView { rows, ..state };
    assert(rows[at] == new_row);
    if at < state.rows.len() {
        registry::lemma_update_keeps_the_rules(state.rows, at, new_row);
    } else {
        registry::lemma_push_keeps_the_rules(state.rows, new_row);
    }
    registry::lemma_position_is(rows, row.id, at);
    lemma_starting(placed, later, row);
    let started = sessions::starting(placed, later, row);
    let failed = WorkspaceView { status: WorkspaceStatus::Error, ..row };
    if stores(started.state.rows, started.workspace) && started.workspace.id == row.id {
        lemma_came(state.rows, rows, started.state.rows, new_row, started.workspace);
    }
    if !is_unreached(placed, started.state, row.remote_host) {
        if let Exchange::Create { reply: Ok((session, daemon)), .. } = started.state.log[
            state.log.len() as int] {
            if started.result is Err {
                let taken = choose|taken: Seq<char>| #[trigger]
                    is_taken(rows, row.id, taken) && (taken == session
                        || row.terminal_session_id == Some(taken));
                let k = choose|k: int|
                    0 <= k < rows.len() && (#[trigger] rows[k]).workspace.id != row.id
                        && rows[k].used_by_client_at is Some && rows[k].workspace.terminal_session_id
                        == Some(taken);
                assert(k != at);
                assert(state.rows[k] == rows[k]);
            }
        }
    }
}

/// Creating a workspace records what was asked for, in use from then on, and
/// gives it a session in its own checkout, on its own host, by one question. What
/// is answered is what is stored; where the session was refused the row stays, as
/// an error. No other row changes.
pub proof fn law_a_created_workspace_is_the_one_asked_for(
    state: ServiceView,
    later: ServiceView,
    request: NewWorkspace,
)
    requires
        registry::is_table(state.rows),
    ensures
        ({
            let run = opening::creating(state, later, request.row(), request.now);
            let row = request.row();
            let n = state.log.len() as int;
            &&& is_requested(row, request)
            &&& if is_unreached(state, run.state, text::opt(request.remote_host)) {
                &&& run.state.log == state.log
                &&& run.result is Err
                &&& came(
                    state.rows,
                    run.state.rows,
                    WorkspaceView { status: WorkspaceStatus::Error, ..row },
                )
            } else {
                &&& run.state.log.len() == n + 1
                &&& run.state.log.take(n) == state.log
                &&& run.state.log[n] matches Exchange::Create { host, spec, expected, reply }
                &&& host == text::opt(request.remote_host)
                &&& spec.id == workspace::derived_session_name(request.name@, request.id@)
                &&& spec.directory == request.repository_path@
                &&& spec.project_scope == (match request.project_identity {
                    Some(identity) => Some((request.project_id@, identity@)),
                    None => None,
                })
                &&& expected is None
                &&& match (reply, run.result) {
                    (Ok((session, daemon)), Ok(left)) => {
                        &&& left == (WorkspaceView {
                            daemon_id: daemon,
                            terminal_session_id: Some(session),
                            status: WorkspaceStatus::Running,
                            ..row
                        })
                        &&& came(state.rows, run.state.rows, left)
                    },
                    (Ok((session, _)), Err(_)) => is_taken(state.rows, row.id, session),
                    (Err(_), answered) => answered is Err && came(
                        state.rows,
                        run.state.rows,
                        WorkspaceView { status: WorkspaceStatus::Error, ..row },
                    ),
                }
            }
        }),
{
    lemma_creating(state, later, request.row(), request.now);
}

/// Creating a workspace from a repository asks the host where the requested path
/// is checked out, and makes the workspace of the answer: there, and in the
/// project of the answer. Without an answer nothing is made.
pub proof fn law_a_workspace_of_a_repository_is_made_of_the_answer(
    state: ServiceView,
    later: ServiceView,
    request: NewWorkspace,
)
    requires
        registry::is_table(state.rows),
    ensures
        ({
            let run = opening::creating_from_repository(state, later, request);
            let n = state.log.len() as int;
            let host = text::opt(request.remote_host);
            if is_unreached(state, run.state, host) {
                run.state.log == state.log && run.result is Err && run.state.rows == state.rows
            } else {
                &&& run.state.log.len() > n
                &&& run.state.log.take(n) == state.log
                &&& run.state.log[n] matches Exchange::Resolve { host: asked, path, reply }
                &&& asked == host && path == request.repository_path@
                &&& match reply {
                    Err(_) => run.state.log.len() == n + 1 && run.result is Err && run.state.rows
                        == state.rows,
                    Ok((checkout, identity)) => {
                        &&& run.state.log.len() == n + 2
                        &&& run.state.log[n + 1] matches Exchange::Create {
                            host: asked,
                            spec,
                            expected,
                            reply,
                        }
                        &&& asked == host && spec.directory == checkout && expected is None
                        &&& spec.project_scope == Some(
                            (workspace::path_project_id(identity), identity),
                        )
                        &&& reply is Err ==> run.result is Err
                        &&& run.result matches Ok(left) ==> {
                            &&& reply matches Ok((session, daemon))
                            &&& left.terminal_session_id == Some(session)
                            &&& left.daemon_id == daemon
                            &&& left.status == WorkspaceStatus::Running
                            &&& left.id == request.id@ && left.name == request.name@
                            &&& left.repository_path == checkout
                            &&& left.project_identity == Some(identity)
                            &&& left.project_id == workspace::path_project_id(identity)
                            &&& left.branch == text::opt(request.branch)
                            &&& left.remote_host == host
                            &&& came(state.rows, run.state.rows, left)
                        }
                        &&& run.result is Err && reply is Ok ==> is_taken(
                            state.rows,
                            request.id@,
                            reply->Ok_0.0,
                        )
                    },
                }
            }
        }),
{
    let run = opening::creating_from_repository(state, later, request);
    let n = state.log.len() as int;
    let host = text::opt(request.remote_host);
    lemma_reached(state, later, host);
    let (reached, connected) = replay::connect(state, later, host);
    if connected is Ok {
        let (asked, resolved) = replay::resolve(reached, later, host, request.repository_path@);
        assert(asked.log.take(n) =~= state.log);
        if let Ok((checkout, identity)) = resolved {
            let row = WorkspaceView {
                project_id: workspace::path_project_id(identity),
                project_identity: Some(identity),
                repository_path: checkout,
                ..request.row()
            };
            lemma_creating(asked, later, row, request.now);
            assert(run.state.log[n] == run.state.log.take(n + 1)[n]);
            assert(run.state.log.take(n + 1).take(n) =~= run.state.log.take(n));
        }
    }
}

/// The way onto a workspace is asked for by one question, which can only bring up
/// that workspace's session in that workspace's checkout; the answer is passed on
/// and no row changes.
pub proof fn law_an_attach_is_of_the_workspace_itself(
    state: ServiceView,
    later: ServiceView,
    workspace: WorkspaceView,
)
    ensures
        ({
            let run = opening::attaching(state, later, workspace);
            let n = state.log.len() as int;
            &&& run.state.rows == state.rows
            &&& if is_unreached(state, run.state, workspace.remote_host) {
                run.state.log == state.log && run.result is Err
            } else {
                &&& run.state.log.len() == n + 1
                &&& run.state.log.take(n) == state.log
                &&& run.state.log[n] matches Exchange::Attach { host, spec, expected, reply }
                &&& host == workspace.remote_host && is_spec_for(spec, workspace) && expected
                    == workspace.daemon_id
                &&& match (reply, run.result) {
                    (Ok(way), Ok(passed)) => passed == way,
                    (Err(cause), Err(failure)) => failure == FailureView::Message(cause),
                    _ => false,
                }
            }
        }),
{
    lemma_reached(state, later, workspace.remote_host);
    let n = state.log.len() as int;
    let run = opening::attaching(state, later, workspace);
    if replay::connect(state, later, workspace.remote_host).1 is Ok {
        assert(run.state.log.take(n) =~= state.log);
    }
}

/// Killing the sessions of a workspace asks first whether they are there, kills
/// them under the identity of the row's daemon where they are, and stores the
/// workspace as stopped with everything else it had. Where something failed no
/// row changed.
pub proof fn law_a_killed_session_leaves_its_workspace_stopped(
    state: ServiceView,
    later: ServiceView,
    workspace: WorkspaceView,
)
    requires
        registry::is_table(state.rows),
        stores(state.rows, workspace),
    ensures
        ({
            let run = sessions::killing_session_of(state, later, workspace.id);
            let n = state.log.len() as int;
            let host = workspace.remote_host;
            let written = run.result == Ok::<WorkspaceView, FailureView>(
                WorkspaceView { status: WorkspaceStatus::Stopped, ..workspace },
            ) && stores(
                run.state.rows,
                WorkspaceView { status: WorkspaceStatus::Stopped, ..workspace },
            ) && differs_only_at(state.rows, run.state.rows, workspace.id);
            let refused = run.result is Err && run.state.rows == state.rows;
            match workspace.terminal_session_id {
                None => run.state.log == state.log && written,
                Some(session) => if is_unreached(state, run.state, host) {
                    run.state.log == state.log && refused
                } else {
                    &&& run.state.log.len() > n
                    &&& run.state.log.take(n) == state.log
                    &&& run.state.log[n] matches Exchange::Exists {
                        host: asked,
                        session: named,
                        expected,
                        reply,
                    }
                    &&& asked == host && named == session && expected == workspace.daemon_id
                    &&& match reply {
                        Err(_) => run.state.log.len() == n + 1 && refused,
                        Ok(false) => run.state.log.len() == n + 1 && written,
                        Ok(true) => {
                            &&& run.state.log.len() == n + 2
                            &&& run.state.log[n + 1] matches Exchange::Kill {
                                host: asked,
                                session: named,
                                expected,
                                reply,
                            }
                            &&& asked == host && named == session && expected
                                == workspace.daemon_id
                            &&& if reply is Ok {
                                written
                            } else {
                                refused
                            }
                        },
                    }
                },
            }
        }),
{
    lemma_stored(state.rows, workspace);
    let n = state.log.len() as int;
    match workspace.terminal_session_id {
        None => lemma_status(state, workspace, WorkspaceStatus::Stopped),
        Some(session) => {
            let (reached, connected) = replay::connect(state, later, workspace.remote_host);
            if connected is Ok {
                let (asked, reply) = replay::session_exists(
                    reached,
                    later,
                    workspace.remote_host,
                    session,
                    workspace.daemon_id,
                );
                let (killed, dropped) = replay::kill(
                    asked,
                    later,
                    workspace.remote_host,
                    session,
                    workspace.daemon_id,
                );
                lemma_status(asked, workspace, WorkspaceStatus::Stopped);
                lemma_status(killed, workspace, WorkspaceStatus::Stopped);
                assert(asked.log.take(n) =~= state.log);
                assert(killed.log.take(n) =~= state.log);
            }
        },
    }
}

/// The daemon a kill or a reset is fenced to: the row's own, or the one that
/// named itself the same in the two listings asked for right before.
pub open spec fn is_fenced(
    log: Seq<Exchange>,
    from: int,
    upto: int,
    workspace: WorkspaceView,
    daemon: Option<Seq<char>>,
) -> bool {
    match workspace.daemon_id {
        Some(own) => upto == from && daemon == Some(own),
        None => {
            &&& upto == from + 2
            &&& log[from] matches Exchange::ListWorkspaces { host: first, reply: Ok((one, _)) }
            &&& log[from + 1] matches Exchange::ListWorkspaces {
                host: second,
                reply: Ok((other, _)),
            }
            &&& first == workspace.remote_host && second == workspace.remote_host
            &&& one == daemon && other == daemon
        },
    }
}

proof fn lemma_fenced(
    state: ServiceView,
    later: ServiceView,
    workspace: WorkspaceView,
    changed: Seq<char>,
)
    ensures
        ({
            let run = sessions::fencing(state, later, workspace, changed);
            let n = state.log.len() as int;
            &&& run.state.rows == state.rows
            &&& run.state == (ServiceView { log: run.state.log, ..state })
            &&& run.state.log.len() >= n
            &&& run.state.log.take(n) == state.log
            &&& forall|k: int|
                n <= k < run.state.log.len() ==> #[trigger] run.state.log[k] is ListWorkspaces
            &&& run.result matches Ok(daemon) ==> is_fenced(
                run.state.log,
                n,
                run.state.log.len() as int,
                workspace,
                daemon,
            )
            &&& run.result is Err ==> {
                &&& workspace.daemon_id is None
                &&& match run.state.log.last() {
                    Exchange::ListWorkspaces { reply: Err(_), .. } => true,
                    Exchange::ListWorkspaces { reply: Ok((other, _)), .. } => {
                        &&& run.state.log.len() == n + 2
                        &&& run.state.log[n] matches Exchange::ListWorkspaces {
                            reply: Ok((one, _)),
                            ..
                        }
                        &&& one != other
                    },
                    _ => false,
                }
            }
        }),
{
    let run = sessions::fencing(state, later, workspace, changed);
    assert(run.state.log.take(state.log.len() as int) =~= state.log);
}

/// Killing a workspace kills its own record on its own host, fenced to the row's
/// daemon, as the last thing asked. Once that is done the row is answered and
/// stored as stopped, without session and daemon; until then no row changes.
pub proof fn law_a_killed_workspace_forgets_its_record(
    state: ServiceView,
    later: ServiceView,
    workspace: WorkspaceView,
)
    requires
        registry::is_table(state.rows),
        stores(state.rows, workspace),
    ensures
        ({
            let run = sessions::killing_workspace(state, later, workspace.id);
            let n = state.log.len() as int;
            let m = run.state.log.len() - 1;
            &&& run.state.log.len() >= n
            &&& run.state.log.take(n) == state.log
            &&& match run.result {
                Ok(left) => {
                    &&& left == (WorkspaceView {
                        terminal_session_id: None,
                        daemon_id: None,
                        status: WorkspaceStatus::Stopped,
                        ..workspace
                    })
                    &&& stores(run.state.rows, left)
                    &&& differs_only_at(state.rows, run.state.rows, workspace.id)
                    &&& m >= n
                    &&& run.state.log[m] matches Exchange::KillWorkspace {
                        host,
                        workspace_id,
                        expected,
                        reply: Ok(()),
                    }
                    &&& host == workspace.remote_host && workspace_id == wire_id(workspace)
                    &&& is_fenced(run.state.log, n, m, workspace, expected)
                },
                Err(_) => {
                    &&& run.state.rows == state.rows
                    &&& is_unreached(state, run.state, workspace.remote_host) || (m >= n && (
                    match run.state.log[m] {
                        Exchange::KillWorkspace { reply, .. } => reply is Err,
                        Exchange::ListWorkspaces { .. } => workspace.daemon_id is None,
                        _ => false,
                    }))
                },
            }
        }),
{
    lemma_stored(state.rows, workspace);
    let id = workspace.id;
    let n = state.log.len() as int;
    let run = sessions::killing_workspace(state, later, id);
    let (reached, connected) = replay::connect(state, later, workspace.remote_host);
    lemma_reached(state, later, workspace.remote_host);
    if connected is Ok {
        let changed = "the daemon changed while preparing to kill workspace "@;
        lemma_fenced(reached, later, workspace, changed);
        let fence = sessions::fencing(reached, later, workspace, changed);
        if let Ok(daemon) = fence.result {
            let (killed, dropped) = replay::kill_workspace(
                fence.state,
                later,
                workspace.remote_host,
                workspace.daemon_workspace_id(),
                daemon,
            );
            assert(killed.log.take(n) =~= fence.state.log.take(n));
            assert(forall|k: int| 0 <= k < fence.state.log.len() ==> killed.log[k]
                == fence.state.log[k]);
            if dropped is Ok {
                lemma_killed(killed, workspace);
                assert(run.state.log == killed.log);
            }
        }
    }
}

proof fn lemma_killed(state: ServiceView, workspace: WorkspaceView)
    requires
        registry::is_table(state.rows),
        registry::workspace_of(state.rows, workspace.id) == Some(workspace),
    ensures
        ({
            let run = sessions::recording_kill(state, workspace);
            &&& run.result is Ok
            &&& run.state == (ServiceView { rows: run.state.rows, ..state })
            &&& run.workspace == (WorkspaceView {
                terminal_session_id: None,
                daemon_id: None,
                status: WorkspaceStatus::Stopped,
                ..workspace
            })
            &&& stores(run.state.rows, run.workspace)
            &&& differs_only_at(state.rows, run.state.rows, workspace.id)
        }),
{
    let id = workspace.id;
    registry::lemma_position(state.rows, id);
    if workspace.terminal_session_id is Some || workspace.daemon_id is Some {
        let change = registry::session_and_daemon_change(None, None);
        lemma_changed(state.rows, id, change);
        let rows = registry::changed(state.rows, id, change)->0;
        let at = registry::position(state.rows, id);
        assert(!registry::collides(state.rows, at, change(state.rows[at])));
        let bare = WorkspaceView { terminal_session_id: None, daemon_id: None, ..workspace };
        lemma_status(ServiceView { rows, ..state }, bare, WorkspaceStatus::Stopped);
        let run = sessions::recording_kill(state, workspace);
        lemma_differs_transitive(state.rows, rows, run.state.rows, id);
    } else {
        lemma_status(state, workspace, WorkspaceStatus::Stopped);
    }
}

/// A session that an attach brought up is stored with the workspace, as running,
/// on the daemon that answered where the row had none. Nothing is asked.
pub proof fn law_an_attached_session_is_stored(
    state: ServiceView,
    workspace: WorkspaceView,
    daemon: Option<Seq<char>>,
)
    requires
        registry::is_table(state.rows),
        stores(state.rows, workspace),
    ensures
        ({
            let run = sessions::recording_attached(state, workspace.id, daemon);
            &&& run.state.log == state.log
            &&& match run.result {
                Ok(left) => {
                    &&& left == (WorkspaceView {
                        terminal_session_id: Some(wire_id(workspace)),
                        daemon_id: owner_after(workspace, daemon),
                        status: WorkspaceStatus::Running,
                        ..workspace
                    })
                    &&& stores(run.state.rows, left)
                    &&& differs_only_at(state.rows, run.state.rows, workspace.id)
                },
                Err(_) => run.state == state && is_taken(
                    state.rows,
                    workspace.id,
                    wire_id(workspace),
                ),
            }
        }),
{
    lemma_stored(state.rows, workspace);
    let id = workspace.id;
    registry::lemma_position(state.rows, id);
    let session = workspace.daemon_workspace_id();
    let owner = sessions::or_else(workspace.daemon_id, daemon);
    let change = registry::session_and_daemon_change(Some(session), owner);
    lemma_changed(state.rows, id, change);
    match registry::changed(state.rows, id, change) {
        Some(rows) => {
            let pointed = WorkspaceView {
                terminal_session_id: Some(session),
                daemon_id: owner,
                ..workspace
            };
            lemma_status(ServiceView { rows, ..state }, pointed, WorkspaceStatus::Running);
            let run = sessions::recording_attached(state, id, daemon);
            lemma_differs_transitive(state.rows, rows, run.state.rows, id);
        },
        None => {
            let at = registry::position(state.rows, id);
            let row = change(state.rows[at]);
            let k = choose|k: int|
                0 <= k < state.rows.len() && k != at && row.same_record(#[trigger] state.rows[k]);
            if k < at {
                assert(state.rows[k].workspace.id != state.rows[at].workspace.id);
            } else {
                assert(state.rows[at].workspace.id != state.rows[k].workspace.id);
            }
        },
    }
}

/// A rename gives the workspace the name without the white space at its ends. The
/// daemon is asked first, by one question about that workspace's own record, and
/// the new name is stored once it agreed. An empty name is refused, and the name
/// it has is asked of nobody.
pub proof fn law_a_renamed_workspace_has_the_name(
    state: ServiceView,
    later: ServiceView,
    workspace: WorkspaceView,
    name: Seq<char>,
)
    requires
        registry::is_table(state.rows),
        stores(state.rows, workspace),
    ensures
        ({
            let run = sessions::renaming(state, later, workspace.id, name);
            let n = state.log.len() as int;
            let chosen = text::trim_text(name);
            if chosen.len() == 0 {
                run.result is Err && run.state == state
            } else if workspace.name == chosen {
                run.result == Ok::<WorkspaceView, FailureView>(workspace) && run.state == state
            } else if is_unreached(state, run.state, workspace.remote_host) {
                run.result is Err && run.state.log == state.log && run.state.rows == state.rows
            } else {
                &&& run.state.log.len() == n + 1
                &&& run.state.log.take(n) == state.log
                &&& run.state.log[n] matches Exchange::Rename {
                    host,
                    workspace_id,
                    name: asked,
                    expected,
                    reply,
                }
                &&& host == workspace.remote_host && workspace_id == wire_id(workspace) && asked
                    == chosen && expected == workspace.daemon_id
                &&& if reply is Ok {
                    &&& run.result == Ok::<WorkspaceView, FailureView>(
                        WorkspaceView { name: chosen, ..workspace },
                    )
                    &&& stores(run.state.rows, WorkspaceView { name: chosen, ..workspace })
                    &&& differs_only_at(state.rows, run.state.rows, workspace.id)
                } else {
                    run.result is Err && run.state.rows == state.rows
                }
            }
        }),
{
    lemma_stored(state.rows, workspace);
    let id = workspace.id;
    registry::lemma_position(state.rows, id);
    let chosen = text::trim_text(name);
    let change = registry::name_change(chosen);
    let at = registry::position(state.rows, id);
    lemma_record_is_free(state.rows, at, change(state.rows[at]));
    lemma_changed(state.rows, id, change);
    lemma_reached(state, later, workspace.remote_host);
    let (reached, connected) = replay::connect(state, later, workspace.remote_host);
    let (asked, renamed) = replay::rename(
        reached,
        later,
        workspace.remote_host,
        workspace.daemon_workspace_id(),
        chosen,
        workspace.daemon_id,
    );
    assert(asked.log.take(state.log.len() as int) =~= state.log);
}

/// Killing a record and deleting its row are done in that order: the row goes
/// exactly when the kill of its own record was agreed to, and no other row goes
/// with it.
pub proof fn law_a_deleted_row_went_behind_its_record(
    state: ServiceView,
    later: ServiceView,
    workspace: WorkspaceView,
)
    requires
        registry::is_table(state.rows),
    ensures
        ({
            let run = sessions::killing_and_deleting(state, later, workspace);
            let n = state.log.len() as int;
            let m = run.state.log.len() - 1;
            &&& run.state.log.len() >= n
            &&& run.state.log.take(n) == state.log
            &&& match run.result {
                Ok(()) => {
                    &&& forall|k: int|
                        0 <= k < run.state.rows.len() ==> (
                        #[trigger] run.state.rows[k]).workspace.id != workspace.id
                            && state.rows.contains(run.state.rows[k])
                    &&& forall|k: int|
                        0 <= k < state.rows.len() && (#[trigger] state.rows[k]).workspace.id
                            != workspace.id ==> run.state.rows.contains(state.rows[k])
                    &&& m >= n
                    &&& run.state.log[m] matches Exchange::KillWorkspace {
                        host,
                        workspace_id,
                        expected,
                        reply: Ok(()),
                    }
                    &&& host == workspace.remote_host && workspace_id == wire_id(workspace)
                    &&& is_fenced(run.state.log, n, m, workspace, expected)
                },
                Err(_) => {
                    &&& run.state.rows == state.rows
                    &&& is_unreached(state, run.state, workspace.remote_host) || (m >= n && (
                    match run.state.log[m] {
                        Exchange::KillWorkspace { reply, .. } => reply is Err,
                        Exchange::ListWorkspaces { .. } => workspace.daemon_id is None,
                        _ => false,
                    }))
                },
            }
        }),
{
    let id = workspace.id;
    let n = state.log.len() as int;
    let run = sessions::killing_and_deleting(state, later, workspace);
    let (reached, connected) = replay::connect(state, later, workspace.remote_host);
    lemma_reached(state, later, workspace.remote_host);
    if connected is Ok {
        let changed = "the daemon changed while preparing to delete workspace "@;
        lemma_fenced(reached, later, workspace, changed);
        let fence = sessions::fencing(reached, later, workspace, changed);
        if let Ok(daemon) = fence.result {
            let (killed, dropped) = replay::kill_workspace(
                fence.state,
                later,
                workspace.remote_host,
                workspace.daemon_workspace_id(),
                daemon,
            );
            assert(killed.log.take(n) =~= fence.state.log.take(n));
            assert(forall|k: int| 0 <= k < fence.state.log.len() ==> killed.log[k]
                == fence.state.log[k]);
            lemma_without(state.rows, id);
        }
    }
}

/// What deleting a row leaves.
pub proof fn lemma_without(rows: Seq<RowView>, id: Seq<char>)
    requires
        registry::is_table(rows),
    ensures
        ({
            let after = registry::without(rows, id);
            &&& registry::is_table(after)
            &&& forall|k: int|
                0 <= k < after.len() ==> (#[trigger] after[k]).workspace.id != id
                    && rows.contains(after[k])
            &&& forall|k: int|
                0 <= k < rows.len() && (#[trigger] rows[k]).workspace.id != id ==> after.contains(
                    rows[k],
                )
        }),
{
    registry::lemma_without_keeps_the_rules(rows, id);
    registry::lemma_position(rows, id);
    let at = registry::position(rows, id);
    let after = registry::without(rows, id);
    assert forall|k: int| 0 <= k < after.len() implies (#[trigger] after[k]).workspace.id != id
        && rows.contains(after[k]) by {
        let j = if k < at {
            k
        } else {
            k + 1
        };
        if at < rows.len() {
            assert(after[k] == rows[j]);
            if j > at {
                assert(rows[at].workspace.id != rows[j].workspace.id);
            }
        } else {
            assert(after[k] == rows[k]);
        }
    }
    assert forall|k: int| 0 <= k < rows.len() && (#[trigger] rows[k]).workspace.id
        != id implies after.contains(rows[k]) by {
        if at < rows.len() {
            assert(k != at);
            assert(after[if k < at {
                k
            } else {
                k - 1
            }] == rows[k]);
        } else {
            assert(after[k] == rows[k]);
        }
    }
}

/// A row that only its daemon sets apart from a copy is stored as the copy says
/// once the copy was given a session.
proof fn lemma_starting_owned(
    state: ServiceView,
    later: ServiceView,
    stored: WorkspaceView,
    workspace: WorkspaceView,
)
    requires
        registry::is_table(state.rows),
        registry::workspace_of(state.rows, workspace.id) == Some(stored),
        stored == (WorkspaceView { daemon_id: stored.daemon_id, ..workspace }),
        state.hosts.contains(workspace.remote_host),
    ensures
        ({
            let run = sessions::starting(state, later, workspace);
            let n = state.log.len() as int;
            &&& run.state.hosts == state.hosts
            &&& run.state.log.len() == n + 1
            &&& run.state.log.take(n) == state.log
            &&& run.state.log[n] matches Exchange::Create { host, spec, expected, reply }
            &&& host == workspace.remote_host && is_spec_for(spec, workspace) && expected
                == workspace.daemon_id
            &&& differs_only_at(state.rows, run.state.rows, workspace.id)
            &&& reply is Err ==> run.result is Err
            &&& run.result is Ok ==> {
                &&& reply matches Ok((session, daemon))
                &&& run.workspace == (WorkspaceView {
                    daemon_id: owner_after(workspace, daemon),
                    terminal_session_id: Some(session),
                    status: WorkspaceStatus::Running,
                    ..workspace
                })
                &&& stores(run.state.rows, run.workspace)
            }
            &&& run.result is Err && reply is Ok ==> exists|taken: Seq<char>| #[trigger]
                is_taken(state.rows, workspace.id, taken) && (taken == reply->Ok_0.0
                    || workspace.terminal_session_id == Some(taken))
        }),
{
    let id = workspace.id;
    let spec = sessions::spec_of(workspace);
    let run = sessions::starting(state, later, workspace);
    registry::lemma_position(state.rows, id);
    let at = registry::position(state.rows, id);
    let (asked, reply) = replay::create(
        state,
        later,
        workspace.remote_host,
        spec,
        workspace.daemon_id,
    );
    assert(asked.log.take(state.log.len() as int) =~= state.log);
    match reply {
        Err(cause) => {
            let change = registry::status_change(WorkspaceStatus::Error);
            lemma_record_is_free(asked.rows, at, change(asked.rows[at]));
            lemma_changed(asked.rows, id, change);
        },
        Ok((session, daemon)) => {
            let owner = sessions::or_else(workspace.daemon_id, daemon);
            let change = registry::route_change(workspace.remote_host, owner);
            lemma_changed(asked.rows, id, change);
            match registry::changed(asked.rows, id, change) {
                None => {
                    let row = change(asked.rows[at]);
                    let k = choose|k: int|
                        0 <= k < asked.rows.len() && k != at && row.same_record(
                            #[trigger] asked.rows[k],
                        );
                    if k < at {
                        assert(asked.rows[k].workspace.id != asked.rows[at].workspace.id);
                    } else {
                        assert(asked.rows[at].workspace.id != asked.rows[k].workspace.id);
                    }
                    assert(is_taken(state.rows, id, workspace.terminal_session_id->0));
                },
                Some(rows) => {
                    let bound = ServiceView { rows, ..asked };
                    let owned = WorkspaceView { daemon_id: owner, ..workspace };
                    lemma_adopting(bound, owned, session);
                    let adopted = sessions::adopting(bound, owned, session);
                    if adopted.result is Ok {
                        lemma_differs_transitive(state.rows, rows, adopted.state.rows, id);
                    } else {
                        let k = choose|k: int|
                            0 <= k < rows.len() && (#[trigger] rows[k]).workspace.id != id
                                && rows[k].used_by_client_at is Some
                                && rows[k].workspace.terminal_session_id == Some(session);
                        assert(state.rows[k] == rows[k]);
                        assert(is_taken(state.rows, id, session));
                    }
                },
            }
        },
    }
}

/// What clearing duplicates away leaves of the table: all but them.
proof fn lemma_dropping(
    state: ServiceView,
    later: ServiceView,
    workspace: WorkspaceView,
    daemon: Option<Seq<char>>,
    duplicates: Seq<WorkspaceView>,
)
    requires
        registry::is_table(state.rows),
    ensures
        ({
            let run = reset::dropping(state, later, workspace, daemon, duplicates);
            let n = state.log.len() as int;
            &&& registry::is_table(run.state.rows)
            &&& run.state.hosts == state.hosts
            &&& run.state.connects == state.connects
            &&& run.state.log.len() >= n
            &&& run.state.log.take(n) == state.log
            &&& forall|k: int|
                n <= k < run.state.log.len() ==> (
                #[trigger] run.state.log[k] matches Exchange::KillWorkspace {
                    host,
                    workspace_id,
                    expected,
                    ..
                } && host == workspace.remote_host && workspace_id != wire_id(workspace)
                    && expected == daemon)
            &&& forall|row: RowView|
                #![trigger run.state.rows.contains(row)]
                run.state.rows.contains(row) ==> state.rows.contains(row)
            &&& forall|row: RowView|
                #![trigger run.state.rows.contains(row)]
                state.rows.contains(row) && (forall|d: int|
                    0 <= d < duplicates.len() ==> (#[trigger] duplicates[d]).id
                        != row.workspace.id) ==> run.state.rows.contains(row)
            &&& run.result is Ok ==> forall|d: int, k: int|
                #![trigger duplicates[d], run.state.rows[k]]
                0 <= d < duplicates.len() && 0 <= k < run.state.rows.len()
                    ==> run.state.rows[k].workspace.id != duplicates[d].id
        }),
    decreases duplicates.len(),
{
    let run = reset::dropping(state, later, workspace, daemon, duplicates);
    let n = state.log.len() as int;
    if duplicates.len() > 0 {
        let rest = duplicates.drop_last();
        let last = duplicates.last();
        lemma_dropping(state, later, workspace, daemon, rest);
        let before = reset::dropping(state, later, workspace, daemon, rest);
        assert(forall|d: int| 0 <= d < rest.len() ==> rest[d] == duplicates[d]);
        if before.result is Ok {
            lemma_without(before.state.rows, last.id);
            let one = reset::dropping_one(before.state, later, workspace, daemon, last);
            assert(one.state.log.take(n) =~= before.state.log.take(n));
            assert forall|k: int| n <= k < run.state.log.len() implies (
            #[trigger] run.state.log[k] matches Exchange::KillWorkspace {
                host,
                workspace_id,
                expected,
                ..
            } && host == workspace.remote_host && workspace_id != wire_id(workspace) && expected
                == daemon) by {
                if k < before.state.log.len() {
                    assert(run.state.log[k] == before.state.log[k]);
                }
            }
            assert forall|row: RowView|
                #![trigger run.state.rows.contains(row)]
                run.state.rows.contains(row) implies state.rows.contains(row) by {
                let k = choose|k: int| 0 <= k < run.state.rows.len() && run.state.rows[k] == row;
                assert(before.state.rows.contains(row));
            }
            assert forall|row: RowView|
                #![trigger run.state.rows.contains(row)]
                state.rows.contains(row) && (forall|d: int|
                    0 <= d < duplicates.len() ==> (#[trigger] duplicates[d]).id
                        != row.workspace.id) implies run.state.rows.contains(row) by {
                assert(forall|d: int| 0 <= d < rest.len() ==> (#[trigger] rest[d]).id
                    != row.workspace.id) by {
                    assert(forall|d: int| 0 <= d < rest.len() ==> rest[d] == duplicates[d]);
                }
                assert(before.state.rows.contains(row));
                let k = choose|k: int|
                    0 <= k < before.state.rows.len() && before.state.rows[k] == row;
                assert(duplicates[duplicates.len() - 1].id != row.workspace.id);
                assert(before.state.rows[k].workspace.id != last.id);
            }
            if one.result is Ok {
                assert forall|d: int, k: int|
                    #![trigger duplicates[d], run.state.rows[k]]
                    0 <= d < duplicates.len() && 0 <= k
                        < run.state.rows.len() implies run.state.rows[k].workspace.id
                    != duplicates[d].id by {
                    assert(before.state.rows.contains(run.state.rows[k]));
                    if d < rest.len() {
                        let j = choose|j: int|
                            0 <= j < before.state.rows.len() && before.state.rows[j]
                                == run.state.rows[k];
                        assert(rest[d] == duplicates[d]);
                        assert(before.state.rows[j].workspace.id != rest[d].id);
                    }
                }
            }
        } else {
            assert forall|row: RowView|
                #![trigger run.state.rows.contains(row)]
                state.rows.contains(row) && (forall|d: int|
                    0 <= d < duplicates.len() ==> (#[trigger] duplicates[d]).id
                        != row.workspace.id) implies run.state.rows.contains(row) by {
                assert(forall|d: int| 0 <= d < rest.len() ==> (#[trigger] rest[d]).id
                    != row.workspace.id) by {
                    assert(forall|d: int| 0 <= d < rest.len() ==> rest[d] == duplicates[d]);
                }
                assert(before.state.rows.contains(row));
            }
        }
    } else {
        assert(run.state.log.take(n) =~= state.log);
    }
}

/// Whether a row is a duplicate of a workspace that a reset clears away: another
/// row in use on the same host and daemon, of the same record, or of the same
/// project at the same path.
pub open spec fn is_cleared_by_reset(row: RowView, workspace: WorkspaceView) -> bool {
    &&& row.used_by_client_at is Some
    &&& row.workspace.id != workspace.id
    &&& row.workspace.remote_host == workspace.remote_host
    &&& row.workspace.daemon_id == workspace.daemon_id
    &&& wire_id(row.workspace) == wire_id(workspace) || (row.workspace.project_id
        == workspace.project_id && crate::paths::is_same(
        row.workspace.repository_path,
        workspace.repository_path,
    ))
}

/// Whether a table has this workspace in a row that is kept.
pub open spec fn stores_where(
    rows: Seq<RowView>,
    keep: spec_fn(RowView) -> bool,
    workspace: WorkspaceView,
) -> bool {
    exists|j: int|
        0 <= j < rows.len() && (#[trigger] rows[j]).workspace == workspace && keep(rows[j])
}

/// The rows a listing has are the kept rows of the table.
pub proof fn lemma_listing(rows: Seq<RowView>, keep: spec_fn(RowView) -> bool)
    ensures
        forall|k: int|
            0 <= k < registry::listing(rows, keep).len() ==> stores_where(
                rows,
                keep,
                #[trigger] registry::listing(rows, keep)[k],
            ),
        forall|j: int|
            0 <= j < rows.len() && keep(#[trigger] rows[j]) ==> registry::listing(
                rows,
                keep,
            ).contains(rows[j].workspace),
{
    let kept = rows.filter(keep);
    let plain = registry::workspaces_where(rows, keep);
    let list = registry::listing(rows, keep);
    crate::order::lemma_ranked_is_sorted::<workspace::AdeWorkspace>(plain);
    assert forall|k: int| 0 <= k < list.len() implies stores_where(
        rows,
        keep,
        #[trigger] list[k],
    ) by {
        assert(list.contains(list[k]));
        crate::order::law_a_sort_keeps_its_elements::<workspace::AdeWorkspace>(
            plain,
            list,
            list[k],
        );
        let m = choose|m: int| 0 <= m < plain.len() && plain[m] == list[k];
        rows.lemma_filter_contains_rev(keep, kept[m]);
        rows.lemma_filter_pred(keep, m);
        let j = choose|j: int| 0 <= j < rows.len() && rows[j] == kept[m];
        assert(rows[j].workspace == list[k]);
    }
    assert forall|j: int| 0 <= j < rows.len() && keep(#[trigger] rows[j]) implies list.contains(
        rows[j].workspace,
    ) by {
        rows.lemma_filter_contains(keep, j);
        let m = choose|m: int| 0 <= m < kept.len() && kept[m] == rows[j];
        assert(plain[m] == rows[j].workspace);
        assert(plain.contains(rows[j].workspace));
        crate::order::law_a_sort_keeps_its_elements::<workspace::AdeWorkspace>(
            plain,
            list,
            rows[j].workspace,
        );
    }
}

/// A reset that succeeds has ended by clearing the workspace's own record of its
/// sessions, asking for one new session of it in its own checkout, and asking the
/// way onto that one. The workspace is stored with it, as running; its duplicates
/// are gone from the table, and every other row is what it was.
pub proof fn law_a_reset_workspace_runs_again(
    state: ServiceView,
    later: ServiceView,
    workspace: WorkspaceView,
)
    requires
        registry::is_table(state.rows),
        stores(state.rows, workspace),
        reset::resetting(state, later, workspace.id).result is Ok,
    ensures
        ({
            let run = reset::resetting(state, later, workspace.id);
            let (left, way) = run.result->Ok_0;
            let m = run.state.log.len() - 3;
            &&& m >= state.log.len()
            &&& run.state.log.take(state.log.len() as int) == state.log
            &&& run.state.log[m] matches Exchange::Reset {
                host: host_reset,
                session,
                directory,
                expected: fence,
                reply: Ok(()),
            }
            &&& host_reset == workspace.remote_host && session == wire_id(workspace) && directory
                == workspace.repository_path
            &&& workspace.daemon_id is Some ==> fence == workspace.daemon_id
            &&& run.state.log[m + 1] matches Exchange::Create {
                host: host_created,
                spec,
                expected,
                reply: Ok((made, daemon)),
            }
            &&& host_created == workspace.remote_host && is_spec_for(spec, workspace) && expected
                == fence
            &&& run.state.log[m + 2] matches Exchange::Attach {
                host: host_attached,
                spec: attached,
                expected: owner,
                reply: Ok(answered),
            }
            &&& host_attached == workspace.remote_host && is_spec_for(attached, left) && owner
                == left.daemon_id && answered == way
            &&& left == (WorkspaceView {
                daemon_id: if fence is Some {
                    fence
                } else {
                    daemon
                },
                terminal_session_id: Some(made),
                status: WorkspaceStatus::Running,
                ..workspace
            })
            &&& stores(run.state.rows, left)
            &&& forall|k: int|
                0 <= k < state.rows.len() && (#[trigger] state.rows[k]).workspace.id
                    != workspace.id ==> (run.state.rows.contains(state.rows[k])
                    <==> !is_cleared_by_reset(state.rows[k], workspace))
            &&& forall|k: int|
                0 <= k < run.state.rows.len() && (#[trigger] run.state.rows[k]).workspace.id
                    != workspace.id ==> state.rows.contains(run.state.rows[k])
        }),
{
    lemma_stored(state.rows, workspace);
    let id = workspace.id;
    let n = state.log.len() as int;
    let run = reset::resetting(state, later, id);
    let (left, way) = run.result->Ok_0;
    lemma_reached(state, later, workspace.remote_host);
    let (reached, connected) = replay::connect(state, later, workspace.remote_host);
    let changed = "the daemon changed while preparing to reset workspace "@;
    lemma_fenced(reached, later, workspace, changed);
    let fence = sessions::fencing(reached, later, workspace, changed);
    let daemon = fence.result->Ok_0;
    let duplicates = reset::duplicates_of(state.rows, workspace);
    lemma_dropping(fence.state, later, workspace, daemon, duplicates);
    let cleared = reset::dropping(fence.state, later, workspace, daemon, duplicates);
    let (killed, reply) = replay::reset(
        cleared.state,
        later,
        workspace.remote_host,
        workspace.daemon_workspace_id(),
        workspace.repository_path,
        daemon,
    );
    let owned = WorkspaceView {
        daemon_id: sessions::or_else(workspace.daemon_id, daemon),
        ..workspace
    };
    let at = choose|k: int| 0 <= k < state.rows.len() && (
    #[trigger] state.rows[k]).workspace == workspace;
    lemma_duplicates(state.rows, workspace);
    assert(cleared.state.rows.contains(state.rows[at]));
    let now_at = choose|k: int|
        0 <= k < cleared.state.rows.len() && cleared.state.rows[k] == state.rows[at];
    registry::lemma_position_is(cleared.state.rows, id, now_at);
    lemma_starting_owned(killed, later, workspace, owned);
    let started = sessions::starting(killed, later, owned);
    law_an_attach_is_of_the_workspace_itself(started.state, later, started.workspace);
    let m = killed.log.len() - 1;
    assert(run.state.log.len() == m + 3);
    assert(killed.log.take(n) =~= cleared.state.log.take(n));
    assert(cleared.state.log.take(fence.state.log.len() as int).take(n)
        =~= cleared.state.log.take(n));
    assert(started.state.log.take(m + 1).take(n) =~= started.state.log.take(n));
    assert(run.state.log.take(m + 2).take(n) =~= run.state.log.take(n));
    assert(run.state.log[m + 1] == run.state.log.take(m + 2)[m + 1]);
    assert(run.state.log[m] == run.state.log.take(m + 2)[m]);
    assert(started.state.log[m] == started.state.log.take(m + 1)[m]);
    assert forall|k: int| 0 <= k < state.rows.len() && (#[trigger] state.rows[k]).workspace.id
        != id implies (run.state.rows.contains(state.rows[k]) <==> !is_cleared_by_reset(
        state.rows[k],
        workspace,
    )) by {
        let row = state.rows[k];
        assert(state.rows.contains(row));
        if is_cleared_by_reset(row, workspace) {
            let d = choose|d: int| 0 <= d < duplicates.len() && duplicates[d] == row.workspace;
            if run.state.rows.contains(row) {
                let j = choose|j: int| 0 <= j < run.state.rows.len() && run.state.rows[j] == row;
                assert(killed.rows[j] == row);
                assert(cleared.state.rows[j].workspace.id != duplicates[d].id);
            }
        } else {
            assert forall|d: int| 0 <= d < duplicates.len() implies (#[trigger] duplicates[d]).id
                != row.workspace.id by {
                let cleared_away = |row: RowView| is_cleared_by_reset(row, workspace);
                assert(stores_where(state.rows, cleared_away, duplicates[d]));
                let j = choose|j: int|
                    0 <= j < state.rows.len() && (#[trigger] state.rows[j]).workspace
                        == duplicates[d] && cleared_away(state.rows[j]);
                if j < k {
                    assert(state.rows[j].workspace.id != state.rows[k].workspace.id);
                } else if k < j {
                    assert(state.rows[k].workspace.id != state.rows[j].workspace.id);
                }
            }
            assert(cleared.state.rows.contains(row));
            let j = choose|j: int|
                0 <= j < cleared.state.rows.len() && cleared.state.rows[j] == row;
            assert(run.state.rows[j] == row);
        }
    }
    assert forall|k: int| 0 <= k < run.state.rows.len() && (
    #[trigger] run.state.rows[k]).workspace.id != id implies state.rows.contains(
        run.state.rows[k],
    ) by {
        assert(killed.rows[k] == run.state.rows[k]);
        assert(cleared.state.rows.contains(run.state.rows[k]));
    }
}

proof fn lemma_duplicates(rows: Seq<RowView>, workspace: WorkspaceView)
    ensures
        forall|d: int|
            0 <= d < reset::duplicates_of(rows, workspace).len() ==> stores_where(
                rows,
                |row: RowView| is_cleared_by_reset(row, workspace),
                #[trigger] reset::duplicates_of(rows, workspace)[d],
            ),
        forall|j: int|
            0 <= j < rows.len() && is_cleared_by_reset(#[trigger] rows[j], workspace)
                ==> reset::duplicates_of(rows, workspace).contains(rows[j].workspace),
{
    let list = registry::listing(rows, registry::used_rows());
    let keep = |candidate: WorkspaceView| reset::is_duplicate(candidate, workspace);
    let found = reset::duplicates_of(rows, workspace);
    lemma_listing(rows, registry::used_rows());
    let cleared = |row: RowView| is_cleared_by_reset(row, workspace);
    assert forall|d: int| 0 <= d < found.len() implies stores_where(
        rows,
        cleared,
        #[trigger] found[d],
    ) by {
        list.lemma_filter_contains_rev(keep, found[d]);
        list.lemma_filter_pred(keep, d);
        let k = choose|k: int| 0 <= k < list.len() && list[k] == found[d];
        assert(stores_where(rows, registry::used_rows(), list[k]));
        let j = choose|j: int|
            0 <= j < rows.len() && (#[trigger] rows[j]).workspace == list[k] && (
            registry::used_rows())(rows[j]);
        assert(is_cleared_by_reset(rows[j], workspace));
    }
    assert forall|j: int| 0 <= j < rows.len() && is_cleared_by_reset(
        #[trigger] rows[j],
        workspace,
    ) implies found.contains(rows[j].workspace) by {
        assert((registry::used_rows())(rows[j]));
        let k = choose|k: int| 0 <= k < list.len() && list[k] == rows[j].workspace;
        assert(keep(list[k]));
        list.lemma_filter_contains(keep, k);
    }
}

} // verus!
