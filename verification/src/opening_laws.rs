//! What the questions about the sessions and the layout of a workspace ask, of
//! whom, and what comes of the answers.

use crate::entry::FailureView;
use crate::opening;
use crate::registry;
use crate::registry::RowView;
use crate::replay;
use crate::service::{Exchange, ServiceView};
use crate::session_laws;
use crate::workspace::WorkspaceView;
use vstd::prelude::*;

verus! {

/// That an answer is passed on as it came, a refusal as the whole message.
pub open spec fn passes_on<T>(reply: Result<T, Seq<char>>, result: Result<T, FailureView>) -> bool {
    match (reply, result) {
        (Ok(value), Ok(passed)) => passed == value,
        (Err(cause), Err(failure)) => failure == FailureView::Message(cause),
        _ => false,
    }
}

/// The way onto one session is asked of the workspace's own host, for that session
/// and under the identity of the row's daemon. It is passed on as it came.
pub proof fn law_an_attach_names_the_session(
    state: ServiceView,
    later: ServiceView,
    workspace: WorkspaceView,
    named: Seq<char>,
)
    ensures
        ({
            let run = opening::attaching_session(state, later, workspace, named);
            let n = state.log.len() as int;
            &&& run.state.rows == state.rows
            &&& if session_laws::is_unreached(state, run.state, workspace.remote_host) {
                run.state.log == state.log && run.result is Err
            } else {
                &&& run.state.log.len() == n + 1
                &&& run.state.log.take(n) == state.log
                &&& run.state.log[n] matches Exchange::AttachSession { host, session, expected, reply }
                &&& host == workspace.remote_host && session == named && expected == workspace.daemon_id
                &&& passes_on(reply, run.result)
            }
        }),
{
    let host = workspace.remote_host;
    session_laws::lemma_reached(state, later, host);
    let run = opening::attaching_session(state, later, workspace, named);
    let n = state.log.len() as int;
    if replay::connect(state, later, host).1 is Ok {
        assert(run.state.log.take(n) =~= state.log);
    }
}

/// A session is resized on the workspace's own host, to the width and the height
/// that were asked for.
pub proof fn law_a_resize_is_of_the_session_to_the_size(
    state: ServiceView,
    later: ServiceView,
    workspace: WorkspaceView,
    named: Seq<char>,
    width: u16,
    height: u16,
)
    ensures
        ({
            let run = opening::resizing(state, later, workspace, named, width, height);
            let n = state.log.len() as int;
            &&& run.state.rows == state.rows
            &&& if session_laws::is_unreached(state, run.state, workspace.remote_host) {
                run.state.log == state.log && run.result is Err
            } else {
                &&& run.state.log.len() == n + 1
                &&& run.state.log.take(n) == state.log
                &&& run.state.log[n] matches Exchange::Resize { host, session, cols, rows, expected, reply }
                &&& host == workspace.remote_host && session == named && cols == width && rows == height
                    && expected == workspace.daemon_id
                &&& passes_on(reply, run.result)
            }
        }),
{
    let host = workspace.remote_host;
    session_laws::lemma_reached(state, later, host);
    let run = opening::resizing(state, later, workspace, named, width, height);
    let n = state.log.len() as int;
    if replay::connect(state, later, host).1 is Ok {
        assert(run.state.log.take(n) =~= state.log);
    }
}

/// The layout that is read is what the workspace's own host holds under its id.
pub proof fn law_a_layout_is_read_of_the_workspace(
    state: ServiceView,
    later: ServiceView,
    workspace: WorkspaceView,
)
    ensures
        ({
            let run = opening::reading_layout(state, later, workspace);
            let n = state.log.len() as int;
            &&& run.state.rows == state.rows
            &&& if session_laws::is_unreached(state, run.state, workspace.remote_host) {
                run.state.log == state.log && run.result is Err
            } else {
                &&& run.state.log.len() == n + 1
                &&& run.state.log.take(n) == state.log
                &&& run.state.log[n] matches Exchange::OpenLayout { host, workspace_id, expected, reply }
                &&& host == workspace.remote_host && workspace_id == session_laws::wire_id(workspace)
                    && expected == workspace.daemon_id
                &&& match (reply, run.result) {
                    (Ok((layout, _)), Ok(passed)) => passed == layout,
                    (Err(cause), Err(failure)) => failure == FailureView::Message(cause),
                    _ => false,
                }
            }
        }),
{
    let host = workspace.remote_host;
    session_laws::lemma_reached(state, later, host);
    let run = opening::reading_layout(state, later, workspace);
    let n = state.log.len() as int;
    if replay::connect(state, later, host).1 is Ok {
        assert(run.state.log.take(n) =~= state.log);
    }
}

/// A layout is stored on the workspace's own host under its id, as the document that
/// was given and at the revision that was given. A refusal is passed on.
pub proof fn law_a_layout_is_stored_at_its_revision(
    state: ServiceView,
    later: ServiceView,
    workspace: WorkspaceView,
    given: Seq<char>,
    at: u64,
)
    ensures
        ({
            let run = opening::storing_layout(state, later, workspace, given, at);
            let n = state.log.len() as int;
            &&& run.state.rows == state.rows
            &&& if session_laws::is_unreached(state, run.state, workspace.remote_host) {
                run.state.log == state.log && run.result is Err
            } else {
                &&& run.state.log.len() == n + 1
                &&& run.state.log.take(n) == state.log
                &&& run.state.log[n] matches Exchange::UpdateLayout { host, workspace_id, document, rev, expected, reply }
                &&& host == workspace.remote_host && workspace_id == session_laws::wire_id(workspace)
                    && document == given && rev == at && expected == workspace.daemon_id
                &&& passes_on(reply, run.result)
            }
        }),
{
    let host = workspace.remote_host;
    session_laws::lemma_reached(state, later, host);
    let run = opening::storing_layout(state, later, workspace, given, at);
    let n = state.log.len() as int;
    if replay::connect(state, later, host).1 is Ok {
        assert(run.state.log.take(n) =~= state.log);
    }
}

/// Killing one session asks for that session alone, on the workspace's own host.
pub proof fn law_a_closed_tab_kills_its_own_session(
    state: ServiceView,
    later: ServiceView,
    workspace: WorkspaceView,
    named: Seq<char>,
)
    ensures
        ({
            let run = opening::killing_one_session(state, later, workspace, named);
            let n = state.log.len() as int;
            &&& run.state.rows == state.rows
            &&& if session_laws::is_unreached(state, run.state, workspace.remote_host) {
                run.state.log == state.log && run.result is Err
            } else {
                &&& run.state.log.len() == n + 1
                &&& run.state.log.take(n) == state.log
                &&& run.state.log[n] matches Exchange::KillSession { host, session, expected, reply }
                &&& host == workspace.remote_host && session == named && expected == workspace.daemon_id
                &&& passes_on(reply, run.result)
            }
        }),
{
    let host = workspace.remote_host;
    session_laws::lemma_reached(state, later, host);
    let run = opening::killing_one_session(state, later, workspace, named);
    let n = state.log.len() as int;
    if replay::connect(state, later, host).1 is Ok {
        assert(run.state.log.take(n) =~= state.log);
    }
}

/// Replacing a daemon asks the host that was named, and passes on how that went.
pub proof fn law_an_upgrade_is_of_the_host_named(
    state: ServiceView,
    later: ServiceView,
    destination: Seq<char>,
)
    ensures
        ({
            let run = opening::upgrading(state, later, destination);
            let n = state.log.len() as int;
            &&& run.state.rows == state.rows
            &&& if session_laws::is_unreached(state, run.state, Some(destination)) {
                run.state.log == state.log && run.result is Err
            } else {
                &&& run.state.log.len() == n + 1
                &&& run.state.log.take(n) == state.log
                &&& run.state.log[n] matches Exchange::Upgrade { host, reply }
                &&& host == Some(destination)
                &&& passes_on(reply, run.result)
            }
        }),
{
    let host = Some(destination);
    session_laws::lemma_reached(state, later, host);
    let run = opening::upgrading(state, later, destination);
    let n = state.log.len() as int;
    if replay::connect(state, later, host).1 is Ok {
        assert(run.state.log.take(n) =~= state.log);
    }
}

/// That the row of a workspace names a daemon and nothing else changed, in this
/// table or in what is handed back.
pub open spec fn learns_its_daemon(
    before: Seq<RowView>,
    after: Seq<RowView>,
    workspace: WorkspaceView,
    daemon: Option<Seq<char>>,
) -> bool {
    &&& session_laws::differs_only_at(before, after, workspace.id)
    &&& session_laws::stores(after, WorkspaceView { daemon_id: daemon, ..workspace })
}

proof fn lemma_learns(rows: Seq<RowView>, workspace: WorkspaceView, daemon: Option<Seq<char>>)
    requires
        registry::is_table(rows),
        session_laws::stores(rows, workspace),
    ensures
        registry::changed(
            rows,
            workspace.id,
            registry::route_change(workspace.remote_host, daemon),
        ) matches Some(after) ==> learns_its_daemon(rows, after, workspace, daemon),
        registry::changed(
            rows,
            workspace.id,
            registry::route_change(workspace.remote_host, daemon),
        ) is None ==> (workspace.terminal_session_id matches Some(session)
            && session_laws::is_taken(rows, workspace.id, session)),
{
    let k = choose|k: int| 0 <= k < rows.len() && (#[trigger] rows[k]).workspace == workspace;
    registry::lemma_position_is(rows, workspace.id, k);
    let change = registry::route_change(workspace.remote_host, daemon);
    if let Some(after) = registry::changed(rows, workspace.id, change) {
        assert(after[k].workspace == (WorkspaceView { daemon_id: daemon, ..workspace }));
    } else {
        let j = choose|j: int|
            0 <= j < rows.len() && j != k && change(rows[k]).same_record(#[trigger] rows[j]);
        if j < k {
            assert(rows[j].workspace.id != rows[k].workspace.id);
        } else {
            assert(rows[k].workspace.id != rows[j].workspace.id);
        }
        assert(session_laws::is_taken(rows, workspace.id, workspace.terminal_session_id->0));
    }
}

/// One more session of a workspace is created on its own host, under its own id
/// and in the directory asked for, and the way handed back is the way onto that
/// session. A row that named no daemon learns the one that made it; a row that
/// named one keeps it. Nothing else is recorded.
pub proof fn law_an_added_session_is_the_one_handed_back(
    state: ServiceView,
    later: ServiceView,
    workspace: WorkspaceView,
    directory: Seq<char>,
)
    requires
        registry::is_table(state.rows),
        session_laws::stores(state.rows, workspace),
    ensures
        ({
            let run = opening::adding_session(state, later, workspace, directory);
            let n = state.log.len() as int;
            if session_laws::is_unreached(state, run.state, workspace.remote_host) {
                run.state.log == state.log && run.state.rows == state.rows && run.result is Err
            } else {
                &&& run.state.log.len() > n
                &&& run.state.log.take(n) == state.log
                &&& run.state.log[n] matches Exchange::CreateInWorkspace {
                    host,
                    workspace_id,
                    cwd,
                    expected,
                    reply,
                }
                &&& host == workspace.remote_host && workspace_id == session_laws::wire_id(
                    workspace,
                ) && cwd == directory && expected == workspace.daemon_id
                &&& match reply {
                    Err(_) => {
                        &&& run.state.log.len() == n + 1
                        &&& run.state.rows == state.rows
                        &&& run.result is Err
                    },
                    Ok((made, maker)) => {
                        let owner = session_laws::owner_after(workspace, maker);
                        &&& run.state.log.len() == n + 2
                        &&& run.state.log[n + 1] matches Exchange::AttachSession {
                            host,
                            session,
                            expected,
                            reply,
                        }
                        &&& host == workspace.remote_host && session == made && expected == owner
                        &&& match (reply, run.result) {
                            (Ok(argv), Ok((named, way, told))) => {
                                &&& named == made && way == argv && told == owner
                                &&& if workspace.daemon_id is None && maker is Some {
                                    learns_its_daemon(
                                        state.rows,
                                        run.state.rows,
                                        workspace,
                                        maker,
                                    )
                                } else {
                                    run.state.rows == state.rows
                                }
                            },
                            (Ok(_), Err(_)) => {
                                &&& run.state.rows == state.rows
                                &&& workspace.daemon_id is None && maker is Some
                                &&& workspace.terminal_session_id matches Some(session)
                                &&& session_laws::is_taken(state.rows, workspace.id, session)
                            },
                            (Err(cause), Err(failure)) => failure == FailureView::Message(cause)
                                && run.state.rows == state.rows,
                            (Err(_), Ok(_)) => false,
                        }
                    },
                }
            }
        }),
{
    let host = workspace.remote_host;
    session_laws::lemma_reached(state, later, host);
    let run = opening::adding_session(state, later, workspace, directory);
    let n = state.log.len() as int;
    let (reached, connected) = replay::connect(state, later, host);
    if connected is Ok {
        let (made, reply) = replay::create_in_workspace(
            reached,
            later,
            host,
            workspace.daemon_workspace_id(),
            directory,
            workspace.daemon_id,
        );
        assert(run.state.log.take(n) =~= state.log);
        if let Ok((_, maker)) = reply {
            lemma_learns(state.rows, workspace, session_laws::owner_after(workspace, maker));
        }
    }
}

/// A layout is read of the workspace itself, and the answer is handed back. A row
/// that named no daemon learns the one that answered, in the table and in the
/// caller's hand; a row that named one keeps it.
pub proof fn law_an_identified_layout_is_the_workspaces_own(
    state: ServiceView,
    later: ServiceView,
    workspace: WorkspaceView,
)
    requires
        registry::is_table(state.rows),
        session_laws::stores(state.rows, workspace),
    ensures
        ({
            let run = opening::opening_layout(state, later, workspace);
            let n = state.log.len() as int;
            let untouched = run.state.rows == state.rows && run.workspace == workspace;
            if session_laws::is_unreached(state, run.state, workspace.remote_host) {
                run.state.log == state.log && untouched && run.result is Err
            } else {
                &&& run.state.log.len() == n + 1
                &&& run.state.log.take(n) == state.log
                &&& run.state.log[n] matches Exchange::OpenLayout {
                    host,
                    workspace_id,
                    expected,
                    reply,
                }
                &&& host == workspace.remote_host && workspace_id == session_laws::wire_id(
                    workspace,
                ) && expected == workspace.daemon_id
                &&& match (reply, run.result) {
                    (Ok((layout, named)), Ok(passed)) => {
                        &&& passed == layout
                        &&& if workspace.daemon_id is None && named is Some {
                            &&& learns_its_daemon(state.rows, run.state.rows, workspace, named)
                            &&& run.workspace == (WorkspaceView { daemon_id: named, ..workspace })
                        } else {
                            untouched
                        }
                    },
                    (Ok((_, named)), Err(_)) => {
                        &&& untouched
                        &&& workspace.daemon_id is None && named is Some
                        &&& workspace.terminal_session_id matches Some(session)
                        &&& session_laws::is_taken(state.rows, workspace.id, session)
                    },
                    (Err(cause), Err(failure)) => failure == FailureView::Message(cause)
                        && untouched,
                    (Err(_), Ok(_)) => false,
                }
            }
        }),
{
    let host = workspace.remote_host;
    session_laws::lemma_reached(state, later, host);
    let run = opening::opening_layout(state, later, workspace);
    let n = state.log.len() as int;
    let (reached, connected) = replay::connect(state, later, host);
    if connected is Ok {
        let (asked, reply) = replay::open_layout(
            reached,
            later,
            host,
            workspace.daemon_workspace_id(),
            workspace.daemon_id,
        );
        assert(run.state.log.take(n) =~= state.log);
        if let Ok((_, named)) = reply {
            lemma_learns(state.rows, workspace, named);
        }
    }
}

} // verus!
