//! One call on a backend, from the value it has before to the value it has
//! after.
//!
//! Each function here makes one call, of the method it is named after, and
//! hands the backend back. What a service records of a backend is such calls.

use crate::session_backend::{
    Attached, BackendWorkspace, Identified, IdentifiedDaemonEvent, LayoutDoc, SessionBackend,
    SessionId, SessionInfo, SessionSpec, WorkspaceLayout,
};
use smol::channel::Receiver;
use vstd::prelude::*;

verus! {

/// Creates a session.
pub fn create_identified<B: SessionBackend>(
    backend: B,
    spec: &SessionSpec,
    expected_daemon_id: Option<&str>,
) -> (after: (B, Result<(SessionId, Option<String>), String>))
    ensures
        exists|put: &mut B, answer: Result<(SessionId, Option<String>), String>|
            {
                &&& *put == backend
                &&& *final(put) == after.0
                &&& answer == after.1
                &&& #[trigger] call_ensures(
                    B::create_identified,
                    (put, spec, expected_daemon_id),
                    answer,
                )
            },
{
    let mut backend = backend;
    let answer = backend.create_identified(spec, expected_daemon_id);
    (backend, answer)
}

/// Creates one more session in a workspace.
pub fn create_session_in_workspace_identified<B: SessionBackend>(
    backend: B,
    id: &str,
    place: &str,
    expected_daemon_id: Option<&str>,
) -> (after: (B, Result<(String, Option<String>), String>))
    ensures
        exists|put: &mut B, answer: Result<(String, Option<String>), String>|
            {
                &&& *put == backend
                &&& *final(put) == after.0
                &&& answer == after.1
                &&& #[trigger] call_ensures(
                    B::create_session_in_workspace_identified,
                    (put, id, place, expected_daemon_id),
                    answer,
                )
            },
{
    let mut backend = backend;
    let answer = backend.create_session_in_workspace_identified(id, place, expected_daemon_id);
    (backend, answer)
}

/// Lists the live sessions.
pub fn list_identified<B: SessionBackend>(
    backend: B,
) -> (after: (B, Result<Identified<SessionInfo>, String>))
    ensures
        exists|put: &mut B, answer: Result<Identified<SessionInfo>, String>|
            {
                &&& *put == backend
                &&& *final(put) == after.0
                &&& answer == after.1
                &&& #[trigger] call_ensures(B::list_identified, (put,), answer)
            },
{
    let mut backend = backend;
    let answer = backend.list_identified();
    (backend, answer)
}

/// Lists the workspaces.
pub fn list_workspaces_identified<B: SessionBackend>(
    backend: B,
) -> (after: (B, Result<Identified<BackendWorkspace>, String>))
    ensures
        exists|put: &mut B, answer: Result<Identified<BackendWorkspace>, String>|
            {
                &&& *put == backend
                &&& *final(put) == after.0
                &&& answer == after.1
                &&& #[trigger] call_ensures(B::list_workspaces_identified, (put,), answer)
            },
{
    let mut backend = backend;
    let answer = backend.list_workspaces_identified();
    (backend, answer)
}

/// Looks up the repository of a path.
pub fn resolve_repository<B: SessionBackend>(
    backend: B,
    place: &str,
) -> (after: (B, Result<(String, String), String>))
    ensures
        exists|put: &mut B, answer: Result<(String, String), String>|
            {
                &&& *put == backend
                &&& *final(put) == after.0
                &&& answer == after.1
                &&& #[trigger] call_ensures(B::resolve_repository, (put, place), answer)
            },
{
    let mut backend = backend;
    let answer = backend.resolve_repository(place);
    (backend, answer)
}

/// Writes a record's project.
pub fn update_workspace_project_scope<B: SessionBackend>(
    backend: B,
    id: &str,
    project: &str,
    identity: &str,
    root: Option<&str>,
    least: Option<u64>,
    expected_daemon_id: Option<&str>,
) -> (after: (B, Result<Option<u64>, String>))
    ensures
        exists|put: &mut B, answer: Result<Option<u64>, String>|
            {
                &&& *put == backend
                &&& *final(put) == after.0
                &&& answer == after.1
                &&& #[trigger] call_ensures(
                    B::update_workspace_project_scope,
                    (put, id, project, identity, root, least, expected_daemon_id),
                    answer,
                )
            },
{
    let mut backend = backend;
    let answer = backend.update_workspace_project_scope(
        id,
        project,
        identity,
        root,
        least,
        expected_daemon_id,
    );
    (backend, answer)
}

/// Looks whether a session is alive.
pub fn session_exists<B: SessionBackend>(
    backend: B,
    id: &SessionId,
    expected_daemon_id: Option<&str>,
) -> (after: (B, Result<bool, String>))
    ensures
        exists|put: &mut B, answer: Result<bool, String>|
            {
                &&& *put == backend
                &&& *final(put) == after.0
                &&& answer == after.1
                &&& #[trigger] call_ensures(
                    B::session_exists,
                    (put, id, expected_daemon_id),
                    answer,
                )
            },
{
    let mut backend = backend;
    let answer = backend.session_exists(id, expected_daemon_id);
    (backend, answer)
}

/// Gets onto a session, creating it if it is gone.
pub fn attach<B: SessionBackend>(
    backend: B,
    spec: &SessionSpec,
    expected_daemon_id: Option<&str>,
) -> (after: (B, Result<Attached, String>))
    ensures
        exists|put: &mut B, answer: Result<Attached, String>|
            {
                &&& *put == backend
                &&& *final(put) == after.0
                &&& answer == after.1
                &&& #[trigger] call_ensures(B::attach, (put, spec, expected_daemon_id), answer)
            },
{
    let mut backend = backend;
    let answer = backend.attach(spec, expected_daemon_id);
    (backend, answer)
}

/// Gets onto a session that exists.
pub fn attach_session<B: SessionBackend>(
    backend: B,
    id: &str,
    expected_daemon_id: Option<&str>,
) -> (after: (B, Result<Vec<String>, String>))
    ensures
        exists|put: &mut B, answer: Result<Vec<String>, String>|
            {
                &&& *put == backend
                &&& *final(put) == after.0
                &&& answer == after.1
                &&& #[trigger] call_ensures(
                    B::attach_session,
                    (put, id, expected_daemon_id),
                    answer,
                )
            },
{
    let mut backend = backend;
    let answer = backend.attach_session(id, expected_daemon_id);
    (backend, answer)
}

/// Drops the clients of a session.
pub fn detach<B: SessionBackend>(
    backend: B,
    id: &SessionId,
) -> (after: (B, Result<(), String>))
    ensures
        exists|put: &mut B, answer: Result<(), String>|
            {
                &&& *put == backend
                &&& *final(put) == after.0
                &&& answer == after.1
                &&& #[trigger] call_ensures(B::detach, (put, id), answer)
            },
{
    let mut backend = backend;
    let answer = backend.detach(id);
    (backend, answer)
}

/// Kills a workspace's sessions.
pub fn kill<B: SessionBackend>(
    backend: B,
    id: &SessionId,
    expected_daemon_id: Option<&str>,
) -> (after: (B, Result<(), String>))
    ensures
        exists|put: &mut B, answer: Result<(), String>|
            {
                &&& *put == backend
                &&& *final(put) == after.0
                &&& answer == after.1
                &&& #[trigger] call_ensures(B::kill, (put, id, expected_daemon_id), answer)
            },
{
    let mut backend = backend;
    let answer = backend.kill(id, expected_daemon_id);
    (backend, answer)
}

/// Kills a workspace's sessions, to start them over.
pub fn reset_workspace_sessions<B: SessionBackend>(
    backend: B,
    id: &SessionId,
    place: &str,
    expected_daemon_id: Option<&str>,
) -> (after: (B, Result<(), String>))
    ensures
        exists|put: &mut B, answer: Result<(), String>|
            {
                &&& *put == backend
                &&& *final(put) == after.0
                &&& answer == after.1
                &&& #[trigger] call_ensures(
                    B::reset_workspace_sessions,
                    (put, id, place, expected_daemon_id),
                    answer,
                )
            },
{
    let mut backend = backend;
    let answer = backend.reset_workspace_sessions(id, place, expected_daemon_id);
    (backend, answer)
}

/// Kills one session.
pub fn kill_session<B: SessionBackend>(
    backend: B,
    id: &str,
    expected_daemon_id: Option<&str>,
) -> (after: (B, Result<(), String>))
    ensures
        exists|put: &mut B, answer: Result<(), String>|
            {
                &&& *put == backend
                &&& *final(put) == after.0
                &&& answer == after.1
                &&& #[trigger] call_ensures(B::kill_session, (put, id, expected_daemon_id), answer)
            },
{
    let mut backend = backend;
    let answer = backend.kill_session(id, expected_daemon_id);
    (backend, answer)
}

/// Kills a workspace's sessions and its record.
pub fn kill_workspace<B: SessionBackend>(
    backend: B,
    id: &str,
    expected_daemon_id: Option<&str>,
) -> (after: (B, Result<(), String>))
    ensures
        exists|put: &mut B, answer: Result<(), String>|
            {
                &&& *put == backend
                &&& *final(put) == after.0
                &&& answer == after.1
                &&& #[trigger] call_ensures(
                    B::kill_workspace,
                    (put, id, expected_daemon_id),
                    answer,
                )
            },
{
    let mut backend = backend;
    let answer = backend.kill_workspace(id, expected_daemon_id);
    (backend, answer)
}

/// Gives a workspace another name.
pub fn rename_workspace<B: SessionBackend>(
    backend: B,
    id: &str,
    new_name: &str,
    expected_daemon_id: Option<&str>,
) -> (after: (B, Result<(), String>))
    ensures
        exists|put: &mut B, answer: Result<(), String>|
            {
                &&& *put == backend
                &&& *final(put) == after.0
                &&& answer == after.1
                &&& #[trigger] call_ensures(
                    B::rename_workspace,
                    (put, id, new_name, expected_daemon_id),
                    answer,
                )
            },
{
    let mut backend = backend;
    let answer = backend.rename_workspace(id, new_name, expected_daemon_id);
    (backend, answer)
}

/// Gives a session another size.
pub fn resize_session<B: SessionBackend>(
    backend: B,
    id: &str,
    width: u16,
    height: u16,
    expected_daemon_id: Option<&str>,
) -> (after: (B, Result<(), String>))
    ensures
        exists|put: &mut B, answer: Result<(), String>|
            {
                &&& *put == backend
                &&& *final(put) == after.0
                &&& answer == after.1
                &&& #[trigger] call_ensures(
                    B::resize_session,
                    (put, id, width, height, expected_daemon_id),
                    answer,
                )
            },
{
    let mut backend = backend;
    let answer = backend.resize_session(id, width, height, expected_daemon_id);
    (backend, answer)
}

/// Reads a workspace's layout.
pub fn open_workspace_identified<B: SessionBackend>(
    backend: B,
    id: &str,
    expected_daemon_id: Option<&str>,
) -> (after: (B, Result<(WorkspaceLayout, Option<String>), String>))
    ensures
        exists|put: &mut B, answer: Result<(WorkspaceLayout, Option<String>), String>|
            {
                &&& *put == backend
                &&& *final(put) == after.0
                &&& answer == after.1
                &&& #[trigger] call_ensures(
                    B::open_workspace_identified,
                    (put, id, expected_daemon_id),
                    answer,
                )
            },
{
    let mut backend = backend;
    let answer = backend.open_workspace_identified(id, expected_daemon_id);
    (backend, answer)
}

/// Stores a workspace's layout.
pub fn update_layout<B: SessionBackend>(
    backend: B,
    id: &str,
    layout: &LayoutDoc,
    rev: u64,
    expected_daemon_id: Option<&str>,
) -> (after: (B, Result<(), String>))
    ensures
        exists|put: &mut B, answer: Result<(), String>|
            {
                &&& *put == backend
                &&& *final(put) == after.0
                &&& answer == after.1
                &&& #[trigger] call_ensures(
                    B::update_layout,
                    (put, id, layout, rev, expected_daemon_id),
                    answer,
                )
            },
{
    let mut backend = backend;
    let answer = backend.update_layout(id, layout, rev, expected_daemon_id);
    (backend, answer)
}

/// Opens the stream of events.
pub fn subscribe_events<B: SessionBackend>(
    backend: B,
) -> (after: (B, Result<Receiver<IdentifiedDaemonEvent>, String>))
    ensures
        exists|put: &mut B, answer: Result<Receiver<IdentifiedDaemonEvent>, String>|
            {
                &&& *put == backend
                &&& *final(put) == after.0
                &&& answer == after.1
                &&& #[trigger] call_ensures(B::subscribe_events, (put,), answer)
            },
{
    let mut backend = backend;
    let answer = backend.subscribe_events();
    (backend, answer)
}

/// Replaces the host's daemon.
pub fn upgrade_daemon<B: SessionBackend>(
    backend: B,
) -> (after: (B, Result<B::UpgradeOutcome, String>))
    ensures
        exists|put: &mut B, answer: Result<B::UpgradeOutcome, String>|
            {
                &&& *put == backend
                &&& *final(put) == after.0
                &&& answer == after.1
                &&& #[trigger] call_ensures(B::upgrade_daemon, (put,), answer)
            },
{
    let mut backend = backend;
    let answer = backend.upgrade_daemon();
    (backend, answer)
}

/// Hands over what to run when the host's daemon falls behind or catches up.
pub fn observe_daemon_freshness<B: SessionBackend>(
    backend: B,
    observer: B::DaemonFreshnessObserver,
) -> (after: B)
    ensures
        exists|put: &mut B|
            {
                &&& *put == backend
                &&& *final(put) == after
                &&& #[trigger] call_ensures(B::observe_daemon_freshness, (put, observer), ())
            },
{
    let mut backend = backend;
    backend.observe_daemon_freshness(observer);
    backend
}

} // verus!
