//! What a history of questions and answers makes of the service.
//!
//! Each operation is stated by replaying it: a function of the state before,
//! and of a later state whose history holds the answers. A step reads the next
//! answer there and leaves the state with that question asked. That an
//! operation ends in the state its replay ends in says both what it asked, in
//! order, and what it made of what it was told.

use crate::entry::FailureView;
use crate::service;
use crate::service::{Exchange, ServiceView};
use crate::session_backend::{AttachedView, RecordView, SpecView};
use vstd::prelude::*;

verus! {

/// Whether one state's history goes on from another's.
pub open spec fn goes_on(before: ServiceView, after: ServiceView) -> bool {
    &&& before.log.is_prefix_of(after.log)
    &&& before.connects.is_prefix_of(after.connects)
}

/// A host's backend is looked for.
pub open spec fn connect(
    state: ServiceView,
    later: ServiceView,
    host: Option<Seq<char>>,
) -> (ServiceView, Result<(), FailureView>) {
    (service::reaching(state, later, host), service::reach(state, later, host))
}

/// A session is asked for.
pub open spec fn create(
    state: ServiceView,
    later: ServiceView,
    host: Option<Seq<char>>,
    spec: SpecView,
    expected: Option<Seq<char>>,
) -> (ServiceView, Result<(Seq<char>, Option<Seq<char>>), Seq<char>>) {
    let reply = match later.log[state.log.len() as int] {
        Exchange::Create { reply, .. } => reply,
        _ => arbitrary(),
    };
    (service::asked(state, Exchange::Create { host, spec, expected, reply }), reply)
}

/// One more session is asked for.
pub open spec fn create_in_workspace(
    state: ServiceView,
    later: ServiceView,
    host: Option<Seq<char>>,
    workspace_id: Seq<char>,
    cwd: Seq<char>,
    expected: Option<Seq<char>>,
) -> (ServiceView, Result<(Seq<char>, Option<Seq<char>>), Seq<char>>) {
    let reply = match later.log[state.log.len() as int] {
        Exchange::CreateInWorkspace { reply, .. } => reply,
        _ => arbitrary(),
    };
    (
        service::asked(
            state,
            Exchange::CreateInWorkspace {
                host,
                workspace_id,
                cwd,
                expected,
                reply,
            },
        ),
        reply,
    )
}

/// The live sessions are asked for.
pub open spec fn list_sessions(
    state: ServiceView,
    later: ServiceView,
    host: Option<Seq<char>>,
) -> (ServiceView, Result<(Option<Seq<char>>, Seq<Seq<char>>), Seq<char>>) {
    let reply = match later.log[state.log.len() as int] {
        Exchange::ListSessions { reply, .. } => reply,
        _ => arbitrary(),
    };
    (service::asked(state, Exchange::ListSessions { host, reply }), reply)
}

/// The workspaces are asked for.
pub open spec fn list_workspaces(
    state: ServiceView,
    later: ServiceView,
    host: Option<Seq<char>>,
) -> (ServiceView, Result<(Option<Seq<char>>, Seq<RecordView>), Seq<char>>) {
    let reply = match later.log[state.log.len() as int] {
        Exchange::ListWorkspaces { reply, .. } => reply,
        _ => arbitrary(),
    };
    (service::asked(state, Exchange::ListWorkspaces { host, reply }), reply)
}

/// The repository of a path is asked for.
pub open spec fn resolve(
    state: ServiceView,
    later: ServiceView,
    host: Option<Seq<char>>,
    path: Seq<char>,
) -> (ServiceView, Result<(Seq<char>, Seq<char>), Seq<char>>) {
    let reply = match later.log[state.log.len() as int] {
        Exchange::Resolve { reply, .. } => reply,
        _ => arbitrary(),
    };
    (service::asked(state, Exchange::Resolve { host, path, reply }), reply)
}

/// A record is asked to keep its project.
pub open spec fn update_scope(
    state: ServiceView,
    later: ServiceView,
    host: Option<Seq<char>>,
    workspace_id: Seq<char>,
    project_id: Seq<char>,
    project_identity: Seq<char>,
    project_root: Option<Seq<char>>,
    minimum: Option<u64>,
    expected: Option<Seq<char>>,
) -> (ServiceView, Result<Option<u64>, Seq<char>>) {
    let reply = match later.log[state.log.len() as int] {
        Exchange::UpdateScope { reply, .. } => reply,
        _ => arbitrary(),
    };
    (
        service::asked(
            state,
            Exchange::UpdateScope {
                host,
                workspace_id,
                project_id,
                project_identity,
                project_root,
                minimum,
                expected,
                reply,
            },
        ),
        reply,
    )
}

/// A session is asked after.
pub open spec fn session_exists(
    state: ServiceView,
    later: ServiceView,
    host: Option<Seq<char>>,
    session: Seq<char>,
    expected: Option<Seq<char>>,
) -> (ServiceView, Result<bool, Seq<char>>) {
    let reply = match later.log[state.log.len() as int] {
        Exchange::Exists { reply, .. } => reply,
        _ => arbitrary(),
    };
    (service::asked(state, Exchange::Exists { host, session, expected, reply }), reply)
}

/// The way onto a session is asked for.
pub open spec fn attach(
    state: ServiceView,
    later: ServiceView,
    host: Option<Seq<char>>,
    spec: SpecView,
    expected: Option<Seq<char>>,
) -> (ServiceView, Result<AttachedView, Seq<char>>) {
    let reply = match later.log[state.log.len() as int] {
        Exchange::Attach { reply, .. } => reply,
        _ => arbitrary(),
    };
    (service::asked(state, Exchange::Attach { host, spec, expected, reply }), reply)
}

/// The way onto an existing session is asked for.
pub open spec fn attach_session(
    state: ServiceView,
    later: ServiceView,
    host: Option<Seq<char>>,
    session: Seq<char>,
    expected: Option<Seq<char>>,
) -> (ServiceView, Result<Seq<Seq<char>>, Seq<char>>) {
    let reply = match later.log[state.log.len() as int] {
        Exchange::AttachSession { reply, .. } => reply,
        _ => arbitrary(),
    };
    (service::asked(state, Exchange::AttachSession { host, session, expected, reply }), reply)
}

/// A session's clients are asked to be dropped.
pub open spec fn detach(
    state: ServiceView,
    later: ServiceView,
    host: Option<Seq<char>>,
    session: Seq<char>,
) -> (ServiceView, Result<(), Seq<char>>) {
    let reply = match later.log[state.log.len() as int] {
        Exchange::Detach { reply, .. } => reply,
        _ => arbitrary(),
    };
    (service::asked(state, Exchange::Detach { host, session, reply }), reply)
}

/// A workspace's sessions are asked to be killed.
pub open spec fn kill(
    state: ServiceView,
    later: ServiceView,
    host: Option<Seq<char>>,
    session: Seq<char>,
    expected: Option<Seq<char>>,
) -> (ServiceView, Result<(), Seq<char>>) {
    let reply = match later.log[state.log.len() as int] {
        Exchange::Kill { reply, .. } => reply,
        _ => arbitrary(),
    };
    (service::asked(state, Exchange::Kill { host, session, expected, reply }), reply)
}

/// A workspace's sessions are asked to be killed and cleaned up after.
pub open spec fn reset(
    state: ServiceView,
    later: ServiceView,
    host: Option<Seq<char>>,
    session: Seq<char>,
    directory: Seq<char>,
    expected: Option<Seq<char>>,
) -> (ServiceView, Result<(), Seq<char>>) {
    let reply = match later.log[state.log.len() as int] {
        Exchange::Reset { reply, .. } => reply,
        _ => arbitrary(),
    };
    (service::asked(state, Exchange::Reset { host, session, directory, expected, reply }), reply)
}

/// One session is asked to be killed.
pub open spec fn kill_session(
    state: ServiceView,
    later: ServiceView,
    host: Option<Seq<char>>,
    session: Seq<char>,
    expected: Option<Seq<char>>,
) -> (ServiceView, Result<(), Seq<char>>) {
    let reply = match later.log[state.log.len() as int] {
        Exchange::KillSession { reply, .. } => reply,
        _ => arbitrary(),
    };
    (service::asked(state, Exchange::KillSession { host, session, expected, reply }), reply)
}

/// A workspace is asked to be killed.
pub open spec fn kill_workspace(
    state: ServiceView,
    later: ServiceView,
    host: Option<Seq<char>>,
    workspace_id: Seq<char>,
    expected: Option<Seq<char>>,
) -> (ServiceView, Result<(), Seq<char>>) {
    let reply = match later.log[state.log.len() as int] {
        Exchange::KillWorkspace { reply, .. } => reply,
        _ => arbitrary(),
    };
    (service::asked(state, Exchange::KillWorkspace { host, workspace_id, expected, reply }), reply)
}

/// A workspace is asked to be renamed.
pub open spec fn rename(
    state: ServiceView,
    later: ServiceView,
    host: Option<Seq<char>>,
    workspace_id: Seq<char>,
    name: Seq<char>,
    expected: Option<Seq<char>>,
) -> (ServiceView, Result<(), Seq<char>>) {
    let reply = match later.log[state.log.len() as int] {
        Exchange::Rename { reply, .. } => reply,
        _ => arbitrary(),
    };
    (service::asked(state, Exchange::Rename { host, workspace_id, name, expected, reply }), reply)
}

/// A session is asked to be resized.
pub open spec fn resize(
    state: ServiceView,
    later: ServiceView,
    host: Option<Seq<char>>,
    session: Seq<char>,
    cols: u16,
    rows: u16,
    expected: Option<Seq<char>>,
) -> (ServiceView, Result<(), Seq<char>>) {
    let reply = match later.log[state.log.len() as int] {
        Exchange::Resize { reply, .. } => reply,
        _ => arbitrary(),
    };
    (service::asked(state, Exchange::Resize { host, session, cols, rows, expected, reply }), reply)
}

/// A layout is asked for.
pub open spec fn open_layout(
    state: ServiceView,
    later: ServiceView,
    host: Option<Seq<char>>,
    workspace_id: Seq<char>,
    expected: Option<Seq<char>>,
) -> (ServiceView, Result<((Seq<char>, u64), Option<Seq<char>>), Seq<char>>) {
    let reply = match later.log[state.log.len() as int] {
        Exchange::OpenLayout { reply, .. } => reply,
        _ => arbitrary(),
    };
    (service::asked(state, Exchange::OpenLayout { host, workspace_id, expected, reply }), reply)
}

/// A layout is asked to be stored.
pub open spec fn update_layout(
    state: ServiceView,
    later: ServiceView,
    host: Option<Seq<char>>,
    workspace_id: Seq<char>,
    document: Seq<char>,
    rev: u64,
    expected: Option<Seq<char>>,
) -> (ServiceView, Result<(), Seq<char>>) {
    let reply = match later.log[state.log.len() as int] {
        Exchange::UpdateLayout { reply, .. } => reply,
        _ => arbitrary(),
    };
    (
        service::asked(
            state,
            Exchange::UpdateLayout {
                host,
                workspace_id,
                document,
                rev,
                expected,
                reply,
            },
        ),
        reply,
    )
}

/// The daemon last reached is asked for.
pub open spec fn instance(
    state: ServiceView,
    later: ServiceView,
    host: Option<Seq<char>>,
) -> (ServiceView, Option<Seq<char>>) {
    let reply = match later.log[state.log.len() as int] {
        Exchange::Instance { reply, .. } => reply,
        _ => arbitrary(),
    };
    (service::asked(state, Exchange::Instance { host, reply }), reply)
}

/// A stream of events is asked for.
pub open spec fn subscribe(
    state: ServiceView,
    later: ServiceView,
    host: Option<Seq<char>>,
) -> (ServiceView, Result<(), Seq<char>>) {
    let reply = match later.log[state.log.len() as int] {
        Exchange::Subscribe { reply, .. } => reply,
        _ => arbitrary(),
    };
    (service::asked(state, Exchange::Subscribe { host, reply }), reply)
}

/// A host's daemon is asked to be replaced.
pub open spec fn upgrade(
    state: ServiceView,
    later: ServiceView,
    host: Option<Seq<char>>,
) -> (ServiceView, Result<(), Seq<char>>) {
    let reply = match later.log[state.log.len() as int] {
        Exchange::Upgrade { reply, .. } => reply,
        _ => arbitrary(),
    };
    (service::asked(state, Exchange::Upgrade { host, reply }), reply)
}

} // verus!
