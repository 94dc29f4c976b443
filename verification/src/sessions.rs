//! Giving a workspace its session: probing, creating, adopting, detaching and
//! killing.
//!
//! Two rules run through this file. Closing detaches and never kills. A dead
//! session is surfaced and never silently recreated.

use crate::daemon;
use crate::entry;
use crate::entry::{Failure, FailureView, SessionState};
use crate::registry;
use crate::replay;
use crate::service;
use crate::service::{ServiceView, WorkspaceLifecycleService};
use crate::session_backend::{SessionBackend, SessionId, SessionSpec, SpecView};
use crate::text;
use crate::workspace;
use crate::workspace::{AdeWorkspace, WorkspaceId, WorkspaceStatus, WorkspaceView};
use vstd::prelude::*;
use vstd::string::*;

verus! {

/// How an operation ended: the state it left, and its answer.
pub struct Run<T> {
    pub state: ServiceView,
    pub result: Result<T, FailureView>,
}

/// How an operation on a caller's copy of a workspace ended.
pub struct RowRun<T> {
    pub state: ServiceView,
    pub workspace: WorkspaceView,
    pub result: Result<T, FailureView>,
}

/// The failure of an operation on an id no row has.
pub open spec fn no_workspace(id: Seq<char>) -> FailureView {
    FailureView::Message("no workspace with id "@ + id)
}

/// The failure of a write that would give a daemon record two rows.
pub open spec fn record_conflict() -> FailureView {
    FailureView::Message("another row already stands for this daemon record"@)
}

/// A backend's failure, with what was being done and to what.
pub open spec fn while_doing(doing: Seq<char>, name: Seq<char>, cause: Seq<char>) -> FailureView {
    FailureView::Message(entry::in_context(doing + name, cause))
}

fn conflict() -> (failure: Failure)
    ensures
        failure@ == record_conflict(),
{
    Failure::saying("another row already stands for this daemon record")
}

/// The later of two identities where the first is missing.
pub open spec fn or_else(first: Option<Seq<char>>, second: Option<Seq<char>>) -> Option<Seq<char>> {
    match first {
        Some(first) => Some(first),
        None => second,
    }
}

/// What the backend is asked to create or attach to for a workspace.
pub open spec fn spec_of(workspace: WorkspaceView) -> SpecView {
    SpecView {
        id: workspace.daemon_workspace_id(),
        directory: workspace.repository_path,
        project_scope: match workspace.project_identity {
            Some(identity) => Some((workspace.project_id, identity)),
            None => None,
        },
    }
}

pub fn session_spec(workspace: &AdeWorkspace) -> (spec: SessionSpec)
    ensures
        spec@ == spec_of(workspace@),
{
    let spec = SessionSpec::new(
        SessionId(workspace.daemon_workspace_id()),
        workspace.repository_path.clone(),
    );
    match &workspace.project_identity {
        Some(identity) => spec.with_project_scope(
            workspace.project_id.as_str(),
            identity.as_str(),
        ),
        None => spec,
    }
}

/// A status is recorded, where it is not already the one recorded.
pub open spec fn setting_status(
    state: ServiceView,
    workspace: WorkspaceView,
    status: WorkspaceStatus,
) -> (ServiceView, WorkspaceView) {
    if workspace.status == status {
        (state, workspace)
    } else {
        (
            ServiceView {
                rows: registry::changed(
                    state.rows,
                    workspace.id,
                    registry::status_change(status),
                )->0,
                ..state
            },
            WorkspaceView { status, ..workspace },
        )
    }
}

/// The state and the status a probe's answer stands for.
pub open spec fn probe_verdict(alive: bool) -> (SessionState, WorkspaceStatus) {
    if alive {
        (SessionState::Alive, WorkspaceStatus::Running)
    } else {
        (SessionState::Dead, WorkspaceStatus::Disconnected)
    }
}

/// A probe's answer is recorded.
pub open spec fn recording_probe(
    state: ServiceView,
    workspace: WorkspaceView,
    alive: bool,
) -> RowRun<SessionState> {
    let (verdict, status) = probe_verdict(alive);
    let (after, touched) = setting_status(state, workspace, status);
    RowRun { state: after, workspace: touched, result: Ok(verdict) }
}

/// A workspace's session is asked after.
pub open spec fn probing(
    state: ServiceView,
    later: ServiceView,
    workspace: WorkspaceView,
) -> RowRun<SessionState> {
    match workspace.terminal_session_id {
        None => RowRun { state, workspace, result: Ok(SessionState::NeverCreated) },
        Some(session) => {
            let (reached, connected) = replay::connect(state, later, workspace.remote_host);
            match connected {
                Err(failure) => RowRun { state: reached, workspace, result: Err(failure) },
                Ok(()) => {
                    let (asked, reply) = replay::session_exists(
                        reached,
                        later,
                        workspace.remote_host,
                        session,
                        workspace.daemon_id,
                    );
                    match reply {
                        Err(cause) => RowRun {
                            state: asked,
                            workspace,
                            result: Err(while_doing("probing session "@, session, cause)),
                        },
                        Ok(alive) => recording_probe(asked, workspace, alive),
                    }
                },
            }
        },
    }
}

/// A workspace is pointed at a session known to exist.
pub open spec fn adopting(
    state: ServiceView,
    workspace: WorkspaceView,
    session: Seq<char>,
) -> RowRun<()> {
    if workspace.terminal_session_id == Some(session) {
        let (after, touched) = setting_status(state, workspace, WorkspaceStatus::Running);
        RowRun { state: after, workspace: touched, result: Ok(()) }
    } else {
        match registry::changed(
            state.rows,
            workspace.id,
            registry::session_change(Some(session)),
        ) {
            None => RowRun { state, workspace, result: Err(record_conflict()) },
            Some(rows) => {
                let (after, touched) = setting_status(
                    ServiceView { rows, ..state },
                    WorkspaceView { terminal_session_id: Some(session), ..workspace },
                    WorkspaceStatus::Running,
                );
                RowRun { state: after, workspace: touched, result: Ok(()) }
            },
        }
    }
}

/// A workspace's session is created, on the daemon the row belongs to where it
/// belongs to one, and recorded; a refusal is recorded as `error`.
pub open spec fn starting(
    state: ServiceView,
    later: ServiceView,
    workspace: WorkspaceView,
) -> RowRun<()> {
    let spec = spec_of(workspace);
    let (reached, connected) = replay::connect(state, later, workspace.remote_host);
    match connected {
        Err(failure) => {
            let (after, touched) = setting_status(reached, workspace, WorkspaceStatus::Error);
            RowRun {
                state: after,
                workspace: touched,
                result: Err(while_doing("creating session "@, spec.id, failure.message())),
            }
        },
        Ok(()) => {
            let (asked, reply) = replay::create(
                reached,
                later,
                workspace.remote_host,
                spec,
                workspace.daemon_id,
            );
            match reply {
                Err(cause) => {
                    let (after, touched) = setting_status(asked, workspace, WorkspaceStatus::Error);
                    RowRun {
                        state: after,
                        workspace: touched,
                        result: Err(while_doing("creating session "@, spec.id, cause)),
                    }
                },
                Ok((session, daemon)) => {
                    let owner = or_else(workspace.daemon_id, daemon);
                    match registry::changed(
                        asked.rows,
                        workspace.id,
                        registry::route_change(workspace.remote_host, owner),
                    ) {
                        None => RowRun { state: asked, workspace, result: Err(record_conflict()) },
                        Some(rows) => adopting(
                            ServiceView { rows, ..asked },
                            WorkspaceView { daemon_id: owner, ..workspace },
                            session,
                        ),
                    }
                },
            }
        },
    }
}

/// The workspace a run ended with, where it succeeded.
pub open spec fn with_workspace<T>(run: RowRun<T>) -> Run<WorkspaceView> {
    Run {
        state: run.state,
        result: match run.result {
            Ok(_) => Ok(run.workspace),
            Err(failure) => Err(failure),
        },
    }
}

impl<B: SessionBackend> WorkspaceLifecycleService<B> {
    pub(crate) fn get(&self, id: &WorkspaceId) -> (found: Result<AdeWorkspace, Failure>)
        requires
            self.wf(),
        ensures
            service::told(found) == (match registry::workspace_of(self@.rows, id@) {
                Some(workspace) => Ok(workspace),
                None => Err(no_workspace(id@)),
            }),
    {
        match self.registry().get_workspace(id) {
            Some(workspace) => Ok(workspace),
            None => Err(Failure::about("no workspace with id ", id.as_str())),
        }
    }

    /// Writes a status only when it actually changed.
    pub(crate) fn set_status(&mut self, workspace: &mut AdeWorkspace, status: WorkspaceStatus)
        requires
            old(self).wf(),
        ensures
            final(self).wf(),
            final(self).continues(old(self)),
            setting_status(old(self)@, old(workspace)@, status) == (
                final(self)@,
                final(workspace)@,
            ),
    {
        if workspace.status != status {
            self.table().update_status(&workspace.id, status);
            workspace.status = status;
        }
    }

    pub(crate) fn record_probe(
        &mut self,
        workspace: &mut AdeWorkspace,
        alive: bool,
    ) -> (state: SessionState)
        requires
            old(self).wf(),
        ensures
            final(self).wf(),
            final(self).continues(old(self)),
            recording_probe(old(self)@, old(workspace)@, alive) == (RowRun {
                state: final(self)@,
                workspace: final(workspace)@,
                result: Ok(state),
            }),
    {
        if alive {
            self.set_status(workspace, WorkspaceStatus::Running);
            SessionState::Alive
        } else {
            self.set_status(workspace, WorkspaceStatus::Disconnected);
            SessionState::Dead
        }
    }

    /// Asks the backend whether the workspace's session is alive and writes the
    /// answer back: alive is `running`, dead is `disconnected`.
    ///
    /// A dead session keeps its name, and nothing is recreated. A workspace
    /// with nothing to probe reaches for no host.
    pub fn probe(&mut self, workspace: &mut AdeWorkspace) -> (state: Result<SessionState, Failure>)
        requires
            old(self).wf(),
        ensures
            final(self).wf(),
            final(self).continues(old(self)),
            probing(old(self)@, final(self)@, old(workspace)@).state == final(self)@,
            probing(old(self)@, final(self)@, old(workspace)@).workspace == final(workspace)@,
            probing(old(self)@, final(self)@, old(workspace)@).result == service::told(
                state,
            ),
    {
        let session = match &workspace.terminal_session_id {
            Some(session) => SessionId(session.clone()),
            None => {
                return Ok(SessionState::NeverCreated);
            },
        };
        let at = match self.backend_for_host(text::borrowed(&workspace.remote_host)) {
            Ok(at) => at,
            Err(failure) => {
                return Err(failure);
            },
        };
        match self.ask_exists(at, &session, text::borrowed(&workspace.daemon_id)) {
            Ok(alive) => Ok(self.record_probe(workspace, alive)),
            Err(cause) => Err(
                Failure::while_doing("probing session ", session.as_str(), cause.as_str()),
            ),
        }
    }

    /// Points the workspace at a session known to exist and marks it running.
    pub(crate) fn adopt_session(
        &mut self,
        workspace: &mut AdeWorkspace,
        session: SessionId,
    ) -> (adopted: Result<(), Failure>)
        requires
            old(self).wf(),
        ensures
            final(self).wf(),
            final(self).continues(old(self)),
            adopting(old(self)@, old(workspace)@, session@).state == final(self)@,
            adopting(old(self)@, old(workspace)@, session@).workspace == final(workspace)@,
            adopting(old(self)@, old(workspace)@, session@).result == service::told(adopted),
    {
        if !text::same_opt_text(
            text::borrowed(&workspace.terminal_session_id),
            Some(session.as_str()),
        ) {
            match self.table().update_terminal_session_id(&workspace.id, Some(session.as_str())) {
                Ok(()) => {},
                Err(_) => {
                    return Err(conflict());
                },
            }
            workspace.terminal_session_id = Some(session.into_string());
        }
        self.set_status(workspace, WorkspaceStatus::Running);
        Ok(())
    }

    /// Creates the detached session for a workspace and records it as running,
    /// or records `error` and returns why.
    pub(crate) fn start_session(
        &mut self,
        workspace: &mut AdeWorkspace,
    ) -> (started: Result<(), Failure>)
        requires
            old(self).wf(),
        ensures
            final(self).wf(),
            final(self).continues(old(self)),
            starting(old(self)@, final(self)@, old(workspace)@).state == final(self)@,
            starting(old(self)@, final(self)@, old(workspace)@).workspace == final(workspace)@,
            starting(old(self)@, final(self)@, old(workspace)@).result == service::told(started),
    {
        let spec = session_spec(workspace);
        let created = match self.backend_for_host(text::borrowed(&workspace.remote_host)) {
            Ok(at) => match self.ask_create(at, &spec, text::borrowed(&workspace.daemon_id)) {
                Ok(pair) => Ok(pair),
                Err(cause) => Err(Failure::Message(cause)),
            },
            Err(failure) => Err(failure),
        };
        let (session, daemon) = match created {
            Ok(pair) => pair,
            Err(failure) => {
                self.set_status(workspace, WorkspaceStatus::Error);
                return Err(failure.behind("creating session ", spec.id.as_str()));
            },
        };
        let owner = match &workspace.daemon_id {
            Some(daemon_id) => Some(daemon_id.clone()),
            None => daemon,
        };
        match self.table().update_remote_host_and_daemon_id(
            &workspace.id,
            text::borrowed(&workspace.remote_host),
            text::borrowed(&owner),
        ) {
            Ok(()) => {},
            Err(_) => {
                return Err(conflict());
            },
        }
        workspace.daemon_id = owner;
        self.adopt_session(workspace, session)
    }
}

/// A workspace is marked as opened and its session asked after.
pub open spec fn opening(
    state: ServiceView,
    later: ServiceView,
    id: Seq<char>,
    now: i64,
) -> Run<(WorkspaceView, SessionState)> {
    match registry::workspace_of(state.rows, id) {
        None => Run { state, result: Err(no_workspace(id)) },
        Some(workspace) => {
            let run = probing(
                ServiceView {
                    rows: registry::changed(state.rows, id, registry::opening_change(now))->0,
                    ..state
                },
                later,
                WorkspaceView { last_opened_at: now, ..workspace },
            );
            Run {
                state: run.state,
                result: match run.result {
                    Ok(verdict) => Ok((run.workspace, verdict)),
                    Err(failure) => Err(failure),
                },
            }
        },
    }
}

/// A session that is alive is adopted; one that is not is created anew.
pub open spec fn recreating(
    state: ServiceView,
    later: ServiceView,
    id: Seq<char>,
) -> Run<WorkspaceView> {
    match registry::workspace_of(state.rows, id) {
        None => Run { state, result: Err(no_workspace(id)) },
        Some(workspace) => {
            let session = workspace.daemon_workspace_id();
            let (reached, connected) = replay::connect(state, later, workspace.remote_host);
            match connected {
                Err(failure) => Run { state: reached, result: Err(failure) },
                Ok(()) => {
                    let (asked, reply) = replay::session_exists(
                        reached,
                        later,
                        workspace.remote_host,
                        session,
                        workspace.daemon_id,
                    );
                    match reply {
                        Err(cause) => Run { state: asked, result: Err(FailureView::Message(cause)) },
                        Ok(true) => with_workspace(adopting(asked, workspace, session)),
                        Ok(false) => with_workspace(starting(asked, later, workspace)),
                    }
                },
            }
        },
    }
}

/// The clients of a live session are dropped, and the workspace is recorded as
/// stopped.
pub open spec fn stopping(
    state: ServiceView,
    later: ServiceView,
    id: Seq<char>,
) -> Run<WorkspaceView> {
    match registry::workspace_of(state.rows, id) {
        None => Run { state, result: Err(no_workspace(id)) },
        Some(workspace) => match workspace.terminal_session_id {
            None => stopped(state, workspace),
            Some(session) => {
                let (reached, connected) = replay::connect(state, later, workspace.remote_host);
                match connected {
                    Err(failure) => Run { state: reached, result: Err(failure) },
                    Ok(()) => {
                        let (asked, reply) = replay::session_exists(
                            reached,
                            later,
                            workspace.remote_host,
                            session,
                            workspace.daemon_id,
                        );
                        match reply {
                            Err(cause) => Run {
                                state: asked,
                                result: Err(FailureView::Message(cause)),
                            },
                            Ok(false) => stopped(asked, workspace),
                            Ok(true) => {
                                let (detached, dropped) = replay::detach(
                                    asked,
                                    later,
                                    workspace.remote_host,
                                    session,
                                );
                                match dropped {
                                    Err(cause) => Run {
                                        state: detached,
                                        result: Err(
                                            while_doing(
                                                "detaching clients from session "@,
                                                session,
                                                cause,
                                            ),
                                        ),
                                    },
                                    Ok(()) => stopped(detached, workspace),
                                }
                            },
                        }
                    },
                }
            },
        },
    }
}

/// A workspace is recorded as stopped.
pub open spec fn stopped(state: ServiceView, workspace: WorkspaceView) -> Run<WorkspaceView> {
    let (after, touched) = setting_status(state, workspace, WorkspaceStatus::Stopped);
    Run { state: after, result: Ok(touched) }
}

/// A live session is killed, and the workspace is recorded as stopped; it keeps
/// the daemon identity it had.
pub open spec fn killing_session_of(
    state: ServiceView,
    later: ServiceView,
    id: Seq<char>,
) -> Run<WorkspaceView> {
    match registry::workspace_of(state.rows, id) {
        None => Run { state, result: Err(no_workspace(id)) },
        Some(workspace) => match workspace.terminal_session_id {
            None => stopped(state, workspace),
            Some(session) => {
                let (reached, connected) = replay::connect(state, later, workspace.remote_host);
                match connected {
                    Err(failure) => Run { state: reached, result: Err(failure) },
                    Ok(()) => {
                        let (asked, reply) = replay::session_exists(
                            reached,
                            later,
                            workspace.remote_host,
                            session,
                            workspace.daemon_id,
                        );
                        match reply {
                            Err(cause) => Run {
                                state: asked,
                                result: Err(
                                    FailureView::Message(
                                        entry::in_context(
                                            "checking session "@ + session + " before killing it"@,
                                            cause,
                                        ),
                                    ),
                                ),
                            },
                            Ok(false) => stopped(asked, workspace),
                            Ok(true) => {
                                let (killed, dropped) = replay::kill(
                                    asked,
                                    later,
                                    workspace.remote_host,
                                    session,
                                    workspace.daemon_id,
                                );
                                match dropped {
                                    Err(cause) => Run {
                                        state: killed,
                                        result: Err(
                                            while_doing("killing session "@, session, cause),
                                        ),
                                    },
                                    Ok(()) => stopped(killed, workspace),
                                }
                            },
                        }
                    },
                }
            },
        },
    }
}

/// The daemon an operation on a workspace is fenced to: the one the row names,
/// or else the one that answers twice in a row under the same name.
pub open spec fn fencing(
    state: ServiceView,
    later: ServiceView,
    workspace: WorkspaceView,
    changed: Seq<char>,
) -> Run<Option<Seq<char>>> {
    match workspace.daemon_id {
        Some(daemon) => Run { state, result: Ok(Some(daemon)) },
        None => {
            let (first, named) = replay::list_workspaces(state, later, workspace.remote_host);
            match named {
                Err(cause) => Run { state: first, result: Err(FailureView::Message(cause)) },
                Ok((daemon, _)) => {
                    let (second, again) = replay::list_workspaces(
                        first,
                        later,
                        workspace.remote_host,
                    );
                    match again {
                        Err(cause) => Run {
                            state: second,
                            result: Err(FailureView::Message(cause)),
                        },
                        Ok((current, _)) => Run {
                            state: second,
                            result: if current == daemon {
                                Ok(daemon)
                            } else {
                                Err(FailureView::Message(changed + workspace.id))
                            },
                        },
                    }
                },
            }
        },
    }
}

/// What a killed workspace leaves behind: no session, no daemon, and `stopped`.
pub open spec fn recording_kill(state: ServiceView, workspace: WorkspaceView) -> RowRun<()> {
    if workspace.terminal_session_id is Some || workspace.daemon_id is Some {
        match registry::changed(
            state.rows,
            workspace.id,
            registry::session_and_daemon_change(None, None),
        ) {
            None => RowRun { state, workspace, result: Err(record_conflict()) },
            Some(rows) => {
                let (after, touched) = setting_status(
                    ServiceView { rows, ..state },
                    WorkspaceView { terminal_session_id: None, daemon_id: None, ..workspace },
                    WorkspaceStatus::Stopped,
                );
                RowRun { state: after, workspace: touched, result: Ok(()) }
            },
        }
    } else {
        let (after, touched) = setting_status(state, workspace, WorkspaceStatus::Stopped);
        RowRun { state: after, workspace: touched, result: Ok(()) }
    }
}

/// A daemon's workspace is killed with its record, and the row forgets it.
pub open spec fn killing_workspace(
    state: ServiceView,
    later: ServiceView,
    id: Seq<char>,
) -> Run<WorkspaceView> {
    match registry::workspace_of(state.rows, id) {
        None => Run { state, result: Err(no_workspace(id)) },
        Some(workspace) => {
            let (reached, connected) = replay::connect(state, later, workspace.remote_host);
            match connected {
                Err(failure) => Run { state: reached, result: Err(failure) },
                Ok(()) => {
                    let fence = fencing(
                        reached,
                        later,
                        workspace,
                        "the daemon changed while preparing to kill workspace "@,
                    );
                    match fence.result {
                        Err(failure) => Run { state: fence.state, result: Err(failure) },
                        Ok(daemon) => {
                            let (killed, dropped) = replay::kill_workspace(
                                fence.state,
                                later,
                                workspace.remote_host,
                                workspace.daemon_workspace_id(),
                                daemon,
                            );
                            match dropped {
                                Err(cause) => Run {
                                    state: killed,
                                    result: Err(
                                        while_doing(
                                            "killing daemon workspace "@,
                                            workspace.id,
                                            cause,
                                        ),
                                    ),
                                },
                                Ok(()) => with_workspace(recording_kill(killed, workspace)),
                            }
                        },
                    }
                },
            }
        },
    }
}

/// A daemon's workspace is killed with its record, and then the row is deleted.
pub open spec fn killing_and_deleting(
    state: ServiceView,
    later: ServiceView,
    workspace: WorkspaceView,
) -> Run<()> {
    let (reached, connected) = replay::connect(state, later, workspace.remote_host);
    match connected {
        Err(failure) => Run { state: reached, result: Err(failure) },
        Ok(()) => {
            let fence = fencing(
                reached,
                later,
                workspace,
                "the daemon changed while preparing to delete workspace "@,
            );
            match fence.result {
                Err(failure) => Run { state: fence.state, result: Err(failure) },
                Ok(daemon) => {
                    let wire_id = workspace.daemon_workspace_id();
                    let (killed, dropped) = replay::kill_workspace(
                        fence.state,
                        later,
                        workspace.remote_host,
                        wire_id,
                        daemon,
                    );
                    match dropped {
                        Err(cause) => Run {
                            state: killed,
                            result: Err(
                                while_doing("killing daemon workspace record "@, wire_id, cause),
                            ),
                        },
                        Ok(()) => Run {
                            state: ServiceView {
                                rows: registry::without(killed.rows, workspace.id),
                                ..killed
                            },
                            result: Ok(()),
                        },
                    }
                },
            }
        },
    }
}

/// A session an attach has just brought up is written down.
pub open spec fn recording_attached(
    state: ServiceView,
    id: Seq<char>,
    daemon: Option<Seq<char>>,
) -> Run<WorkspaceView> {
    match registry::workspace_of(state.rows, id) {
        None => Run { state, result: Err(no_workspace(id)) },
        Some(workspace) => {
            let session = workspace.daemon_workspace_id();
            let owner = or_else(workspace.daemon_id, daemon);
            match registry::changed(
                state.rows,
                id,
                registry::session_and_daemon_change(Some(session), owner),
            ) {
                None => Run { state, result: Err(record_conflict()) },
                Some(rows) => {
                    let (after, touched) = setting_status(
                        ServiceView { rows, ..state },
                        WorkspaceView {
                            terminal_session_id: Some(session),
                            daemon_id: owner,
                            ..workspace
                        },
                        WorkspaceStatus::Running,
                    );
                    Run { state: after, result: Ok(touched) }
                },
            }
        },
    }
}

/// A workspace is renamed: the daemon first, the registry after.
pub open spec fn renaming(
    state: ServiceView,
    later: ServiceView,
    id: Seq<char>,
    name: Seq<char>,
) -> Run<WorkspaceView> {
    let chosen = text::trim_text(name);
    match registry::workspace_of(state.rows, id) {
        None => Run { state, result: Err(no_workspace(id)) },
        Some(workspace) => if chosen.len() == 0 {
            Run { state, result: Err(FailureView::Message("a workspace needs a name"@)) }
        } else if workspace.name == chosen {
            Run { state, result: Ok(workspace) }
        } else {
            let (reached, connected) = replay::connect(state, later, workspace.remote_host);
            match connected {
                Err(failure) => Run { state: reached, result: Err(failure) },
                Ok(()) => {
                    let (asked, renamed) = replay::rename(
                        reached,
                        later,
                        workspace.remote_host,
                        workspace.daemon_workspace_id(),
                        chosen,
                        workspace.daemon_id,
                    );
                    match renamed {
                        Err(cause) => Run {
                            state: asked,
                            result: Err(while_doing("renaming workspace "@, id, cause)),
                        },
                        Ok(()) => Run {
                            state: ServiceView {
                                rows: registry::changed(
                                    asked.rows,
                                    id,
                                    registry::name_change(chosen),
                                )->0,
                                ..asked
                            },
                            result: Ok(WorkspaceView { name: chosen, ..workspace }),
                        },
                    }
                },
            }
        },
    }
}

impl<B: SessionBackend> WorkspaceLifecycleService<B> {
    /// Marks the workspace as opened at `now` and reports the state of its
    /// session. Nothing is created: a still-running session is simply found
    /// again.
    pub fn open_workspace(
        &mut self,
        id: &WorkspaceId,
        now: i64,
    ) -> (opened: Result<(AdeWorkspace, SessionState), Failure>)
        requires
            old(self).wf(),
        ensures
            final(self).wf(),
            final(self).continues(old(self)),
            opening(old(self)@, final(self)@, id@, now) == (Run {
                state: final(self)@,
                result: service::told(opened),
            }),
    {
        let mut workspace = match self.get(id) {
            Ok(workspace) => workspace,
            Err(failure) => {
                return Err(failure);
            },
        };
        self.table().update_last_opened_at(id, now);
        workspace.last_opened_at = now;
        match self.probe(&mut workspace) {
            Ok(state) => Ok((workspace, state)),
            Err(failure) => Err(failure),
        }
    }

    /// Gives a workspace whose session died a new one, under the id it had.
    /// A session that turns out to be alive is adopted rather than duplicated.
    pub fn recreate_session(
        &mut self,
        id: &WorkspaceId,
    ) -> (recreated: Result<AdeWorkspace, Failure>)
        requires
            old(self).wf(),
        ensures
            final(self).wf(),
            final(self).continues(old(self)),
            recreating(old(self)@, final(self)@, id@) == (Run {
                state: final(self)@,
                result: service::told(recreated),
            }),
    {
        let mut workspace = match self.get(id) {
            Ok(workspace) => workspace,
            Err(failure) => {
                return Err(failure);
            },
        };
        let session = SessionId(workspace.daemon_workspace_id());
        let at = match self.backend_for_host(text::borrowed(&workspace.remote_host)) {
            Ok(at) => at,
            Err(failure) => {
                return Err(failure);
            },
        };
        let begun = match self.ask_exists(at, &session, text::borrowed(&workspace.daemon_id)) {
            Ok(true) => self.adopt_session(&mut workspace, session),
            Ok(false) => self.start_session(&mut workspace),
            Err(cause) => Err(Failure::Message(cause)),
        };
        match begun {
            Ok(()) => Ok(workspace),
            Err(failure) => Err(failure),
        }
    }

    /// Closes a workspace: every attached client is detached and the workspace
    /// is recorded as `stopped`. Nothing is killed.
    pub fn stop_workspace(&mut self, id: &WorkspaceId) -> (stopped: Result<AdeWorkspace, Failure>)
        requires
            old(self).wf(),
        ensures
            final(self).wf(),
            final(self).continues(old(self)),
            stopping(old(self)@, final(self)@, id@) == (Run {
                state: final(self)@,
                result: service::told(stopped),
            }),
    {
        let mut workspace = match self.get(id) {
            Ok(workspace) => workspace,
            Err(failure) => {
                return Err(failure);
            },
        };
        if let Some(session) = &workspace.terminal_session_id {
            let session = SessionId(session.clone());
            let at = match self.backend_for_host(text::borrowed(&workspace.remote_host)) {
                Ok(at) => at,
                Err(failure) => {
                    return Err(failure);
                },
            };
            match self.ask_exists(at, &session, text::borrowed(&workspace.daemon_id)) {
                Ok(true) => match self.ask_detach(at, &session) {
                    Ok(()) => {},
                    Err(cause) => {
                        return Err(
                            Failure::while_doing(
                                "detaching clients from session ",
                                session.as_str(),
                                cause.as_str(),
                            ),
                        );
                    },
                },
                Ok(false) => {},
                Err(cause) => {
                    return Err(Failure::Message(cause));
                },
            }
        }
        self.set_status(&mut workspace, WorkspaceStatus::Stopped);
        Ok(workspace)
    }

    /// Kills the workspace's sessions and everything running in them, keeping
    /// the daemon workspace identity and recording it as `stopped`.
    pub fn kill_workspace_session(
        &mut self,
        id: &WorkspaceId,
    ) -> (killed: Result<AdeWorkspace, Failure>)
        requires
            old(self).wf(),
        ensures
            final(self).wf(),
            final(self).continues(old(self)),
            killing_session_of(old(self)@, final(self)@, id@) == (Run {
                state: final(self)@,
                result: service::told(killed),
            }),
    {
        let mut workspace = match self.get(id) {
            Ok(workspace) => workspace,
            Err(failure) => {
                return Err(failure);
            },
        };
        if let Some(session) = &workspace.terminal_session_id {
            let session = SessionId(session.clone());
            let at = match self.backend_for_host(text::borrowed(&workspace.remote_host)) {
                Ok(at) => at,
                Err(failure) => {
                    return Err(failure);
                },
            };
            let expected = text::borrowed(&workspace.daemon_id);
            match self.ask_exists(at, &session, expected) {
                Ok(true) => match self.ask_kill(at, &session, expected) {
                    Ok(()) => {},
                    Err(cause) => {
                        return Err(
                            Failure::while_doing(
                                "killing session ",
                                session.as_str(),
                                cause.as_str(),
                            ),
                        );
                    },
                },
                Ok(false) => {},
                Err(cause) => {
                    return Err(
                        Failure::while_doing(
                            text::joined("checking session ", session.as_str()).as_str(),
                            " before killing it",
                            cause.as_str(),
                        ),
                    );
                },
            }
        }
        self.set_status(&mut workspace, WorkspaceStatus::Stopped);
        Ok(workspace)
    }

    /// The daemon an operation on a workspace is fenced to.
    pub(crate) fn fence(
        &mut self,
        at: usize,
        workspace: &AdeWorkspace,
        changed: &str,
    ) -> (daemon: Result<Option<String>, Failure>)
        requires
            old(self).wf(),
            at < old(self)@.hosts.len(),
            old(self)@.hosts[at as int] == workspace@.remote_host,
        ensures
            final(self).wf(),
            final(self).continues(old(self)),
            final(self)@.hosts == old(self)@.hosts,
            fencing(old(self)@, final(self)@, workspace@, changed@) == (Run {
                state: final(self)@,
                result: service::told(daemon),
            }),
    {
        if let Some(daemon_id) = &workspace.daemon_id {
            return Ok(Some(daemon_id.clone()));
        }
        let daemon = match self.ask_workspaces(at) {
            Ok(listing) => listing.daemon_id,
            Err(cause) => {
                return Err(Failure::Message(cause));
            },
        };
        let current = match self.ask_workspaces(at) {
            Ok(listing) => listing.daemon_id,
            Err(cause) => {
                return Err(Failure::Message(cause));
            },
        };
        if text::same_opt_text(text::borrowed(&current), text::borrowed(&daemon)) {
            Ok(daemon)
        } else {
            Err(Failure::about(changed, workspace.id.as_str()))
        }
    }

    /// Writes down what deleting a daemon workspace left behind.
    pub(crate) fn record_workspace_killed(
        &mut self,
        workspace: &mut AdeWorkspace,
    ) -> (recorded: Result<(), Failure>)
        requires
            old(self).wf(),
        ensures
            final(self).wf(),
            final(self).continues(old(self)),
            recording_kill(old(self)@, old(workspace)@) == (RowRun {
                state: final(self)@,
                workspace: final(workspace)@,
                result: service::told(recorded),
            }),
    {
        if workspace.terminal_session_id.is_some() || workspace.daemon_id.is_some() {
            match self.table().update_terminal_session_and_daemon_id(&workspace.id, None, None) {
                Ok(()) => {},
                Err(_) => {
                    return Err(conflict());
                },
            }
            workspace.terminal_session_id = None;
            workspace.daemon_id = None;
        }
        self.set_status(workspace, WorkspaceStatus::Stopped);
        Ok(())
    }

    /// Kills the whole workspace: every session in it and the backend's record
    /// of it. The row stays, and reads as never created.
    pub fn kill_workspace(&mut self, id: &WorkspaceId) -> (killed: Result<AdeWorkspace, Failure>)
        requires
            old(self).wf(),
        ensures
            final(self).wf(),
            final(self).continues(old(self)),
            killing_workspace(old(self)@, final(self)@, id@) == (Run {
                state: final(self)@,
                result: service::told(killed),
            }),
    {
        let mut workspace = match self.get(id) {
            Ok(workspace) => workspace,
            Err(failure) => {
                return Err(failure);
            },
        };
        let at = match self.backend_for_host(text::borrowed(&workspace.remote_host)) {
            Ok(at) => at,
            Err(failure) => {
                return Err(failure);
            },
        };
        let daemon = match self.fence(
            at,
            &workspace,
            "the daemon changed while preparing to kill workspace ",
        ) {
            Ok(daemon) => daemon,
            Err(failure) => {
                return Err(failure);
            },
        };
        let wire_id = workspace.daemon_workspace_id();
        match self.ask_kill_workspace(at, wire_id.as_str(), text::borrowed(&daemon)) {
            Ok(()) => {},
            Err(cause) => {
                return Err(
                    Failure::while_doing(
                        "killing daemon workspace ",
                        workspace.id.as_str(),
                        cause.as_str(),
                    ),
                );
            },
        }
        match self.record_workspace_killed(&mut workspace) {
            Ok(()) => Ok(workspace),
            Err(failure) => Err(failure),
        }
    }

    /// Kills a daemon workspace record before deleting its row. The row is only
    /// deleted after the kill succeeds, so a refusal stays visible and retryable.
    pub(crate) fn kill_and_delete_workspace(
        &mut self,
        workspace: &AdeWorkspace,
    ) -> (deleted: Result<(), Failure>)
        requires
            old(self).wf(),
        ensures
            final(self).wf(),
            final(self).continues(old(self)),
            killing_and_deleting(old(self)@, final(self)@, workspace@) == (Run {
                state: final(self)@,
                result: service::told(deleted),
            }),
    {
        let at = match self.backend_for_host(text::borrowed(&workspace.remote_host)) {
            Ok(at) => at,
            Err(failure) => {
                return Err(failure);
            },
        };
        let daemon = match self.fence(
            at,
            workspace,
            "the daemon changed while preparing to delete workspace ",
        ) {
            Ok(daemon) => daemon,
            Err(failure) => {
                return Err(failure);
            },
        };
        let wire_id = workspace.daemon_workspace_id();
        match self.ask_kill_workspace(at, wire_id.as_str(), text::borrowed(&daemon)) {
            Ok(()) => {
                self.table().delete_workspace(&workspace.id);
                Ok(())
            },
            Err(cause) => Err(
                Failure::while_doing(
                    "killing daemon workspace record ",
                    wire_id.as_str(),
                    cause.as_str(),
                ),
            ),
        }
    }

    /// Records that the workspace's session now exists, without asking the
    /// backend anything: for a caller that watched an attach succeed.
    pub fn record_attached_session(
        &mut self,
        id: &WorkspaceId,
        daemon_id: Option<&str>,
    ) -> (recorded: Result<AdeWorkspace, Failure>)
        requires
            old(self).wf(),
        ensures
            final(self).wf(),
            final(self).continues(old(self)),
            recording_attached(old(self)@, id@, daemon_id.deep_view()) == (Run {
                state: final(self)@,
                result: service::told(recorded),
            }),
    {
        let mut workspace = match self.get(id) {
            Ok(workspace) => workspace,
            Err(failure) => {
                return Err(failure);
            },
        };
        let session = workspace.daemon_workspace_id();
        let owner = match &workspace.daemon_id {
            Some(known) => Some(known.clone()),
            None => text::owned(daemon_id),
        };
        match self.table().update_terminal_session_and_daemon_id(
            id,
            Some(session.as_str()),
            text::borrowed(&owner),
        ) {
            Ok(()) => {},
            Err(_) => {
                return Err(conflict());
            },
        }
        workspace.terminal_session_id = Some(session);
        workspace.daemon_id = owner;
        self.set_status(&mut workspace, WorkspaceStatus::Running);
        Ok(workspace)
    }

    /// Renames a workspace: the daemon first, the registry after. A rename the
    /// daemon refused leaves the registry alone.
    pub fn rename_workspace(
        &mut self,
        id: &WorkspaceId,
        name: &str,
    ) -> (renamed: Result<AdeWorkspace, Failure>)
        requires
            old(self).wf(),
        ensures
            final(self).wf(),
            final(self).continues(old(self)),
            renaming(old(self)@, final(self)@, id@, name@) == (Run {
                state: final(self)@,
                result: service::told(renamed),
            }),
    {
        let mut workspace = match self.get(id) {
            Ok(workspace) => workspace,
            Err(failure) => {
                return Err(failure);
            },
        };
        let chosen = text::trimmed(name);
        if chosen.as_str().is_empty() {
            return Err(Failure::saying("a workspace needs a name"));
        }
        if text::same_text(workspace.name.as_str(), chosen.as_str()) {
            return Ok(workspace);
        }
        let at = match self.backend_for_host(text::borrowed(&workspace.remote_host)) {
            Ok(at) => at,
            Err(failure) => {
                return Err(failure);
            },
        };
        let wire_id = workspace.daemon_workspace_id();
        match self.ask_rename(
            at,
            wire_id.as_str(),
            chosen.as_str(),
            text::borrowed(&workspace.daemon_id),
        ) {
            Ok(()) => {},
            Err(cause) => {
                return Err(
                    Failure::while_doing("renaming workspace ", id.as_str(), cause.as_str()),
                );
            },
        }
        self.table().update_name(id, chosen.as_str());
        workspace.name = chosen;
        Ok(workspace)
    }
}

} // verus!
