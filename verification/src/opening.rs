//! Creating workspaces, and getting panes onto their sessions and layouts.

use crate::calls;
use crate::entry::{Failure, FailureView};
use crate::registry;
use crate::registry::RowView;
use crate::replay;
use crate::service;
use crate::service::{ServiceView, Step, WorkspaceLifecycleService};
use crate::session_backend::{
    Attached, AttachedView, LayoutDoc, SessionBackend, WorkspaceLayout,
};
use crate::sessions;
use crate::sessions::Run;
use crate::text;
use crate::workspace;
use crate::workspace::{AdeWorkspace, WorkspaceId, WorkspaceView};
use vstd::prelude::*;
use vstd::string::*;

verus! {

/// What a new workspace is to be.
pub struct NewWorkspace {
    pub id: WorkspaceId,
    pub name: String,
    pub project_id: String,
    pub project_identity: Option<String>,
    /// Read on the workspace's own host.
    pub repository_path: String,
    pub branch: Option<String>,
    pub remote_host: Option<String>,
    /// The time it is created at.
    pub now: i64,
}

impl NewWorkspace {
    /// The row it begins as.
    pub open spec fn row(&self) -> WorkspaceView {
        WorkspaceView {
            project_identity: text::opt(self.project_identity),
            branch: text::opt(self.branch),
            remote_host: text::opt(self.remote_host),
            ..workspace::new_workspace(
                self.id@,
                self.name@,
                self.project_id@,
                self.repository_path@,
                self.now,
            )
        }
    }
}

/// A workspace is recorded and then given its session: a crash in between
/// leaves a visible half-made row rather than an orphan session.
pub open spec fn creating(
    state: ServiceView,
    later: ServiceView,
    row: WorkspaceView,
    now: i64,
) -> Run<WorkspaceView> {
    match registry::with_workspace(
        state.rows,
        RowView { workspace: row, used_by_client_at: Some(now) },
    ) {
        None => Run {
            state,
            result: Err(
                sessions::while_doing(
                    "recording the new workspace"@,
                    ""@,
                    sessions::record_conflict().message(),
                ),
            ),
        },
        Some(rows) => sessions::with_workspace(
            sessions::starting(ServiceView { rows, ..state }, later, row),
        ),
    }
}

/// A workspace is created for the repository a path on its host is in.
pub open spec fn creating_from_repository(
    state: ServiceView,
    later: ServiceView,
    request: NewWorkspace,
) -> Run<WorkspaceView> {
    let host = text::opt(request.remote_host);
    let (reached, connected) = replay::connect(state, later, host);
    match connected {
        Err(failure) => Run { state: reached, result: Err(failure) },
        Ok(()) => {
            let (asked, resolved) = replay::resolve(
                reached,
                later,
                host,
                request.repository_path@,
            );
            match resolved {
                Err(cause) => Run {
                    state: asked,
                    result: Err(
                        sessions::while_doing(
                            "resolving project directory "@ + request.repository_path@ + " on "@,
                            crate::daemon::host_name(host),
                            cause,
                        ),
                    ),
                },
                Ok((checkout, identity)) => creating(
                    asked,
                    later,
                    WorkspaceView {
                        project_id: workspace::path_project_id(identity),
                        project_identity: Some(identity),
                        repository_path: checkout,
                        ..request.row()
                    },
                    request.now,
                ),
            }
        },
    }
}

/// The way onto a workspace's session is asked for, which may create it.
pub open spec fn attaching(
    state: ServiceView,
    later: ServiceView,
    workspace: WorkspaceView,
) -> Run<AttachedView> {
    let (reached, connected) = replay::connect(state, later, workspace.remote_host);
    match connected {
        Err(failure) => Run { state: reached, result: Err(failure) },
        Ok(()) => {
            let (asked, reply) = replay::attach(
                reached,
                later,
                workspace.remote_host,
                sessions::spec_of(workspace),
                workspace.daemon_id,
            );
            Run { state: asked, result: or_cause(reply) }
        },
    }
}

/// An answer passed on, with the cause as the whole message of a failure.
pub open spec fn or_cause<T>(reply: Result<T, Seq<char>>) -> Result<T, FailureView> {
    match reply {
        Ok(value) => Ok(value),
        Err(cause) => Err(FailureView::Message(cause)),
    }
}

/// One more session is created in a workspace, with the way onto it; an unnamed
/// row learns the daemon that made it.
pub open spec fn adding_session(
    state: ServiceView,
    later: ServiceView,
    workspace: WorkspaceView,
    directory: Seq<char>,
) -> Run<(Seq<char>, Seq<Seq<char>>, Option<Seq<char>>)> {
    let (reached, connected) = replay::connect(state, later, workspace.remote_host);
    match connected {
        Err(failure) => Run { state: reached, result: Err(failure) },
        Ok(()) => {
            let wire_id = workspace.daemon_workspace_id();
            let (made, reply) = replay::create_in_workspace(
                reached,
                later,
                workspace.remote_host,
                wire_id,
                directory,
                workspace.daemon_id,
            );
            match reply {
                Err(cause) => Run {
                    state: made,
                    result: Err(
                        sessions::while_doing("creating another session in "@, wire_id, cause),
                    ),
                },
                Ok((session, daemon)) => {
                    let owner = sessions::or_else(workspace.daemon_id, daemon);
                    let (asked, way) = replay::attach_session(
                        made,
                        later,
                        workspace.remote_host,
                        session,
                        owner,
                    );
                    match way {
                        Err(cause) => Run {
                            state: asked,
                            result: Err(FailureView::Message(cause)),
                        },
                        Ok(argv) => if workspace.daemon_id is None && owner is Some {
                            match registry::changed(
                                asked.rows,
                                workspace.id,
                                registry::route_change(workspace.remote_host, owner),
                            ) {
                                None => Run {
                                    state: asked,
                                    result: Err(sessions::record_conflict()),
                                },
                                Some(rows) => Run {
                                    state: ServiceView { rows, ..asked },
                                    result: Ok((session, argv, owner)),
                                },
                            }
                        } else {
                            Run { state: asked, result: Ok((session, argv, owner)) }
                        },
                    }
                },
            }
        },
    }
}

/// A workspace's layout is asked for; an unnamed row learns the daemon that
/// answered.
pub open spec fn opening_layout(
    state: ServiceView,
    later: ServiceView,
    workspace: WorkspaceView,
) -> sessions::RowRun<(Seq<char>, u64)> {
    let (reached, connected) = replay::connect(state, later, workspace.remote_host);
    match connected {
        Err(failure) => sessions::RowRun { state: reached, workspace, result: Err(failure) },
        Ok(()) => {
            let (asked, reply) = replay::open_layout(
                reached,
                later,
                workspace.remote_host,
                workspace.daemon_workspace_id(),
                workspace.daemon_id,
            );
            match reply {
                Err(cause) => sessions::RowRun {
                    state: asked,
                    workspace,
                    result: Err(FailureView::Message(cause)),
                },
                Ok((layout, daemon)) => if workspace.daemon_id is None && daemon is Some {
                    match registry::changed(
                        asked.rows,
                        workspace.id,
                        registry::route_change(workspace.remote_host, daemon),
                    ) {
                        None => sessions::RowRun {
                            state: asked,
                            workspace,
                            result: Err(sessions::record_conflict()),
                        },
                        Some(rows) => sessions::RowRun {
                            state: ServiceView { rows, ..asked },
                            workspace: WorkspaceView { daemon_id: daemon, ..workspace },
                            result: Ok(layout),
                        },
                    }
                } else {
                    sessions::RowRun { state: asked, workspace, result: Ok(layout) }
                },
            }
        },
    }
}

/// The way onto one session is asked for.
pub open spec fn attaching_session(
    state: ServiceView,
    later: ServiceView,
    workspace: WorkspaceView,
    session: Seq<char>,
) -> Run<Seq<Seq<char>>> {
    let (reached, connected) = replay::connect(state, later, workspace.remote_host);
    match connected {
        Err(failure) => Run { state: reached, result: Err(failure) },
        Ok(()) => {
            let (asked, reply) = replay::attach_session(
                reached,
                later,
                workspace.remote_host,
                session,
                workspace.daemon_id,
            );
            Run { state: asked, result: or_cause(reply) }
        },
    }
}

/// One session is asked to take another size.
pub open spec fn resizing(
    state: ServiceView,
    later: ServiceView,
    workspace: WorkspaceView,
    session: Seq<char>,
    cols: u16,
    rows: u16,
) -> Run<()> {
    let (reached, connected) = replay::connect(state, later, workspace.remote_host);
    match connected {
        Err(failure) => Run { state: reached, result: Err(failure) },
        Ok(()) => {
            let (asked, reply) = replay::resize(
                reached,
                later,
                workspace.remote_host,
                session,
                cols,
                rows,
                workspace.daemon_id,
            );
            Run { state: asked, result: or_cause(reply) }
        },
    }
}

/// A workspace's layout is asked for, and nothing is recorded.
pub open spec fn reading_layout(
    state: ServiceView,
    later: ServiceView,
    workspace: WorkspaceView,
) -> Run<(Seq<char>, u64)> {
    let (reached, connected) = replay::connect(state, later, workspace.remote_host);
    match connected {
        Err(failure) => Run { state: reached, result: Err(failure) },
        Ok(()) => {
            let (asked, reply) = replay::open_layout(
                reached,
                later,
                workspace.remote_host,
                workspace.daemon_workspace_id(),
                workspace.daemon_id,
            );
            Run {
                state: asked,
                result: match reply {
                    Ok((stored, _)) => Ok(stored),
                    Err(cause) => Err(FailureView::Message(cause)),
                },
            }
        },
    }
}

/// A workspace's layout is asked to be replaced.
pub open spec fn storing_layout(
    state: ServiceView,
    later: ServiceView,
    workspace: WorkspaceView,
    document: Seq<char>,
    rev: u64,
) -> Run<()> {
    let (reached, connected) = replay::connect(state, later, workspace.remote_host);
    match connected {
        Err(failure) => Run { state: reached, result: Err(failure) },
        Ok(()) => {
            let (asked, reply) = replay::update_layout(
                reached,
                later,
                workspace.remote_host,
                workspace.daemon_workspace_id(),
                document,
                rev,
                workspace.daemon_id,
            );
            Run { state: asked, result: or_cause(reply) }
        },
    }
}

/// One session is asked to be killed.
pub open spec fn killing_one_session(
    state: ServiceView,
    later: ServiceView,
    workspace: WorkspaceView,
    session: Seq<char>,
) -> Run<()> {
    let (reached, connected) = replay::connect(state, later, workspace.remote_host);
    match connected {
        Err(failure) => Run { state: reached, result: Err(failure) },
        Ok(()) => {
            let (asked, reply) = replay::kill_session(
                reached,
                later,
                workspace.remote_host,
                session,
                workspace.daemon_id,
            );
            Run { state: asked, result: or_cause(reply) }
        },
    }
}

/// The daemon of a host is asked to be replaced.
pub open spec fn upgrading(state: ServiceView, later: ServiceView, destination: Seq<char>) -> Run<
    (),
> {
    let (reached, connected) = replay::connect(state, later, Some(destination));
    match connected {
        Err(failure) => Run { state: reached, result: Err(failure) },
        Ok(()) => {
            let (asked, reply) = replay::upgrade(reached, later, Some(destination));
            Run { state: asked, result: or_cause(reply) }
        },
    }
}

impl<B: SessionBackend> WorkspaceLifecycleService<B> {
    /// Registers a new workspace and gives it a detached session.
    ///
    /// The row lands first, as `creating`. If the backend refuses, the workspace
    /// is recorded as `error` and the row stays.
    pub fn create_workspace_scoped(
        &mut self,
        request: NewWorkspace,
    ) -> (created: Result<AdeWorkspace, Failure>)
        requires
            old(self).wf(),
        ensures
            final(self).wf(),
            final(self).continues(old(self)),
            creating(old(self)@, final(self)@, request.row(), request.now) == (Run {
                state: final(self)@,
                result: service::told(created),
            }),
    {
        let now: i64 = request.now;
        let mut row = AdeWorkspace::new(
            request.id,
            request.name.as_str(),
            request.project_id.as_str(),
            request.repository_path.as_str(),
            now,
        );
        row.project_identity = request.project_identity;
        row.branch = request.branch;
        row.remote_host = request.remote_host;
        match self.table().create_workspace(row.clone(), now) {
            Ok(()) => {},
            Err(_) => {
                return Err(
                    Failure::while_doing(
                        "recording the new workspace",
                        "",
                        "another row already stands for this daemon record",
                    ),
                );
            },
        }
        match self.start_session(&mut row) {
            Ok(()) => Ok(row),
            Err(failure) => Err(failure),
        }
    }

    /// [`Self::create_workspace_scoped`], in the project of the repository that
    /// the requested path turns out to be in. The request's own project is not
    /// read.
    pub fn create_workspace_from_repository(
        &mut self,
        request: NewWorkspace,
    ) -> (created: Result<AdeWorkspace, Failure>)
        requires
            old(self).wf(),
        ensures
            final(self).wf(),
            final(self).continues(old(self)),
            creating_from_repository(old(self)@, final(self)@, request) == (Run {
                state: final(self)@,
                result: service::told(created),
            }),
    {
        let at = match self.backend_for_host(text::borrowed(&request.remote_host)) {
            Ok(at) => at,
            Err(failure) => {
                return Err(failure);
            },
        };
        match self.ask_repository(at, request.repository_path.as_str()) {
            Ok((checkout, identity)) => {
                let mut scoped = request;
                scoped.project_id = workspace::project_id_from_identity(identity.as_str());
                scoped.project_identity = Some(identity);
                scoped.repository_path = checkout;
                self.create_workspace_scoped(scoped)
            },
            Err(cause) => Err(
                Failure::while_doing(
                    text::joined3(
                        "resolving project directory ",
                        request.repository_path.as_str(),
                        " on ",
                    ).as_str(),
                    crate::daemon::host_label(text::borrowed(&request.remote_host)).as_str(),
                    cause.as_str(),
                ),
            ),
        }
    }

    /// The argv a terminal pane runs to attach to this workspace, creating its
    /// session if it is gone.
    pub fn attach_command(
        &mut self,
        workspace: &AdeWorkspace,
    ) -> (attached: Result<Attached, Failure>)
        requires
            old(self).wf(),
        ensures
            final(self).wf(),
            final(self).continues(old(self)),
            attaching(old(self)@, final(self)@, workspace@) == (Run {
                state: final(self)@,
                result: service::told(attached),
            }),
    {
        let at = match self.backend_for_host(text::borrowed(&workspace.remote_host)) {
            Ok(at) => at,
            Err(failure) => {
                return Err(failure);
            },
        };
        let spec = sessions::session_spec(workspace);
        match self.ask_attach(at, &spec, text::borrowed(&workspace.daemon_id)) {
            Ok(attached) => Ok(attached),
            Err(cause) => Err(Failure::Message(cause)),
        }
    }

    /// Adds one more session to the workspace, and hands back its id with the
    /// argv that attaches to it and the daemon that made it.
    pub fn create_session_in_workspace(
        &mut self,
        workspace: &AdeWorkspace,
        working_directory: &str,
    ) -> (added: Result<(String, Vec<String>, Option<String>), Failure>)
        requires
            old(self).wf(),
        ensures
            final(self).wf(),
            final(self).continues(old(self)),
            adding_session(old(self)@, final(self)@, workspace@, working_directory@) == (Run {
                state: final(self)@,
                result: service::told(added),
            }),
    {
        let at = match self.backend_for_host(text::borrowed(&workspace.remote_host)) {
            Ok(at) => at,
            Err(failure) => {
                return Err(failure);
            },
        };
        let wire_id = workspace.daemon_workspace_id();
        let (session, daemon) = match self.ask_create_in_workspace(
            at,
            wire_id.as_str(),
            working_directory,
            text::borrowed(&workspace.daemon_id),
        ) {
            Ok(pair) => pair,
            Err(cause) => {
                return Err(
                    Failure::while_doing(
                        "creating another session in ",
                        wire_id.as_str(),
                        cause.as_str(),
                    ),
                );
            },
        };
        let owner = match &workspace.daemon_id {
            Some(daemon_id) => Some(daemon_id.clone()),
            None => daemon,
        };
        let argv = match self.ask_attach_session(at, session.as_str(), text::borrowed(&owner)) {
            Ok(argv) => argv,
            Err(cause) => {
                return Err(Failure::Message(cause));
            },
        };
        if workspace.daemon_id.is_none() && owner.is_some() {
            match self.table().update_remote_host_and_daemon_id(
                &workspace.id,
                text::borrowed(&workspace.remote_host),
                text::borrowed(&owner),
            ) {
                Ok(()) => {},
                Err(_) => {
                    return Err(
                        Failure::saying("another row already stands for this daemon record"),
                    );
                },
            }
        }
        Ok((session, argv, owner))
    }

    /// The argv a terminal pane runs to attach to one session named by the
    /// backend. Never creates one.
    pub fn attach_session_command(
        &mut self,
        workspace: &AdeWorkspace,
        session_id: &str,
    ) -> (argv: Result<Vec<String>, Failure>)
        requires
            old(self).wf(),
        ensures
            final(self).wf(),
            final(self).continues(old(self)),
            attaching_session(old(self)@, final(self)@, workspace@, session_id@) == (Run {
                state: final(self)@,
                result: service::told(argv),
            }),
    {
        let at = match self.backend_for_host(text::borrowed(&workspace.remote_host)) {
            Ok(at) => at,
            Err(failure) => {
                return Err(failure);
            },
        };
        match self.ask_attach_session(at, session_id, text::borrowed(&workspace.daemon_id)) {
            Ok(argv) => Ok(argv),
            Err(cause) => Err(Failure::Message(cause)),
        }
    }

    /// Replaces the daemon on a host, because somebody asked for it. The outcome
    /// is the backend's own.
    pub fn upgrade_host_daemon(&mut self, destination: &str) -> (upgraded: Result<
        B::UpgradeOutcome,
        Failure,
    >)
        requires
            old(self).wf(),
        ensures
            final(self).wf(),
            final(self).continues(old(self)),
            ({
                let run = upgrading(old(self)@, final(self)@, destination@);
                &&& final(self)@ == run.state
                &&& match run.result {
                    Ok(()) => upgraded is Ok,
                    Err(failure) => upgraded matches Err(told) && told@ == failure,
                }
            }),
            upgraded matches Ok(outcome) ==> (final(self).history().last() matches Step::Asked {
                before,
                after,
                ..
            } && call_ensures(calls::upgrade_daemon::<B>, (before,), (after, Ok(outcome)))),
    {
        let at = match self.backend_for_host(Some(destination)) {
            Ok(at) => at,
            Err(failure) => {
                return Err(failure);
            },
        };
        let reply = self.ask_upgrade(at);
        match reply {
            Ok(outcome) => Ok(outcome),
            Err(cause) => Err(Failure::Message(cause)),
        }
    }

    pub fn resize_session(
        &mut self,
        workspace: &AdeWorkspace,
        session_id: &str,
        cols: u16,
        rows: u16,
    ) -> (resized: Result<(), Failure>)
        requires
            old(self).wf(),
        ensures
            final(self).wf(),
            final(self).continues(old(self)),
            resizing(old(self)@, final(self)@, workspace@, session_id@, cols, rows) == (Run {
                state: final(self)@,
                result: service::told(resized),
            }),
    {
        let at = match self.backend_for_host(text::borrowed(&workspace.remote_host)) {
            Ok(at) => at,
            Err(failure) => {
                return Err(failure);
            },
        };
        match self.ask_resize(at, session_id, cols, rows, text::borrowed(&workspace.daemon_id)) {
            Ok(()) => Ok(()),
            Err(cause) => Err(Failure::Message(cause)),
        }
    }

    /// The workspace's layout as the backend holds it, with the revision that
    /// guards the next write.
    pub fn open_workspace_layout(
        &mut self,
        workspace: &AdeWorkspace,
    ) -> (layout: Result<WorkspaceLayout, Failure>)
        requires
            old(self).wf(),
        ensures
            final(self).wf(),
            final(self).continues(old(self)),
            reading_layout(old(self)@, final(self)@, workspace@) == (Run {
                state: final(self)@,
                result: service::told(layout),
            }),
    {
        let at = match self.backend_for_host(text::borrowed(&workspace.remote_host)) {
            Ok(at) => at,
            Err(failure) => {
                return Err(failure);
            },
        };
        let wire_id = workspace.daemon_workspace_id();
        match self.ask_layout(at, wire_id.as_str(), text::borrowed(&workspace.daemon_id)) {
            Ok((layout, _)) => Ok(layout),
            Err(cause) => Err(Failure::Message(cause)),
        }
    }

    /// [`Self::open_workspace_layout`], recording the daemon that answered on a
    /// row that names none.
    pub fn open_workspace_layout_identified(
        &mut self,
        workspace: &mut AdeWorkspace,
    ) -> (layout: Result<WorkspaceLayout, Failure>)
        requires
            old(self).wf(),
        ensures
            final(self).wf(),
            final(self).continues(old(self)),
            opening_layout(old(self)@, final(self)@, old(workspace)@) == (sessions::RowRun {
                state: final(self)@,
                workspace: final(workspace)@,
                result: service::told(layout),
            }),
    {
        let at = match self.backend_for_host(text::borrowed(&workspace.remote_host)) {
            Ok(at) => at,
            Err(failure) => {
                return Err(failure);
            },
        };
        let wire_id = workspace.daemon_workspace_id();
        let (layout, daemon) = match self.ask_layout(
            at,
            wire_id.as_str(),
            text::borrowed(&workspace.daemon_id),
        ) {
            Ok(pair) => pair,
            Err(cause) => {
                return Err(Failure::Message(cause));
            },
        };
        if workspace.daemon_id.is_none() && daemon.is_some() {
            match self.table().update_remote_host_and_daemon_id(
                &workspace.id,
                text::borrowed(&workspace.remote_host),
                text::borrowed(&daemon),
            ) {
                Ok(()) => {},
                Err(_) => {
                    return Err(
                        Failure::saying("another row already stands for this daemon record"),
                    );
                },
            }
            workspace.daemon_id = daemon;
        }
        Ok(layout)
    }

    /// Stores a new layout for the workspace at `rev`. A stale revision comes
    /// back as an error: the caller lost a race and should fetch again.
    pub fn update_layout(
        &mut self,
        workspace: &AdeWorkspace,
        layout: &LayoutDoc,
        rev: u64,
    ) -> (stored: Result<(), Failure>)
        requires
            old(self).wf(),
        ensures
            final(self).wf(),
            final(self).continues(old(self)),
            storing_layout(old(self)@, final(self)@, workspace@, layout.document@, rev) == (Run {
                state: final(self)@,
                result: service::told(stored),
            }),
    {
        let at = match self.backend_for_host(text::borrowed(&workspace.remote_host)) {
            Ok(at) => at,
            Err(failure) => {
                return Err(failure);
            },
        };
        let wire_id = workspace.daemon_workspace_id();
        match self.ask_update_layout(
            at,
            wire_id.as_str(),
            layout,
            rev,
            text::borrowed(&workspace.daemon_id),
        ) {
            Ok(()) => Ok(()),
            Err(cause) => Err(Failure::Message(cause)),
        }
    }

    /// Kills the one session a closed terminal tab was showing.
    pub fn kill_session(
        &mut self,
        workspace: &AdeWorkspace,
        session_id: &str,
    ) -> (killed: Result<(), Failure>)
        requires
            old(self).wf(),
        ensures
            final(self).wf(),
            final(self).continues(old(self)),
            killing_one_session(old(self)@, final(self)@, workspace@, session_id@) == (Run {
                state: final(self)@,
                result: service::told(killed),
            }),
    {
        let at = match self.backend_for_host(text::borrowed(&workspace.remote_host)) {
            Ok(at) => at,
            Err(failure) => {
                return Err(failure);
            },
        };
        match self.ask_kill_session(at, session_id, text::borrowed(&workspace.daemon_id)) {
            Ok(()) => Ok(()),
            Err(cause) => Err(Failure::Message(cause)),
        }
    }
}

} // verus!
