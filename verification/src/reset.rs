//! Starting a workspace's sessions over, with the stale duplicates of it
//! cleared away.

use crate::entry::Failure;
use crate::opening;
use crate::paths;
use crate::registry;
use crate::replay;
use crate::service;
use crate::service::{ServiceView, WorkspaceLifecycleService};
use crate::session_backend::{Attached, AttachedView, SessionBackend, SessionId};
use crate::sessions;
use crate::sessions::Run;
use crate::text;
use crate::workspace::{AdeWorkspace, WorkspaceId, WorkspaceView};
use vstd::prelude::*;
use vstd::string::*;

verus! {

/// Whether a row is an older duplicate of a workspace: another row on the same
/// host and daemon, for the same daemon workspace or the same project at the
/// same path.
pub open spec fn is_duplicate(candidate: WorkspaceView, workspace: WorkspaceView) -> bool {
    &&& candidate.id != workspace.id
    &&& candidate.remote_host == workspace.remote_host
    &&& candidate.daemon_id == workspace.daemon_id
    &&& candidate.daemon_workspace_id() == workspace.daemon_workspace_id() || (
    candidate.project_id == workspace.project_id && paths::is_same(
        candidate.repository_path,
        workspace.repository_path,
    ))
}

pub fn is_duplicate_of(candidate: &AdeWorkspace, workspace: &AdeWorkspace) -> (duplicate: bool)
    ensures
        duplicate == is_duplicate(candidate@, workspace@),
{
    !candidate.id.is(&workspace.id) && text::same_opt_text(
        text::borrowed(&candidate.remote_host),
        text::borrowed(&workspace.remote_host),
    ) && text::same_opt_text(
        text::borrowed(&candidate.daemon_id),
        text::borrowed(&workspace.daemon_id),
    ) && (text::same_text(
        candidate.daemon_workspace_id().as_str(),
        workspace.daemon_workspace_id().as_str(),
    ) || (text::same_text(candidate.project_id.as_str(), workspace.project_id.as_str())
        && paths::same_path(
        candidate.repository_path.as_str(),
        workspace.repository_path.as_str(),
    )))
}

/// The duplicates of a workspace among the rows in use, last opened first.
pub open spec fn duplicates_of(
    rows: Seq<registry::RowView>,
    workspace: WorkspaceView,
) -> Seq<WorkspaceView> {
    registry::listing(rows, registry::used_rows()).filter(
        |candidate: WorkspaceView| is_duplicate(candidate, workspace),
    )
}

/// One duplicate is cleared away. Its daemon record is killed first, unless it
/// is the record of the workspace itself, which another row must not take down.
pub open spec fn dropping_one(
    state: ServiceView,
    later: ServiceView,
    workspace: WorkspaceView,
    daemon: Option<Seq<char>>,
    duplicate: WorkspaceView,
) -> Run<()> {
    let wire_id = duplicate.daemon_workspace_id();
    let (killed, reply) = if wire_id == workspace.daemon_workspace_id() {
        (state, Ok(()))
    } else {
        replay::kill_workspace(state, later, workspace.remote_host, wire_id, daemon)
    };
    match reply {
        Err(cause) => Run {
            state: killed,
            result: Err(sessions::while_doing("removing stale workspace "@, wire_id, cause)),
        },
        Ok(()) => Run {
            state: ServiceView { rows: registry::without(killed.rows, duplicate.id), ..killed },
            result: Ok(()),
        },
    }
}

/// The duplicates are cleared away in turn, up to the first refusal.
pub open spec fn dropping(
    state: ServiceView,
    later: ServiceView,
    workspace: WorkspaceView,
    daemon: Option<Seq<char>>,
    duplicates: Seq<WorkspaceView>,
) -> Run<()>
    decreases duplicates.len(),
{
    if duplicates.len() == 0 {
        Run { state, result: Ok(()) }
    } else {
        let run = dropping(state, later, workspace, daemon, duplicates.drop_last());
        match run.result {
            Err(_) => run,
            Ok(()) => dropping_one(run.state, later, workspace, daemon, duplicates.last()),
        }
    }
}

/// Answers that were given stay the answers as the history goes on.
proof fn lemma_dropping_settled(
    state: ServiceView,
    now: ServiceView,
    later: ServiceView,
    workspace: WorkspaceView,
    daemon: Option<Seq<char>>,
    duplicates: Seq<WorkspaceView>,
)
    requires
        dropping(state, now, workspace, daemon, duplicates).state.log.is_prefix_of(now.log),
        now.log.is_prefix_of(later.log),
    ensures
        dropping(state, now, workspace, daemon, duplicates) == dropping(
            state,
            later,
            workspace,
            daemon,
            duplicates,
        ),
        state.log.is_prefix_of(
            dropping(state, now, workspace, daemon, duplicates).state.log,
        ),
        dropping(state, now, workspace, daemon, duplicates).state.hosts == state.hosts,
        dropping(state, now, workspace, daemon, duplicates).state.connects == state.connects,
    decreases duplicates.len(),
{
    if duplicates.len() > 0 {
        let rest = duplicates.drop_last();
        let run = dropping(state, now, workspace, daemon, rest);
        if run.result is Ok {
            let whole = dropping(state, now, workspace, daemon, duplicates);
            assert(run.state.log.is_prefix_of(whole.state.log));
            assert(run.state.log.is_prefix_of(now.log));
        }
        lemma_dropping_settled(state, now, later, workspace, daemon, rest);
        if run.result is Ok {
            let n = run.state.log.len() as int;
            if duplicates.last().daemon_workspace_id() != workspace.daemon_workspace_id() {
                assert(n < now.log.len());
                assert(now.log[n] == later.log[n]);
            }
        }
    }
}

/// A workspace's sessions are started over, under the identity it had.
pub open spec fn resetting(
    state: ServiceView,
    later: ServiceView,
    id: Seq<char>,
) -> Run<(WorkspaceView, AttachedView)> {
    match registry::workspace_of(state.rows, id) {
        None => Run { state, result: Err(sessions::no_workspace(id)) },
        Some(workspace) => {
            let (reached, connected) = replay::connect(state, later, workspace.remote_host);
            match connected {
                Err(failure) => Run { state: reached, result: Err(failure) },
                Ok(()) => {
                    let fence = sessions::fencing(
                        reached,
                        later,
                        workspace,
                        "the daemon changed while preparing to reset workspace "@,
                    );
                    match fence.result {
                        Err(failure) => Run { state: fence.state, result: Err(failure) },
                        Ok(daemon) => {
                            let cleared = dropping(
                                fence.state,
                                later,
                                workspace,
                                daemon,
                                duplicates_of(fence.state.rows, workspace),
                            );
                            match cleared.result {
                                Err(failure) => Run { state: cleared.state, result: Err(failure) },
                                Ok(()) => restarting(cleared.state, later, workspace, daemon),
                            }
                        },
                    }
                },
            }
        },
    }
}

/// The last part of a reset: the old sessions go, and a fresh one comes.
pub open spec fn restarting(
    state: ServiceView,
    later: ServiceView,
    workspace: WorkspaceView,
    daemon: Option<Seq<char>>,
) -> Run<(WorkspaceView, AttachedView)> {
    let wire_id = workspace.daemon_workspace_id();
    let (killed, reply) = replay::reset(
        state,
        later,
        workspace.remote_host,
        wire_id,
        workspace.repository_path,
        daemon,
    );
    match reply {
        Err(cause) => Run {
            state: killed,
            result: Err(sessions::while_doing("killing sessions in workspace "@, wire_id, cause)),
        },
        Ok(()) => {
            let started = sessions::starting(
                killed,
                later,
                WorkspaceView {
                    daemon_id: sessions::or_else(workspace.daemon_id, daemon),
                    ..workspace
                },
            );
            match started.result {
                Err(failure) => Run { state: started.state, result: Err(failure) },
                Ok(()) => {
                    let attached = opening::attaching(started.state, later, started.workspace);
                    Run {
                        state: attached.state,
                        result: match attached.result {
                            Ok(way) => Ok((started.workspace, way)),
                            Err(failure) => Err(failure),
                        },
                    }
                },
            }
        },
    }
}

impl<B: SessionBackend> WorkspaceLifecycleService<B> {
    fn list_duplicates(&self, workspace: &AdeWorkspace) -> (duplicates: Vec<AdeWorkspace>)
        requires
            self.wf(),
        ensures
            duplicates.deep_view() == duplicates_of(self@.rows, workspace@),
    {
        let listed = self.registry().confirmed_workspaces();
        let ghost all = listed.deep_view();
        let ghost keep = |candidate: WorkspaceView| is_duplicate(candidate, workspace@);
        let mut duplicates: Vec<AdeWorkspace> = Vec::new();
        let mut i: usize = 0;
        assert(all.take(0).filter(keep) =~= Seq::<WorkspaceView>::empty()) by {
            reveal(Seq::filter);
        }
        while i < listed.len()
            invariant
                i <= listed.len(),
                all == listed.deep_view(),
                keep == (|candidate: WorkspaceView| is_duplicate(candidate, workspace@)),
                duplicates.deep_view() == all.take(i as int).filter(keep),
            decreases listed.len() - i,
        {
            let ghost before = duplicates.deep_view();
            proof {
                reveal(Seq::filter);
                assert(all.take(i + 1).drop_last() =~= all.take(i as int));
                assert(all.take(i + 1).last() == listed[i as int]@);
            }
            if is_duplicate_of(&listed[i], workspace) {
                let row = listed[i].clone();
                duplicates.push(row);
                assert(duplicates.deep_view() =~= before.push(row@));
            }
            i = i + 1;
        }
        assert(all.take(all.len() as int) =~= all);
        duplicates
    }

    /// Kills every persistent session for one worktree and starts a fresh
    /// primary session in the workspace this window was showing.
    ///
    /// The selected daemon workspace keeps its record and identity. Older
    /// duplicates of it are killed and deleted; other projects, worktrees and
    /// hosts keep running.
    pub fn reset_workspace_sessions(
        &mut self,
        id: &WorkspaceId,
    ) -> (reset: Result<(AdeWorkspace, Attached), Failure>)
        requires
            old(self).wf(),
        ensures
            final(self).wf(),
            final(self).continues(old(self)),
            resetting(old(self)@, final(self)@, id@) == (Run {
                state: final(self)@,
                result: service::told(reset),
            }),
    {
        let workspace = match self.get(id) {
            Ok(workspace) => workspace,
            Err(failure) => {
                return Err(failure);
            },
        };
        let at = match self.backend_for_host(text::borrowed(&workspace.remote_host)) {
            Ok(at) => at,
            Err(failure) => {
                return Err(failure);
            },
        };
        let ghost reached = self@;
        let daemon = match self.fence(
            at,
            &workspace,
            "the daemon changed while preparing to reset workspace ",
        ) {
            Ok(daemon) => daemon,
            Err(failure) => {
                return Err(failure);
            },
        };
        let ghost fenced = self@;
        let duplicates = self.list_duplicates(&workspace);
        match self.drop_duplicates(at, &workspace, text::borrowed(&daemon), &duplicates) {
            Ok(()) => {},
            Err(failure) => {
                return Err(failure);
            },
        }
        let ghost cleared = self@;
        let restarted = self.restart(at, workspace, daemon);
        proof {
            lemma_dropping_settled(
                fenced,
                cleared,
                self@,
                workspace@,
                text::opt(daemon),
                duplicates.deep_view(),
            );
        }
        restarted
    }

    fn drop_duplicates(
        &mut self,
        at: usize,
        workspace: &AdeWorkspace,
        daemon: Option<&str>,
        duplicates: &Vec<AdeWorkspace>,
    ) -> (dropped: Result<(), Failure>)
        requires
            old(self).wf(),
            at < old(self)@.hosts.len(),
            old(self)@.hosts[at as int] == workspace@.remote_host,
        ensures
            final(self).wf(),
            final(self).continues(old(self)),
            final(self)@.hosts == old(self)@.hosts,
            final(self)@.connects == old(self)@.connects,
            old(self)@.log.is_prefix_of(final(self)@.log),
            dropping(
                old(self)@,
                final(self)@,
                workspace@,
                daemon.deep_view(),
                duplicates.deep_view(),
            ) == (Run { state: final(self)@, result: service::told(dropped) }),
    {
        let wire_id = workspace.daemon_workspace_id();
        let mut i: usize = 0;
        let ghost all = duplicates.deep_view();
        while i < duplicates.len()
            invariant
                i <= duplicates.len(),
                all == duplicates.deep_view(),
                self.wf(),
                self.continues(old(self)),
                wire_id@ == workspace@.daemon_workspace_id(),
                at < self@.hosts.len(),
                self@.hosts == old(self)@.hosts,
                self@.connects == old(self)@.connects,
                old(self)@.hosts[at as int] == workspace@.remote_host,
                old(self)@.log.is_prefix_of(self@.log),
                dropping(
                    old(self)@,
                    self@,
                    workspace@,
                    daemon.deep_view(),
                    all.take(i as int),
                ) == (Run::<()> { state: self@, result: Ok(()) }),
            decreases duplicates.len() - i,
        {
            let duplicate = &duplicates[i];
            let stale = duplicate.daemon_workspace_id();
            let ghost before = self@;
            proof {
                assert(all.take(i + 1).drop_last() =~= all.take(i as int));
                assert(all.take(i + 1).last() == duplicate@);
            }
            if !text::same_text(stale.as_str(), wire_id.as_str()) {
                let killed = self.ask_kill_workspace(at, stale.as_str(), daemon);
                proof {
                    lemma_dropping_settled(
                        old(self)@,
                        before,
                        self@,
                        workspace@,
                        daemon.deep_view(),
                        all.take(i as int),
                    );
                }
                match killed {
                    Ok(()) => {},
                    Err(cause) => {
                        proof {
                            lemma_dropping_stops(
                                old(self)@,
                                self@,
                                workspace@,
                                daemon.deep_view(),
                                all,
                                i + 1,
                            );
                        }
                        return Err(
                            Failure::while_doing(
                                "removing stale workspace ",
                                stale.as_str(),
                                cause.as_str(),
                            ),
                        );
                    },
                }
            }
            let ghost killed_state = self@;
            self.table().delete_workspace(&duplicate.id);
            proof {
                lemma_dropping_settled(
                    old(self)@,
                    before,
                    self@,
                    workspace@,
                    daemon.deep_view(),
                    all.take(i as int),
                );
            }
            i = i + 1;
        }
        assert(all.take(all.len() as int) =~= all);
        Ok(())
    }

    fn restart(
        &mut self,
        at: usize,
        workspace: AdeWorkspace,
        daemon: Option<String>,
    ) -> (restarted: Result<(AdeWorkspace, Attached), Failure>)
        requires
            old(self).wf(),
            at < old(self)@.hosts.len(),
            old(self)@.hosts[at as int] == workspace@.remote_host,
        ensures
            final(self).wf(),
            final(self).continues(old(self)),
            old(self)@.log.is_prefix_of(final(self)@.log),
            final(self)@.connects == old(self)@.connects,
            restarting(old(self)@, final(self)@, workspace@, text::opt(daemon)) == (Run {
                state: final(self)@,
                result: service::told(restarted),
            }),
    {
        let wire_id = workspace.daemon_workspace_id();
        let session = SessionId(wire_id.clone());
        assert(self@.hosts.contains(workspace@.remote_host));
        match self.ask_reset(
            at,
            &session,
            workspace.repository_path.as_str(),
            text::borrowed(&daemon),
        ) {
            Ok(()) => {},
            Err(cause) => {
                return Err(
                    Failure::while_doing(
                        "killing sessions in workspace ",
                        wire_id.as_str(),
                        cause.as_str(),
                    ),
                );
            },
        }
        let ghost killed = self@;
        let mut fresh = workspace;
        fresh.daemon_id = match fresh.daemon_id {
            Some(known) => Some(known),
            None => daemon,
        };
        let ghost given = fresh@;
        let started = self.start_session(&mut fresh);
        let ghost begun = self@;
        match started {
            Ok(()) => {},
            Err(failure) => {
                return Err(failure);
            },
        }
        let attached = self.attach_command(&fresh);
        proof {
            assert(begun.log.is_prefix_of(self@.log));
            assert(sessions::starting(killed, self@, given) == sessions::starting(
                killed,
                begun,
                given,
            ));
        }
        match attached {
            Ok(way) => Ok((fresh, way)),
            Err(failure) => Err(failure),
        }
    }
}

/// A refusal ends the clearing: what follows is not reached.
proof fn lemma_dropping_stops(
    state: ServiceView,
    later: ServiceView,
    workspace: WorkspaceView,
    daemon: Option<Seq<char>>,
    duplicates: Seq<WorkspaceView>,
    upto: int,
)
    requires
        0 <= upto <= duplicates.len(),
        dropping(state, later, workspace, daemon, duplicates.take(upto)).result is Err,
    ensures
        dropping(state, later, workspace, daemon, duplicates) == dropping(
            state,
            later,
            workspace,
            daemon,
            duplicates.take(upto),
        ),
    decreases duplicates.len(),
{
    if upto == duplicates.len() {
        assert(duplicates.take(upto) =~= duplicates);
    } else {
        assert(duplicates.drop_last().take(upto) =~= duplicates.take(upto));
        lemma_dropping_stops(state, later, workspace, daemon, duplicates.drop_last(), upto);
    }
}

/// Only the duplicates and the workspace itself are touched: a reset never
/// counts a row of another host, of another daemon, or of another project with
/// another record as a duplicate, and never the workspace itself.
pub proof fn law_a_reset_spares_the_others(
    rows: Seq<registry::RowView>,
    workspace: WorkspaceView,
    k: int,
)
    requires
        0 <= k < duplicates_of(rows, workspace).len(),
    ensures
        is_duplicate(duplicates_of(rows, workspace)[k], workspace),
        duplicates_of(rows, workspace)[k].id != workspace.id,
{
    let keep = |candidate: WorkspaceView| is_duplicate(candidate, workspace);
    registry::listing(rows, registry::used_rows()).lemma_filter_pred(keep, k);
}

} // verus!
