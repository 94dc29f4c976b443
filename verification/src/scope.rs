//! Moving a workspace to another project, or a checkout to another path.
//!
//! The registry is authoritative for the project of a row. A daemon that keeps
//! projects is told as well, and may answer with a later revision; a daemon
//! that does not, or cannot be asked, changes nothing about the local write.

use crate::entry;
use crate::entry::{next_project_scope_rev, Failure, FailureView};
use crate::paths;
use crate::registry;
use crate::registry::RowView;
use crate::replay;
use crate::service;
use crate::service::{ServiceView, WorkspaceLifecycleService};
use crate::session_backend::{BackendWorkspace, RecordView, SessionBackend};
use crate::sessions;
use crate::sessions::Run;
use crate::text;
use crate::workspace::{AdeWorkspace, WorkspaceId, WorkspaceView};
use vstd::prelude::*;
use vstd::string::*;

verus! {

/// Whether a workspace already has a root, a project and an identity.
pub open spec fn has_scope(
    workspace: WorkspaceView,
    root: Seq<char>,
    project_id: Seq<char>,
    project_identity: Seq<char>,
) -> bool {
    &&& paths::is_same(workspace.repository_path, root)
    &&& workspace.project_id == project_id
    &&& workspace.project_identity == Some(project_identity)
}

/// The rows with one workspace's project columns written.
pub open spec fn scoped_rows(
    rows: Seq<RowView>,
    id: Seq<char>,
    root: Seq<char>,
    rev: u64,
    project_id: Seq<char>,
    project_identity: Seq<char>,
) -> Seq<RowView> {
    let at = registry::position(rows, id);
    rows.update(
        at,
        RowView {
            workspace: registry::with_scope(
                rows[at].workspace,
                root,
                rev,
                project_id,
                project_identity,
            ),
            ..rows[at]
        },
    )
}

/// A scope is written at a revision, or at the one past the row's own where
/// that revision comes too late.
pub open spec fn settling(
    state: ServiceView,
    id: Seq<char>,
    root: Seq<char>,
    rev: u64,
    project_id: Seq<char>,
    project_identity: Seq<char>,
) -> Run<WorkspaceView> {
    match registry::workspace_of(state.rows, id) {
        None => Run { state, result: Err(sessions::no_workspace(id)) },
        Some(workspace) => {
            let fits = registry::scope_applies(workspace, rev);
            if !fits && has_scope(workspace, root, project_id, project_identity) {
                Run { state, result: Ok(workspace) }
            } else {
                match if fits {
                    Ok(rev)
                } else {
                    entry::next_rev(workspace.project_scope_rev)
                } {
                    Err(failure) => Run { state, result: Err(failure) },
                    Ok(chosen) => Run {
                        state: ServiceView {
                            rows: scoped_rows(
                                state.rows,
                                id,
                                root,
                                chosen,
                                project_id,
                                project_identity,
                            ),
                            ..state
                        },
                        result: Ok(
                            registry::with_scope(
                                workspace,
                                root,
                                chosen,
                                project_id,
                                project_identity,
                            ),
                        ),
                    },
                }
            }
        },
    }
}

/// A settled scope is the one asked for: the row then has the root, the project
/// and the identity, and its revision has not gone back.
pub proof fn law_a_settled_scope_is_the_one_asked_for(
    state: ServiceView,
    id: Seq<char>,
    root: Seq<char>,
    rev: u64,
    project_id: Seq<char>,
    project_identity: Seq<char>,
)
    ensures
        settling(state, id, root, rev, project_id, project_identity).result matches Ok(stored)
            ==> has_scope(stored, root, project_id, project_identity),
        settling(state, id, root, rev, project_id, project_identity).result matches Ok(stored)
            ==> (registry::workspace_of(state.rows, id) matches Some(before) && (
        before.project_identity is Some ==> stored.project_scope_rev >= before.project_scope_rev)),
{
}

/// Whether a listing holds a workspace.
pub open spec fn holds(held: Seq<RecordView>, id: Seq<char>) -> bool {
    exists|k: int| 0 <= k < held.len() && (#[trigger] held[k]).id == id
}

/// What is told to a daemon about a workspace's project, where it is told
/// anything: its answer, or the revision this client chose.
pub open spec fn telling_daemon(
    state: ServiceView,
    later: ServiceView,
    held: Option<Seq<RecordView>>,
    workspace: WorkspaceView,
    project_id: Seq<char>,
    project_identity: Seq<char>,
    root: Option<Seq<char>>,
    rev: u64,
) -> (ServiceView, u64) {
    let wire_id = workspace.daemon_workspace_id();
    match held {
        Some(held) if holds(held, wire_id) => {
            let (asked, reply) = replay::update_scope(
                state,
                later,
                workspace.remote_host,
                wire_id,
                project_id,
                project_identity,
                root,
                Some(rev),
                workspace.daemon_id,
            );
            (
                asked,
                match reply {
                    Ok(Some(later_rev)) => later_rev,
                    _ => rev,
                },
            )
        },
        _ => (state, rev),
    }
}

/// What a host's daemon holds, where it can be asked.
pub open spec fn asking_what_is_held(
    state: ServiceView,
    later: ServiceView,
    host: Option<Seq<char>>,
) -> (ServiceView, Option<Seq<RecordView>>) {
    let (reached, connected) = replay::connect(state, later, host);
    match connected {
        Err(_) => (reached, None),
        Ok(()) => {
            let (asked, reply) = replay::list_workspaces(reached, later, host);
            (
                asked,
                match reply {
                    Ok((_, held)) => Some(held),
                    Err(_) => None,
                },
            )
        },
    }
}

/// A workspace is moved to another project.
pub open spec fn moving_project(
    state: ServiceView,
    later: ServiceView,
    id: Seq<char>,
    project_id: Seq<char>,
    project_identity: Seq<char>,
) -> Run<WorkspaceView> {
    match registry::workspace_of(state.rows, id) {
        None => Run { state, result: Err(sessions::no_workspace(id)) },
        Some(workspace) => if workspace.project_id == project_id && workspace.project_identity
            == Some(project_identity) {
            Run { state, result: Ok(workspace) }
        } else {
            match entry::next_rev(workspace.project_scope_rev) {
                Err(failure) => Run { state, result: Err(failure) },
                Ok(rev) => {
                    let (asked, held) = asking_what_is_held(state, later, workspace.remote_host);
                    let (told, chosen) = telling_daemon(
                        asked,
                        later,
                        held,
                        workspace,
                        project_id,
                        project_identity,
                        None,
                        rev,
                    );
                    settling(
                        told,
                        id,
                        workspace.repository_path,
                        chosen,
                        project_id,
                        project_identity,
                    )
                },
            }
        },
    }
}

/// The rows in use that are checked out at one path of one host, last opened
/// first.
pub open spec fn rows_at(
    rows: Seq<RowView>,
    host: Option<Seq<char>>,
    root: Seq<char>,
) -> Seq<WorkspaceView> {
    registry::listing(rows, registry::used_rows()).filter(
        |workspace: WorkspaceView|
            workspace.remote_host == host && paths::is_same(workspace.repository_path, root),
    )
}

/// One workspace is moved to another checkout.
pub open spec fn moving_one(
    state: ServiceView,
    later: ServiceView,
    held: Option<Seq<RecordView>>,
    workspace: WorkspaceView,
    root: Seq<char>,
    project_id: Seq<char>,
    project_identity: Seq<char>,
) -> Run<WorkspaceView> {
    if has_scope(workspace, root, project_id, project_identity) {
        Run { state, result: Ok(workspace) }
    } else {
        match entry::next_rev(workspace.project_scope_rev) {
            Err(failure) => Run { state, result: Err(failure) },
            Ok(rev) => {
                let (told, chosen) = telling_daemon(
                    state,
                    later,
                    held,
                    workspace,
                    project_id,
                    project_identity,
                    Some(root),
                    rev,
                );
                settling(told, workspace.id, root, chosen, project_id, project_identity)
            },
        }
    }
}

/// Workspaces are moved to another checkout in turn, up to the first failure.
pub open spec fn moving_all(
    state: ServiceView,
    later: ServiceView,
    held: Option<Seq<RecordView>>,
    workspaces: Seq<WorkspaceView>,
    root: Seq<char>,
    project_id: Seq<char>,
    project_identity: Seq<char>,
) -> Run<Seq<WorkspaceView>>
    decreases workspaces.len(),
{
    if workspaces.len() == 0 {
        Run { state, result: Ok(Seq::empty()) }
    } else {
        let run = moving_all(
            state,
            later,
            held,
            workspaces.drop_last(),
            root,
            project_id,
            project_identity,
        );
        match run.result {
            Err(_) => run,
            Ok(moved) => {
                let one = moving_one(
                    run.state,
                    later,
                    held,
                    workspaces.last(),
                    root,
                    project_id,
                    project_identity,
                );
                Run {
                    state: one.state,
                    result: match one.result {
                        Ok(workspace) => Ok(moved.push(workspace)),
                        Err(failure) => Err(failure),
                    },
                }
            },
        }
    }
}

/// The first workspace of a list with an id.
pub open spec fn find_id(workspaces: Seq<WorkspaceView>, id: Seq<char>) -> Option<WorkspaceView>
    decreases workspaces.len(),
{
    if workspaces.len() == 0 {
        None
    } else if workspaces[0].id == id {
        Some(workspaces[0])
    } else {
        find_id(workspaces.drop_first(), id)
    }
}

/// A checkout is moved to another path, with every row that stands for it.
pub open spec fn moving_repository(
    state: ServiceView,
    later: ServiceView,
    id: Seq<char>,
    root: Seq<char>,
    project_id: Seq<char>,
    project_identity: Seq<char>,
) -> Run<WorkspaceView> {
    match registry::workspace_of(state.rows, id) {
        None => Run { state, result: Err(sessions::no_workspace(id)) },
        Some(selected) => {
            let matching = rows_at(state.rows, selected.remote_host, selected.repository_path);
            let (asked, held) = asking_what_is_held(state, later, selected.remote_host);
            let run = moving_all(
                asked,
                later,
                held,
                matching,
                root,
                project_id,
                project_identity,
            );
            Run {
                state: run.state,
                result: match run.result {
                    Err(failure) => Err(failure),
                    Ok(moved) => match find_id(moved, id) {
                        Some(workspace) => Ok(workspace),
                        None => Err(
                            FailureView::Message(
                                "the selected workspace disappeared while moving its repository scope"@,
                            ),
                        ),
                    },
                },
            }
        },
    }
}

/// Whether a listing holds a workspace.
pub fn is_held(held: &Vec<BackendWorkspace>, id: &str) -> (found: bool)
    ensures
        found == holds(held.deep_view(), id@),
{
    let mut k: usize = 0;
    while k < held.len()
        invariant
            k <= held.len(),
            forall|m: int| 0 <= m < k ==> (#[trigger] held.deep_view()[m]).id != id@,
        decreases held.len() - k,
    {
        assert(held.deep_view()[k as int] == held[k as int]@);
        if text::same_text(held[k].id.as_str(), id) {
            return true;
        }
        k = k + 1;
    }
    false
}

fn find_workspace(workspaces: Vec<AdeWorkspace>, id: &WorkspaceId) -> (found: Option<AdeWorkspace>)
    ensures
        found.deep_view() == find_id(workspaces.deep_view(), id@),
{
    let ghost all = workspaces.deep_view();
    let mut i: usize = 0;
    assert(all.skip(0) =~= all);
    while i < workspaces.len()
        invariant
            i <= workspaces.len(),
            all == workspaces.deep_view(),
            find_id(all, id@) == find_id(all.skip(i as int), id@),
        decreases workspaces.len() - i,
    {
        proof {
            assert(all.skip(i as int)[0] == workspaces[i as int]@);
            assert(all.skip(i as int).drop_first() =~= all.skip(i + 1));
        }
        if workspaces[i].id.is(id) {
            return Some(workspaces[i].clone());
        }
        i = i + 1;
    }
    assert(all.skip(all.len() as int).len() == 0);
    None
}

proof fn lemma_moving_settled(
    state: ServiceView,
    now: ServiceView,
    later: ServiceView,
    held: Option<Seq<RecordView>>,
    workspaces: Seq<WorkspaceView>,
    root: Seq<char>,
    project_id: Seq<char>,
    project_identity: Seq<char>,
)
    requires
        moving_all(
            state,
            now,
            held,
            workspaces,
            root,
            project_id,
            project_identity,
        ).state.log.is_prefix_of(now.log),
        now.log.is_prefix_of(later.log),
    ensures
        moving_all(state, now, held, workspaces, root, project_id, project_identity) == moving_all(
            state,
            later,
            held,
            workspaces,
            root,
            project_id,
            project_identity,
        ),
        state.log.is_prefix_of(
            moving_all(
                state,
                now,
                held,
                workspaces,
                root,
                project_id,
                project_identity,
            ).state.log,
        ),
    decreases workspaces.len(),
{
    if workspaces.len() > 0 {
        let rest = workspaces.drop_last();
        let run = moving_all(state, now, held, rest, root, project_id, project_identity);
        let whole = moving_all(state, now, held, workspaces, root, project_id, project_identity);
        if run.result is Ok {
            assert(run.state.log.is_prefix_of(whole.state.log));
            assert(run.state.log.is_prefix_of(now.log));
        }
        lemma_moving_settled(
            state,
            now,
            later,
            held,
            rest,
            root,
            project_id,
            project_identity,
        );
        if run.result is Ok {
            let n = run.state.log.len() as int;
            if whole.state.log.len() > n {
                assert(now.log[n] == later.log[n]);
            }
        }
    }
}

proof fn lemma_moving_stops(
    state: ServiceView,
    later: ServiceView,
    held: Option<Seq<RecordView>>,
    workspaces: Seq<WorkspaceView>,
    root: Seq<char>,
    project_id: Seq<char>,
    project_identity: Seq<char>,
    upto: int,
)
    requires
        0 <= upto <= workspaces.len(),
        moving_all(
            state,
            later,
            held,
            workspaces.take(upto),
            root,
            project_id,
            project_identity,
        ).result is Err,
    ensures
        moving_all(state, later, held, workspaces, root, project_id, project_identity)
            == moving_all(
            state,
            later,
            held,
            workspaces.take(upto),
            root,
            project_id,
            project_identity,
        ),
    decreases workspaces.len(),
{
    if upto == workspaces.len() {
        assert(workspaces.take(upto) =~= workspaces);
    } else {
        assert(workspaces.drop_last().take(upto) =~= workspaces.take(upto));
        lemma_moving_stops(
            state,
            later,
            held,
            workspaces.drop_last(),
            root,
            project_id,
            project_identity,
            upto,
        );
    }
}

impl<B: SessionBackend> WorkspaceLifecycleService<B> {
    /// Writes a workspace's project to the registry.
    pub(crate) fn settle_scope(
        &mut self,
        id: &WorkspaceId,
        root: &str,
        rev: u64,
        project_id: &str,
        project_identity: &str,
    ) -> (stored: Result<AdeWorkspace, Failure>)
        requires
            old(self).wf(),
        ensures
            final(self).wf(),
            final(self).continues(old(self)),
            settling(old(self)@, id@, root@, rev, project_id@, project_identity@) == (Run {
                state: final(self)@,
                result: service::told(stored),
            }),
    {
        proof {
            self.rows_keep_the_rules();
            registry::lemma_position(self@.rows, id@);
        }
        let written = self.table().update_repository_scope(
            id,
            root,
            rev,
            project_id,
            project_identity,
        );
        let ghost first = self@.rows;
        let (applied, stored) = match written {
            Some(written) => written,
            None => {
                return Err(Failure::about("no workspace with id ", id.as_str()));
            },
        };
        if applied {
            return Ok(stored);
        }
        proof {
            let at = registry::position(old(self)@.rows, id@);
            assert(first =~= old(self)@.rows);
        }
        if paths::same_path(stored.repository_path.as_str(), root) && text::same_text(
            stored.project_id.as_str(),
            project_id,
        ) && text::same_opt_text(
            text::borrowed(&stored.project_identity),
            Some(project_identity),
        ) {
            return Ok(stored);
        }
        let next = match next_project_scope_rev(stored.project_scope_rev) {
            Ok(next) => next,
            Err(failure) => {
                return Err(failure);
            },
        };
        match self.table().update_repository_scope(id, root, next, project_id, project_identity) {
            Some((_, stored)) => Ok(stored),
            None => Err(Failure::about("no workspace with id ", id.as_str())),
        }
    }

    fn what_is_held(&mut self, host: Option<&str>) -> (held: (Option<usize>, Option<
        Vec<BackendWorkspace>,
    >))
        requires
            old(self).wf(),
        ensures
            final(self).wf(),
            final(self).continues(old(self)),
            final(self)@.rows == old(self)@.rows,
            old(self)@.log.is_prefix_of(final(self)@.log),
            old(self)@.connects.is_prefix_of(final(self)@.connects),
            asking_what_is_held(old(self)@, final(self)@, host.deep_view()) == (
                final(self)@,
                held.1.deep_view(),
            ),
            held.1 is Some ==> held.0 is Some,
            held.0 matches Some(at) ==> at < final(self)@.hosts.len()
                && final(self)@.hosts[at as int] == host.deep_view(),
    {
        let at = match self.backend_for_host(host) {
            Ok(at) => at,
            Err(_) => {
                return (None, None);
            },
        };
        match self.ask_workspaces(at) {
            Ok(listing) => (Some(at), Some(listing.items)),
            Err(_) => (Some(at), None),
        }
    }

    fn tell_daemon(
        &mut self,
        at: Option<usize>,
        held: &Option<Vec<BackendWorkspace>>,
        workspace: &AdeWorkspace,
        project_id: &str,
        project_identity: &str,
        root: Option<&str>,
        rev: u64,
    ) -> (chosen: u64)
        requires
            old(self).wf(),
            *held is Some ==> at is Some,
            at matches Some(at) ==> at < old(self)@.hosts.len() && old(self)@.hosts[at as int]
                == workspace@.remote_host,
        ensures
            final(self).wf(),
            final(self).continues(old(self)),
            final(self)@.rows == old(self)@.rows,
            final(self)@.hosts == old(self)@.hosts,
            final(self)@.connects == old(self)@.connects,
            old(self)@.log.is_prefix_of(final(self)@.log),
            telling_daemon(
                old(self)@,
                final(self)@,
                held.deep_view(),
                workspace@,
                project_id@,
                project_identity@,
                root.deep_view(),
                rev,
            ) == (final(self)@, chosen),
    {
        let wire_id = workspace.daemon_workspace_id();
        match (held, at) {
            (Some(records), Some(at)) => {
                if is_held(records, wire_id.as_str()) {
                    match self.ask_scope(
                        at,
                        wire_id.as_str(),
                        project_id,
                        project_identity,
                        root,
                        Some(rev),
                        text::borrowed(&workspace.daemon_id),
                    ) {
                        Ok(Some(later_rev)) => later_rev,
                        _ => rev,
                    }
                } else {
                    rev
                }
            },
            _ => rev,
        }
    }

    /// Moves a workspace to another project, and tells its daemon where that
    /// holds it.
    pub fn update_workspace_project_scope(
        &mut self,
        id: &WorkspaceId,
        project_id: &str,
        project_identity: &str,
    ) -> (moved: Result<AdeWorkspace, Failure>)
        requires
            old(self).wf(),
        ensures
            final(self).wf(),
            final(self).continues(old(self)),
            old(self)@.log.is_prefix_of(final(self)@.log),
            old(self)@.connects.is_prefix_of(final(self)@.connects),
            moving_project(old(self)@, final(self)@, id@, project_id@, project_identity@) == (Run {
                state: final(self)@,
                result: service::told(moved),
            }),
    {
        let workspace = match self.get(id) {
            Ok(workspace) => workspace,
            Err(failure) => {
                return Err(failure);
            },
        };
        if text::same_text(workspace.project_id.as_str(), project_id) && text::same_opt_text(
            text::borrowed(&workspace.project_identity),
            Some(project_identity),
        ) {
            return Ok(workspace);
        }
        let rev = match next_project_scope_rev(workspace.project_scope_rev) {
            Ok(rev) => rev,
            Err(failure) => {
                return Err(failure);
            },
        };
        let (at, held) = self.what_is_held(text::borrowed(&workspace.remote_host));
        let ghost asked = self@;
        let chosen = self.tell_daemon(
            at,
            &held,
            &workspace,
            project_id,
            project_identity,
            None,
            rev,
        );
        let ghost told = self@;
        let settled = self.settle_scope(
            id,
            workspace.repository_path.as_str(),
            chosen,
            project_id,
            project_identity,
        );
        proof {
            assert(self@.log == told.log && self@.connects == told.connects);
            assert(asking_what_is_held(old(self)@, self@, workspace@.remote_host)
                == asking_what_is_held(old(self)@, asked, workspace@.remote_host));
        }
        settled
    }

    fn list_rows_at(&self, host: Option<&str>, root: &str) -> (matching: Vec<AdeWorkspace>)
        requires
            self.wf(),
        ensures
            matching.deep_view() == rows_at(self@.rows, host.deep_view(), root@),
    {
        let listed = self.registry().confirmed_workspaces();
        let ghost all = listed.deep_view();
        let ghost keep = |workspace: WorkspaceView|
            workspace.remote_host == host.deep_view() && paths::is_same(
                workspace.repository_path,
                root@,
            );
        let mut matching: Vec<AdeWorkspace> = Vec::new();
        let mut i: usize = 0;
        assert(all.take(0).filter(keep) =~= Seq::<WorkspaceView>::empty()) by {
            reveal(Seq::filter);
        }
        while i < listed.len()
            invariant
                i <= listed.len(),
                all == listed.deep_view(),
                keep == (|workspace: WorkspaceView|
                    workspace.remote_host == host.deep_view() && paths::is_same(
                        workspace.repository_path,
                        root@,
                    )),
                matching.deep_view() == all.take(i as int).filter(keep),
            decreases listed.len() - i,
        {
            let ghost before = matching.deep_view();
            proof {
                reveal(Seq::filter);
                assert(all.take(i + 1).drop_last() =~= all.take(i as int));
                assert(all.take(i + 1).last() == listed[i as int]@);
            }
            if text::same_opt_text(text::borrowed(&listed[i].remote_host), host)
                && paths::same_path(listed[i].repository_path.as_str(), root) {
                let row = listed[i].clone();
                matching.push(row);
                assert(matching.deep_view() =~= before.push(row@));
            }
            i = i + 1;
        }
        assert(all.take(all.len() as int) =~= all);
        matching
    }

    fn move_one(
        &mut self,
        at: Option<usize>,
        held: &Option<Vec<BackendWorkspace>>,
        workspace: &AdeWorkspace,
        root: &str,
        project_id: &str,
        project_identity: &str,
    ) -> (moved: Result<AdeWorkspace, Failure>)
        requires
            old(self).wf(),
            *held is Some ==> at is Some,
            at matches Some(at) ==> at < old(self)@.hosts.len() && old(self)@.hosts[at as int]
                == workspace@.remote_host,
        ensures
            final(self).wf(),
            final(self).continues(old(self)),
            final(self)@.hosts == old(self)@.hosts,
            final(self)@.connects == old(self)@.connects,
            old(self)@.log.is_prefix_of(final(self)@.log),
            moving_one(
                old(self)@,
                final(self)@,
                held.deep_view(),
                workspace@,
                root@,
                project_id@,
                project_identity@,
            ) == (Run { state: final(self)@, result: service::told(moved) }),
    {
        if paths::same_path(workspace.repository_path.as_str(), root) && text::same_text(
            workspace.project_id.as_str(),
            project_id,
        ) && text::same_opt_text(
            text::borrowed(&workspace.project_identity),
            Some(project_identity),
        ) {
            return Ok(workspace.clone());
        }
        let rev = match next_project_scope_rev(workspace.project_scope_rev) {
            Ok(rev) => rev,
            Err(failure) => {
                return Err(failure);
            },
        };
        let chosen = self.tell_daemon(
            at,
            held,
            workspace,
            project_id,
            project_identity,
            Some(root),
            rev,
        );
        self.settle_scope(&workspace.id, root, chosen, project_id, project_identity)
    }

    /// Moves a checkout to another path and project, together with every row
    /// that stands for it on the same host.
    pub fn update_workspace_repository_scope(
        &mut self,
        id: &WorkspaceId,
        repository_path: &str,
        project_id: &str,
        project_identity: &str,
    ) -> (moved: Result<AdeWorkspace, Failure>)
        requires
            old(self).wf(),
        ensures
            final(self).wf(),
            final(self).continues(old(self)),
            moving_repository(
                old(self)@,
                final(self)@,
                id@,
                repository_path@,
                project_id@,
                project_identity@,
            ) == (Run { state: final(self)@, result: service::told(moved) }),
    {
        let selected = match self.get(id) {
            Ok(selected) => selected,
            Err(failure) => {
                return Err(failure);
            },
        };
        let matching = self.list_rows_at(
            text::borrowed(&selected.remote_host),
            selected.repository_path.as_str(),
        );
        let (at, held) = self.what_is_held(text::borrowed(&selected.remote_host));
        let ghost asked = self@;
        let ghost all = matching.deep_view();
        proof {
            let keep = |workspace: WorkspaceView|
                workspace.remote_host == selected@.remote_host && paths::is_same(
                    workspace.repository_path,
                    selected@.repository_path,
                );
            let listed = registry::listing(old(self)@.rows, registry::used_rows());
            assert(all == listed.filter(keep));
            assert forall|k: int| 0 <= k < all.len() implies (#[trigger] all[k]).remote_host
                == selected@.remote_host by {
                listed.lemma_filter_pred(keep, k);
            }
            assert(asking_what_is_held(old(self)@, asked, selected@.remote_host).0 == asked);
        }
        let mut moved: Vec<AdeWorkspace> = Vec::new();
        let mut i: usize = 0;
        assert(moved.deep_view() =~= Seq::<WorkspaceView>::empty());
        while i < matching.len()
            invariant
                i <= matching.len(),
                all == matching.deep_view(),
                self.wf(),
                self.continues(old(self)),
                held is Some ==> at is Some,
                at matches Some(at) ==> at < self@.hosts.len() && self@.hosts[at as int]
                    == selected@.remote_host,
                self@.hosts == asked.hosts,
                self@.connects == asked.connects,
                asked.log.is_prefix_of(self@.log),
                registry::workspace_of(old(self)@.rows, id@) == Some(selected@),
                all == rows_at(
                    old(self)@.rows,
                    selected@.remote_host,
                    selected@.repository_path,
                ),
                old(self)@.log.is_prefix_of(asked.log),
                asking_what_is_held(old(self)@, asked, selected@.remote_host) == (
                    asked,
                    held.deep_view(),
                ),
                forall|k: int| 0 <= k < all.len() ==> (#[trigger] all[k]).remote_host
                    == selected@.remote_host,
                moving_all(
                    asked,
                    self@,
                    held.deep_view(),
                    all.take(i as int),
                    repository_path@,
                    project_id@,
                    project_identity@,
                ) == (Run { state: self@, result: Ok(moved.deep_view()) }),
            decreases matching.len() - i,
        {
            let ghost before = self@;
            let ghost moved_before = moved.deep_view();
            proof {
                assert(all.take(i + 1).drop_last() =~= all.take(i as int));
                assert(all.take(i + 1).last() == matching[i as int]@);
                assert(all[i as int] == matching[i as int]@);
            }
            let one = self.move_one(
                at,
                &held,
                &matching[i],
                repository_path,
                project_id,
                project_identity,
            );
            proof {
                lemma_moving_settled(
                    asked,
                    before,
                    self@,
                    held.deep_view(),
                    all.take(i as int),
                    repository_path@,
                    project_id@,
                    project_identity@,
                );
                assert(asking_what_is_held(old(self)@, self@, selected@.remote_host)
                    == asking_what_is_held(old(self)@, asked, selected@.remote_host));
            }
            match one {
                Ok(workspace) => {
                    moved.push(workspace);
                    assert(moved.deep_view() =~= moved_before.push(workspace@));
                },
                Err(failure) => {
                    proof {
                        lemma_moving_stops(
                            asked,
                            self@,
                            held.deep_view(),
                            all,
                            repository_path@,
                            project_id@,
                            project_identity@,
                            i + 1,
                        );
                    }
                    return Err(failure);
                },
            }
            i = i + 1;
        }
        proof {
            assert(all.take(all.len() as int) =~= all);
            assert(asking_what_is_held(old(self)@, self@, selected@.remote_host)
                == asking_what_is_held(old(self)@, asked, selected@.remote_host));
        }
        match find_workspace(moved, id) {
            Some(workspace) => Ok(workspace),
            None => Err(
                Failure::saying(
                    "the selected workspace disappeared while moving its repository scope",
                ),
            ),
        }
    }
}

} // verus!
