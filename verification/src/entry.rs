//! The merged runtime view: rows this client uses beside records a daemon
//! holds, and the ways an operation fails.

use crate::daemon;
use crate::session_backend::{BackendWorkspace, RecordView};
use crate::text;
use crate::workspace;
use crate::workspace::{AdeWorkspace, WorkspaceView};
use vstd::prelude::*;
use vstd::string::*;

verus! {

/// What the session backend says about a workspace's session, as distinct from
/// what the registry last recorded.
#[derive(Clone, Copy, Debug, PartialEq, Eq, Structural)]
pub enum SessionState {
    /// The session exists and can be attached to.
    Alive,
    /// A session was created for this workspace and is gone.
    Dead,
    /// No session has ever been created for this workspace.
    NeverCreated,
    /// The workspace's host could not be asked. Nothing is claimed.
    Unknown,
}

impl DeepView for SessionState {
    type V = SessionState;

    open spec fn deep_view(&self) -> SessionState {
        *self
    }
}

/// One row of the merged view: a workspace this client has used, or one a
/// host's daemon holds that it has not.
#[derive(Debug, PartialEq, Eq)]
pub enum WorkspaceEntry {
    Persisted(AdeWorkspace, SessionState),
    Discovered { remote_host: Option<String>, workspace: BackendWorkspace, state: SessionState },
}

/// What a [`WorkspaceEntry`] holds.
#[verifier::ext_equal]
pub enum EntryView {
    Persisted(WorkspaceView, SessionState),
    Discovered { remote_host: Option<Seq<char>>, workspace: RecordView, state: SessionState },
}

impl View for WorkspaceEntry {
    type V = EntryView;

    open spec fn view(&self) -> EntryView {
        match *self {
            WorkspaceEntry::Persisted(workspace, state) => EntryView::Persisted(workspace@, state),
            WorkspaceEntry::Discovered { remote_host, workspace, state } => EntryView::Discovered {
                remote_host: text::opt(remote_host),
                workspace: workspace@,
                state,
            },
        }
    }
}

impl DeepView for WorkspaceEntry {
    type V = EntryView;

    open spec fn deep_view(&self) -> EntryView {
        self@
    }
}

impl Clone for WorkspaceEntry {
    fn clone(&self) -> (copy: Self)
        ensures
            copy@ == self@,
    {
        match self {
            WorkspaceEntry::Persisted(workspace, state) => WorkspaceEntry::Persisted(
                workspace.clone(),
                *state,
            ),
            WorkspaceEntry::Discovered {
                remote_host,
                workspace,
                state,
            } => WorkspaceEntry::Discovered {
                remote_host: text::owned(text::borrowed(remote_host)),
                workspace: workspace.clone(),
                state: *state,
            },
        }
    }
}

/// The project a daemon record is shown under: the one it names, or the one its
/// root suggests.
pub open spec fn record_project_id(record: RecordView) -> Seq<char> {
    match record.project_id {
        Some(project_id) => project_id,
        None => workspace::path_project_id(record.project_root),
    }
}

/// The identity of the project a daemon record is in.
pub open spec fn record_identity(record: RecordView) -> Seq<char> {
    match record.project_identity {
        Some(identity) => identity,
        None => record.project_root,
    }
}

impl EntryView {
    pub open spec fn remote_host(self) -> Option<Seq<char>> {
        match self {
            EntryView::Persisted(workspace, _) => workspace.remote_host,
            EntryView::Discovered { remote_host, .. } => remote_host,
        }
    }

    pub open spec fn wire_id(self) -> Seq<char> {
        match self {
            EntryView::Persisted(workspace, _) => workspace.daemon_workspace_id(),
            EntryView::Discovered { workspace, .. } => workspace.id,
        }
    }

    pub open spec fn project_id(self) -> Seq<char> {
        match self {
            EntryView::Persisted(workspace, _) => workspace.project_id,
            EntryView::Discovered { workspace, .. } => record_project_id(workspace),
        }
    }

    pub open spec fn project_identity(self) -> Seq<char> {
        match self {
            EntryView::Persisted(workspace, _) => workspace.identity_or_path(),
            EntryView::Discovered { workspace, .. } => record_identity(workspace),
        }
    }

    pub open spec fn name(self) -> Seq<char> {
        match self {
            EntryView::Persisted(workspace, _) => workspace.name,
            EntryView::Discovered { workspace, .. } => daemon::shown_name(
                workspace.name,
                record_project_id(workspace),
            ),
        }
    }

    pub open spec fn repository_path(self) -> Seq<char> {
        match self {
            EntryView::Persisted(workspace, _) => workspace.repository_path,
            EntryView::Discovered { workspace, .. } => workspace.project_root,
        }
    }

    pub open spec fn state(self) -> SessionState {
        match self {
            EntryView::Persisted(_, state) => state,
            EntryView::Discovered { state, .. } => state,
        }
    }
}

impl WorkspaceEntry {
    pub fn remote_host(&self) -> (host: Option<&str>)
        ensures
            host.deep_view() == self@.remote_host(),
    {
        match self {
            WorkspaceEntry::Persisted(workspace, _) => text::borrowed(&workspace.remote_host),
            WorkspaceEntry::Discovered { remote_host, .. } => text::borrowed(remote_host),
        }
    }

    /// The id the host's daemon knows this workspace by.
    pub fn wire_id(&self) -> (id: String)
        ensures
            id@ == self@.wire_id(),
    {
        match self {
            WorkspaceEntry::Persisted(workspace, _) => workspace.daemon_workspace_id(),
            WorkspaceEntry::Discovered { workspace, .. } => workspace.id.clone(),
        }
    }

    /// The label of the project the workspace is in.
    pub fn project_id(&self) -> (project_id: String)
        ensures
            project_id@ == self@.project_id(),
    {
        match self {
            WorkspaceEntry::Persisted(workspace, _) => workspace.project_id.clone(),
            WorkspaceEntry::Discovered { workspace, .. } => match &workspace.project_id {
                Some(project_id) => project_id.clone(),
                None => workspace::project_id_from_path(workspace.project_root.as_str()),
            },
        }
    }

    /// The stable identity of that project, separate from its label.
    pub fn project_identity(&self) -> (identity: String)
        ensures
            identity@ == self@.project_identity(),
    {
        match self {
            WorkspaceEntry::Persisted(workspace, _) => workspace.project_identity(),
            WorkspaceEntry::Discovered { workspace, .. } => match &workspace.project_identity {
                Some(identity) => identity.clone(),
                None => workspace.project_root.clone(),
            },
        }
    }

    /// What to show this workspace as.
    pub fn name(&self) -> (name: String)
        ensures
            name@ == self@.name(),
    {
        match self {
            WorkspaceEntry::Persisted(workspace, _) => workspace.name.clone(),
            WorkspaceEntry::Discovered { workspace, .. } => daemon::display_name_for(
                workspace.name.as_str(),
                self.project_id().as_str(),
            ),
        }
    }

    pub fn repository_path(&self) -> (path: String)
        ensures
            path@ == self@.repository_path(),
    {
        match self {
            WorkspaceEntry::Persisted(workspace, _) => workspace.repository_path.clone(),
            WorkspaceEntry::Discovered { workspace, .. } => workspace.project_root.clone(),
        }
    }

    pub fn state(&self) -> (state: SessionState)
        ensures
            state == self@.state(),
    {
        match self {
            WorkspaceEntry::Persisted(_, state) => *state,
            WorkspaceEntry::Discovered { state, .. } => *state,
        }
    }

    /// The registry row behind this entry, for a caller that only acts on rows.
    pub fn persisted(&self) -> (row: Option<(&AdeWorkspace, SessionState)>)
        ensures
            match self@ {
                EntryView::Persisted(workspace, state) => row matches Some((found, known))
                    && found@ == workspace && known == state,
                EntryView::Discovered { .. } => row is None,
            },
    {
        match self {
            WorkspaceEntry::Persisted(workspace, state) => Some((workspace, *state)),
            WorkspaceEntry::Discovered { .. } => None,
        }
    }
}

/// What one reconciliation pass found.
#[derive(Debug, PartialEq, Eq)]
pub struct Reconciled {
    /// The rows this client uses, last opened first, then what the hosts hold
    /// that it does not.
    pub entries: Vec<WorkspaceEntry>,
    /// The host, as an error line names it, and the message, for each host that
    /// could not be reached.
    pub host_errors: Vec<(String, String)>,
}

/// The record a caller named is not in the host's listing any more.
#[derive(Debug, PartialEq, Eq)]
pub struct WorkspaceGone {
    pub remote_host: Option<String>,
    pub wire_id: String,
}

/// Why an operation failed.
#[derive(Debug, PartialEq, Eq)]
pub enum Failure {
    /// Not a failure to retry: the workspace was removed in the meantime.
    Gone(WorkspaceGone),
    /// The text an error line shows.
    Message(String),
}

/// What a [`Failure`] holds.
#[verifier::ext_equal]
pub enum FailureView {
    Gone { remote_host: Option<Seq<char>>, wire_id: Seq<char> },
    Message(Seq<char>),
}

impl View for Failure {
    type V = FailureView;

    open spec fn view(&self) -> FailureView {
        match *self {
            Failure::Gone(gone) => FailureView::Gone {
                remote_host: text::opt(gone.remote_host),
                wire_id: gone.wire_id@,
            },
            Failure::Message(message) => FailureView::Message(message@),
        }
    }
}

impl DeepView for Failure {
    type V = FailureView;

    open spec fn deep_view(&self) -> FailureView {
        self@
    }
}

impl FailureView {
    /// The text an error line shows.
    pub open spec fn message(self) -> Seq<char> {
        match self {
            FailureView::Gone { remote_host, wire_id } => daemon::host_name(remote_host)
                + " no longer holds workspace "@ + wire_id,
            FailureView::Message(message) => message,
        }
    }
}

/// A cause with what was being done when it arose in front of it.
pub open spec fn in_context(context: Seq<char>, cause: Seq<char>) -> Seq<char> {
    context + ": "@ + cause
}

impl Failure {
    /// The text an error line shows.
    pub fn message(&self) -> (message: String)
        ensures
            message@ == self@.message(),
    {
        match self {
            Failure::Gone(gone) => text::joined3(
                daemon::host_label(text::borrowed(&gone.remote_host)).as_str(),
                " no longer holds workspace ",
                gone.wire_id.as_str(),
            ),
            Failure::Message(message) => message.clone(),
        }
    }

    /// A failure with this text.
    pub fn saying(message: &str) -> (failure: Self)
        ensures
            failure@ == FailureView::Message(message@),
    {
        Failure::Message(message.to_owned())
    }

    /// A failure with this text and a name behind it.
    pub fn about(message: &str, name: &str) -> (failure: Self)
        ensures
            failure@ == FailureView::Message(message@ + name@),
    {
        Failure::Message(text::joined(message, name))
    }

    /// A backend's failure, with what was being done and to what.
    pub fn while_doing(doing: &str, name: &str, cause: &str) -> (failure: Self)
        ensures
            failure@ == FailureView::Message(in_context(doing@ + name@, cause@)),
    {
        Failure::Message(text::joined(doing, name).concat(": ").concat(cause))
    }

    /// This failure, with what was being done and to what.
    pub fn behind(self, doing: &str, name: &str) -> (failure: Self)
        ensures
            failure@ == FailureView::Message(in_context(doing@ + name@, self@.message())),
    {
        Failure::while_doing(doing, name, self.message().as_str())
    }
}

/// The revision a scope write carries: one past the one it replaces.
pub open spec fn next_rev(revision: u64) -> Result<u64, FailureView> {
    if revision == u64::MAX {
        Err(FailureView::Message("project scope revision overflowed"@))
    } else {
        Ok((revision + 1) as u64)
    }
}

pub fn next_project_scope_rev(revision: u64) -> (next: Result<u64, Failure>)
    ensures
        match next_rev(revision) {
            Ok(rev) => next == Ok::<u64, Failure>(rev),
            Err(failure) => next matches Err(e) && e@ == failure,
        },
{
    if revision == u64::MAX {
        Err(Failure::saying("project scope revision overflowed"))
    } else {
        Ok(revision + 1)
    }
}

/// A scope revision only ever grows.
pub proof fn law_scope_revisions_grow(revision: u64)
    ensures
        next_rev(revision) matches Ok(next) ==> next > revision,
{
}

} // verus!
