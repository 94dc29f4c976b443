//! The seam every session goes through: what keeps a session alive on one
//! host, and the values that cross it.
//!
//! The layers above talk to a [`SessionBackend`] and know nothing of how the
//! processes behind it are kept running. Every method is synchronous.

use crate::text;
use crate::workspace::WorkspaceStatus;
use smol::channel::Receiver;
use vstd::prelude::*;
use vstd::string::*;

verus! {

/// A session's identity as its backend knows it.
#[derive(Debug, PartialEq, Eq, PartialOrd, Ord, Hash)]
pub struct SessionId(pub String);

impl View for SessionId {
    type V = Seq<char>;

    open spec fn view(&self) -> Seq<char> {
        self.0@
    }
}

impl DeepView for SessionId {
    type V = Seq<char>;

    open spec fn deep_view(&self) -> Seq<char> {
        self.0@
    }
}

impl Clone for SessionId {
    fn clone(&self) -> (copy: Self)
        ensures
            copy@ == self@,
    {
        SessionId(self.0.clone())
    }
}

impl SessionId {
    /// The session with this id.
    pub fn named(id: &str) -> (session: Self)
        ensures
            session@ == id@,
    {
        SessionId(id.to_owned())
    }

    pub fn as_str(&self) -> (id: &str)
        ensures
            id@ == self@,
    {
        self.0.as_str()
    }

    pub fn into_string(self) -> (id: String)
        ensures
            id@ == self@,
    {
        self.0
    }
}

impl From<String> for SessionId {
    fn from(id: String) -> (session: Self) {
        SessionId(id)
    }
}

impl vstd::std_specs::convert::FromSpecImpl<String> for SessionId {
    open spec fn obeys_from_spec() -> bool {
        true
    }

    open spec fn from_spec(id: String) -> Self {
        SessionId(id)
    }
}

/// What a backend needs to bring a session into existence, or to attach to one
/// that may not exist yet.
#[derive(Debug, PartialEq, Eq)]
pub struct SessionSpec {
    /// The id the session is known by. Derived by the caller.
    pub id: SessionId,
    /// Where the session's processes start, on the backend's own host.
    pub directory: String,
    /// The project the workspace belongs to, as its label and its identity.
    pub project_scope: Option<(String, String)>,
}

/// What a [`SessionSpec`] holds.
#[verifier::ext_equal]
pub struct SpecView {
    pub id: Seq<char>,
    pub directory: Seq<char>,
    pub project_scope: Option<(Seq<char>, Seq<char>)>,
}

impl View for SessionSpec {
    type V = SpecView;

    open spec fn view(&self) -> SpecView {
        SpecView {
            id: self.id@,
            directory: self.directory@,
            project_scope: match self.project_scope {
                Some((project_id, identity)) => Some((project_id@, identity@)),
                None => None,
            },
        }
    }
}

impl SessionSpec {
    pub fn new(id: SessionId, directory: String) -> (spec: Self)
        ensures
            spec@ == (SpecView { id: id@, directory: directory@, project_scope: None }),
    {
        SessionSpec { id, directory, project_scope: None }
    }

    /// The same session, in a project.
    pub fn with_project_scope(self, project_id: &str, project_identity: &str) -> (spec: Self)
        ensures
            spec@ == (SpecView {
                id: self@.id,
                directory: self@.directory,
                project_scope: Some((project_id@, project_identity@)),
            }),
    {
        SessionSpec {
            id: self.id,
            directory: self.directory,
            project_scope: Some((project_id.to_owned(), project_identity.to_owned())),
        }
    }
}

/// What an attach-or-create landed on: the argv a client runs, and the
/// backend's own id for the session behind it.
#[derive(Debug, PartialEq, Eq)]
pub struct Attached {
    pub session_id: String,
    pub daemon_id: Option<String>,
    pub argv: Vec<String>,
}

/// What an [`Attached`] holds.
#[verifier::ext_equal]
pub struct AttachedView {
    pub session_id: Seq<char>,
    pub daemon_id: Option<Seq<char>>,
    pub argv: Seq<Seq<char>>,
}

impl View for Attached {
    type V = AttachedView;

    open spec fn view(&self) -> AttachedView {
        AttachedView {
            session_id: self.session_id@,
            daemon_id: text::opt(self.daemon_id),
            argv: self.argv.deep_view(),
        }
    }
}

impl DeepView for Attached {
    type V = AttachedView;

    open spec fn deep_view(&self) -> AttachedView {
        self@
    }
}

/// One live session, as the backend sees it.
#[derive(Debug, PartialEq, Eq)]
pub struct SessionInfo {
    pub id: SessionId,
}

impl DeepView for SessionInfo {
    type V = Seq<char>;

    open spec fn deep_view(&self) -> Seq<char> {
        self.id@
    }
}

/// One workspace the backend holds, as the source of truth describes it.
#[derive(Debug, PartialEq, Eq)]
pub struct BackendWorkspace {
    /// The id the backend knows it by, and what every later call names.
    pub id: String,
    pub name: String,
    pub project_id: Option<String>,
    pub project_identity: Option<String>,
    /// Resolved on the backend's own host.
    pub project_root: String,
    pub project_scope_rev: u64,
    /// Unix seconds.
    pub created_at: u64,
}

/// What a [`BackendWorkspace`] holds.
#[verifier::ext_equal]
pub struct RecordView {
    pub id: Seq<char>,
    pub name: Seq<char>,
    pub project_id: Option<Seq<char>>,
    pub project_identity: Option<Seq<char>>,
    pub project_root: Seq<char>,
    pub project_scope_rev: u64,
    pub created_at: u64,
}

impl View for BackendWorkspace {
    type V = RecordView;

    open spec fn view(&self) -> RecordView {
        RecordView {
            id: self.id@,
            name: self.name@,
            project_id: text::opt(self.project_id),
            project_identity: text::opt(self.project_identity),
            project_root: self.project_root@,
            project_scope_rev: self.project_scope_rev,
            created_at: self.created_at,
        }
    }
}

impl DeepView for BackendWorkspace {
    type V = RecordView;

    open spec fn deep_view(&self) -> RecordView {
        self@
    }
}

impl Clone for BackendWorkspace {
    fn clone(&self) -> (copy: Self)
        ensures
            copy@ == self@,
    {
        BackendWorkspace {
            id: self.id.clone(),
            name: self.name.clone(),
            project_id: text::owned(text::borrowed(&self.project_id)),
            project_identity: text::owned(text::borrowed(&self.project_identity)),
            project_root: self.project_root.clone(),
            project_scope_rev: self.project_scope_rev,
            created_at: self.created_at,
        }
    }
}

/// A copy of a listing.
pub fn copied(records: &Vec<BackendWorkspace>) -> (copy: Vec<BackendWorkspace>)
    ensures
        copy.deep_view() == records.deep_view(),
{
    let mut copy: Vec<BackendWorkspace> = Vec::new();
    let mut i: usize = 0;
    while i < records.len()
        invariant
            i <= records.len(),
            copy.deep_view() == records.deep_view().take(i as int),
        decreases records.len() - i,
    {
        let ghost before = copy.deep_view();
        let record = records[i].clone();
        copy.push(record);
        assert(copy.deep_view() =~= before.push(record@));
        i = i + 1;
        assert(copy.deep_view() =~= records.deep_view().take(i as int));
    }
    assert(records.deep_view().take(records.len() as int) =~= records.deep_view());
    copy
}

/// How a backend reports that a session's status changed.
#[derive(Clone, Copy, Debug, PartialEq, Eq, Structural)]
pub enum StatusDelivery {
    /// Status has to be pulled, this often.
    Poll { interval_millis: u64 },
    /// Status arrives on its own.
    Push,
}

/// One thing that happened to one session.
#[derive(Debug, PartialEq, Eq)]
pub struct StatusEvent {
    pub id: SessionId,
    pub change: SessionChange,
}

impl View for StatusEvent {
    type V = (Seq<char>, SessionChange);

    open spec fn view(&self) -> (Seq<char>, SessionChange) {
        (self.id@, self.change)
    }
}

impl StatusEvent {
    pub fn new(id: SessionId, change: SessionChange) -> (event: Self)
        ensures
            event@ == (id@, change),
    {
        StatusEvent { id, change }
    }
}

/// What happened to a session.
#[derive(Clone, Copy, Debug, PartialEq, Eq, Structural)]
pub enum SessionChange {
    /// A session that did not exist a moment ago, with the status it was born in.
    Created(WorkspaceStatus),
    /// It is still there and its status moved.
    Status(WorkspaceStatus),
    /// Its process is gone; the session itself is not.
    Exited,
    /// The session is gone from the backend entirely.
    Removed,
}

impl SessionChange {
    /// The status this change implies, for the changes that carry one.
    pub fn status(&self) -> (status: Option<WorkspaceStatus>)
        ensures
            status == (match *self {
                SessionChange::Created(status) => Some(status),
                SessionChange::Status(status) => Some(status),
                SessionChange::Exited => None,
                SessionChange::Removed => None,
            }),
    {
        match self {
            SessionChange::Created(status) => Some(*status),
            SessionChange::Status(status) => Some(*status),
            SessionChange::Exited => None,
            SessionChange::Removed => None,
        }
    }
}

/// A workspace's arrangement of panes, in the form the backend stores it.
///
/// The backend keeps the document and hands it back; nothing here reads it.
#[derive(Debug, PartialEq, Eq)]
pub struct LayoutDoc {
    pub document: String,
}

/// A layout and the revision that guards the next write of it.
#[derive(Debug, PartialEq, Eq)]
pub struct WorkspaceLayout {
    pub layout: LayoutDoc,
    pub rev: u64,
}

impl View for WorkspaceLayout {
    type V = (Seq<char>, u64);

    open spec fn view(&self) -> (Seq<char>, u64) {
        (self.layout.document@, self.rev)
    }
}

impl DeepView for WorkspaceLayout {
    type V = (Seq<char>, u64);

    open spec fn deep_view(&self) -> (Seq<char>, u64) {
        self@
    }
}

/// A layout the backend has accepted, pushed to everyone watching.
#[derive(Debug, PartialEq, Eq)]
pub struct LayoutEvent {
    pub workspace_id: String,
    pub layout: LayoutDoc,
    pub rev: u64,
}

/// What a [`LayoutEvent`] holds.
#[verifier::ext_equal]
pub struct LayoutView {
    pub workspace_id: Seq<char>,
    pub document: Seq<char>,
    pub rev: u64,
}

impl View for LayoutEvent {
    type V = LayoutView;

    open spec fn view(&self) -> LayoutView {
        LayoutView {
            workspace_id: self.workspace_id@,
            document: self.layout.document@,
            rev: self.rev,
        }
    }
}

/// One thing a backend pushed, whatever it was about.
#[derive(Debug, PartialEq, Eq)]
pub enum DaemonEvent {
    Session(StatusEvent),
    Layout(LayoutEvent),
    /// A workspace's record changed along with its layout.
    WorkspaceChanged(LayoutEvent),
    /// The workspace is still there, but its incarnation was replaced.
    WorkspaceReset(LayoutEvent),
    /// A whole workspace is gone.
    WorkspaceRemoved { workspace_id: String },
}

/// What a [`DaemonEvent`] holds.
#[verifier::ext_equal]
pub enum DaemonEventView {
    Session((Seq<char>, SessionChange)),
    Layout(LayoutView),
    WorkspaceChanged(LayoutView),
    WorkspaceReset(LayoutView),
    WorkspaceRemoved { workspace_id: Seq<char> },
}

impl View for DaemonEvent {
    type V = DaemonEventView;

    open spec fn view(&self) -> DaemonEventView {
        match *self {
            DaemonEvent::Session(event) => DaemonEventView::Session(event@),
            DaemonEvent::Layout(event) => DaemonEventView::Layout(event@),
            DaemonEvent::WorkspaceChanged(event) => DaemonEventView::WorkspaceChanged(event@),
            DaemonEvent::WorkspaceReset(event) => DaemonEventView::WorkspaceReset(event@),
            DaemonEvent::WorkspaceRemoved { workspace_id } => DaemonEventView::WorkspaceRemoved {
                workspace_id: workspace_id@,
            },
        }
    }
}

/// One pushed event paired with the daemon that produced it.
#[derive(Debug, PartialEq, Eq)]
pub struct IdentifiedDaemonEvent {
    pub daemon_id: Option<String>,
    pub event: DaemonEvent,
}

/// The sending end of a channel, `smol::channel::Sender`.
#[verifier::external_type_specification]
#[verifier::external_body]
#[verifier::reject_recursive_types(T)]
pub struct ExSender<T>(smol::channel::Sender<T>);

/// The receiving end of a channel, `smol::channel::Receiver`.
#[verifier::external_type_specification]
#[verifier::external_body]
#[verifier::reject_recursive_types(T)]
pub struct ExReceiver<T>(smol::channel::Receiver<T>);

/// One workspace-level thing that happened, with the host it happened on.
#[derive(Debug, PartialEq, Eq)]
pub enum WorkspaceEvent {
    Layout { remote_host: Option<String>, daemon_id: Option<String>, event: LayoutEvent },
    Reset { remote_host: Option<String>, daemon_id: Option<String>, event: LayoutEvent },
    Removed { remote_host: Option<String>, daemon_id: Option<String>, workspace_id: String },
}

/// What a [`WorkspaceEvent`] holds.
#[verifier::ext_equal]
pub enum WorkspaceEventView {
    Layout { remote_host: Option<Seq<char>>, daemon_id: Option<Seq<char>>, event: LayoutView },
    Reset { remote_host: Option<Seq<char>>, daemon_id: Option<Seq<char>>, event: LayoutView },
    Removed {
        remote_host: Option<Seq<char>>,
        daemon_id: Option<Seq<char>>,
        workspace_id: Seq<char>,
    },
}

impl View for WorkspaceEvent {
    type V = WorkspaceEventView;

    open spec fn view(&self) -> WorkspaceEventView {
        match *self {
            WorkspaceEvent::Layout { remote_host, daemon_id, event } => WorkspaceEventView::Layout {
                remote_host: text::opt(remote_host),
                daemon_id: text::opt(daemon_id),
                event: event@,
            },
            WorkspaceEvent::Reset { remote_host, daemon_id, event } => WorkspaceEventView::Reset {
                remote_host: text::opt(remote_host),
                daemon_id: text::opt(daemon_id),
                event: event@,
            },
            WorkspaceEvent::Removed {
                remote_host,
                daemon_id,
                workspace_id,
            } => WorkspaceEventView::Removed {
                remote_host: text::opt(remote_host),
                daemon_id: text::opt(daemon_id),
                workspace_id: workspace_id@,
            },
        }
    }
}

/// A listing paired with the identity of the connection that produced it.
#[derive(Debug, PartialEq, Eq)]
pub struct Identified<T> {
    /// `None` for a backend that has not named itself.
    pub daemon_id: Option<String>,
    pub items: Vec<T>,
}

impl<T: DeepView> DeepView for Identified<T> {
    type V = (Option<Seq<char>>, Seq<T::V>);

    open spec fn deep_view(&self) -> (Option<Seq<char>>, Seq<T::V>) {
        (text::opt(self.daemon_id), self.items.deep_view())
    }
}

/// Persistence, attach and status for one host's sessions.
///
/// `expected_daemon_id` fences an operation to the daemon a row belongs to; a
/// backend whose daemon is another one refuses. `None` is permissive.
///
/// A failure is the text an error line shows.
pub trait SessionBackend: Sized {
    /// What replacing a host's daemon comes to.
    type UpgradeOutcome;

    /// What a backend runs when it learns that its host's daemon is, or is no
    /// longer, behind this client's. It runs on whichever thread found out, so it
    /// must only hand the fact onwards.
    type DaemonFreshnessObserver: Clone;

    /// The backend for a host other than this machine. Contacts nothing.
    fn remote(host: &str) -> Result<Self, String>;

    /// Creates the session detached. Fails if it already exists. Answers with
    /// the id the session ended up with.
    fn create(
        &mut self,
        spec: &SessionSpec,
        expected_daemon_id: Option<&str>,
    ) -> Result<SessionId, String>;

    /// [`SessionBackend::create`] with the identity of the daemon that created
    /// the session.
    fn create_identified(
        &mut self,
        spec: &SessionSpec,
        expected_daemon_id: Option<&str>,
    ) -> (answer: Result<(SessionId, Option<String>), String>)
        default_ensures
            exists|asked: &mut Self, reply: Result<SessionId, String>|
                {
                    &&& *asked == *old(self)
                    &&& *final(asked) == *final(self)
                    &&& #[trigger] call_ensures(
                        Self::create,
                        (asked, spec, expected_daemon_id),
                        reply,
                    )
                    &&& match (reply, answer) {
                        (Ok(found), Ok(paired)) => {
                            &&& paired.0 == found
                            &&& call_ensures(Self::instance_id, (&*final(self),), paired.1)
                        },
                        (Err(cause), Err(told)) => told == cause,
                        _ => false,
                    }
                },
    {
        match self.create(spec, expected_daemon_id) {
            Ok(session) => Ok((session, self.instance_id())),
            Err(cause) => Err(cause),
        }
    }

    /// Creates one more session inside a workspace that already exists.
    fn create_session_in_workspace(
        &mut self,
        _workspace_id: &str,
        _cwd: &str,
        _expected_daemon_id: Option<&str>,
    ) -> (created: Result<String, String>)
        default_ensures
            created matches Err(message) && message@
                == "this session backend holds one session per workspace"@,
    {
        Err("this session backend holds one session per workspace".to_owned())
    }

    /// [`SessionBackend::create_session_in_workspace`] with the identity of the
    /// daemon that created the session.
    fn create_session_in_workspace_identified(
        &mut self,
        workspace_id: &str,
        cwd: &str,
        expected_daemon_id: Option<&str>,
    ) -> (answer: Result<(String, Option<String>), String>)
        default_ensures
            exists|asked: &mut Self, reply: Result<String, String>|
                {
                    &&& *asked == *old(self)
                    &&& *final(asked) == *final(self)
                    &&& #[trigger] call_ensures(
                        Self::create_session_in_workspace,
                        (asked, workspace_id, cwd, expected_daemon_id),
                        reply,
                    )
                    &&& match (reply, answer) {
                        (Ok(found), Ok(paired)) => {
                            &&& paired.0 == found
                            &&& call_ensures(Self::instance_id, (&*final(self),), paired.1)
                        },
                        (Err(cause), Err(told)) => told == cause,
                        _ => false,
                    }
                },
    {
        match self.create_session_in_workspace(workspace_id, cwd, expected_daemon_id) {
            Ok(session) => Ok((session, self.instance_id())),
            Err(cause) => Err(cause),
        }
    }

    /// Every live session this application owns.
    fn list(&mut self) -> Result<Vec<SessionInfo>, String>;

    /// [`SessionBackend::list`] paired with the identity of its daemon, as it
    /// was known before the listing.
    fn list_identified(&mut self) -> (answer: Result<Identified<SessionInfo>, String>)
        default_ensures
            exists|asked: &mut Self, reply: Result<Vec<SessionInfo>, String>|
                {
                    &&& *asked == *old(self)
                    &&& *final(asked) == *final(self)
                    &&& #[trigger] call_ensures(Self::list, (asked,), reply)
                    &&& match (reply, answer) {
                        (Ok(found), Ok(paired)) => {
                            &&& paired.items == found
                            &&& call_ensures(Self::instance_id, (&*old(self),), paired.daemon_id)
                        },
                        (Err(cause), Err(told)) => told == cause,
                        _ => false,
                    }
                },
    {
        let daemon_id = self.instance_id();
        match self.list() {
            Ok(items) => Ok(Identified { daemon_id, items }),
            Err(cause) => Err(cause),
        }
    }

    /// Every workspace this backend holds, whether or not the caller has ever
    /// heard of one. Nothing for a backend with no workspaces of its own.
    fn list_workspaces(&mut self) -> (listed: Result<Vec<BackendWorkspace>, String>)
        default_ensures
            listed matches Ok(items) && items@.len() == 0,
    {
        Ok(Vec::new())
    }

    /// [`SessionBackend::list_workspaces`] paired with the identity of its
    /// daemon, as it was known before the listing.
    fn list_workspaces_identified(&mut self) -> (answer: Result<
        Identified<BackendWorkspace>,
        String,
    >)
        default_ensures
            exists|asked: &mut Self, reply: Result<Vec<BackendWorkspace>, String>|
                {
                    &&& *asked == *old(self)
                    &&& *final(asked) == *final(self)
                    &&& #[trigger] call_ensures(Self::list_workspaces, (asked,), reply)
                    &&& match (reply, answer) {
                        (Ok(found), Ok(paired)) => {
                            &&& paired.items == found
                            &&& call_ensures(Self::instance_id, (&*old(self),), paired.daemon_id)
                        },
                        (Err(cause), Err(told)) => told == cause,
                        _ => false,
                    }
                },
    {
        let daemon_id = self.instance_id();
        match self.list_workspaces() {
            Ok(items) => Ok(Identified { daemon_id, items }),
            Err(cause) => Err(cause),
        }
    }

    /// The checkout that holds a path on this backend's host, and the path of
    /// the repository that identifies its project.
    fn resolve_repository(&mut self, path: &str) -> Result<(String, String), String>;

    /// Writes the project a workspace belongs to onto the backend's record.
    /// Answers with the revision the record then has, or `None` for a backend
    /// that does not keep projects.
    fn update_workspace_project_scope(
        &mut self,
        workspace_id: &str,
        project_id: &str,
        project_identity: &str,
        project_root: Option<&str>,
        minimum_scope_rev: Option<u64>,
        expected_daemon_id: Option<&str>,
    ) -> Result<Option<u64>, String>;

    /// Whether one session is alive. Never creates anything.
    fn session_exists(
        &mut self,
        id: &SessionId,
        expected_daemon_id: Option<&str>,
    ) -> Result<bool, String>;

    /// The argv a client runs to get onto this session, creating it first if
    /// it is gone.
    fn attach(
        &mut self,
        spec: &SessionSpec,
        expected_daemon_id: Option<&str>,
    ) -> Result<Attached, String>;

    /// Drops every client attached to the session, which keeps running.
    fn detach(&mut self, id: &SessionId) -> Result<(), String>;

    /// Kills the session and every process in it.
    fn kill(&mut self, id: &SessionId, expected_daemon_id: Option<&str>) -> Result<(), String>;

    /// Kills a workspace's sessions before they are recreated.
    fn reset_workspace_sessions(
        &mut self,
        id: &SessionId,
        _directory: &str,
        expected_daemon_id: Option<&str>,
    ) -> (answer: Result<(), String>)
        default_ensures
            exists|asked: &mut Self|
                {
                    &&& *asked == *old(self)
                    &&& *final(asked) == *final(self)
                    &&& #[trigger] call_ensures(
                        Self::kill,
                        (asked, id, expected_daemon_id),
                        answer,
                    )
                },
    {
        self.kill(id, expected_daemon_id)
    }

    /// How this backend expects status to be obtained.
    fn status_delivery(&self) -> StatusDelivery;

    /// The stream of events, for a backend that pushes. Each call opens a stream
    /// of its own; dropping every receiver is the only way to end one.
    fn subscribe_events(&mut self) -> (events: Result<Receiver<IdentifiedDaemonEvent>, String>)
        default_ensures
            events matches Err(message) && message@
                == "this session backend reports status by polling, not by pushing"@,
    {
        Err("this session backend reports status by polling, not by pushing".to_owned())
    }

    /// The argv a client runs to get onto a session that already exists, named
    /// by the backend's own id. Never creates.
    fn attach_session(
        &mut self,
        _session_id: &str,
        _expected_daemon_id: Option<&str>,
    ) -> (attached: Result<Vec<String>, String>)
        default_ensures
            attached matches Err(message) && message@
                == "this session backend has no sessions of its own to attach to"@,
    {
        Err("this session backend has no sessions of its own to attach to".to_owned())
    }

    /// The workspace's stored layout and the revision guarding the next write.
    fn open_workspace(
        &mut self,
        _workspace_id: &str,
        _expected_daemon_id: Option<&str>,
    ) -> (opened: Result<WorkspaceLayout, String>)
        default_ensures
            opened matches Err(message) && message@
                == "this session backend does not store workspace layouts"@,
    {
        Err("this session backend does not store workspace layouts".to_owned())
    }

    /// [`SessionBackend::open_workspace`] with the identity of the daemon that
    /// answered.
    fn open_workspace_identified(
        &mut self,
        workspace_id: &str,
        expected_daemon_id: Option<&str>,
    ) -> (answer: Result<(WorkspaceLayout, Option<String>), String>)
        default_ensures
            exists|asked: &mut Self, reply: Result<WorkspaceLayout, String>|
                {
                    &&& *asked == *old(self)
                    &&& *final(asked) == *final(self)
                    &&& #[trigger] call_ensures(
                        Self::open_workspace,
                        (asked, workspace_id, expected_daemon_id),
                        reply,
                    )
                    &&& match (reply, answer) {
                        (Ok(found), Ok(paired)) => {
                            &&& paired.0 == found
                            &&& call_ensures(Self::instance_id, (&*final(self),), paired.1)
                        },
                        (Err(cause), Err(told)) => told == cause,
                        _ => false,
                    }
                },
    {
        match self.open_workspace(workspace_id, expected_daemon_id) {
            Ok(layout) => Ok((layout, self.instance_id())),
            Err(cause) => Err(cause),
        }
    }

    /// Stores a new layout, which must be at the revision last seen, plus one.
    fn update_layout(
        &mut self,
        _workspace_id: &str,
        _layout: &LayoutDoc,
        _rev: u64,
        _expected_daemon_id: Option<&str>,
    ) -> (stored: Result<(), String>)
        default_ensures
            stored matches Err(message) && message@
                == "this session backend does not store workspace layouts"@,
    {
        Err("this session backend does not store workspace layouts".to_owned())
    }

    /// Kills one session named by the backend's own id.
    fn kill_session(
        &mut self,
        _session_id: &str,
        _expected_daemon_id: Option<&str>,
    ) -> (killed: Result<(), String>)
        default_ensures
            killed matches Err(message) && message@
                == "this session backend has no sessions of its own to kill"@,
    {
        Err("this session backend has no sessions of its own to kill".to_owned())
    }

    /// Gives one session a new size.
    fn resize_session(
        &mut self,
        session_id: &str,
        cols: u16,
        rows: u16,
        expected_daemon_id: Option<&str>,
    ) -> Result<(), String>;

    /// Gives the workspace a new display name, keeping its id.
    fn rename_workspace(
        &mut self,
        _workspace_id: &str,
        _name: &str,
        _expected_daemon_id: Option<&str>,
    ) -> (renamed: Result<(), String>)
        default_ensures
            renamed matches Err(message) && message@
                == "this session backend has no workspaces of its own to rename"@,
    {
        Err("this session backend has no workspaces of its own to rename".to_owned())
    }

    /// Kills every session in the workspace and deletes its record.
    fn kill_workspace(
        &mut self,
        _workspace_id: &str,
        _expected_daemon_id: Option<&str>,
    ) -> (killed: Result<(), String>)
        default_ensures
            killed matches Err(message) && message@
                == "this session backend has no workspaces of its own to kill"@,
    {
        Err("this session backend has no workspaces of its own to kill".to_owned())
    }

    /// Replaces the daemon on this backend's host, because somebody asked for it.
    fn upgrade_daemon(&mut self) -> (upgraded: Result<Self::UpgradeOutcome, String>)
        default_ensures
            upgraded matches Err(message) && message@
                == "this session backend has no host daemon to upgrade"@,
    {
        Err("this session backend has no host daemon to upgrade".to_owned())
    }

    /// Whether this backend's host is known to run an older daemon than this
    /// client would deploy. Contacts nothing.
    fn daemon_stale(&self) -> (stale: bool)
        default_ensures
            !stale,
    {
        false
    }

    /// Hands over what to run whenever [`SessionBackend::daemon_stale`] changes. A
    /// backend with nothing to be behind never runs it.
    fn observe_daemon_freshness(&mut self, _observer: Self::DaemonFreshnessObserver)
        default_ensures
            *final(self) == *old(self),
    {
    }

    /// This host's daemon identity, as of the last handshake.
    fn instance_id(&self) -> (id: Option<String>)
        default_ensures
            id is None,
    {
        None
    }
}

} // verus!
