//! A workspace as this client records it, and the names derived from it.

use crate::text;
use vstd::prelude::*;
use vstd::string::*;

verus! {

/// This client's own key for a workspace. Nothing outside the registry knows it.
#[derive(Debug, PartialEq, Eq, PartialOrd, Ord, Hash)]
pub struct WorkspaceId(pub String);

impl View for WorkspaceId {
    type V = Seq<char>;

    open spec fn view(&self) -> Seq<char> {
        self.0@
    }
}

impl DeepView for WorkspaceId {
    type V = Seq<char>;

    open spec fn deep_view(&self) -> Seq<char> {
        self.0@
    }
}

impl Clone for WorkspaceId {
    fn clone(&self) -> (copy: Self)
        ensures
            copy@ == self@,
    {
        WorkspaceId(self.0.clone())
    }
}

impl WorkspaceId {
    pub fn as_str(&self) -> (text: &str)
        ensures
            text@ == self@,
    {
        self.0.as_str()
    }

    pub fn is(&self, other: &WorkspaceId) -> (same: bool)
        ensures
            same == (self@ == other@),
    {
        text::same_text(self.0.as_str(), other.0.as_str())
    }
}

/// The state of a workspace's session as the registry last recorded it.
#[derive(Clone, Copy, Debug, PartialEq, Eq, Structural)]
pub enum WorkspaceStatus {
    Creating,
    Running,
    Disconnected,
    Stopped,
    Error,
}

impl DeepView for WorkspaceStatus {
    type V = WorkspaceStatus;

    open spec fn deep_view(&self) -> WorkspaceStatus {
        *self
    }
}

/// A workspace this client has used. Times are whole Unix seconds.
#[derive(Debug, PartialEq, Eq)]
pub struct AdeWorkspace {
    pub id: WorkspaceId,
    pub name: String,
    /// The label its project is shown under.
    pub project_id: String,
    /// The project's stable identity, when one is known.
    pub project_identity: Option<String>,
    pub repository_path: String,
    /// Guards the three project columns: a write takes effect only when it
    /// carries a later revision, or the row has no identity yet.
    pub project_scope_rev: u64,
    pub branch: Option<String>,
    /// `None` is this machine.
    pub remote_host: Option<String>,
    pub remote_workspace_path: Option<String>,
    /// The id the daemon knows the workspace by, once it has a session.
    pub terminal_session_id: Option<String>,
    /// The daemon the row belongs to, once one has named itself.
    pub daemon_id: Option<String>,
    pub status: WorkspaceStatus,
    pub created_at: i64,
    pub last_opened_at: i64,
}

/// What an [`AdeWorkspace`] holds.
#[verifier::ext_equal]
pub struct WorkspaceView {
    pub id: Seq<char>,
    pub name: Seq<char>,
    pub project_id: Seq<char>,
    pub project_identity: Option<Seq<char>>,
    pub repository_path: Seq<char>,
    pub project_scope_rev: u64,
    pub branch: Option<Seq<char>>,
    pub remote_host: Option<Seq<char>>,
    pub remote_workspace_path: Option<Seq<char>>,
    pub terminal_session_id: Option<Seq<char>>,
    pub daemon_id: Option<Seq<char>>,
    pub status: WorkspaceStatus,
    pub created_at: i64,
    pub last_opened_at: i64,
}

impl View for AdeWorkspace {
    type V = WorkspaceView;

    open spec fn view(&self) -> WorkspaceView {
        WorkspaceView {
            id: self.id@,
            name: self.name@,
            project_id: self.project_id@,
            project_identity: text::opt(self.project_identity),
            repository_path: self.repository_path@,
            project_scope_rev: self.project_scope_rev,
            branch: text::opt(self.branch),
            remote_host: text::opt(self.remote_host),
            remote_workspace_path: text::opt(self.remote_workspace_path),
            terminal_session_id: text::opt(self.terminal_session_id),
            daemon_id: text::opt(self.daemon_id),
            status: self.status,
            created_at: self.created_at,
            last_opened_at: self.last_opened_at,
        }
    }
}

impl DeepView for AdeWorkspace {
    type V = WorkspaceView;

    open spec fn deep_view(&self) -> WorkspaceView {
        self@
    }
}

impl Clone for AdeWorkspace {
    fn clone(&self) -> (copy: Self)
        ensures
            copy@ == self@,
    {
        AdeWorkspace {
            id: self.id.clone(),
            name: self.name.clone(),
            project_id: self.project_id.clone(),
            project_identity: text::owned(text::borrowed(&self.project_identity)),
            repository_path: self.repository_path.clone(),
            project_scope_rev: self.project_scope_rev,
            branch: text::owned(text::borrowed(&self.branch)),
            remote_host: text::owned(text::borrowed(&self.remote_host)),
            remote_workspace_path: text::owned(text::borrowed(&self.remote_workspace_path)),
            terminal_session_id: text::owned(text::borrowed(&self.terminal_session_id)),
            daemon_id: text::owned(text::borrowed(&self.daemon_id)),
            status: self.status,
            created_at: self.created_at,
            last_opened_at: self.last_opened_at,
        }
    }
}

/// What every session id this application derives begins with.
pub open spec fn session_prefix() -> Seq<char> {
    "ade"@
}

/// The separator of path components.
pub open spec fn is_slash(c: char) -> bool {
    c == '/'
}

/// The last non-empty component of a text split at the characters of a set, or
/// the whole text when it has none.
pub open spec fn last_component(text: Seq<char>, set: spec_fn(char) -> bool) -> Seq<char> {
    let end = text::end_without(text, set);
    if end == 0 {
        text
    } else {
        text.subrange(text::start_of_tail(text.take(end), set), end)
    }
}

/// The label of a project rooted at `path`: its last component.
pub open spec fn path_project_id(path: Seq<char>) -> Seq<char> {
    last_component(path, |c: char| is_slash(c))
}

/// A workspace name as it appears in a session id: ASCII letters and digits
/// made small, everything else a dash.
pub open spec fn slug_of(name: Seq<char>) -> Seq<char> {
    name.map_values(
        |c: char|
            if text::is_ascii_alnum(c) {
                text::ascii_lower(c)
            } else {
                '-'
            },
    )
}

/// The first six characters of a text, or all of it when it has fewer.
pub open spec fn first_six(text: Seq<char>) -> Seq<char> {
    if text.len() < 6 {
        text
    } else {
        text.take(6)
    }
}

/// The session id a workspace gets by default: `ade-<slug>-<id6>`.
pub open spec fn derived_session_name(name: Seq<char>, id: Seq<char>) -> Seq<char> {
    session_prefix() + "-"@ + slug_of(name) + "-"@ + first_six(id)
}

impl WorkspaceView {
    /// The id the workspace's daemon knows it by: the recorded session id, or
    /// the derived one before there is a record.
    pub open spec fn daemon_workspace_id(self) -> Seq<char> {
        match self.terminal_session_id {
            Some(id) => id,
            None => derived_session_name(self.name, self.id),
        }
    }

    /// The stored project identity, or the repository path in its place.
    pub open spec fn identity_or_path(self) -> Seq<char> {
        match self.project_identity {
            Some(identity) => identity,
            None => self.repository_path,
        }
    }
}

/// The last non-empty component of a text split at one or two separators.
pub fn component_after(text: &str, first: char, second: char) -> (component: String)
    ensures
        component@ == last_component(text@, |c: char| c == first || c == second),
{
    let list = text::characters(text);
    let ghost set = |c: char| c == first || c == second;
    let mut end: usize = list.len();
    assert(text@.take(end as int) =~= text@);
    while end > 0 && (list[end - 1] == first || list[end - 1] == second)
        invariant
            end <= list.len(),
            list@ == text@,
            set == (|c: char| c == first || c == second),
            text::end_without(text@, set) == text::end_without(text@.take(end as int), set),
        decreases end,
    {
        assert(text@.take(end as int).drop_last() =~= text@.take(end - 1));
        end = end - 1;
    }
    if end == 0 {
        return text.to_owned();
    }
    let ghost kept = text@.take(end as int);
    let mut start: usize = end;
    assert(kept.take(end as int) =~= kept);
    assert(kept.last() == text@[end - 1]);
    while start > 0 && !(list[start - 1] == first || list[start - 1] == second)
        invariant
            start <= end <= list.len(),
            list@ == text@,
            kept == text@.take(end as int),
            set == (|c: char| c == first || c == second),
            text::start_of_tail(kept, set) == text::start_of_tail(kept.take(start as int), set),
        decreases start,
    {
        assert(kept.take(start as int).drop_last() =~= kept.take(start - 1));
        assert(kept.take(start as int).last() == text@[start - 1]);
        start = start - 1;
    }
    assert(start > 0 ==> kept.take(start as int).last() == text@[start - 1]);
    text::slice(text, start, end)
}

/// The label of a project rooted at `path`.
pub fn project_id_from_path(path: &str) -> (project_id: String)
    ensures
        project_id@ == path_project_id(path@),
{
    proof {
        assert((|c: char| c == '/' || c == '/') =~= (|c: char| is_slash(c)));
    }
    component_after(path, '/', '/')
}

/// The label of a project with this identity, which is the path of its
/// repository.
pub fn project_id_from_identity(identity: &str) -> (project_id: String)
    ensures
        project_id@ == path_project_id(identity@),
{
    project_id_from_path(identity)
}

fn slug(name: &str) -> (slug: String)
    ensures
        slug@ == slug_of(name@),
{
    let list = text::characters(name);
    let mut slug = String::new();
    let mut i: usize = 0;
    while i < list.len()
        invariant
            i <= list.len(),
            list@ == name@,
            slug@ == slug_of(name@.take(i as int)),
        decreases list.len() - i,
    {
        let c: char = list[i];
        let letter = ('a' <= c && c <= 'z') || ('A' <= c && c <= 'Z');
        if letter || ('0' <= c && c <= '9') {
            slug.push(text::lower(c));
        } else {
            slug.push('-');
        }
        i = i + 1;
        assert(slug@ =~= slug_of(name@.take(i as int)));
    }
    assert(name@.take(name@.len() as int) =~= name@);
    slug
}

/// The session id a workspace of this name and id gets by default.
pub fn tmux_session_name(name: &str, id: &WorkspaceId) -> (session: String)
    ensures
        session@ == derived_session_name(name@, id@),
{
    let list = text::characters(id.as_str());
    let count: usize = if list.len() < 6 {
        list.len()
    } else {
        6
    };
    let id6 = text::slice(id.as_str(), 0, count);
    assert(id6@ =~= first_six(id@));
    text::joined3("ade", "-", slug(name).as_str()).concat("-").concat(id6.as_str())
}

impl AdeWorkspace {
    /// A workspace nothing has been done with yet.
    pub fn new(
        id: WorkspaceId,
        name: &str,
        project_id: &str,
        repository_path: &str,
        now: i64,
    ) -> (workspace: Self)
        ensures
            workspace@ == new_workspace(id@, name@, project_id@, repository_path@, now),
    {
        AdeWorkspace {
            id,
            name: name.to_owned(),
            project_id: project_id.to_owned(),
            project_identity: None,
            repository_path: repository_path.to_owned(),
            project_scope_rev: 0,
            branch: None,
            remote_host: None,
            remote_workspace_path: None,
            terminal_session_id: None,
            daemon_id: None,
            status: WorkspaceStatus::Creating,
            created_at: now,
            last_opened_at: now,
        }
    }

    pub fn tmux_session_name(&self) -> (session: String)
        ensures
            session@ == derived_session_name(self@.name, self@.id),
    {
        tmux_session_name(self.name.as_str(), &self.id)
    }

    /// The id this workspace's daemon knows it by.
    ///
    /// The recorded session id once there is one, so that a later rename does
    /// not lose the session.
    pub fn daemon_workspace_id(&self) -> (id: String)
        ensures
            id@ == self@.daemon_workspace_id(),
    {
        match &self.terminal_session_id {
            Some(id) => id.clone(),
            None => self.tmux_session_name(),
        }
    }

    /// The project's stable identity; a row without one stands for its own
    /// checkout.
    pub fn project_identity(&self) -> (identity: String)
        ensures
            identity@ == self@.identity_or_path(),
    {
        match &self.project_identity {
            Some(identity) => identity.clone(),
            None => self.repository_path.clone(),
        }
    }

    pub fn is_remote(&self) -> (remote: bool)
        ensures
            remote == (self@.remote_host is Some),
    {
        self.remote_host.is_some()
    }
}

/// What [`AdeWorkspace::new`] makes.
pub open spec fn new_workspace(
    id: Seq<char>,
    name: Seq<char>,
    project_id: Seq<char>,
    repository_path: Seq<char>,
    now: i64,
) -> WorkspaceView {
    WorkspaceView {
        id,
        name,
        project_id,
        project_identity: None,
        repository_path,
        project_scope_rev: 0,
        branch: None,
        remote_host: None,
        remote_workspace_path: None,
        terminal_session_id: None,
        daemon_id: None,
        status: WorkspaceStatus::Creating,
        created_at: now,
        last_opened_at: now,
    }
}

} // verus!
