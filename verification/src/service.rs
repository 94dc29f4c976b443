//! The service over every host's backend: what it holds, and every way it
//! talks to a backend.
//!
//! One backend per host, created on first use and kept. The service keeps, for
//! its contracts only, the history of everything that happened to its backends:
//! how each came, and every call made on it, from the value it had to the value
//! it was left with. The functions of this file are the only ones that reach a
//! backend of a service, each by one call.

use crate::calls;
use crate::daemon::KeyView;
use crate::entry;
use crate::entry::{Failure, FailureView};
use crate::registry::{AdeWorkspaceRegistry, RowView};
use crate::session_backend::{
    Attached, AttachedView, BackendWorkspace, Identified, IdentifiedDaemonEvent, LayoutDoc,
    RecordView, SessionBackend, SessionId, SessionInfo, SessionSpec, SpecView, StatusDelivery,
    WorkspaceLayout,
};
use crate::snapshot::{Discoveries, ScopeRetries};
use crate::text;
use smol::channel::Receiver;
use vstd::prelude::*;
use vstd::string::*;

verus! {

/// What a fallible answer says, over the views of its parts.
pub open spec fn told<T: DeepView, E: DeepView>(answer: Result<T, E>) -> Result<T::V, E::V> {
    match answer {
        Ok(value) => Ok(value.deep_view()),
        Err(error) => Err(error.deep_view()),
    }
}

/// One question put to a host's backend, and its answer.
#[allow(inconsistent_fields)]
pub enum Exchange {
    Create {
        host: Option<Seq<char>>,
        spec: SpecView,
        expected: Option<Seq<char>>,
        reply: Result<(Seq<char>, Option<Seq<char>>), Seq<char>>,
    },
    CreateInWorkspace {
        host: Option<Seq<char>>,
        workspace_id: Seq<char>,
        cwd: Seq<char>,
        expected: Option<Seq<char>>,
        reply: Result<(Seq<char>, Option<Seq<char>>), Seq<char>>,
    },
    ListSessions {
        host: Option<Seq<char>>,
        reply: Result<(Option<Seq<char>>, Seq<Seq<char>>), Seq<char>>,
    },
    ListWorkspaces {
        host: Option<Seq<char>>,
        reply: Result<(Option<Seq<char>>, Seq<RecordView>), Seq<char>>,
    },
    Resolve {
        host: Option<Seq<char>>,
        path: Seq<char>,
        reply: Result<(Seq<char>, Seq<char>), Seq<char>>,
    },
    UpdateScope {
        host: Option<Seq<char>>,
        workspace_id: Seq<char>,
        project_id: Seq<char>,
        project_identity: Seq<char>,
        project_root: Option<Seq<char>>,
        minimum: Option<u64>,
        expected: Option<Seq<char>>,
        reply: Result<Option<u64>, Seq<char>>,
    },
    Exists {
        host: Option<Seq<char>>,
        session: Seq<char>,
        expected: Option<Seq<char>>,
        reply: Result<bool, Seq<char>>,
    },
    Attach {
        host: Option<Seq<char>>,
        spec: SpecView,
        expected: Option<Seq<char>>,
        reply: Result<AttachedView, Seq<char>>,
    },
    AttachSession {
        host: Option<Seq<char>>,
        session: Seq<char>,
        expected: Option<Seq<char>>,
        reply: Result<Seq<Seq<char>>, Seq<char>>,
    },
    Detach {
        host: Option<Seq<char>>,
        session: Seq<char>,
        reply: Result<(), Seq<char>>,
    },
    Kill {
        host: Option<Seq<char>>,
        session: Seq<char>,
        expected: Option<Seq<char>>,
        reply: Result<(), Seq<char>>,
    },
    Reset {
        host: Option<Seq<char>>,
        session: Seq<char>,
        directory: Seq<char>,
        expected: Option<Seq<char>>,
        reply: Result<(), Seq<char>>,
    },
    KillSession {
        host: Option<Seq<char>>,
        session: Seq<char>,
        expected: Option<Seq<char>>,
        reply: Result<(), Seq<char>>,
    },
    KillWorkspace {
        host: Option<Seq<char>>,
        workspace_id: Seq<char>,
        expected: Option<Seq<char>>,
        reply: Result<(), Seq<char>>,
    },
    Rename {
        host: Option<Seq<char>>,
        workspace_id: Seq<char>,
        name: Seq<char>,
        expected: Option<Seq<char>>,
        reply: Result<(), Seq<char>>,
    },
    Resize {
        host: Option<Seq<char>>,
        session: Seq<char>,
        cols: u16,
        rows: u16,
        expected: Option<Seq<char>>,
        reply: Result<(), Seq<char>>,
    },
    OpenLayout {
        host: Option<Seq<char>>,
        workspace_id: Seq<char>,
        expected: Option<Seq<char>>,
        reply: Result<((Seq<char>, u64), Option<Seq<char>>), Seq<char>>,
    },
    UpdateLayout {
        host: Option<Seq<char>>,
        workspace_id: Seq<char>,
        document: Seq<char>,
        rev: u64,
        expected: Option<Seq<char>>,
        reply: Result<(), Seq<char>>,
    },
    Instance {
        host: Option<Seq<char>>,
        reply: Option<Seq<char>>,
    },
    Subscribe {
        host: Option<Seq<char>>,
        reply: Result<(), Seq<char>>,
    },
    Upgrade {
        host: Option<Seq<char>>,
        reply: Result<(), Seq<char>>,
    },
}

impl Exchange {
    /// The host the question was put to.
    pub open spec fn host(self) -> Option<Seq<char>> {
        match self {
            Exchange::Create { host, .. } => host,
            Exchange::CreateInWorkspace { host, .. } => host,
            Exchange::ListSessions { host, .. } => host,
            Exchange::ListWorkspaces { host, .. } => host,
            Exchange::Resolve { host, .. } => host,
            Exchange::UpdateScope { host, .. } => host,
            Exchange::Exists { host, .. } => host,
            Exchange::Attach { host, .. } => host,
            Exchange::AttachSession { host, .. } => host,
            Exchange::Detach { host, .. } => host,
            Exchange::Kill { host, .. } => host,
            Exchange::Reset { host, .. } => host,
            Exchange::KillSession { host, .. } => host,
            Exchange::KillWorkspace { host, .. } => host,
            Exchange::Rename { host, .. } => host,
            Exchange::Resize { host, .. } => host,
            Exchange::OpenLayout { host, .. } => host,
            Exchange::UpdateLayout { host, .. } => host,
            Exchange::Instance { host, .. } => host,
            Exchange::Subscribe { host, .. } => host,
            Exchange::Upgrade { host, .. } => host,
        }
    }

    /// Whether the question can end a process or remove a record.
    pub open spec fn destroys(self) -> bool {
        ||| self is Kill
        ||| self is Reset
        ||| self is KillSession
        ||| self is KillWorkspace
        ||| self is Upgrade
    }

    /// Whether the question can bring a session into existence.
    pub open spec fn creates(self) -> bool {
        ||| self is Create
        ||| self is CreateInWorkspace
        ||| self is Attach
    }
}

/// What the service holds.
#[verifier::ext_equal]
pub struct ServiceView {
    /// The hosts a backend exists for, in the order they appeared.
    pub hosts: Seq<Option<Seq<char>>>,
    /// Each attempt to make a backend for a host, and how it went.
    pub connects: Seq<(Seq<char>, Result<(), Seq<char>>)>,
    pub rows: Seq<RowView>,
    pub discoveries: Map<KeyView, Seq<RecordView>>,
    pub retries: Set<(KeyView, Seq<char>, Seq<char>)>,
    /// The hosts that push no status, and why.
    pub status_errors: Seq<(Seq<char>, Seq<char>)>,
    /// Everything asked of a backend so far.
    pub log: Seq<Exchange>,
}

/// One host's backend.
pub struct HostBackend<B> {
    pub host: Option<String>,
    pub backend: B,
}

impl<B> DeepView for HostBackend<B> {
    type V = Option<Seq<char>>;

    open spec fn deep_view(&self) -> Option<Seq<char>> {
        text::opt(self.host)
    }
}

/// Creates, probes and tears down workspace sessions, keeping the registry in
/// step with the session backends.
pub struct WorkspaceLifecycleService<B: SessionBackend> {
    backends: Vec<HostBackend<B>>,
    registry: AdeWorkspaceRegistry,
    discoveries: Discoveries,
    retries: ScopeRetries,
    status_errors: Vec<(String, String)>,
    /// What the backend of another host runs when its daemon falls behind or
    /// catches up.
    announcer: B::DaemonFreshnessObserver,
    history: Ghost<Seq<Step<B>>>,
}

impl<B: SessionBackend> View for WorkspaceLifecycleService<B> {
    type V = ServiceView;

    closed spec fn view(&self) -> ServiceView {
        ServiceView {
            hosts: self.backends.deep_view(),
            connects: tried_in(self.history@),
            rows: self.registry@,
            discoveries: self.discoveries@,
            retries: self.retries@,
            status_errors: self.status_errors.deep_view(),
            log: asked_in(self.history@),
        }
    }
}

/// One thing that happened to the backends a service keeps.
#[allow(inconsistent_fields)]
pub enum Step<B: SessionBackend> {
    /// A host was given a backend.
    Given { host: Option<Seq<char>>, backend: B },
    /// A backend was asked to be made for a host.
    Tried { host: Seq<char>, made: Result<B, String> },
    /// A host's backend was asked something, which took it from one value to
    /// another.
    Asked { exchange: Exchange, before: B, after: B },
    /// A host's backend was handed what to run when its daemon falls behind or
    /// catches up, which took it from one value to another.
    Observed {
        host: Option<Seq<char>>,
        observer: B::DaemonFreshnessObserver,
        before: B,
        after: B,
    },
    /// Every backend was dropped.
    Left,
}

/// The backends that a history leaves.
pub open spec fn kept<B: SessionBackend>(history: Seq<Step<B>>) -> Map<Option<Seq<char>>, B>
    decreases history.len(),
{
    if history.len() == 0 {
        Map::empty()
    } else {
        let earlier = kept(history.drop_last());
        match history.last() {
            Step::Given { host, backend } => earlier.insert(host, backend),
            Step::Tried { host, made } => match made {
                Ok(backend) => earlier.insert(Some(host), backend),
                Err(_) => earlier,
            },
            Step::Asked { exchange, after, .. } => earlier.insert(exchange.host(), after),
            Step::Observed { host, after, .. } => earlier.insert(host, after),
            Step::Left => Map::empty(),
        }
    }
}

/// The questions of a history.
pub open spec fn asked_in<B: SessionBackend>(history: Seq<Step<B>>) -> Seq<Exchange>
    decreases history.len(),
{
    if history.len() == 0 {
        Seq::empty()
    } else {
        let earlier = asked_in(history.drop_last());
        match history.last() {
            Step::Asked { exchange, .. } => earlier.push(exchange),
            _ => earlier,
        }
    }
}

/// The attempts to make a backend, in a history.
pub open spec fn tried_in<B: SessionBackend>(
    history: Seq<Step<B>>,
) -> Seq<(Seq<char>, Result<(), Seq<char>>)>
    decreases history.len(),
{
    if history.len() == 0 {
        Seq::empty()
    } else {
        let earlier = tried_in(history.drop_last());
        match history.last() {
            Step::Tried { host, made } => earlier.push((host, attempt(made))),
            _ => earlier,
        }
    }
}

/// Whether an exchange is a call on a backend: of the method the question names,
/// with the question's arguments, with an answer that says what the reply says,
/// and from the one value of the backend to the other.
pub open spec fn happened<B: SessionBackend>(exchange: Exchange, before: B, after: B) -> bool {
    match exchange {
        Exchange::Create { spec, expected, reply, .. } => exists|
            asked_spec: &SessionSpec,
            fence: Option<&str>,
            answer: Result<(SessionId, Option<String>), String>,
        |
            {
                &&& asked_spec@ == spec
                &&& fence.deep_view() == expected
                &&& told(answer) == reply
                &&& #[trigger] call_ensures(
                    calls::create_identified::<B>,
                    (before, asked_spec, fence),
                    (after, answer),
                )
            },
        Exchange::CreateInWorkspace { workspace_id, cwd, expected, reply, .. } => exists|
            id: &str,
            place: &str,
            fence: Option<&str>,
            answer: Result<(String, Option<String>), String>,
        |
            {
                &&& id@ == workspace_id
                &&& place@ == cwd
                &&& fence.deep_view() == expected
                &&& told(answer) == reply
                &&& #[trigger] call_ensures(
                    calls::create_session_in_workspace_identified::<B>,
                    (before, id, place, fence),
                    (after, answer),
                )
            },
        Exchange::ListSessions { reply, .. } => exists|
            answer: Result<Identified<SessionInfo>, String>,
        |
            {
                &&& told(answer) == reply
                &&& #[trigger] call_ensures(calls::list_identified::<B>, (before,), (after, answer))
            },
        Exchange::ListWorkspaces { reply, .. } => exists|
            answer: Result<Identified<BackendWorkspace>, String>,
        |
            {
                &&& told(answer) == reply
                &&& #[trigger] call_ensures(
                    calls::list_workspaces_identified::<B>,
                    (before,),
                    (after, answer),
                )
            },
        Exchange::Resolve { path, reply, .. } => exists|
            place: &str,
            answer: Result<(String, String), String>,
        |
            {
                &&& place@ == path
                &&& told(answer) == reply
                &&& #[trigger] call_ensures(
                    calls::resolve_repository::<B>,
                    (before, place),
                    (after, answer),
                )
            },
        Exchange::UpdateScope {
            workspace_id,
            project_id,
            project_identity,
            project_root,
            minimum,
            expected,
            reply,
            ..
        } => exists|
            id: &str,
            project: &str,
            identity: &str,
            root: Option<&str>,
            least: Option<u64>,
            fence: Option<&str>,
            answer: Result<Option<u64>, String>,
        |
            {
                &&& id@ == workspace_id
                &&& project@ == project_id
                &&& identity@ == project_identity
                &&& root.deep_view() == project_root
                &&& least == minimum
                &&& fence.deep_view() == expected
                &&& told(answer) == reply
                &&& #[trigger] call_ensures(
                    calls::update_workspace_project_scope::<B>,
                    (before, id, project, identity, root, least, fence),
                    (after, answer),
                )
            },
        Exchange::Exists { session, expected, reply, .. } => exists|
            id: &SessionId,
            fence: Option<&str>,
            answer: Result<bool, String>,
        |
            {
                &&& id@ == session
                &&& fence.deep_view() == expected
                &&& told(answer) == reply
                &&& #[trigger] call_ensures(
                    calls::session_exists::<B>,
                    (before, id, fence),
                    (after, answer),
                )
            },
        Exchange::Attach { spec, expected, reply, .. } => exists|
            asked_spec: &SessionSpec,
            fence: Option<&str>,
            answer: Result<Attached, String>,
        |
            {
                &&& asked_spec@ == spec
                &&& fence.deep_view() == expected
                &&& told(answer) == reply
                &&& #[trigger] call_ensures(
                    calls::attach::<B>,
                    (before, asked_spec, fence),
                    (after, answer),
                )
            },
        Exchange::AttachSession { session, expected, reply, .. } => exists|
            id: &str,
            fence: Option<&str>,
            answer: Result<Vec<String>, String>,
        |
            {
                &&& id@ == session
                &&& fence.deep_view() == expected
                &&& told(answer) == reply
                &&& #[trigger] call_ensures(
                    calls::attach_session::<B>,
                    (before, id, fence),
                    (after, answer),
                )
            },
        Exchange::Detach { session, reply, .. } => exists|
            id: &SessionId,
            answer: Result<(), String>,
        |
            {
                &&& id@ == session
                &&& told(answer) == reply
                &&& #[trigger] call_ensures(calls::detach::<B>, (before, id), (after, answer))
            },
        Exchange::Kill { session, expected, reply, .. } => exists|
            id: &SessionId,
            fence: Option<&str>,
            answer: Result<(), String>,
        |
            {
                &&& id@ == session
                &&& fence.deep_view() == expected
                &&& told(answer) == reply
                &&& #[trigger] call_ensures(calls::kill::<B>, (before, id, fence), (after, answer))
            },
        Exchange::Reset { session, directory, expected, reply, .. } => exists|
            id: &SessionId,
            place: &str,
            fence: Option<&str>,
            answer: Result<(), String>,
        |
            {
                &&& id@ == session
                &&& place@ == directory
                &&& fence.deep_view() == expected
                &&& told(answer) == reply
                &&& #[trigger] call_ensures(
                    calls::reset_workspace_sessions::<B>,
                    (before, id, place, fence),
                    (after, answer),
                )
            },
        Exchange::KillSession { session, expected, reply, .. } => exists|
            id: &str,
            fence: Option<&str>,
            answer: Result<(), String>,
        |
            {
                &&& id@ == session
                &&& fence.deep_view() == expected
                &&& told(answer) == reply
                &&& #[trigger] call_ensures(
                    calls::kill_session::<B>,
                    (before, id, fence),
                    (after, answer),
                )
            },
        Exchange::KillWorkspace { workspace_id, expected, reply, .. } => exists|
            id: &str,
            fence: Option<&str>,
            answer: Result<(), String>,
        |
            {
                &&& id@ == workspace_id
                &&& fence.deep_view() == expected
                &&& told(answer) == reply
                &&& #[trigger] call_ensures(
                    calls::kill_workspace::<B>,
                    (before, id, fence),
                    (after, answer),
                )
            },
        Exchange::Rename { workspace_id, name, expected, reply, .. } => exists|
            id: &str,
            new_name: &str,
            fence: Option<&str>,
            answer: Result<(), String>,
        |
            {
                &&& id@ == workspace_id
                &&& new_name@ == name
                &&& fence.deep_view() == expected
                &&& told(answer) == reply
                &&& #[trigger] call_ensures(
                    calls::rename_workspace::<B>,
                    (before, id, new_name, fence),
                    (after, answer),
                )
            },
        Exchange::Resize { session, cols, rows, expected, reply, .. } => exists|
            id: &str,
            width: u16,
            height: u16,
            fence: Option<&str>,
            answer: Result<(), String>,
        |
            {
                &&& id@ == session
                &&& width == cols
                &&& height == rows
                &&& fence.deep_view() == expected
                &&& told(answer) == reply
                &&& #[trigger] call_ensures(
                    calls::resize_session::<B>,
                    (before, id, width, height, fence),
                    (after, answer),
                )
            },
        Exchange::OpenLayout { workspace_id, expected, reply, .. } => exists|
            id: &str,
            fence: Option<&str>,
            answer: Result<(WorkspaceLayout, Option<String>), String>,
        |
            {
                &&& id@ == workspace_id
                &&& fence.deep_view() == expected
                &&& told(answer) == reply
                &&& #[trigger] call_ensures(
                    calls::open_workspace_identified::<B>,
                    (before, id, fence),
                    (after, answer),
                )
            },
        Exchange::UpdateLayout { workspace_id, document, rev, expected, reply, .. } => exists|
            id: &str,
            layout: &LayoutDoc,
            asked_rev: u64,
            fence: Option<&str>,
            answer: Result<(), String>,
        |
            {
                &&& id@ == workspace_id
                &&& layout.document@ == document
                &&& asked_rev == rev
                &&& fence.deep_view() == expected
                &&& told(answer) == reply
                &&& #[trigger] call_ensures(
                    calls::update_layout::<B>,
                    (before, id, layout, asked_rev, fence),
                    (after, answer),
                )
            },
        Exchange::Subscribe { reply, .. } => exists|
            answer: Result<Receiver<IdentifiedDaemonEvent>, String>,
        |
            {
                &&& attempt(answer) == reply
                &&& #[trigger] call_ensures(
                    calls::subscribe_events::<B>,
                    (before,),
                    (after, answer),
                )
            },
        Exchange::Upgrade { reply, .. } => exists|answer: Result<B::UpgradeOutcome, String>|
            {
                &&& attempt(answer) == reply
                &&& #[trigger] call_ensures(calls::upgrade_daemon::<B>, (before,), (after, answer))
            },
        Exchange::Instance { reply, .. } => exists|answer: Option<String>|
            {
                &&& after == before
                &&& text::opt(answer) == reply
                &&& #[trigger] call_ensures(B::instance_id, (&before,), answer)
            },
    }
}

/// Whether a step could be taken with the backends there were.
pub open spec fn is_step<B: SessionBackend>(
    backends: Map<Option<Seq<char>>, B>,
    step: Step<B>,
) -> bool {
    match step {
        Step::Given { .. } => true,
        Step::Tried { host, made } => !backends.dom().contains(Some(host)) && exists|name: &str|
            name@ == host && #[trigger] call_ensures(B::remote, (name,), made),
        Step::Asked { exchange, before, after } => {
            &&& backends.dom().contains(exchange.host())
            &&& backends[exchange.host()] == before
            &&& happened(exchange, before, after)
        },
        Step::Observed { host, observer, before, after } => {
            &&& backends.dom().contains(host)
            &&& backends[host] == before
            &&& call_ensures(calls::observe_daemon_freshness::<B>, (before, observer), after)
        },
        Step::Left => true,
    }
}

/// The host other than this machine whose backend came in the last step, and was
/// not handed anything to run yet.
pub open spec fn awaiting<B: SessionBackend>(history: Seq<Step<B>>) -> Option<Seq<char>> {
    if history.len() == 0 {
        None
    } else {
        match history.last() {
            Step::Given { host, .. } => host,
            Step::Tried { host, made } => if made is Ok {
                Some(host)
            } else {
                None
            },
            _ => None,
        }
    }
}

/// Whether what a history handed to the backends to run is the announcer, or
/// what cloning it gave.
pub open spec fn are_told_by<B: SessionBackend>(
    history: Seq<Step<B>>,
    announcer: B::DaemonFreshnessObserver,
) -> bool {
    forall|k: int|
        0 <= k < history.len() ==> (#[trigger] history[k] matches Step::Observed { observer, .. }
            ==> cloned(announcer, observer))
}

/// Whether every step of a history could be taken: each question is a call on
/// the backend its host then had, which is the value that the last call on it
/// left. So no call stands beside the history. A backend of another host is
/// handed what to run before anything else touches it.
pub open spec fn is_history<B: SessionBackend>(history: Seq<Step<B>>) -> bool
    decreases history.len(),
{
    history.len() == 0 || {
        &&& is_history(history.drop_last())
        &&& is_step(kept(history.drop_last()), history.last())
        &&& awaiting(history.drop_last()) is Some ==> (history.last() matches Step::Observed {
            host,
            ..
        } && host == awaiting(history.drop_last()))
    }
}

/// Whether the backends are those that a history leaves.
pub open spec fn are_left_by<B: SessionBackend>(
    backends: Seq<HostBackend<B>>,
    history: Seq<Step<B>>,
) -> bool {
    forall|host: Option<Seq<char>>| #[trigger]
        first_backend(backends, host) == backend_in(kept(history), host)
}

/// The backend of a host, if it has one.
pub open spec fn backend_in<B>(
    backends: Map<Option<Seq<char>>, B>,
    host: Option<Seq<char>>,
) -> Option<B> {
    if backends.dom().contains(host) {
        Some(backends[host])
    } else {
        None
    }
}

/// The first backend kept for a host.
pub open spec fn first_backend<B>(
    backends: Seq<HostBackend<B>>,
    host: Option<Seq<char>>,
) -> Option<B>
    decreases backends.len(),
{
    if backends.len() == 0 {
        None
    } else if text::opt(backends[0].host) == host {
        Some(backends[0].backend)
    } else {
        first_backend(backends.drop_first(), host)
    }
}

proof fn lemma_first_backend<B>(
    backends: Seq<HostBackend<B>>,
    host: Option<Seq<char>>,
    at: int,
)
    requires
        0 <= at <= backends.len(),
        forall|k: int| 0 <= k < at ==> text::opt((#[trigger] backends[k]).host) != host,
        at < backends.len() ==> text::opt(backends[at].host) == host,
    ensures
        first_backend(backends, host) == (if at < backends.len() {
            Some(backends[at].backend)
        } else {
            None
        }),
    decreases backends.len(),
{
    if backends.len() > 0 && at > 0 {
        let rest = backends.drop_first();
        assert forall|k: int| 0 <= k < at - 1 implies text::opt((#[trigger] rest[k]).host)
            != host by {
            assert(rest[k] == backends[k + 1]);
        }
        lemma_first_backend(rest, host, at - 1);
    }
}

/// Putting a backend at a place, in the stead of one of the same host or behind
/// all of other hosts, gives it to its host and changes nothing for the others.
proof fn lemma_installed<B>(
    kept: Seq<HostBackend<B>>,
    now: Seq<HostBackend<B>>,
    other: Option<Seq<char>>,
    host: Option<Seq<char>>,
    at: int,
)
    requires
        0 <= at <= kept.len(),
        at < now.len(),
        text::opt(now[at].host) == host,
        at < kept.len() ==> text::opt(kept[at].host) == host && now == kept.update(at, now[at]),
        at == kept.len() ==> now == kept.push(now[at]),
        forall|k: int| 0 <= k < at ==> text::opt((#[trigger] kept[k]).host) != host,
    ensures
        first_backend(now, other) == (if other == host {
            Some(now[at].backend)
        } else {
            first_backend(kept, other)
        }),
    decreases kept.len(),
{
    if at == 0 {
        if kept.len() > 0 {
            assert(now.drop_first() =~= kept.drop_first());
        } else {
            assert(now.drop_first() =~= kept);
        }
    } else {
        let (fewer, then_fewer) = (kept.drop_first(), now.drop_first());
        assert(now[0] == kept[0]);
        assert(then_fewer[at - 1] == now[at]);
        if at < kept.len() {
            assert(then_fewer =~= fewer.update(at - 1, now[at]));
        } else {
            assert(then_fewer =~= fewer.push(now[at]));
        }
        assert forall|k: int| 0 <= k < at - 1 implies text::opt((#[trigger] fewer[k]).host)
            != host by {
            assert(fewer[k] == kept[k + 1]);
        }
        lemma_installed(fewer, then_fewer, other, host, at - 1);
    }
}

proof fn lemma_asked_grows<B: SessionBackend>(history: Seq<Step<B>>, n: int)
    requires
        0 <= n <= history.len(),
    ensures
        asked_in(history.take(n)).len() <= asked_in(history).len(),
    decreases history.len(),
{
    if n == history.len() {
        assert(history.take(n) =~= history);
    } else {
        assert(history.drop_last().take(n) =~= history.take(n));
        lemma_asked_grows(history.drop_last(), n);
    }
}

/// A question of a history stands in its record behind those asked before.
proof fn lemma_asked_at<B: SessionBackend>(history: Seq<Step<B>>, k: int)
    requires
        0 <= k < history.len(),
        history[k] is Asked,
    ensures
        asked_in(history.take(k)).len() < asked_in(history).len(),
        asked_in(history)[asked_in(history.take(k)).len() as int] == history[k]->exchange,
    decreases history.len(),
{
    assert(history.drop_last().take(k) =~= history.take(k));
    if k == history.len() - 1 {
        assert(history.take(k) =~= history.drop_last());
    } else {
        lemma_asked_at(history.drop_last(), k);
    }
}

/// A question of a record is a call of the backend's own method: what is recorded
/// as a detaching is a call of `detach`, with that session.
pub proof fn law_a_recorded_detach_is_a_detach<B: SessionBackend>(
    exchange: Exchange,
    before: B,
    after: B,
)
    requires
        happened(exchange, before, after),
        exchange is Detach,
    ensures
        exchange matches Exchange::Detach { session, reply, .. } ==> exists|
            put: &mut B,
            id: &SessionId,
            answer: Result<(), String>,
        |
            {
                &&& *put == before
                &&& *final(put) == after
                &&& id@ == session
                &&& told(answer) == reply
                &&& #[trigger] call_ensures(B::detach, (put, id), answer)
            },
{
}

/// What is recorded as the killing of a record is a call of `kill_workspace`, of
/// that record, fenced as recorded.
pub proof fn law_a_recorded_workspace_kill_is_one<B: SessionBackend>(
    exchange: Exchange,
    before: B,
    after: B,
)
    requires
        happened(exchange, before, after),
        exchange is KillWorkspace,
    ensures
        exchange matches Exchange::KillWorkspace { workspace_id, expected, reply, .. } ==> exists|
            put: &mut B,
            id: &str,
            fence: Option<&str>,
            answer: Result<(), String>,
        |
            {
                &&& *put == before
                &&& *final(put) == after
                &&& id@ == workspace_id
                &&& fence.deep_view() == expected
                &&& told(answer) == reply
                &&& #[trigger] call_ensures(B::kill_workspace, (put, id, fence), answer)
            },
{
}

/// A question put to one backend of a service, and noted, leaves the service as
/// it must be.
proof fn lemma_noted<B: SessionBackend>(
    earlier: WorkspaceLifecycleService<B>,
    now: WorkspaceLifecycleService<B>,
    at: int,
    exchange: Exchange,
)
    requires
        earlier.wf(),
        0 <= at < earlier.backends@.len(),
        now.backends@.len() == earlier.backends@.len(),
        now.backends@ == earlier.backends@.update(at, now.backends@[at]),
        now.backends@[at].host == earlier.backends@[at].host,
        exchange.host() == earlier@.hosts[at],
        now.registry == earlier.registry,
        now.discoveries == earlier.discoveries,
        now.retries == earlier.retries,
        now.status_errors == earlier.status_errors,
        now.announcer == earlier.announcer,
        now.history@ == earlier.history@.push(
            Step::Asked {
                exchange,
                before: earlier.backends@[at].backend,
                after: now.backends@[at].backend,
            },
        ),
        happened(exchange, earlier.backends@[at].backend, now.backends@[at].backend),
    ensures
        now.wf(),
        now.was_asked(&earlier, exchange),
        now@ == asked(earlier@, exchange),
        earlier.backend_of(exchange.host()) == Some(earlier.backends@[at].backend),
        now.backend_of(exchange.host()) == Some(now.backends@[at].backend),
{
    let host = exchange.host();
    assert(now@.hosts =~= earlier@.hosts);
    assert forall|k: int| 0 <= k < at implies text::opt((#[trigger] earlier.backends@[k]).host)
        != host by {
        assert(earlier@.hosts[k] == text::opt(earlier.backends@[k].host));
    }
    assert(earlier@.hosts[at] == text::opt(earlier.backends@[at].host));
    lemma_first_backend(earlier.backends@, host, at);
    assert(now.history@.drop_last() =~= earlier.history@);
    assert(earlier.backend_of(host) == backend_in(kept(earlier.history()), host));
    assert forall|other: Option<Seq<char>>| #[trigger]
        now.backend_of(other) == (if other == host {
            Some(now.backends@[at].backend)
        } else {
            earlier.backend_of(other)
        }) by {
        lemma_installed(earlier.backends@, now.backends@, other, host, at);
    }
    assert forall|other: Option<Seq<char>>| #[trigger]
        first_backend(now.backends@, other) == backend_in(kept(now.history()), other) by {
        lemma_installed(earlier.backends@, now.backends@, other, host, at);
        assert(earlier.backend_of(other) == backend_in(kept(earlier.history()), other));
    }
}

/// In a history, whatever comes behind a backend that came is the handing over.
proof fn lemma_handed_next<B: SessionBackend>(history: Seq<Step<B>>, k: int)
    requires
        is_history(history),
        0 <= k < history.len() - 1,
        awaiting(history.take(k + 1)) is Some,
    ensures
        history[k + 1] matches Step::Observed { host, .. } && host == awaiting(
            history.take(k + 1),
        ),
    decreases history.len(),
{
    let earlier = history.drop_last();
    if k == history.len() - 2 {
        assert(history.take(k + 1) =~= earlier);
    } else {
        assert(earlier.take(k + 1) =~= history.take(k + 1));
        lemma_handed_next(earlier, k);
        assert(earlier[k + 1] == history[k + 1]);
    }
}

/// Handing one backend of a service what to run, and noting it, leaves the
/// service as it must be.
proof fn lemma_handed<B: SessionBackend>(
    earlier: WorkspaceLifecycleService<B>,
    now: WorkspaceLifecycleService<B>,
    at: int,
    observer: B::DaemonFreshnessObserver,
)
    requires
        earlier.stands(),
        0 <= at < earlier.backends@.len(),
        awaiting(earlier.history()) is Some,
        awaiting(earlier.history()) == earlier@.hosts[at],
        now.backends@.len() == earlier.backends@.len(),
        now.backends@ == earlier.backends@.update(at, now.backends@[at]),
        now.backends@[at].host == earlier.backends@[at].host,
        now.registry == earlier.registry,
        now.discoveries == earlier.discoveries,
        now.retries == earlier.retries,
        now.status_errors == earlier.status_errors,
        now.announcer == earlier.announcer,
        cloned(earlier.announcer, observer),
        now.history@ == earlier.history@.push(
            Step::Observed {
                host: earlier@.hosts[at],
                observer,
                before: earlier.backends@[at].backend,
                after: now.backends@[at].backend,
            },
        ),
        call_ensures(
            calls::observe_daemon_freshness::<B>,
            (earlier.backends@[at].backend, observer),
            now.backends@[at].backend,
        ),
    ensures
        now.wf(),
        now@ == earlier@,
        earlier.backend_of(earlier@.hosts[at]) == Some(earlier.backends@[at].backend),
        now.backend_of(earlier@.hosts[at]) == Some(now.backends@[at].backend),
        forall|other: Option<Seq<char>>|
            other != earlier@.hosts[at] ==> #[trigger] now.backend_of(other)
                == earlier.backend_of(other),
{
    let host = earlier@.hosts[at];
    assert(now@.hosts =~= earlier@.hosts);
    assert forall|k: int| 0 <= k < at implies text::opt((#[trigger] earlier.backends@[k]).host)
        != host by {
        assert(earlier@.hosts[k] == text::opt(earlier.backends@[k].host));
    }
    assert(earlier@.hosts[at] == text::opt(earlier.backends@[at].host));
    lemma_first_backend(earlier.backends@, host, at);
    assert(now.history@.drop_last() =~= earlier.history@);
    assert(earlier.backend_of(host) == backend_in(kept(earlier.history()), host));
    assert forall|other: Option<Seq<char>>| #[trigger]
        now.backend_of(other) == (if other == host {
            Some(now.backends@[at].backend)
        } else {
            earlier.backend_of(other)
        }) by {
        lemma_installed(earlier.backends@, now.backends@, other, host, at);
    }
    assert forall|other: Option<Seq<char>>| #[trigger]
        first_backend(now.backends@, other) == backend_in(kept(now.history()), other) by {
        lemma_installed(earlier.backends@, now.backends@, other, host, at);
        assert(earlier.backend_of(other) == backend_in(kept(earlier.history()), other));
    }
}

/// How an attempt to make or open something went.
pub open spec fn attempt<B>(made: Result<B, String>) -> Result<(), Seq<char>> {
    match made {
        Ok(_) => Ok(()),
        Err(cause) => Err(cause@),
    }
}

/// The failure to get a backend for this machine where it has none.
pub open spec fn local_unsupported() -> FailureView {
    FailureView::Message("local ADE workspaces require Unix; use a Unix remote host"@)
}

/// Whether a host had a backend, or got one: what the service then says of it.
///
/// A host that has none is tried once, and the attempt is the next entry of the
/// later state's connections.
pub open spec fn reach(
    before: ServiceView,
    after: ServiceView,
    host: Option<Seq<char>>,
) -> Result<(), FailureView> {
    if before.hosts.contains(host) {
        Ok(())
    } else {
        match host {
            None => Err(local_unsupported()),
            Some(name) => match after.connects[before.connects.len() as int].1 {
                Ok(()) => Ok(()),
                Err(cause) => Err(
                    FailureView::Message(entry::in_context("reaching host "@ + name, cause)),
                ),
            },
        }
    }
}

/// The state after a host's backend was looked for.
pub open spec fn reaching(
    before: ServiceView,
    after: ServiceView,
    host: Option<Seq<char>>,
) -> ServiceView {
    if before.hosts.contains(host) || host is None {
        before
    } else {
        let attempt = after.connects[before.connects.len() as int].1;
        ServiceView {
            connects: before.connects.push((host->0, attempt)),
            hosts: if attempt is Ok {
                before.hosts.push(host)
            } else {
                before.hosts
            },
            ..before
        }
    }
}

/// The state after one question was put to a backend.
pub open spec fn asked(before: ServiceView, exchange: Exchange) -> ServiceView {
    ServiceView { log: before.log.push(exchange), ..before }
}

/// The question put next after `before`.
pub open spec fn question(before: ServiceView, after: ServiceView) -> Exchange {
    after.log[before.log.len() as int]
}

/// The notes with one host's replaced, or added behind the others.
pub open spec fn with_status_error(
    errors: Seq<(Seq<char>, Seq<char>)>,
    host: Seq<char>,
    message: Seq<char>,
) -> Seq<(Seq<char>, Seq<char>)>
    decreases errors.len(),
{
    if errors.len() == 0 {
        seq![(host, message)]
    } else if errors[0].0 == host {
        seq![(host, message)] + errors.drop_first()
    } else {
        seq![errors[0]] + with_status_error(errors.drop_first(), host, message)
    }
}

impl<B: SessionBackend> WorkspaceLifecycleService<B> {
    /// What always holds of the service: its table keeps its rules, no host has
    /// two backends, and the backends it keeps are those that its history leaves,
    /// each question of which was a call.
    pub closed spec fn wf(&self) -> bool {
        &&& self.stands()
        &&& awaiting(self.history()) is None
    }

    /// What holds of the service while a backend that just came is still to be
    /// handed what to run.
    spec fn stands(&self) -> bool {
        &&& self.registry.wf()
        &&& self@.hosts.no_duplicates()
        &&& is_history(self.history())
        &&& are_left_by(self.backends@, self.history())
        &&& are_told_by(self.history(), self.announcer())
    }

    /// What the backend of another host runs when its daemon falls behind or
    /// catches up.
    pub closed spec fn announcer(&self) -> B::DaemonFreshnessObserver {
        self.announcer
    }

    /// Everything that happened to the backends of this service, from its
    /// beginning.
    pub closed spec fn history(&self) -> Seq<Step<B>> {
        self.history@
    }

    /// Whether this is the service of an earlier time, gone on from there.
    pub open spec fn continues(&self, earlier: &Self) -> bool {
        &&& self.announcer() == earlier.announcer()
        &&& earlier.history().len() <= self.history().len()
        &&& forall|k: int|
            0 <= k < earlier.history().len() ==> #[trigger] self.history()[k]
                == earlier.history()[k]
    }

    /// Whether this is the service right after one question: of its host's
    /// backend, and of no other.
    pub open spec fn was_asked(&self, earlier: &Self, exchange: Exchange) -> bool {
        &&& earlier.backend_of(exchange.host()) is Some
        &&& self.backend_of(exchange.host()) is Some
        &&& self.history() == earlier.history().push(
            Step::Asked {
                exchange,
                before: earlier.backend_of(exchange.host())->0,
                after: self.backend_of(exchange.host())->0,
            },
        )
        &&& forall|other: Option<Seq<char>>|
            other != exchange.host() ==> #[trigger] self.backend_of(other) == earlier.backend_of(
                other,
            )
    }

    /// Whether this is the service right after a host's backend was looked for:
    /// one that is there is left alone, and for another host one is made, once,
    /// and, if that went well, handed what to run and kept.
    pub open spec fn has_reached(&self, earlier: &Self, host: Option<Seq<char>>) -> bool {
        let past = earlier.history().len() as int;
        if earlier@.hosts.contains(host) || host is None {
            self.history() == earlier.history()
        } else {
            &&& self.history().len() > past
            &&& self.history().take(past) == earlier.history()
            &&& self.history()[past] matches Step::Tried { host: name, made }
            &&& Some(name) == host
            &&& exists|asked: &str|
                asked@ == name && #[trigger] call_ensures(B::remote, (asked,), made)
            &&& match made {
                Ok(backend) => self.history().len() == past + 2 && self.was_handed(
                    self.history()[past + 1],
                    host,
                    backend,
                ),
                Err(_) => self.history().len() == past + 1,
            }
        }
    }

    /// Whether a step hands a host's backend what to run, and leaves the backend
    /// that this service keeps.
    pub open spec fn was_handed(
        &self,
        step: Step<B>,
        host: Option<Seq<char>>,
        backend: B,
    ) -> bool {
        &&& step matches Step::Observed { host: told, observer, before, after }
        &&& told == host
        &&& before == backend
        &&& self.backend_of(host) == Some(after)
        &&& cloned(self.announcer(), observer)
        &&& call_ensures(calls::observe_daemon_freshness::<B>, (before, observer), after)
    }

    /// What the service records is what happened: the questions of its record
    /// are the calls that were made on its backends, one for one and in order,
    /// each on the value that the last one left, and the backends it keeps are
    /// those that these calls leave.
    pub proof fn law_the_record_is_what_happened(&self)
        requires
            self.wf(),
        ensures
            is_history(self.history()),
            self@.log == asked_in(self.history()),
            self@.connects == tried_in(self.history()),
            forall|host: Option<Seq<char>>| #[trigger]
                self.backend_of(host) == backend_in(kept(self.history()), host),
    {
    }

    /// The backend this service keeps for a host.
    pub closed spec fn backend_of(&self, host: Option<Seq<char>>) -> Option<B> {
        first_backend(self.backends@, host)
    }

    /// No call is made beside the record: whatever was asked of any backend since
    /// an earlier time is among the questions the record has gained since.
    pub proof fn law_every_call_is_recorded(&self, earlier: &Self, k: int)
        requires
            self.continues(earlier),
            earlier.history().len() <= k < self.history().len(),
            self.history()[k] is Asked,
        ensures
            exists|n: int|
                earlier@.log.len() <= n < self@.log.len() && #[trigger] self@.log[n]
                    == self.history()[k]->exchange,
    {
        let (now, past) = (self.history(), earlier.history().len() as int);
        assert(now.take(past) =~= earlier.history());
        assert(now.take(k).take(past) =~= now.take(past));
        lemma_asked_grows(now.take(k), past);
        lemma_asked_at(now, k);
        let n = asked_in(now.take(k)).len() as int;
        assert(self@.log[n] == now[k]->exchange);
    }

    /// A backend that another host is given, or that is made for one, is handed
    /// the announcer before anything else touches it.
    pub proof fn law_a_new_backend_is_handed_the_announcer(&self, k: int)
        requires
            self.wf(),
            0 <= k < self.history().len(),
            match self.history()[k] {
                Step::Given { host, .. } => host is Some,
                Step::Tried { made, .. } => made is Ok,
                _ => false,
            },
        ensures
            k + 1 < self.history().len(),
            self.history()[k + 1] matches Step::Observed { host, observer, .. } && host == (
            match self.history()[k] {
                Step::Given { host, .. } => host,
                Step::Tried { host, .. } => Some(host),
                _ => None,
            }) && cloned(self.announcer(), observer),
    {
        let history = self.history();
        assert(history.take(k + 1).last() == history[k]);
        if k == history.len() - 1 {
            assert(history.take(k + 1) =~= history);
        } else {
            lemma_handed_next(history, k);
        }
    }

    /// The table keeps its rules.
    pub proof fn rows_keep_the_rules(&self)
        requires
            self.wf(),
        ensures
            crate::registry::is_table(self@.rows),
            self@.hosts.no_duplicates(),
    {
    }

    /// The service over a registry, with this machine's backend. The announcer is
    /// what the backends of other hosts run when a daemon falls behind or catches
    /// up.
    pub fn with_backend(
        registry: AdeWorkspaceRegistry,
        backend: B,
        announcer: B::DaemonFreshnessObserver,
    ) -> (service: Self)
        requires
            registry.wf(),
        ensures
            service.wf(),
            service.announcer() == announcer,
            service@ == (ServiceView {
                hosts: seq![None],
                connects: Seq::empty(),
                rows: registry@,
                discoveries: Map::empty(),
                retries: Set::empty(),
                status_errors: Seq::empty(),
                log: Seq::empty(),
            }),
            service.backend_of(None) == Some(backend),
            service.history() == seq![Step::Given { host: None, backend }],
    {
        let mut service = WorkspaceLifecycleService::without_backend(registry, announcer);
        let ghost empty = service.backends@;
        service.backends.push(HostBackend { host: None, backend });
        proof {
            service.history@ = service.history@.push(Step::Given { host: None, backend });
            assert(service@.hosts =~= seq![None]);
            assert(service.history@ =~= seq![Step::Given { host: None, backend }]);
            assert(service.history@.drop_last() =~= Seq::<Step<B>>::empty());
            assert forall|host: Option<Seq<char>>| #[trigger]
                first_backend(service.backends@, host) == backend_in(
                    kept(service.history()),
                    host,
                ) by {
                lemma_installed(empty, service.backends@, host, None, 0);
            }
        }
        service
    }

    /// The service over a registry, on a machine that has no backend of its own.
    pub fn without_backend(
        registry: AdeWorkspaceRegistry,
        announcer: B::DaemonFreshnessObserver,
    ) -> (service: Self)
        requires
            registry.wf(),
        ensures
            service.wf(),
            service.announcer() == announcer,
            service@ == (ServiceView {
                hosts: Seq::empty(),
                connects: Seq::empty(),
                rows: registry@,
                discoveries: Map::empty(),
                retries: Set::empty(),
                status_errors: Seq::empty(),
                log: Seq::empty(),
            }),
            service.history() == Seq::<Step<B>>::empty(),
    {
        let service = WorkspaceLifecycleService {
            backends: Vec::new(),
            registry,
            discoveries: Discoveries::new(),
            retries: ScopeRetries::new(),
            status_errors: Vec::new(),
            announcer,
            history: Ghost(Seq::empty()),
        };
        assert(service@.hosts =~= Seq::empty());
        assert(service@.status_errors =~= Seq::empty());
        service
    }

    /// Gives a host the backend to use for it, in the place of any it had, and
    /// hands it what to run.
    pub fn with_backend_for_host(self, host: &str, backend: B) -> (service: Self)
        requires
            self.wf(),
        ensures
            service.wf(),
            service.announcer() == self.announcer(),
            service@ == (ServiceView {
                hosts: if self@.hosts.contains(Some(host@)) {
                    self@.hosts
                } else {
                    self@.hosts.push(Some(host@))
                },
                ..self@
            }),
            service.history().len() == self.history().len() + 2,
            service.history().drop_last() == self.history().push(
                Step::Given { host: Some(host@), backend },
            ),
            service.was_handed(service.history().last(), Some(host@), backend),
            forall|other: Option<Seq<char>>|
                other != Some(host@) ==> #[trigger] service.backend_of(other) == self.backend_of(
                    other,
                ),
    {
        let mut service = self;
        let at = service.install(host, backend);
        service.hand_announcer(at);
        service
    }

    /// Hands the backend that just came what to run.
    fn hand_announcer(&mut self, at: usize)
        requires
            old(self).stands(),
            at < old(self)@.hosts.len(),
            awaiting(old(self).history()) is Some,
            awaiting(old(self).history()) == old(self)@.hosts[at as int],
        ensures
            final(self).wf(),
            final(self).announcer() == old(self).announcer(),
            final(self)@ == old(self)@,
            old(self).backend_of(old(self)@.hosts[at as int]) is Some,
            final(self).history().len() == old(self).history().len() + 1,
            final(self).history().drop_last() == old(self).history(),
            final(self).was_handed(
                final(self).history().last(),
                old(self)@.hosts[at as int],
                old(self).backend_of(old(self)@.hosts[at as int])->0,
            ),
            forall|other: Option<Seq<char>>|
                other != old(self)@.hosts[at as int] ==> #[trigger] final(self).backend_of(other)
                    == old(self).backend_of(other),
    {
        let observer = self.announcer.clone();
        let kept = self.backends.remove(at);
        let ghost before = kept.backend;
        let ghost given = observer;
        let backend = calls::observe_daemon_freshness(kept.backend, observer);
        let ghost after = backend;
        self.backends.insert(at, HostBackend { host: kept.host, backend });
        proof {
            let host = old(self)@.hosts[at as int];
            self.history@ = self.history@.push(
                Step::Observed { host, observer: given, before, after },
            );
            assert(self.backends@ =~= old(self).backends@.update(
                at as int,
                self.backends@[at as int],
            ));
            lemma_handed(*old(self), *self, at as int, given);
        }
    }

    fn install(&mut self, host: &str, backend: B) -> (at: usize)
        requires
            old(self).wf(),
        ensures
            final(self).stands(),
            final(self).announcer() == old(self).announcer(),
            at < final(self)@.hosts.len(),
            final(self)@.hosts[at as int] == Some(host@),
            final(self)@ == (ServiceView {
                hosts: if old(self)@.hosts.contains(Some(host@)) {
                    old(self)@.hosts
                } else {
                    old(self)@.hosts.push(Some(host@))
                },
                ..old(self)@
            }),
            forall|other: Option<Seq<char>>| #[trigger]
                final(self).backend_of(other) == (if other == Some(host@) {
                    Some(backend)
                } else {
                    old(self).backend_of(other)
                }),
            final(self).history() == old(self).history().push(
                Step::Given { host: Some(host@), backend },
            ),
    {
        let ghost before = self@.hosts;
        let at = self.find_host(Some(host));
        let ghost held = self.backends@;
        let entry = HostBackend { host: Some(host.to_owned()), backend };
        if at < self.backends.len() {
            self.backends[at] = entry;
            assert(self@.hosts =~= before);
        } else {
            self.backends.push(entry);
            assert(self@.hosts =~= before.push(Some(host@)));
        }
        proof {
            let now = self.backends@;
            assert forall|other: Option<Seq<char>>| #[trigger]
                first_backend(now, other) == (if other == Some(host@) {
                    Some(backend)
                } else {
                    first_backend(held, other)
                }) by {
                lemma_installed(held, now, other, Some(host@), at as int);
            }
            let step = Step::Given { host: Some(host@), backend };
            self.history@ = self.history@.push(step);
            assert(self.history@.drop_last() =~= old(self).history@);
            assert forall|other: Option<Seq<char>>| #[trigger]
                first_backend(self.backends@, other) == backend_in(kept(self.history()), other) by {
                assert(old(self).backend_of(other) == backend_in(
                    kept(old(self).history()),
                    other,
                ));
            }
        }
        at
    }

    fn find_host(&self, host: Option<&str>) -> (at: usize)
        ensures
            at <= self@.hosts.len(),
            self@.hosts.len() == self.backends.len(),
            at < self@.hosts.len() ==> self@.hosts[at as int] == host.deep_view(),
            at == self@.hosts.len() ==> !self@.hosts.contains(host.deep_view()),
            forall|k: int| 0 <= k < at ==> text::opt((#[trigger] self.backends@[k]).host)
                != host.deep_view(),
            self.backend_of(host.deep_view()) == (if at < self@.hosts.len() {
                Some(self.backends[at as int].backend)
            } else {
                None
            }),
    {
        let mut at: usize = 0;
        while at < self.backends.len() && !text::same_opt_text(
            text::borrowed(&self.backends[at].host),
            host,
        )
            invariant
                at <= self.backends.len(),
                forall|k: int| 0 <= k < at ==> self@.hosts[k] != host.deep_view(),
            decreases self.backends.len() - at,
        {
            assert(self@.hosts[at as int] == text::opt(self.backends[at as int].host));
            at = at + 1;
        }
        proof {
            assert forall|k: int| 0 <= k < at implies text::opt(
                (#[trigger] self.backends@[k]).host,
            ) != host.deep_view() by {
                assert(self@.hosts[k] == text::opt(self.backends[k].host));
            }
            lemma_first_backend(self.backends@, host.deep_view(), at as int);
        }
        at
    }

    /// The backend for one host, created on first use and kept.
    pub(crate) fn backend_for_host(&mut self, host: Option<&str>) -> (at: Result<usize, Failure>)
        requires
            old(self).wf(),
        ensures
            final(self).wf(),
            final(self).continues(old(self)),
            final(self)@ == reaching(old(self)@, final(self)@, host.deep_view()),
            match reach(old(self)@, final(self)@, host.deep_view()) {
                Ok(()) => at matches Ok(at) && at < final(self)@.hosts.len()
                    && final(self)@.hosts[at as int] == host.deep_view(),
                Err(failure) => at matches Err(e) && e@ == failure,
            },
            final(self).has_reached(old(self), host.deep_view()),
    {
        let found = self.find_host(host);
        if found < self.backends.len() {
            assert(self@.hosts.contains(host.deep_view()));
            return Ok(found);
        }
        match host {
            None => Err(
                Failure::saying("local ADE workspaces require Unix; use a Unix remote host"),
            ),
            Some(name) => {
                let made = B::remote(name);
                let ghost step = Step::Tried { host: name@, made };
                proof {
                    self.history@ = self.history@.push(step);
                    assert(self.history@.drop_last() =~= old(self).history@);
                    assert(old(self).backend_of(host.deep_view()) == backend_in(
                        kept(old(self).history()),
                        host.deep_view(),
                    ));
                }
                match made {
                    Ok(backend) => {
                        let ghost held = self.backends@;
                        self.backends.push(HostBackend { host: Some(name.to_owned()), backend });
                        proof {
                            assert(self@.hosts =~= old(self)@.hosts.push(Some(name@)));
                            assert forall|other: Option<Seq<char>>| #[trigger]
                                first_backend(self.backends@, other) == backend_in(
                                    kept(self.history()),
                                    other,
                                ) by {
                                lemma_installed(
                                    held,
                                    self.backends@,
                                    other,
                                    Some(name@),
                                    found as int,
                                );
                                assert(old(self).backend_of(other) == backend_in(
                                    kept(old(self).history()),
                                    other,
                                ));
                            }
                        }
                        self.hand_announcer(found);
                        proof {
                            let past = old(self).history().len() as int;
                            assert(self.history().take(past) =~= old(self).history());
                            assert(self.history()[past] == self.history().drop_last()[past]);
                        }
                        Ok(found)
                    },
                    Err(cause) => {
                        proof {
                            assert forall|other: Option<Seq<char>>| #[trigger]
                                first_backend(self.backends@, other) == backend_in(
                                    kept(self.history()),
                                    other,
                                ) by {
                                assert(old(self).backend_of(other) == backend_in(
                                    kept(old(self).history()),
                                    other,
                                ));
                            }
                        }
                        Err(Failure::while_doing("reaching host ", name, cause.as_str()))
                    },
                }
            },
        }
    }

    /// Asks a backend to create a session.
    pub(crate) fn ask_create(
        &mut self,
        at: usize,
        spec: &SessionSpec,
        expected: Option<&str>,
    ) -> (reply: Result<(SessionId, Option<String>), String>)
        requires
            old(self).wf(),
            at < old(self)@.hosts.len(),
        ensures
            final(self).wf(),
            final(self).continues(old(self)),
            final(self).was_asked(
                old(self),
                Exchange::Create {
                    host: old(self)@.hosts[at as int],
                    spec: spec@,
                    expected: expected.deep_view(),
                    reply: told(reply),
                },
            ),
            final(self)@ == asked(
                old(self)@,
                Exchange::Create {
                    host: old(self)@.hosts[at as int],
                    spec: spec@,
                    expected: expected.deep_view(),
                    reply: told(reply),
                },
            ),
            exists|put: &mut B|
                {
                    &&& old(self).backend_of(old(self)@.hosts[at as int]) == Some(*put)
                    &&& final(self).backend_of(old(self)@.hosts[at as int]) == Some(*final(put))
                    &&& #[trigger] call_ensures(B::create_identified, (put, spec, expected), reply)
                },
    {
        let kept = self.backends.remove(at);
        let ghost before = kept.backend;
        let (backend, reply) = calls::create_identified(kept.backend, spec, expected);
        self.backends.insert(at, HostBackend { host: kept.host, backend });
        proof {
            let exchange = Exchange::Create {
                host: old(self)@.hosts[at as int],
                spec: spec@,
                expected: expected.deep_view(),
                reply: told(reply),
            };
            let after = self.backends@[at as int].backend;
            self.history@ = self.history@.push(Step::Asked { exchange, before, after });
            assert(self.backends@ =~= old(self).backends@.update(
                at as int,
                self.backends@[at as int],
            ));
            lemma_noted(*old(self), *self, at as int, exchange);
        }
        reply
    }

    /// Asks a backend for one more session in a workspace.
    pub(crate) fn ask_create_in_workspace(
        &mut self,
        at: usize,
        workspace_id: &str,
        cwd: &str,
        expected: Option<&str>,
    ) -> (reply: Result<(String, Option<String>), String>)
        requires
            old(self).wf(),
            at < old(self)@.hosts.len(),
        ensures
            final(self).wf(),
            final(self).continues(old(self)),
            final(self).was_asked(
                old(self),
                Exchange::CreateInWorkspace {
                    host: old(self)@.hosts[at as int],
                    workspace_id: workspace_id@,
                    cwd: cwd@,
                    expected: expected.deep_view(),
                    reply: told(reply),
                },
            ),
            final(self)@ == asked(
                old(self)@,
                Exchange::CreateInWorkspace {
                    host: old(self)@.hosts[at as int],
                    workspace_id: workspace_id@,
                    cwd: cwd@,
                    expected: expected.deep_view(),
                    reply: told(reply),
                },
            ),
            exists|put: &mut B|
                {
                    &&& old(self).backend_of(old(self)@.hosts[at as int]) == Some(*put)
                    &&& final(self).backend_of(old(self)@.hosts[at as int]) == Some(*final(put))
                    &&& #[trigger] call_ensures(
                        B::create_session_in_workspace_identified,
                        (put, workspace_id, cwd, expected),
                        reply,
                    )
                },
    {
        let kept = self.backends.remove(at);
        let ghost before = kept.backend;
        let (backend, reply) = calls::create_session_in_workspace_identified(
            kept.backend,
            workspace_id,
            cwd,
            expected,
        );
        self.backends.insert(at, HostBackend { host: kept.host, backend });
        proof {
            let exchange = Exchange::CreateInWorkspace {
                host: old(self)@.hosts[at as int],
                workspace_id: workspace_id@,
                cwd: cwd@,
                expected: expected.deep_view(),
                reply: told(reply),
            };
            let after = self.backends@[at as int].backend;
            self.history@ = self.history@.push(Step::Asked { exchange, before, after });
            assert(self.backends@ =~= old(self).backends@.update(
                at as int,
                self.backends@[at as int],
            ));
            lemma_noted(*old(self), *self, at as int, exchange);
        }
        reply
    }

    /// Asks a backend for its live sessions.
    pub(crate) fn ask_sessions(
        &mut self,
        at: usize,
    ) -> (reply: Result<Identified<SessionInfo>, String>)
        requires
            old(self).wf(),
            at < old(self)@.hosts.len(),
        ensures
            final(self).wf(),
            final(self).continues(old(self)),
            final(self).was_asked(
                old(self),
                Exchange::ListSessions { host: old(self)@.hosts[at as int], reply: told(reply) },
            ),
            final(self)@ == asked(
                old(self)@,
                Exchange::ListSessions { host: old(self)@.hosts[at as int], reply: told(reply) },
            ),
            exists|put: &mut B|
                {
                    &&& old(self).backend_of(old(self)@.hosts[at as int]) == Some(*put)
                    &&& final(self).backend_of(old(self)@.hosts[at as int]) == Some(*final(put))
                    &&& #[trigger] call_ensures(B::list_identified, (put,), reply)
                },
    {
        let kept = self.backends.remove(at);
        let ghost before = kept.backend;
        let (backend, reply) = calls::list_identified(kept.backend);
        self.backends.insert(at, HostBackend { host: kept.host, backend });
        proof {
            let exchange = Exchange::ListSessions {
                host: old(self)@.hosts[at as int],
                reply: told(reply),
            };
            let after = self.backends@[at as int].backend;
            self.history@ = self.history@.push(Step::Asked { exchange, before, after });
            assert(self.backends@ =~= old(self).backends@.update(
                at as int,
                self.backends@[at as int],
            ));
            lemma_noted(*old(self), *self, at as int, exchange);
        }
        reply
    }

    /// Asks a backend for the workspaces it holds.
    pub(crate) fn ask_workspaces(
        &mut self,
        at: usize,
    ) -> (reply: Result<Identified<BackendWorkspace>, String>)
        requires
            old(self).wf(),
            at < old(self)@.hosts.len(),
        ensures
            final(self).wf(),
            final(self).continues(old(self)),
            final(self).was_asked(
                old(self),
                Exchange::ListWorkspaces { host: old(self)@.hosts[at as int], reply: told(reply) },
            ),
            final(self)@ == asked(
                old(self)@,
                Exchange::ListWorkspaces { host: old(self)@.hosts[at as int], reply: told(reply) },
            ),
            exists|put: &mut B|
                {
                    &&& old(self).backend_of(old(self)@.hosts[at as int]) == Some(*put)
                    &&& final(self).backend_of(old(self)@.hosts[at as int]) == Some(*final(put))
                    &&& #[trigger] call_ensures(B::list_workspaces_identified, (put,), reply)
                },
    {
        let kept = self.backends.remove(at);
        let ghost before = kept.backend;
        let (backend, reply) = calls::list_workspaces_identified(kept.backend);
        self.backends.insert(at, HostBackend { host: kept.host, backend });
        proof {
            let exchange = Exchange::ListWorkspaces {
                host: old(self)@.hosts[at as int],
                reply: told(reply),
            };
            let after = self.backends@[at as int].backend;
            self.history@ = self.history@.push(Step::Asked { exchange, before, after });
            assert(self.backends@ =~= old(self).backends@.update(
                at as int,
                self.backends@[at as int],
            ));
            lemma_noted(*old(self), *self, at as int, exchange);
        }
        reply
    }

    /// Asks a backend which repository a path is in.
    pub(crate) fn ask_repository(
        &mut self,
        at: usize,
        path: &str,
    ) -> (reply: Result<(String, String), String>)
        requires
            old(self).wf(),
            at < old(self)@.hosts.len(),
        ensures
            final(self).wf(),
            final(self).continues(old(self)),
            final(self).was_asked(
                old(self),
                Exchange::Resolve {
                    host: old(self)@.hosts[at as int],
                    path: path@,
                    reply: told(reply),
                },
            ),
            final(self)@ == asked(
                old(self)@,
                Exchange::Resolve {
                    host: old(self)@.hosts[at as int],
                    path: path@,
                    reply: told(reply),
                },
            ),
            exists|put: &mut B|
                {
                    &&& old(self).backend_of(old(self)@.hosts[at as int]) == Some(*put)
                    &&& final(self).backend_of(old(self)@.hosts[at as int]) == Some(*final(put))
                    &&& #[trigger] call_ensures(B::resolve_repository, (put, path), reply)
                },
    {
        let kept = self.backends.remove(at);
        let ghost before = kept.backend;
        let (backend, reply) = calls::resolve_repository(kept.backend, path);
        self.backends.insert(at, HostBackend { host: kept.host, backend });
        proof {
            let exchange = Exchange::Resolve {
                host: old(self)@.hosts[at as int],
                path: path@,
                reply: told(reply),
            };
            let after = self.backends@[at as int].backend;
            self.history@ = self.history@.push(Step::Asked { exchange, before, after });
            assert(self.backends@ =~= old(self).backends@.update(
                at as int,
                self.backends@[at as int],
            ));
            lemma_noted(*old(self), *self, at as int, exchange);
        }
        reply
    }

    /// Asks a backend to keep a workspace's project.
    pub(crate) fn ask_scope(
        &mut self,
        at: usize,
        workspace_id: &str,
        project_id: &str,
        project_identity: &str,
        project_root: Option<&str>,
        minimum: Option<u64>,
        expected: Option<&str>,
    ) -> (reply: Result<Option<u64>, String>)
        requires
            old(self).wf(),
            at < old(self)@.hosts.len(),
        ensures
            final(self).wf(),
            final(self).continues(old(self)),
            final(self).was_asked(
                old(self),
                Exchange::UpdateScope {
                    host: old(self)@.hosts[at as int],
                    workspace_id: workspace_id@,
                    project_id: project_id@,
                    project_identity: project_identity@,
                    project_root: project_root.deep_view(),
                    minimum,
                    expected: expected.deep_view(),
                    reply: told(reply),
                },
            ),
            final(self)@ == asked(
                old(self)@,
                Exchange::UpdateScope {
                    host: old(self)@.hosts[at as int],
                    workspace_id: workspace_id@,
                    project_id: project_id@,
                    project_identity: project_identity@,
                    project_root: project_root.deep_view(),
                    minimum,
                    expected: expected.deep_view(),
                    reply: told(reply),
                },
            ),
            exists|put: &mut B|
                {
                    &&& old(self).backend_of(old(self)@.hosts[at as int]) == Some(*put)
                    &&& final(self).backend_of(old(self)@.hosts[at as int]) == Some(*final(put))
                    &&& #[trigger] call_ensures(
                        B::update_workspace_project_scope,
                        (
                            put,
                            workspace_id,
                            project_id,
                            project_identity,
                            project_root,
                            minimum,
                            expected,
                        ),
                        reply,
                    )
                },
    {
        let kept = self.backends.remove(at);
        let ghost before = kept.backend;
        let (backend, reply) = calls::update_workspace_project_scope(
            kept.backend,
            workspace_id,
            project_id,
            project_identity,
            project_root,
            minimum,
            expected,
        );
        self.backends.insert(at, HostBackend { host: kept.host, backend });
        proof {
            let exchange = Exchange::UpdateScope {
                host: old(self)@.hosts[at as int],
                workspace_id: workspace_id@,
                project_id: project_id@,
                project_identity: project_identity@,
                project_root: project_root.deep_view(),
                minimum,
                expected: expected.deep_view(),
                reply: told(reply),
            };
            let after = self.backends@[at as int].backend;
            self.history@ = self.history@.push(Step::Asked { exchange, before, after });
            assert(self.backends@ =~= old(self).backends@.update(
                at as int,
                self.backends@[at as int],
            ));
            lemma_noted(*old(self), *self, at as int, exchange);
        }
        reply
    }

    /// Asks a backend whether a session is alive.
    pub(crate) fn ask_exists(
        &mut self,
        at: usize,
        session: &SessionId,
        expected: Option<&str>,
    ) -> (reply: Result<bool, String>)
        requires
            old(self).wf(),
            at < old(self)@.hosts.len(),
        ensures
            final(self).wf(),
            final(self).continues(old(self)),
            final(self).was_asked(
                old(self),
                Exchange::Exists {
                    host: old(self)@.hosts[at as int],
                    session: session@,
                    expected: expected.deep_view(),
                    reply: told(reply),
                },
            ),
            final(self)@ == asked(
                old(self)@,
                Exchange::Exists {
                    host: old(self)@.hosts[at as int],
                    session: session@,
                    expected: expected.deep_view(),
                    reply: told(reply),
                },
            ),
            exists|put: &mut B|
                {
                    &&& old(self).backend_of(old(self)@.hosts[at as int]) == Some(*put)
                    &&& final(self).backend_of(old(self)@.hosts[at as int]) == Some(*final(put))
                    &&& #[trigger] call_ensures(B::session_exists, (put, session, expected), reply)
                },
    {
        let kept = self.backends.remove(at);
        let ghost before = kept.backend;
        let (backend, reply) = calls::session_exists(kept.backend, session, expected);
        self.backends.insert(at, HostBackend { host: kept.host, backend });
        proof {
            let exchange = Exchange::Exists {
                host: old(self)@.hosts[at as int],
                session: session@,
                expected: expected.deep_view(),
                reply: told(reply),
            };
            let after = self.backends@[at as int].backend;
            self.history@ = self.history@.push(Step::Asked { exchange, before, after });
            assert(self.backends@ =~= old(self).backends@.update(
                at as int,
                self.backends@[at as int],
            ));
            lemma_noted(*old(self), *self, at as int, exchange);
        }
        reply
    }

    /// Asks a backend for the way onto a session it may create.
    pub(crate) fn ask_attach(
        &mut self,
        at: usize,
        spec: &SessionSpec,
        expected: Option<&str>,
    ) -> (reply: Result<Attached, String>)
        requires
            old(self).wf(),
            at < old(self)@.hosts.len(),
        ensures
            final(self).wf(),
            final(self).continues(old(self)),
            final(self).was_asked(
                old(self),
                Exchange::Attach {
                    host: old(self)@.hosts[at as int],
                    spec: spec@,
                    expected: expected.deep_view(),
                    reply: told(reply),
                },
            ),
            final(self)@ == asked(
                old(self)@,
                Exchange::Attach {
                    host: old(self)@.hosts[at as int],
                    spec: spec@,
                    expected: expected.deep_view(),
                    reply: told(reply),
                },
            ),
            exists|put: &mut B|
                {
                    &&& old(self).backend_of(old(self)@.hosts[at as int]) == Some(*put)
                    &&& final(self).backend_of(old(self)@.hosts[at as int]) == Some(*final(put))
                    &&& #[trigger] call_ensures(B::attach, (put, spec, expected), reply)
                },
    {
        let kept = self.backends.remove(at);
        let ghost before = kept.backend;
        let (backend, reply) = calls::attach(kept.backend, spec, expected);
        self.backends.insert(at, HostBackend { host: kept.host, backend });
        proof {
            let exchange = Exchange::Attach {
                host: old(self)@.hosts[at as int],
                spec: spec@,
                expected: expected.deep_view(),
                reply: told(reply),
            };
            let after = self.backends@[at as int].backend;
            self.history@ = self.history@.push(Step::Asked { exchange, before, after });
            assert(self.backends@ =~= old(self).backends@.update(
                at as int,
                self.backends@[at as int],
            ));
            lemma_noted(*old(self), *self, at as int, exchange);
        }
        reply
    }

    /// Asks a backend for the way onto a session it has.
    pub(crate) fn ask_attach_session(
        &mut self,
        at: usize,
        session: &str,
        expected: Option<&str>,
    ) -> (reply: Result<Vec<String>, String>)
        requires
            old(self).wf(),
            at < old(self)@.hosts.len(),
        ensures
            final(self).wf(),
            final(self).continues(old(self)),
            final(self).was_asked(
                old(self),
                Exchange::AttachSession {
                    host: old(self)@.hosts[at as int],
                    session: session@,
                    expected: expected.deep_view(),
                    reply: told(reply),
                },
            ),
            final(self)@ == asked(
                old(self)@,
                Exchange::AttachSession {
                    host: old(self)@.hosts[at as int],
                    session: session@,
                    expected: expected.deep_view(),
                    reply: told(reply),
                },
            ),
            exists|put: &mut B|
                {
                    &&& old(self).backend_of(old(self)@.hosts[at as int]) == Some(*put)
                    &&& final(self).backend_of(old(self)@.hosts[at as int]) == Some(*final(put))
                    &&& #[trigger] call_ensures(B::attach_session, (put, session, expected), reply)
                },
    {
        let kept = self.backends.remove(at);
        let ghost before = kept.backend;
        let (backend, reply) = calls::attach_session(kept.backend, session, expected);
        self.backends.insert(at, HostBackend { host: kept.host, backend });
        proof {
            let exchange = Exchange::AttachSession {
                host: old(self)@.hosts[at as int],
                session: session@,
                expected: expected.deep_view(),
                reply: told(reply),
            };
            let after = self.backends@[at as int].backend;
            self.history@ = self.history@.push(Step::Asked { exchange, before, after });
            assert(self.backends@ =~= old(self).backends@.update(
                at as int,
                self.backends@[at as int],
            ));
            lemma_noted(*old(self), *self, at as int, exchange);
        }
        reply
    }

    /// Asks a backend to drop a session's clients.
    pub(crate) fn ask_detach(
        &mut self,
        at: usize,
        session: &SessionId,
    ) -> (reply: Result<(), String>)
        requires
            old(self).wf(),
            at < old(self)@.hosts.len(),
        ensures
            final(self).wf(),
            final(self).continues(old(self)),
            final(self).was_asked(
                old(self),
                Exchange::Detach {
                    host: old(self)@.hosts[at as int],
                    session: session@,
                    reply: told(reply),
                },
            ),
            final(self)@ == asked(
                old(self)@,
                Exchange::Detach {
                    host: old(self)@.hosts[at as int],
                    session: session@,
                    reply: told(reply),
                },
            ),
            exists|put: &mut B|
                {
                    &&& old(self).backend_of(old(self)@.hosts[at as int]) == Some(*put)
                    &&& final(self).backend_of(old(self)@.hosts[at as int]) == Some(*final(put))
                    &&& #[trigger] call_ensures(B::detach, (put, session), reply)
                },
    {
        let kept = self.backends.remove(at);
        let ghost before = kept.backend;
        let (backend, reply) = calls::detach(kept.backend, session);
        self.backends.insert(at, HostBackend { host: kept.host, backend });
        proof {
            let exchange = Exchange::Detach {
                host: old(self)@.hosts[at as int],
                session: session@,
                reply: told(reply),
            };
            let after = self.backends@[at as int].backend;
            self.history@ = self.history@.push(Step::Asked { exchange, before, after });
            assert(self.backends@ =~= old(self).backends@.update(
                at as int,
                self.backends@[at as int],
            ));
            lemma_noted(*old(self), *self, at as int, exchange);
        }
        reply
    }

    /// Asks a backend to kill a workspace's sessions.
    pub(crate) fn ask_kill(
        &mut self,
        at: usize,
        session: &SessionId,
        expected: Option<&str>,
    ) -> (reply: Result<(), String>)
        requires
            old(self).wf(),
            at < old(self)@.hosts.len(),
        ensures
            final(self).wf(),
            final(self).continues(old(self)),
            final(self).was_asked(
                old(self),
                Exchange::Kill {
                    host: old(self)@.hosts[at as int],
                    session: session@,
                    expected: expected.deep_view(),
                    reply: told(reply),
                },
            ),
            final(self)@ == asked(
                old(self)@,
                Exchange::Kill {
                    host: old(self)@.hosts[at as int],
                    session: session@,
                    expected: expected.deep_view(),
                    reply: told(reply),
                },
            ),
            exists|put: &mut B|
                {
                    &&& old(self).backend_of(old(self)@.hosts[at as int]) == Some(*put)
                    &&& final(self).backend_of(old(self)@.hosts[at as int]) == Some(*final(put))
                    &&& #[trigger] call_ensures(B::kill, (put, session, expected), reply)
                },
    {
        let kept = self.backends.remove(at);
        let ghost before = kept.backend;
        let (backend, reply) = calls::kill(kept.backend, session, expected);
        self.backends.insert(at, HostBackend { host: kept.host, backend });
        proof {
            let exchange = Exchange::Kill {
                host: old(self)@.hosts[at as int],
                session: session@,
                expected: expected.deep_view(),
                reply: told(reply),
            };
            let after = self.backends@[at as int].backend;
            self.history@ = self.history@.push(Step::Asked { exchange, before, after });
            assert(self.backends@ =~= old(self).backends@.update(
                at as int,
                self.backends@[at as int],
            ));
            lemma_noted(*old(self), *self, at as int, exchange);
        }
        reply
    }

    /// Asks a backend to kill a workspace's sessions before they are recreated.
    pub(crate) fn ask_reset(
        &mut self,
        at: usize,
        session: &SessionId,
        directory: &str,
        expected: Option<&str>,
    ) -> (reply: Result<(), String>)
        requires
            old(self).wf(),
            at < old(self)@.hosts.len(),
        ensures
            final(self).wf(),
            final(self).continues(old(self)),
            final(self).was_asked(
                old(self),
                Exchange::Reset {
                    host: old(self)@.hosts[at as int],
                    session: session@,
                    directory: directory@,
                    expected: expected.deep_view(),
                    reply: told(reply),
                },
            ),
            final(self)@ == asked(
                old(self)@,
                Exchange::Reset {
                    host: old(self)@.hosts[at as int],
                    session: session@,
                    directory: directory@,
                    expected: expected.deep_view(),
                    reply: told(reply),
                },
            ),
            exists|put: &mut B|
                {
                    &&& old(self).backend_of(old(self)@.hosts[at as int]) == Some(*put)
                    &&& final(self).backend_of(old(self)@.hosts[at as int]) == Some(*final(put))
                    &&& #[trigger] call_ensures(
                        B::reset_workspace_sessions,
                        (put, session, directory, expected),
                        reply,
                    )
                },
    {
        let kept = self.backends.remove(at);
        let ghost before = kept.backend;
        let (backend, reply) = calls::reset_workspace_sessions(
            kept.backend,
            session,
            directory,
            expected,
        );
        self.backends.insert(at, HostBackend { host: kept.host, backend });
        proof {
            let exchange = Exchange::Reset {
                host: old(self)@.hosts[at as int],
                session: session@,
                directory: directory@,
                expected: expected.deep_view(),
                reply: told(reply),
            };
            let after = self.backends@[at as int].backend;
            self.history@ = self.history@.push(Step::Asked { exchange, before, after });
            assert(self.backends@ =~= old(self).backends@.update(
                at as int,
                self.backends@[at as int],
            ));
            lemma_noted(*old(self), *self, at as int, exchange);
        }
        reply
    }

    /// Asks a backend to kill one session.
    pub(crate) fn ask_kill_session(
        &mut self,
        at: usize,
        session: &str,
        expected: Option<&str>,
    ) -> (reply: Result<(), String>)
        requires
            old(self).wf(),
            at < old(self)@.hosts.len(),
        ensures
            final(self).wf(),
            final(self).continues(old(self)),
            final(self).was_asked(
                old(self),
                Exchange::KillSession {
                    host: old(self)@.hosts[at as int],
                    session: session@,
                    expected: expected.deep_view(),
                    reply: told(reply),
                },
            ),
            final(self)@ == asked(
                old(self)@,
                Exchange::KillSession {
                    host: old(self)@.hosts[at as int],
                    session: session@,
                    expected: expected.deep_view(),
                    reply: told(reply),
                },
            ),
            exists|put: &mut B|
                {
                    &&& old(self).backend_of(old(self)@.hosts[at as int]) == Some(*put)
                    &&& final(self).backend_of(old(self)@.hosts[at as int]) == Some(*final(put))
                    &&& #[trigger] call_ensures(B::kill_session, (put, session, expected), reply)
                },
    {
        let kept = self.backends.remove(at);
        let ghost before = kept.backend;
        let (backend, reply) = calls::kill_session(kept.backend, session, expected);
        self.backends.insert(at, HostBackend { host: kept.host, backend });
        proof {
            let exchange = Exchange::KillSession {
                host: old(self)@.hosts[at as int],
                session: session@,
                expected: expected.deep_view(),
                reply: told(reply),
            };
            let after = self.backends@[at as int].backend;
            self.history@ = self.history@.push(Step::Asked { exchange, before, after });
            assert(self.backends@ =~= old(self).backends@.update(
                at as int,
                self.backends@[at as int],
            ));
            lemma_noted(*old(self), *self, at as int, exchange);
        }
        reply
    }

    /// Asks a backend to kill a workspace and its record.
    pub(crate) fn ask_kill_workspace(
        &mut self,
        at: usize,
        workspace_id: &str,
        expected: Option<&str>,
    ) -> (reply: Result<(), String>)
        requires
            old(self).wf(),
            at < old(self)@.hosts.len(),
        ensures
            final(self).wf(),
            final(self).continues(old(self)),
            final(self).was_asked(
                old(self),
                Exchange::KillWorkspace {
                    host: old(self)@.hosts[at as int],
                    workspace_id: workspace_id@,
                    expected: expected.deep_view(),
                    reply: told(reply),
                },
            ),
            final(self)@ == asked(
                old(self)@,
                Exchange::KillWorkspace {
                    host: old(self)@.hosts[at as int],
                    workspace_id: workspace_id@,
                    expected: expected.deep_view(),
                    reply: told(reply),
                },
            ),
            exists|put: &mut B|
                {
                    &&& old(self).backend_of(old(self)@.hosts[at as int]) == Some(*put)
                    &&& final(self).backend_of(old(self)@.hosts[at as int]) == Some(*final(put))
                    &&& #[trigger] call_ensures(
                        B::kill_workspace,
                        (put, workspace_id, expected),
                        reply,
                    )
                },
    {
        let kept = self.backends.remove(at);
        let ghost before = kept.backend;
        let (backend, reply) = calls::kill_workspace(kept.backend, workspace_id, expected);
        self.backends.insert(at, HostBackend { host: kept.host, backend });
        proof {
            let exchange = Exchange::KillWorkspace {
                host: old(self)@.hosts[at as int],
                workspace_id: workspace_id@,
                expected: expected.deep_view(),
                reply: told(reply),
            };
            let after = self.backends@[at as int].backend;
            self.history@ = self.history@.push(Step::Asked { exchange, before, after });
            assert(self.backends@ =~= old(self).backends@.update(
                at as int,
                self.backends@[at as int],
            ));
            lemma_noted(*old(self), *self, at as int, exchange);
        }
        reply
    }

    /// Asks a backend to rename a workspace.
    pub(crate) fn ask_rename(
        &mut self,
        at: usize,
        workspace_id: &str,
        name: &str,
        expected: Option<&str>,
    ) -> (reply: Result<(), String>)
        requires
            old(self).wf(),
            at < old(self)@.hosts.len(),
        ensures
            final(self).wf(),
            final(self).continues(old(self)),
            final(self).was_asked(
                old(self),
                Exchange::Rename {
                    host: old(self)@.hosts[at as int],
                    workspace_id: workspace_id@,
                    name: name@,
                    expected: expected.deep_view(),
                    reply: told(reply),
                },
            ),
            final(self)@ == asked(
                old(self)@,
                Exchange::Rename {
                    host: old(self)@.hosts[at as int],
                    workspace_id: workspace_id@,
                    name: name@,
                    expected: expected.deep_view(),
                    reply: told(reply),
                },
            ),
            exists|put: &mut B|
                {
                    &&& old(self).backend_of(old(self)@.hosts[at as int]) == Some(*put)
                    &&& final(self).backend_of(old(self)@.hosts[at as int]) == Some(*final(put))
                    &&& #[trigger] call_ensures(
                        B::rename_workspace,
                        (put, workspace_id, name, expected),
                        reply,
                    )
                },
    {
        let kept = self.backends.remove(at);
        let ghost before = kept.backend;
        let (backend, reply) = calls::rename_workspace(kept.backend, workspace_id, name, expected);
        self.backends.insert(at, HostBackend { host: kept.host, backend });
        proof {
            let exchange = Exchange::Rename {
                host: old(self)@.hosts[at as int],
                workspace_id: workspace_id@,
                name: name@,
                expected: expected.deep_view(),
                reply: told(reply),
            };
            let after = self.backends@[at as int].backend;
            self.history@ = self.history@.push(Step::Asked { exchange, before, after });
            assert(self.backends@ =~= old(self).backends@.update(
                at as int,
                self.backends@[at as int],
            ));
            lemma_noted(*old(self), *self, at as int, exchange);
        }
        reply
    }

    /// Asks a backend to resize a session.
    pub(crate) fn ask_resize(
        &mut self,
        at: usize,
        session: &str,
        cols: u16,
        rows: u16,
        expected: Option<&str>,
    ) -> (reply: Result<(), String>)
        requires
            old(self).wf(),
            at < old(self)@.hosts.len(),
        ensures
            final(self).wf(),
            final(self).continues(old(self)),
            final(self).was_asked(
                old(self),
                Exchange::Resize {
                    host: old(self)@.hosts[at as int],
                    session: session@,
                    cols,
                    rows,
                    expected: expected.deep_view(),
                    reply: told(reply),
                },
            ),
            final(self)@ == asked(
                old(self)@,
                Exchange::Resize {
                    host: old(self)@.hosts[at as int],
                    session: session@,
                    cols,
                    rows,
                    expected: expected.deep_view(),
                    reply: told(reply),
                },
            ),
            exists|put: &mut B|
                {
                    &&& old(self).backend_of(old(self)@.hosts[at as int]) == Some(*put)
                    &&& final(self).backend_of(old(self)@.hosts[at as int]) == Some(*final(put))
                    &&& #[trigger] call_ensures(
                        B::resize_session,
                        (put, session, cols, rows, expected),
                        reply,
                    )
                },
    {
        let kept = self.backends.remove(at);
        let ghost before = kept.backend;
        let (backend, reply) = calls::resize_session(kept.backend, session, cols, rows, expected);
        self.backends.insert(at, HostBackend { host: kept.host, backend });
        proof {
            let exchange = Exchange::Resize {
                host: old(self)@.hosts[at as int],
                session: session@,
                cols,
                rows,
                expected: expected.deep_view(),
                reply: told(reply),
            };
            let after = self.backends@[at as int].backend;
            self.history@ = self.history@.push(Step::Asked { exchange, before, after });
            assert(self.backends@ =~= old(self).backends@.update(
                at as int,
                self.backends@[at as int],
            ));
            lemma_noted(*old(self), *self, at as int, exchange);
        }
        reply
    }

    /// Asks a backend for a workspace's layout.
    pub(crate) fn ask_layout(
        &mut self,
        at: usize,
        workspace_id: &str,
        expected: Option<&str>,
    ) -> (reply: Result<(WorkspaceLayout, Option<String>), String>)
        requires
            old(self).wf(),
            at < old(self)@.hosts.len(),
        ensures
            final(self).wf(),
            final(self).continues(old(self)),
            final(self).was_asked(
                old(self),
                Exchange::OpenLayout {
                    host: old(self)@.hosts[at as int],
                    workspace_id: workspace_id@,
                    expected: expected.deep_view(),
                    reply: told(reply),
                },
            ),
            final(self)@ == asked(
                old(self)@,
                Exchange::OpenLayout {
                    host: old(self)@.hosts[at as int],
                    workspace_id: workspace_id@,
                    expected: expected.deep_view(),
                    reply: told(reply),
                },
            ),
            exists|put: &mut B|
                {
                    &&& old(self).backend_of(old(self)@.hosts[at as int]) == Some(*put)
                    &&& final(self).backend_of(old(self)@.hosts[at as int]) == Some(*final(put))
                    &&& #[trigger] call_ensures(
                        B::open_workspace_identified,
                        (put, workspace_id, expected),
                        reply,
                    )
                },
    {
        let kept = self.backends.remove(at);
        let ghost before = kept.backend;
        let (backend, reply) = calls::open_workspace_identified(
            kept.backend,
            workspace_id,
            expected,
        );
        self.backends.insert(at, HostBackend { host: kept.host, backend });
        proof {
            let exchange = Exchange::OpenLayout {
                host: old(self)@.hosts[at as int],
                workspace_id: workspace_id@,
                expected: expected.deep_view(),
                reply: told(reply),
            };
            let after = self.backends@[at as int].backend;
            self.history@ = self.history@.push(Step::Asked { exchange, before, after });
            assert(self.backends@ =~= old(self).backends@.update(
                at as int,
                self.backends@[at as int],
            ));
            lemma_noted(*old(self), *self, at as int, exchange);
        }
        reply
    }

    /// Asks a backend to store a workspace's layout.
    pub(crate) fn ask_update_layout(
        &mut self,
        at: usize,
        workspace_id: &str,
        layout: &LayoutDoc,
        rev: u64,
        expected: Option<&str>,
    ) -> (reply: Result<(), String>)
        requires
            old(self).wf(),
            at < old(self)@.hosts.len(),
        ensures
            final(self).wf(),
            final(self).continues(old(self)),
            final(self).was_asked(
                old(self),
                Exchange::UpdateLayout {
                    host: old(self)@.hosts[at as int],
                    workspace_id: workspace_id@,
                    document: layout.document@,
                    rev,
                    expected: expected.deep_view(),
                    reply: told(reply),
                },
            ),
            final(self)@ == asked(
                old(self)@,
                Exchange::UpdateLayout {
                    host: old(self)@.hosts[at as int],
                    workspace_id: workspace_id@,
                    document: layout.document@,
                    rev,
                    expected: expected.deep_view(),
                    reply: told(reply),
                },
            ),
            exists|put: &mut B|
                {
                    &&& old(self).backend_of(old(self)@.hosts[at as int]) == Some(*put)
                    &&& final(self).backend_of(old(self)@.hosts[at as int]) == Some(*final(put))
                    &&& #[trigger] call_ensures(
                        B::update_layout,
                        (put, workspace_id, layout, rev, expected),
                        reply,
                    )
                },
    {
        let kept = self.backends.remove(at);
        let ghost before = kept.backend;
        let (backend, reply) = calls::update_layout(
            kept.backend,
            workspace_id,
            layout,
            rev,
            expected,
        );
        self.backends.insert(at, HostBackend { host: kept.host, backend });
        proof {
            let exchange = Exchange::UpdateLayout {
                host: old(self)@.hosts[at as int],
                workspace_id: workspace_id@,
                document: layout.document@,
                rev,
                expected: expected.deep_view(),
                reply: told(reply),
            };
            let after = self.backends@[at as int].backend;
            self.history@ = self.history@.push(Step::Asked { exchange, before, after });
            assert(self.backends@ =~= old(self).backends@.update(
                at as int,
                self.backends@[at as int],
            ));
            lemma_noted(*old(self), *self, at as int, exchange);
        }
        reply
    }

    /// Asks a backend which daemon it last reached.
    pub(crate) fn ask_instance(
        &mut self,
        at: usize,
    ) -> (reply: Option<String>)
        requires
            old(self).wf(),
            at < old(self)@.hosts.len(),
        ensures
            final(self).wf(),
            final(self).continues(old(self)),
            final(self).was_asked(
                old(self),
                Exchange::Instance { host: old(self)@.hosts[at as int], reply: text::opt(reply) },
            ),
            final(self)@ == asked(
                old(self)@,
                Exchange::Instance { host: old(self)@.hosts[at as int], reply: text::opt(reply) },
            ),
            final(self).backend_of(old(self)@.hosts[at as int]) == old(self).backend_of(
                old(self)@.hosts[at as int],
            ),
            old(self).backend_of(old(self)@.hosts[at as int]) matches Some(backend)
                && call_ensures(B::instance_id, (&backend,), reply),
    {
        let ghost before = self.backends@[at as int].backend;
        let reply = self.backends[at].backend.instance_id();
        proof {
            let exchange = Exchange::Instance {
                host: old(self)@.hosts[at as int],
                reply: text::opt(reply),
            };
            let after = self.backends@[at as int].backend;
            self.history@ = self.history@.push(Step::Asked { exchange, before, after });
            assert(self.backends@ =~= old(self).backends@.update(
                at as int,
                self.backends@[at as int],
            ));
            lemma_noted(*old(self), *self, at as int, exchange);
        }
        reply
    }

    /// Asks a backend for its stream of events.
    pub(crate) fn ask_subscribe(
        &mut self,
        at: usize,
    ) -> (reply: Result<Receiver<IdentifiedDaemonEvent>, String>)
        requires
            old(self).wf(),
            at < old(self)@.hosts.len(),
        ensures
            final(self).wf(),
            final(self).continues(old(self)),
            final(self).was_asked(
                old(self),
                Exchange::Subscribe { host: old(self)@.hosts[at as int], reply: attempt(reply) },
            ),
            final(self)@ == asked(
                old(self)@,
                Exchange::Subscribe { host: old(self)@.hosts[at as int], reply: attempt(reply) },
            ),
            exists|put: &mut B|
                {
                    &&& old(self).backend_of(old(self)@.hosts[at as int]) == Some(*put)
                    &&& final(self).backend_of(old(self)@.hosts[at as int]) == Some(*final(put))
                    &&& #[trigger] call_ensures(B::subscribe_events, (put,), reply)
                },
            call_ensures(
                calls::subscribe_events::<B>,
                (old(self).backend_of(old(self)@.hosts[at as int])->0,),
                (final(self).backend_of(old(self)@.hosts[at as int])->0, reply),
            ),
    {
        let kept = self.backends.remove(at);
        let ghost before = kept.backend;
        let (backend, reply) = calls::subscribe_events(kept.backend);
        self.backends.insert(at, HostBackend { host: kept.host, backend });
        proof {
            let exchange = Exchange::Subscribe {
                host: old(self)@.hosts[at as int],
                reply: attempt(reply),
            };
            let after = self.backends@[at as int].backend;
            self.history@ = self.history@.push(Step::Asked { exchange, before, after });
            assert(self.backends@ =~= old(self).backends@.update(
                at as int,
                self.backends@[at as int],
            ));
            lemma_noted(*old(self), *self, at as int, exchange);
        }
        reply
    }

    /// Asks a backend to replace its host's daemon.
    pub(crate) fn ask_upgrade(
        &mut self,
        at: usize,
    ) -> (reply: Result<B::UpgradeOutcome, String>)
        requires
            old(self).wf(),
            at < old(self)@.hosts.len(),
        ensures
            final(self).wf(),
            final(self).continues(old(self)),
            final(self).was_asked(
                old(self),
                Exchange::Upgrade { host: old(self)@.hosts[at as int], reply: attempt(reply) },
            ),
            final(self)@ == asked(
                old(self)@,
                Exchange::Upgrade { host: old(self)@.hosts[at as int], reply: attempt(reply) },
            ),
            exists|put: &mut B|
                {
                    &&& old(self).backend_of(old(self)@.hosts[at as int]) == Some(*put)
                    &&& final(self).backend_of(old(self)@.hosts[at as int]) == Some(*final(put))
                    &&& #[trigger] call_ensures(B::upgrade_daemon, (put,), reply)
                },
            call_ensures(
                calls::upgrade_daemon::<B>,
                (old(self).backend_of(old(self)@.hosts[at as int])->0,),
                (final(self).backend_of(old(self)@.hosts[at as int])->0, reply),
            ),
    {
        let kept = self.backends.remove(at);
        let ghost before = kept.backend;
        let (backend, reply) = calls::upgrade_daemon(kept.backend);
        self.backends.insert(at, HostBackend { host: kept.host, backend });
        proof {
            let exchange = Exchange::Upgrade {
                host: old(self)@.hosts[at as int],
                reply: attempt(reply),
            };
            let after = self.backends@[at as int].backend;
            self.history@ = self.history@.push(Step::Asked { exchange, before, after });
            assert(self.backends@ =~= old(self).backends@.update(
                at as int,
                self.backends@[at as int],
            ));
            lemma_noted(*old(self), *self, at as int, exchange);
        }
        reply
    }

    /// How this machine's backend expects status to be obtained; a machine
    /// without one is pushed to.
    pub fn status_delivery(&self) -> (delivery: StatusDelivery)
        ensures
            !self@.hosts.contains(None) ==> delivery == StatusDelivery::Push,
            self@.hosts.contains(None) ==> (self.backend_of(None) matches Some(backend)
                && call_ensures(B::status_delivery, (&backend,), delivery)),
    {
        let at = self.find_host(None);
        if at < self.backends.len() {
            self.backends[at].backend.status_delivery()
        } else {
            StatusDelivery::Push
        }
    }

    /// Whether a host is known to run an older daemon than this client would
    /// deploy. Makes no backend: of a host nobody has contacted nothing is known.
    pub fn host_daemon_stale(&self, destination: &str) -> (stale: bool)
        ensures
            !self@.hosts.contains(Some(destination@)) ==> !stale,
            self@.hosts.contains(Some(destination@)) ==> (self.backend_of(
                Some(destination@),
            ) matches Some(backend) && call_ensures(B::daemon_stale, (&backend,), stale)),
    {
        let at = self.find_host(Some(destination));
        if at < self.backends.len() {
            self.backends[at].backend.daemon_stale()
        } else {
            false
        }
    }

    /// Drops every backend, and with them what was read over their connections.
    /// The sessions behind them keep running.
    pub fn disconnect(&mut self)
        requires
            old(self).wf(),
        ensures
            final(self).wf(),
            final(self)@ == (ServiceView {
                hosts: Seq::empty(),
                discoveries: Map::empty(),
                retries: Set::empty(),
                ..old(self)@
            }),
            final(self).history() == old(self).history().push(Step::Left),
            final(self).announcer() == old(self).announcer(),
    {
        self.backends = Vec::new();
        self.discoveries.clear();
        self.retries.clear();
        proof {
            self.history@ = self.history@.push(Step::Left);
            assert(self.history@.drop_last() =~= old(self).history@);
            assert(self@.hosts =~= Seq::empty());
        }
    }

    /// The table of workspaces, to write to.
    pub(crate) fn table(&mut self) -> (table: &mut AdeWorkspaceRegistry)
        requires
            old(self).wf(),
        ensures
            table@ == old(self)@.rows,
            table.wf(),
            final(self)@ == (ServiceView { rows: final(table)@, ..old(self)@ }),
            final(table).wf() ==> final(self).wf(),
            final(self).history() == old(self).history(),
            final(self).announcer() == old(self).announcer(),
    {
        &mut self.registry
    }

    /// Each daemon's last listing, to write to.
    pub(crate) fn snapshots(&mut self) -> (kept: &mut Discoveries)
        requires
            old(self).wf(),
        ensures
            kept@ == old(self)@.discoveries,
            final(self)@ == (ServiceView { discoveries: final(kept)@, ..old(self)@ }),
            final(self).wf(),
            final(self).history() == old(self).history(),
            final(self).announcer() == old(self).announcer(),
    {
        &mut self.discoveries
    }

    /// The scope writes to try again, to write to.
    pub(crate) fn scope_retries(&mut self) -> (retries: &mut ScopeRetries)
        requires
            old(self).wf(),
        ensures
            retries@ == old(self)@.retries,
            final(self)@ == (ServiceView { retries: final(retries)@, ..old(self)@ }),
            final(self).wf(),
            final(self).history() == old(self).history(),
            final(self).announcer() == old(self).announcer(),
    {
        &mut self.retries
    }

    /// Each daemon's last listing.
    pub(crate) fn kept_snapshots(&self) -> (kept: &Discoveries)
        ensures
            kept@ == self@.discoveries,
    {
        &self.discoveries
    }

    /// The scope writes to try again.
    pub(crate) fn kept_retries(&self) -> (retries: &ScopeRetries)
        ensures
            retries@ == self@.retries,
    {
        &self.retries
    }

    /// The hosts a backend exists for.
    pub(crate) fn known_hosts(&self) -> (hosts: Vec<Option<String>>)
        ensures
            hosts.deep_view() == self@.hosts,
    {
        let mut hosts: Vec<Option<String>> = Vec::new();
        let mut i: usize = 0;
        while i < self.backends.len()
            invariant
                i <= self.backends.len(),
                hosts.deep_view() == self@.hosts.take(i as int),
            decreases self.backends.len() - i,
        {
            let ghost before = hosts.deep_view();
            let host = text::owned(text::borrowed(&self.backends[i].host));
            hosts.push(host);
            assert(hosts.deep_view() =~= before.push(text::opt(host)));
            i = i + 1;
            assert(hosts.deep_view() =~= self@.hosts.take(i as int));
        }
        assert(self@.hosts.take(self@.hosts.len() as int) =~= self@.hosts);
        hosts
    }

    /// The hosts that push no status, and why, as error lines name them.
    pub(crate) fn kept_status_errors(&self) -> (errors: Vec<(String, String)>)
        ensures
            errors.deep_view() == self@.status_errors,
    {
        let mut errors: Vec<(String, String)> = Vec::new();
        let mut i: usize = 0;
        while i < self.status_errors.len()
            invariant
                i <= self.status_errors.len(),
                errors.deep_view() == self@.status_errors.take(i as int),
            decreases self.status_errors.len() - i,
        {
            let ghost before = errors.deep_view();
            let line = (self.status_errors[i].0.clone(), self.status_errors[i].1.clone());
            errors.push(line);
            assert(errors.deep_view() =~= before.push(line.deep_view()));
            i = i + 1;
            assert(errors.deep_view() =~= self@.status_errors.take(i as int));
        }
        assert(self@.status_errors.take(self@.status_errors.len() as int) =~= self@.status_errors);
        errors
    }

    /// Notes that a host's status stream could not be opened. The note stands
    /// until another takes its place.
    pub fn record_status_error(&mut self, host: &str, error: &str)
        requires
            old(self).wf(),
        ensures
            final(self).wf(),
            final(self)@ == (ServiceView {
                status_errors: with_status_error(
                    old(self)@.status_errors,
                    host@,
                    "status updates are off: "@ + error@,
                ),
                ..old(self)@
            }),
            final(self).history() == old(self).history(),
            final(self).announcer() == old(self).announcer(),
    {
        let message = text::joined("status updates are off: ", error);
        let ghost before = self@.status_errors;
        let mut at: usize = 0;
        assert(before.skip(0) =~= before);
        while at < self.status_errors.len() && !text::same_text(
            self.status_errors[at].0.as_str(),
            host,
        )
            invariant
                at <= self.status_errors.len(),
                before == self.status_errors.deep_view(),
                with_status_error(before, host@, message@) == before.take(at as int)
                    + with_status_error(before.skip(at as int), host@, message@),
                self@ == old(self)@,
                self.wf(),
                self.history() == old(self).history(),
            decreases self.status_errors.len() - at,
        {
            proof {
                let tail = before.skip(at as int);
                assert(tail[0] == before[at as int]);
                assert(tail.drop_first() =~= before.skip(at + 1));
                assert(before.take(at + 1) =~= before.take(at as int).push(before[at as int]));
                assert(before.take(at as int) + (seq![tail[0]] + with_status_error(
                    tail.drop_first(),
                    host@,
                    message@,
                )) =~= before.take(at + 1) + with_status_error(before.skip(at + 1), host@, message@));
            }
            at = at + 1;
        }
        let ghost text_of = message@;
        let line = (host.to_owned(), message);
        if at < self.status_errors.len() {
            self.status_errors[at] = line;
            proof {
                let tail = before.skip(at as int);
                assert(tail[0] == before[at as int]);
                assert(self.status_errors.deep_view() =~= before.take(at as int)
                    + with_status_error(tail, host@, text_of));
            }
        } else {
            self.status_errors.push(line);
            proof {
                assert(before.skip(at as int).len() == 0);
                assert(self.status_errors.deep_view() =~= before.take(at as int)
                    + with_status_error(before.skip(at as int), host@, text_of));
            }
        }
        assert(self@.hosts =~= old(self)@.hosts);
    }

    /// The table of workspaces.
    pub fn registry(&self) -> (registry: &AdeWorkspaceRegistry)
        requires
            self.wf(),
        ensures
            registry@ == self@.rows,
            registry.wf(),
    {
        &self.registry
    }
}

} // verus!
