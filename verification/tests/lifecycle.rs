//! The lifecycle service against backends that record what they are asked.

use ade_workspaces::bulk::KillTarget;
use ade_workspaces::confirm::row_for_record;
use ade_workspaces::daemon::{display_name_for, is_derived_workspace_name, DaemonKey};
use ade_workspaces::entry::{Failure, SessionState, WorkspaceEntry};
use ade_workspaces::events::{DaemonFreshness, EventPumps, OpenedPumps};
use ade_workspaces::opening::NewWorkspace;
use ade_workspaces::reconcile::{prefer_answered, HostOutcome};
use ade_workspaces::registry::AdeWorkspaceRegistry;
use ade_workspaces::service::WorkspaceLifecycleService;
use ade_workspaces::session_backend::{
    Attached, BackendWorkspace, DaemonEvent, Identified, IdentifiedDaemonEvent, LayoutDoc,
    LayoutEvent, SessionBackend, SessionChange, SessionId, SessionInfo, SessionSpec,
    StatusDelivery, StatusEvent, WorkspaceEvent,
};
use ade_workspaces::workspace::{AdeWorkspace, WorkspaceId, WorkspaceStatus};
use smol::channel::{Receiver, Sender};
use std::sync::{Arc, Mutex};

type ScopeUpdate = (
    String,
    String,
    String,
    Option<String>,
    Option<u64>,
    Option<String>,
);

/// What a backend runs when its host's daemon falls behind or catches up.
type Announcer = Arc<dyn Fn() + Send + Sync>;

/// Tells nobody.
fn nobody() -> Announcer {
    Arc::new(|| {})
}

/// Records what it was asked, so a test can assert which backend a call
/// reached.
struct State {
    label: String,
    failure: Option<String>,
    workspace_kill: bool,
    sessions: Vec<String>,
    sessions_after_next_list: Vec<String>,
    workspaces: Vec<BackendWorkspace>,
    workspaces_after_next_list: Option<Vec<BackendWorkspace>>,
    repository_resolution: Option<(String, String)>,
    project_scope_updates: Vec<ScopeUpdate>,
    project_scope_update_failure: Option<String>,
    listing_instance_ids: Vec<Option<String>>,
    calls: Vec<String>,
    status: Option<Sender<IdentifiedDaemonEvent>>,
    stale: bool,
    observers: Vec<Announcer>,
    instance_id: Option<String>,
}

/// A handle on a backend: the test keeps one, and the service another.
#[derive(Clone)]
struct FakeBackend(Arc<Mutex<State>>);

impl FakeBackend {
    fn new(label: &str) -> Self {
        FakeBackend(Arc::new(Mutex::new(State {
            label: label.to_owned(),
            failure: None,
            workspace_kill: true,
            sessions: Vec::new(),
            sessions_after_next_list: Vec::new(),
            workspaces: Vec::new(),
            workspaces_after_next_list: None,
            repository_resolution: None,
            project_scope_updates: Vec::new(),
            project_scope_update_failure: None,
            listing_instance_ids: Vec::new(),
            calls: Vec::new(),
            status: None,
            stale: false,
            observers: Vec::new(),
            instance_id: None,
        })))
    }

    fn failing(label: &str, message: &str) -> Self {
        let backend = FakeBackend::new(label);
        backend.goes_down(message);
        backend
    }

    fn state(&self) -> std::sync::MutexGuard<'_, State> {
        self.0.lock().unwrap()
    }

    fn behind(self) -> Self {
        self.state().stale = true;
        self
    }

    /// The background answer arriving: the fact changes, and whoever asked to
    /// be told is told.
    fn note_freshness(&self, stale: bool) {
        let observers = {
            let mut state = self.state();
            state.stale = stale;
            state.observers.clone()
        };
        for observer in observers {
            observer();
        }
    }

    fn identified(self, instance_id: &str) -> Self {
        self.state().instance_id = Some(instance_id.to_owned());
        self
    }

    fn holding(self, workspaces: Vec<BackendWorkspace>) -> Self {
        self.state().workspaces = workspaces;
        self
    }

    fn resolving_repository(self, repository_path: &str, project_identity_path: &str) -> Self {
        self.set_repository_resolution(repository_path, project_identity_path);
        self
    }

    fn set_repository_resolution(&self, repository_path: &str, project_identity_path: &str) {
        self.state().repository_resolution =
            Some((repository_path.to_owned(), project_identity_path.to_owned()));
    }

    fn hold(&self, workspace: BackendWorkspace) {
        self.state().workspaces.push(workspace);
    }

    fn replace_workspaces_after_next_list(&self, workspaces: Vec<BackendWorkspace>) {
        self.state().workspaces_after_next_list = Some(workspaces);
    }

    fn listing_identities(self, identities: Vec<Option<&str>>) -> Self {
        self.state().listing_instance_ids = identities
            .into_iter()
            .map(|identity| identity.map(str::to_owned))
            .collect();
        self
    }

    /// A host that was answering and stops.
    fn goes_down(&self, message: &str) {
        self.state().failure = Some(message.to_owned());
    }

    /// Sessions, but nothing a workspace kill could take.
    fn without_workspace_kill(self) -> Self {
        self.state().workspace_kill = false;
        self
    }

    fn calls(&self) -> Vec<String> {
        self.state().calls.clone()
    }

    fn count_calls(&self, prefix: &str) -> usize {
        self.calls().iter().filter(|call| call.starts_with(prefix)).count()
    }

    fn count_exact(&self, wanted: &str) -> usize {
        self.calls().iter().filter(|call| call.as_str() == wanted).count()
    }

    fn project_scope_updates(&self) -> Vec<ScopeUpdate> {
        self.state().project_scope_updates.clone()
    }

    fn fail_next_project_scope_update(&self, message: &str) {
        self.state().project_scope_update_failure = Some(message.to_owned());
    }

    fn remove_session(&self, id: &str) {
        self.state().sessions.retain(|session| session != id);
    }

    /// Makes a session absent from one listing but present for the probe
    /// right after it.
    fn revive_after_next_list(&self, id: String) {
        self.state().sessions_after_next_list.push(id);
    }

    fn push_event(&self, event: DaemonEvent) {
        let state = self.state();
        if let Some(sender) = state.status.as_ref() {
            sender
                .try_send(IdentifiedDaemonEvent {
                    daemon_id: state.instance_id.clone(),
                    event,
                })
                .expect("the merged stream is listening");
        }
    }

    fn push(&self, event: StatusEvent) {
        self.push_event(DaemonEvent::Session(event));
    }

    fn push_workspace_removed(&self, workspace_id: &str) {
        self.push_event(DaemonEvent::WorkspaceRemoved {
            workspace_id: workspace_id.to_owned(),
        });
    }

    fn record(&self, call: String) -> Result<(), String> {
        let mut state = self.state();
        state.calls.push(call);
        match state.failure.as_ref() {
            Some(message) => Err(message.clone()),
            None => Ok(()),
        }
    }
}

/// How a recorded call spells the identity it was fenced to.
fn fence(expected: Option<&str>) -> String {
    expected.map(|id| format!("|{id}")).unwrap_or_default()
}

impl SessionBackend for FakeBackend {
    type UpgradeOutcome = String;
    type DaemonFreshnessObserver = Announcer;

    fn remote(host: &str) -> Result<Self, String> {
        Err(format!("no backend for {host} in this test"))
    }

    fn create(&mut self, spec: &SessionSpec, expected: Option<&str>) -> Result<SessionId, String> {
        self.record(format!("create:{}{}", spec.id.as_str(), fence(expected)))?;
        self.state().sessions.push(spec.id.as_str().to_owned());
        Ok(spec.id.clone())
    }

    fn list(&mut self) -> Result<Vec<SessionInfo>, String> {
        self.record("list".to_owned())?;
        let mut state = self.state();
        let listed = state.sessions.clone();
        let revived = std::mem::take(&mut state.sessions_after_next_list);
        for session in revived {
            if !state.sessions.contains(&session) {
                state.sessions.push(session);
            }
        }
        Ok(listed
            .into_iter()
            .map(|id| SessionInfo { id: SessionId(id) })
            .collect())
    }

    fn list_workspaces(&mut self) -> Result<Vec<BackendWorkspace>, String> {
        self.record("list_workspaces".to_owned())?;
        let mut state = self.state();
        let listed = state.workspaces.clone();
        if let Some(next) = state.workspaces_after_next_list.take() {
            state.workspaces = next;
        }
        Ok(listed)
    }

    fn list_workspaces_identified(&mut self) -> Result<Identified<BackendWorkspace>, String> {
        let items = self.list_workspaces()?;
        let mut state = self.state();
        let daemon_id = if state.listing_instance_ids.is_empty() {
            state.instance_id.clone()
        } else {
            state.listing_instance_ids.remove(0)
        };
        Ok(Identified { daemon_id, items })
    }

    fn resolve_repository(&mut self, path: &str) -> Result<(String, String), String> {
        self.record(format!("resolve:{path}"))?;
        self.state()
            .repository_resolution
            .clone()
            .ok_or_else(|| "the fake repository resolution was not configured".to_owned())
    }

    fn update_workspace_project_scope(
        &mut self,
        workspace_id: &str,
        project_id: &str,
        project_identity: &str,
        project_root: Option<&str>,
        minimum_scope_rev: Option<u64>,
        expected_daemon_id: Option<&str>,
    ) -> Result<Option<u64>, String> {
        let mut state = self.state();
        state.project_scope_updates.push((
            workspace_id.to_owned(),
            project_id.to_owned(),
            project_identity.to_owned(),
            project_root.map(str::to_owned),
            minimum_scope_rev,
            expected_daemon_id.map(str::to_owned),
        ));
        match state.project_scope_update_failure.take() {
            Some(message) => Err(message),
            None => Ok(None),
        }
    }

    fn session_exists(&mut self, id: &SessionId, expected: Option<&str>) -> Result<bool, String> {
        self.record(format!("exists:{}{}", id.as_str(), fence(expected)))?;
        Ok(self.state().sessions.iter().any(|session| session == id.as_str()))
    }

    fn attach(&mut self, spec: &SessionSpec, expected: Option<&str>) -> Result<Attached, String> {
        self.record(format!("attach:{}{}", spec.id.as_str(), fence(expected)))?;
        let state = self.state();
        Ok(Attached {
            session_id: spec.id.as_str().to_owned(),
            daemon_id: state.instance_id.clone(),
            argv: vec![format!("{}-attach", state.label), spec.id.as_str().to_owned()],
        })
    }

    fn detach(&mut self, id: &SessionId) -> Result<(), String> {
        self.record(format!("detach:{}", id.as_str()))
    }

    fn kill(&mut self, id: &SessionId, expected: Option<&str>) -> Result<(), String> {
        self.record(format!("kill:{}{}", id.as_str(), fence(expected)))?;
        self.remove_session(id.as_str());
        Ok(())
    }

    fn reset_workspace_sessions(
        &mut self,
        id: &SessionId,
        directory: &str,
        expected: Option<&str>,
    ) -> Result<(), String> {
        self.record(format!("reset:{}:{}{}", id.as_str(), directory, fence(expected)))?;
        self.kill(id, expected)
    }

    fn kill_workspace(&mut self, workspace_id: &str, expected: Option<&str>) -> Result<(), String> {
        self.record(format!("kill_workspace:{workspace_id}{}", fence(expected)))?;
        let mut state = self.state();
        if !state.workspace_kill {
            return Err("this session backend has no workspaces of its own to kill".to_owned());
        }
        state.sessions.retain(|session| session != workspace_id);
        state.workspaces.retain(|workspace| workspace.id != workspace_id);
        Ok(())
    }

    fn resize_session(
        &mut self,
        session_id: &str,
        cols: u16,
        rows: u16,
        expected: Option<&str>,
    ) -> Result<(), String> {
        self.record(format!("resize:{session_id}:{cols}x{rows}{}", fence(expected)))
    }

    fn status_delivery(&self) -> StatusDelivery {
        StatusDelivery::Push
    }

    fn subscribe_events(&mut self) -> Result<Receiver<IdentifiedDaemonEvent>, String> {
        let mut state = self.state();
        state.calls.push("subscribe".to_owned());
        let (sender, receiver) = smol::channel::unbounded();
        state.status = Some(sender);
        Ok(receiver)
    }

    fn upgrade_daemon(&mut self) -> Result<String, String> {
        self.record("upgrade".to_owned())?;
        Ok(format!("{} upgraded", self.state().label))
    }

    fn observe_daemon_freshness(&mut self, observer: Announcer) {
        self.state().observers.push(observer);
    }

    fn daemon_stale(&self) -> bool {
        self.state().stale
    }

    fn instance_id(&self) -> Option<String> {
        self.state().instance_id.clone()
    }
}

type Service = WorkspaceLifecycleService<FakeBackend>;

const NOW: i64 = 1_800_000_000;

/// A workspace id whose first six characters are the number's.
fn id(n: u32) -> WorkspaceId {
    WorkspaceId(format!("{n:06x}00-0000-4000-8000-000000000000"))
}

fn workspace(n: u32, name: &str, project_id: &str, repository_path: &str) -> AdeWorkspace {
    AdeWorkspace::new(id(n), name, project_id, repository_path, NOW)
}

/// A registry that holds these rows, each of them used.
fn registry_of(rows: Vec<AdeWorkspace>) -> AdeWorkspaceRegistry {
    let mut registry = AdeWorkspaceRegistry::new();
    for row in rows {
        registry.create_workspace(row, NOW).expect("the rows do not collide");
    }
    registry
}

fn service_with(rows: Vec<AdeWorkspace>, local: FakeBackend) -> Service {
    WorkspaceLifecycleService::with_backend(registry_of(rows), local, nobody())
}

fn try_create(
    service: &mut Service,
    n: u32,
    name: &str,
    project_id: &str,
    repository_path: &str,
    remote_host: Option<&str>,
) -> Result<AdeWorkspace, Failure> {
    service.create_workspace_scoped(NewWorkspace {
        id: id(n),
        name: name.to_owned(),
        project_id: project_id.to_owned(),
        project_identity: Some(repository_path.to_owned()),
        repository_path: repository_path.to_owned(),
        branch: None,
        remote_host: remote_host.map(str::to_owned),
        now: NOW,
    })
}

fn create(
    service: &mut Service,
    n: u32,
    name: &str,
    project_id: &str,
    repository_path: &str,
    remote_host: Option<&str>,
) -> AdeWorkspace {
    try_create(service, n, name, project_id, repository_path, remote_host)
        .expect("the workspace should be created")
}

fn record(id: &str, name: &str, root: &str, created_at: u64) -> BackendWorkspace {
    BackendWorkspace {
        id: id.to_owned(),
        name: name.to_owned(),
        project_id: None,
        project_identity: None,
        project_root: root.to_owned(),
        project_scope_rev: 0,
        created_at,
    }
}

fn row_on(
    n: u32,
    daemon_id: &str,
    host: &str,
    wire_id: &str,
    name: &str,
    opened_at: i64,
) -> AdeWorkspace {
    let mut row = workspace(n, name, "project-a", "/home/user/main");
    row.terminal_session_id = Some(wire_id.to_owned());
    row.daemon_id = Some(daemon_id.to_owned());
    row.remote_host = Some(host.to_owned());
    row.last_opened_at = opened_at;
    row
}

/// The records one pass found that no row of this client's points at.
fn discoveries(entries: &[WorkspaceEntry]) -> Vec<&WorkspaceEntry> {
    entries
        .iter()
        .filter(|entry| matches!(entry, WorkspaceEntry::Discovered { .. }))
        .collect()
}

fn adopt(
    service: &mut Service,
    root: &str,
    host: &str,
    scope: Option<(&str, &str)>,
    n: u32,
) -> Result<(AdeWorkspace, bool), Failure> {
    service.adopt_or_create_workspace(
        root,
        Some(host),
        scope.map(|(project_id, identity)| (project_id.to_owned(), identity.to_owned())),
        id(n),
        NOW,
    )
}

#[test]
fn test_default_backend_reports_local_daemon_unavailable() {
    let mut service: Service =
        WorkspaceLifecycleService::without_backend(AdeWorkspaceRegistry::new(), nobody());
    let error = service
        .ensure_host_workspaces(None)
        .expect_err("a non-Unix host must not start the Unix daemon proxy");
    assert!(error.message().contains("require Unix"));
}

#[test]
fn test_ensure_host_reports_a_host_it_cannot_reach() {
    let backend = FakeBackend::failing("local", "ssh: connect: no route to host");
    let mut service = service_with(Vec::new(), backend);
    assert!(service.ensure_host_workspaces(None).is_err());
}

#[test]
fn test_adoption_ignores_another_daemons_colliding_row() {
    let stale = row_on(1, "daemon-a", "a.example", "ade-main-000001", "stale", 9_000);
    let remote = FakeBackend::new("remote")
        .identified("daemon-b")
        .holding(vec![record("ade-main-000001", "main", "/home/user/main", 1)]);
    let mut service = service_with(vec![stale.clone()], FakeBackend::new("local"))
        .with_backend_for_host("a.example", remote);

    let (adopted, created) = adopt(&mut service, "/home/user/main", "a.example", None, 9).unwrap();

    assert!(!created);
    assert_ne!(adopted.id, stale.id);
    assert_eq!(adopted.daemon_id.as_deref(), Some("daemon-b"));
    assert_eq!(adopted.terminal_session_id.as_deref(), Some("ade-main-000001"));
}

#[test]
fn test_adoption_reuses_an_identified_row_across_host_aliases() {
    let existing = row_on(1, "daemon-a", "old.example", "ade-main-000001", "main", 1_000);
    let remote = FakeBackend::new("remote")
        .identified("daemon-a")
        .holding(vec![record("ade-main-000001", "main", "/home/user/main", 1)]);
    let mut service = service_with(vec![existing.clone()], FakeBackend::new("local"))
        .with_backend_for_host("new.example", remote);

    let (adopted, created) =
        adopt(&mut service, "/home/user/main", "new.example", None, 9).unwrap();

    assert!(!created);
    assert_eq!(adopted.id, existing.id);
    assert_eq!(service.registry().confirmed_workspaces().len(), 1);
}

#[test]
fn test_adoption_reuses_a_killed_workspace_row() {
    let mut retained = row_on(1, "daemon-a", "a.example", "ade-main-000001", "main", 1_000);
    retained.terminal_session_id = None;
    retained.daemon_id = None;
    retained.status = WorkspaceStatus::Stopped;
    let remote = FakeBackend::new("remote").identified("daemon-a");
    let mut service = service_with(vec![retained.clone()], FakeBackend::new("local"))
        .with_backend_for_host("a.example", remote);

    let (adopted, created) = adopt(&mut service, "/home/user/main", "a.example", None, 9).unwrap();

    assert!(!created);
    assert_eq!(adopted.id, retained.id);
    assert_eq!(service.registry().confirmed_workspaces().len(), 1);
}

#[test]
fn adoption_knows_a_checkout_under_any_spelling() {
    let owned = row_on(1, "daemon-a", "a.example", "ade-main-000001", "main", 1_000);
    let remote = FakeBackend::new("remote").identified("daemon-a").holding(vec![
        record("ade-main-000001", "main", "/home/user/main", 1),
        record("ade-main-000002", "other", "/home/user/other/", 2),
    ]);
    let mut service = service_with(vec![owned.clone()], FakeBackend::new("local"))
        .with_backend_for_host("a.example", remote);

    let (adopted, created) =
        adopt(&mut service, "/home/user//main/", "a.example", None, 8).unwrap();
    assert!(!created);
    assert_eq!(adopted.id, owned.id);

    let (adopted, created) = adopt(&mut service, "/home/user/other", "a.example", None, 9).unwrap();
    assert!(!created);
    assert_eq!(adopted.terminal_session_id.as_deref(), Some("ade-main-000002"));
}

#[test]
fn test_adoption_prefers_the_most_recent_owned_row() {
    let older = row_on(1, "daemon-a", "a.example", "ade-main-000001", "older", 1_000);
    let newer = row_on(2, "daemon-a", "a.example", "ade-main-000002", "newer", 2_000);
    let remote = FakeBackend::new("remote").identified("daemon-a").holding(vec![
        record("ade-main-000001", "older", "/home/user/main", 1),
        record("ade-main-000002", "newer", "/home/user/main", 2),
        record("ade-main-000003", "unopened", "/home/user/main", 0),
    ]);
    let mut service = service_with(vec![older, newer.clone()], FakeBackend::new("local"))
        .with_backend_for_host("a.example", remote);

    let (adopted, created) = adopt(&mut service, "/home/user/main", "a.example", None, 9).unwrap();

    assert!(!created);
    assert_eq!(adopted.id, newer.id);
    assert_eq!(service.registry().confirmed_workspaces().len(), 2);
}

#[test]
fn test_adoption_chooses_the_oldest_discovery_deterministically() {
    let remote = FakeBackend::new("remote").identified("daemon-a").holding(vec![
        record("ade-late", "late", "/home/user/main", 300),
        record("ade-b", "b", "/home/user/main", 100),
        record("ade-a", "a", "/home/user/main", 100),
        record("ade-other", "other", "/home/user/other", 1),
    ]);
    let mut service = service_with(Vec::new(), FakeBackend::new("local"))
        .with_backend_for_host("a.example", remote);

    let (adopted, created) = adopt(&mut service, "/home/user/main", "a.example", None, 9).unwrap();

    assert!(!created);
    assert_eq!(adopted.terminal_session_id.as_deref(), Some("ade-a"));
}

#[test]
fn test_adoption_refreshes_after_the_initial_ensure() {
    let remote = FakeBackend::new("remote").identified("daemon-a");
    let mut service = service_with(Vec::new(), FakeBackend::new("local"))
        .with_backend_for_host("a.example", remote.clone());
    assert!(service.ensure_host_workspaces(Some("a.example")).unwrap().is_empty());
    remote.hold(record("ade-main-000001", "main", "/home/user/main", 1));

    let (adopted, created) = adopt(
        &mut service,
        "/home/user/main",
        "a.example",
        Some(("canonical-project", "/scope/main")),
        9,
    )
    .unwrap();

    assert!(!created);
    assert_eq!(adopted.terminal_session_id.as_deref(), Some("ade-main-000001"));
    assert_eq!(adopted.project_id, "canonical-project");
    assert_eq!(adopted.project_identity.as_deref(), Some("/scope/main"));
}

#[test]
fn test_adoption_replaces_a_discovery_that_disappeared() {
    let remote = FakeBackend::new("remote")
        .identified("daemon-a")
        .holding(vec![record("ade-main-000001", "main", "/home/user/main", 1)]);
    let mut service = service_with(Vec::new(), FakeBackend::new("local"))
        .with_backend_for_host("a.example", remote.clone());
    let listed = service.ensure_host_workspaces(Some("a.example")).unwrap();
    assert_eq!(discoveries(&listed).len(), 1);
    remote.state().workspaces.clear();

    let (created, was_created) = adopt(
        &mut service,
        "/home/user/main",
        "a.example",
        Some(("canonical-project", "/scope/main")),
        9,
    )
    .unwrap();

    assert!(was_created);
    assert_ne!(created.daemon_workspace_id(), "ade-main-000001");
    assert_eq!(created.project_id, "canonical-project");
    assert_eq!(created.project_identity.as_deref(), Some("/scope/main"));
}

#[test]
fn test_failed_adoption_reattaches_but_never_creates() {
    let offline = row_on(1, "daemon-a", "a.example", "ade-main-000001", "main", 1_000);
    let remote = FakeBackend::failing("remote", "ssh: no route").identified("daemon-a");
    let mut service = service_with(vec![offline.clone()], FakeBackend::new("local"))
        .with_backend_for_host("a.example", remote);

    let (reattached, created) =
        adopt(&mut service, "/home/user/main", "a.example", None, 8).unwrap();
    assert!(!created);
    assert_eq!(reattached.id, offline.id);

    let error = adopt(&mut service, "/home/user/other", "a.example", None, 9)
        .expect_err("an unreachable daemon must not gain a workspace");
    assert!(error.message().contains("refreshing the workspaces"));
    assert_eq!(service.registry().confirmed_workspaces().len(), 1);
}

#[test]
fn test_failed_adoption_never_crosses_routes_without_an_identity() {
    let other_host = row_on(1, "daemon-a", "a.example", "ade-main-000001", "main", 1_000);
    let unreachable = FakeBackend::failing("remote", "ssh: no route");
    let mut service = service_with(vec![other_host.clone()], FakeBackend::new("local"))
        .with_backend_for_host("b.example", unreachable);

    adopt(&mut service, "/home/user/main", "b.example", None, 9)
        .expect_err("a failed unidentified route must not reuse another host's row");

    assert_eq!(service.registry().confirmed_workspaces(), vec![other_host]);
}

#[test]
fn two_adoptions_agree_on_one_row() {
    let remote = FakeBackend::new("remote")
        .identified("daemon-a")
        .holding(vec![record("ade-main-000001", "main", "/home/user/main", 1)]);
    let mut service = service_with(Vec::new(), FakeBackend::new("local"))
        .with_backend_for_host("a.example", remote);

    let first = adopt(&mut service, "/home/user/main", "a.example", None, 8).unwrap();
    let second = adopt(&mut service, "/home/user/main", "a.example", None, 9).unwrap();

    assert_eq!(first.0.id, second.0.id);
    assert!(!first.1 && !second.1);
    assert_eq!(service.registry().confirmed_workspaces().len(), 1);
}

#[test]
fn adoption_moves_to_an_identity_learned_by_listing() {
    let remote = FakeBackend::new("remote")
        .listing_identities(vec![Some("daemon-a"), Some("daemon-a")])
        .holding(vec![record("ade-main-000001", "main", "/home/user/main", 1)]);
    let mut service = service_with(Vec::new(), FakeBackend::new("local"))
        .with_backend_for_host("a.example", remote);

    let (adopted, created) = adopt(&mut service, "/home/user/main", "a.example", None, 9).unwrap();
    assert!(!created);
    assert_eq!(adopted.daemon_id.as_deref(), Some("daemon-a"));
}

#[test]
fn test_a_healthy_alias_wins_the_discovery_snapshot() {
    let outcome = |host: &str, live| HostOutcome {
        host: Some(host.to_owned()),
        daemon: DaemonKey::Instance("daemon-a".to_owned()),
        live,
        held: Some(Vec::new()),
    };
    let outcomes = vec![
        outcome("unhealthy", None),
        outcome("healthy", Some(Vec::new())),
    ];
    let outcomes = prefer_answered(outcomes);
    assert_eq!(outcomes[0].host.as_deref(), Some("healthy"));
}

#[test]
fn test_ensure_host_discovers_what_the_daemon_holds() {
    let local = FakeBackend::new("local");
    let host = FakeBackend::new("dev-box").identified("daemon-dev-box").holding(vec![
        // Machine-named, so it reads as its checkout instead.
        record(
            "ade-testproj-2de8b3",
            "ade-testproj-2de8b3",
            "/home/user/testproj",
            1_700_000_000,
        ),
        // Renamed by a person: discovery must not throw that away.
        record(
            "ade-scratch-0f1e2d",
            "Investigation: vector DB",
            "/home/user/scratch",
            1_700_000_100,
        ),
    ]);
    let mut service =
        service_with(Vec::new(), local.clone()).with_backend_for_host("dev-box", host);

    let listed = service.ensure_host_workspaces(Some("dev-box")).unwrap();
    assert_eq!(listed.len(), 2);
    let found = |wire: &str| {
        listed
            .iter()
            .find(|entry| entry.wire_id() == wire)
            .expect("the daemon's workspace is on the list")
    };

    let testproj = found("ade-testproj-2de8b3");
    assert!(matches!(testproj, WorkspaceEntry::Discovered { .. }));
    assert_eq!(testproj.name(), "testproj");
    assert_eq!(testproj.project_id(), "testproj");
    assert_eq!(testproj.repository_path(), "/home/user/testproj");
    assert_eq!(testproj.remote_host(), Some("dev-box"));

    let scratch = found("ade-scratch-0f1e2d");
    assert_eq!(scratch.name(), "Investigation: vector DB");
    assert_eq!(scratch.project_id(), "scratch");

    // Looking at a host records nothing about it.
    assert!(service.registry().confirmed_workspaces().is_empty());
    assert!(service.registry().unconfirmed_workspaces().is_empty());

    // And this machine's backend was never asked about another host's.
    assert!(local.calls().is_empty(), "{:?}", local.calls());
}

#[test]
fn test_legacy_discoveries_share_resolved_project_scope_and_cache_it() {
    let host = FakeBackend::new("dev-box")
        .identified("daemon-dev-box")
        .holding(vec![
            record(
                "ade-seedance2-5-2de8b3",
                "ade-seedance2-5-2de8b3",
                "/worktrees/viral-studio/seedance2-5",
                1_700_000_000,
            ),
            record(
                "ade-yookassa-0f1e2d",
                "ade-yookassa-0f1e2d",
                "/worktrees/viral-studio/yookassa",
                1_700_000_100,
            ),
        ])
        .resolving_repository("/worktrees/viral-studio/seedance2-5", "/repos/viral-studio");
    let mut service = service_with(Vec::new(), FakeBackend::new("local"))
        .with_backend_for_host("dev-box", host.clone());

    for _ in 0..2 {
        let listed = service.ensure_host_workspaces(Some("dev-box")).unwrap();
        assert_eq!(discoveries(&listed).len(), 2);
        assert!(listed.iter().all(|entry| entry.project_identity() == "/repos/viral-studio"));
        assert!(listed.iter().all(|entry| entry.project_id() == "viral-studio"));
        assert!(service.registry().confirmed_workspaces().is_empty());
    }

    assert_eq!(
        host.count_calls("resolve:"),
        2,
        "each legacy root is resolved only on the first listing"
    );
    assert_eq!(host.project_scope_updates().len(), 2);

    let confirmed = service
        .confirm_discovered(Some("dev-box"), "ade-seedance2-5-2de8b3", id(9), NOW)
        .unwrap();
    assert_eq!(confirmed.project_id, "viral-studio");
    assert_eq!(confirmed.project_identity.as_deref(), Some("/repos/viral-studio"));
    assert_eq!(
        host.count_calls("resolve:"),
        2,
        "confirmation reuses the enriched discovery"
    );
    assert_eq!(host.project_scope_updates().len(), 2);
}

#[test]
fn test_a_failed_legacy_resolution_can_heal_on_the_next_listing() {
    let host = FakeBackend::new("dev-box").identified("daemon-dev-box").holding(vec![record(
        "ade-seedance2-5-2de8b3",
        "ade-seedance2-5-2de8b3",
        "/worktrees/viral-studio/seedance2-5",
        1_700_000_000,
    )]);
    let mut service = service_with(Vec::new(), FakeBackend::new("local"))
        .with_backend_for_host("dev-box", host.clone());

    let first = service.ensure_host_workspaces(Some("dev-box")).unwrap();
    assert_eq!(first[0].project_identity(), "/worktrees/viral-studio/seedance2-5");

    host.set_repository_resolution("/worktrees/viral-studio/seedance2-5", "/repos/viral-studio");
    let second = service.ensure_host_workspaces(Some("dev-box")).unwrap();
    assert_eq!(second[0].project_identity(), "/repos/viral-studio");
    service.ensure_host_workspaces(Some("dev-box")).unwrap();
    assert_eq!(
        host.count_calls("resolve:"),
        2,
        "a failure retries once, then the successful result is cached"
    );
}

#[test]
fn test_a_failed_daemon_scope_write_retries_without_resolving_git_again() {
    let host = FakeBackend::new("dev-box")
        .identified("daemon-dev-box")
        .holding(vec![record(
            "ade-seedance2-5-2de8b3",
            "ade-seedance2-5-2de8b3",
            "/worktrees/viral-studio/seedance2-5",
            1_700_000_000,
        )])
        .resolving_repository("/worktrees/viral-studio/seedance2-5", "/repos/viral-studio");
    host.fail_next_project_scope_update("connection reset");
    let mut service = service_with(Vec::new(), FakeBackend::new("local"))
        .with_backend_for_host("dev-box", host.clone());

    for _ in 0..3 {
        let listed = service.ensure_host_workspaces(Some("dev-box")).unwrap();
        assert_eq!(listed[0].project_identity(), "/repos/viral-studio");
    }
    assert_eq!(
        host.count_calls("resolve:"),
        1,
        "the successful Git result remains cached"
    );
    assert_eq!(
        host.project_scope_updates().len(),
        2,
        "the transient write is retried once and old-daemon false is then cached"
    );
}

#[test]
fn test_confirming_a_discovery_records_exactly_one_row() {
    let host = FakeBackend::new("dev-box").identified("daemon-dev-box").holding(vec![record(
        "ade-testproj-2de8b3",
        "ade-testproj-2de8b3",
        "/home/user/testproj",
        1_700_000_000,
    )]);
    let mut service = service_with(Vec::new(), FakeBackend::new("local"))
        .with_backend_for_host("dev-box", host);

    let confirmed = service
        .confirm_discovered(Some("dev-box"), "ade-testproj-2de8b3", id(8), NOW)
        .unwrap();
    assert_eq!(confirmed.terminal_session_id.as_deref(), Some("ade-testproj-2de8b3"));
    assert_eq!(confirmed.daemon_id.as_deref(), Some("daemon-dev-box"));
    assert_eq!(confirmed.remote_host.as_deref(), Some("dev-box"));
    assert_eq!(confirmed.name, "testproj");
    // The daemon's clock for when the workspace began, this client's for when
    // it started using it.
    assert_eq!(confirmed.created_at, 1_700_000_000);
    assert!(confirmed.last_opened_at > confirmed.created_at);

    let rows = service.registry().confirmed_workspaces();
    assert_eq!(rows.len(), 1);
    assert_eq!(rows[0].id, confirmed.id);

    let again = service
        .confirm_discovered(Some("dev-box"), "ade-testproj-2de8b3", id(9), NOW)
        .unwrap();
    assert_eq!(again.id, confirmed.id, "clicking twice is not two workspaces");
    assert_eq!(service.registry().confirmed_workspaces().len(), 1);

    let listed = service.ensure_host_workspaces(Some("dev-box")).unwrap();
    assert!(discoveries(&listed).is_empty());
    assert_eq!(listed.len(), 1);
}

#[test]
fn a_discovery_is_one_row_under_another_spelling() {
    let host = FakeBackend::new("dev-box").identified("daemon-dev-box").holding(vec![record(
        "ade-testproj-2de8b3",
        "ade-testproj-2de8b3",
        "/home/user/testproj",
        1_700_000_000,
    )]);
    let mut service = service_with(Vec::new(), FakeBackend::new("local"))
        .with_backend_for_host("dev-box", host.clone())
        .with_backend_for_host("10.0.0.7", host);

    let confirmed = service
        .confirm_discovered(Some("dev-box"), "ade-testproj-2de8b3", id(8), NOW)
        .unwrap();
    let again = service
        .confirm_discovered(Some("10.0.0.7"), "ade-testproj-2de8b3", id(9), NOW + 1)
        .unwrap();
    assert_eq!(again.id, confirmed.id);
    assert_eq!(again.terminal_session_id.as_deref(), Some("ade-testproj-2de8b3"));
    assert_eq!(service.registry().confirmed_workspaces().len(), 1);
}

#[test]
fn test_confirming_promotes_a_quarantined_row_in_place() {
    let mut quarantined = workspace(1, "Renamed by hand", "project-a", "/home/user/main");
    quarantined.terminal_session_id = Some("ade-main-2de8b3".to_owned());
    quarantined.remote_host = Some("old-alias".to_owned());
    quarantined.branch = Some("feature/x".to_owned());
    quarantined.created_at = 1_600_000_000;
    let mut registry = registry_of(vec![quarantined.clone()]);
    registry.quarantine_workspace(&quarantined.id);
    assert!(registry.confirmed_workspaces().is_empty());

    let host = FakeBackend::new("dev-box").identified("daemon-dev-box").holding(vec![record(
        "ade-main-2de8b3",
        "ade-main-2de8b3",
        "/home/user/main",
        1_600_000_000,
    )]);
    let mut service =
        WorkspaceLifecycleService::with_backend(registry, FakeBackend::new("local"), nobody())
            .with_backend_for_host("old-alias", host);

    let confirmed = service
        .confirm_discovered(Some("old-alias"), "ade-main-2de8b3", id(9), NOW)
        .unwrap();
    assert_eq!(confirmed.id, quarantined.id, "the row is promoted, not replaced");
    assert_eq!(confirmed.branch.as_deref(), Some("feature/x"));
    assert_eq!(confirmed.name, "Renamed by hand");
    assert_eq!(confirmed.created_at, quarantined.created_at);
    assert_eq!(confirmed.remote_host.as_deref(), Some("old-alias"));
    assert_eq!(confirmed.daemon_id.as_deref(), Some("daemon-dev-box"));
    assert!(confirmed.last_opened_at >= quarantined.last_opened_at);

    let rows = service.registry().confirmed_workspaces();
    assert_eq!(rows.len(), 1);
    assert_eq!(rows[0].id, quarantined.id);
    assert!(service.registry().unconfirmed_workspaces().is_empty());
}

#[test]
fn test_a_record_gone_before_the_open_is_not_recorded() {
    let local = FakeBackend::new("local").holding(vec![record(
        "ade-testproj-2de8b3",
        "ade-testproj-2de8b3",
        "/home/user/testproj",
        1_700_000_000,
    )]);
    let mut service = service_with(Vec::new(), local.clone());

    let listed = service.ensure_host_workspaces(None).unwrap();
    assert_eq!(discoveries(&listed).len(), 1);

    // Another client kills it while this one is still showing the row.
    local.clone().kill_workspace("ade-testproj-2de8b3", None).unwrap();

    let error = service
        .confirm_discovered(None, "ade-testproj-2de8b3", id(9), NOW)
        .expect_err("a record that is gone cannot be confirmed");
    assert!(matches!(error, Failure::Gone(_)), "{}", error.message());
    assert!(service.registry().confirmed_workspaces().is_empty());
    assert!(service.registry().unconfirmed_workspaces().is_empty());

    let reconciled = service.reconcile_all();
    assert!(discoveries(&reconciled.entries).is_empty());
}

#[test]
fn test_a_failed_listing_keeps_its_discoveries_as_unknown() {
    let local = FakeBackend::new("local").holding(vec![record(
        "ade-testproj-2de8b3",
        "ade-testproj-2de8b3",
        "/home/user/testproj",
        1_700_000_000,
    )]);
    let mut service = service_with(Vec::new(), local.clone());

    let reconciled = service.reconcile_all();
    let found = discoveries(&reconciled.entries);
    assert_eq!(found.len(), 1);
    // The fake holds no session under that id, so it reads as gone.
    assert_eq!(found[0].state(), SessionState::Dead);

    local.goes_down("ssh: connect: no route to host");
    let reconciled = service.reconcile_all();
    let found = discoveries(&reconciled.entries);
    assert_eq!(found.len(), 1, "a transient failure must not empty the sidebar");
    assert_eq!(found[0].wire_id(), "ade-testproj-2de8b3");
    assert_eq!(
        found[0].state(),
        SessionState::Unknown,
        "nothing is claimed about a host that could not be asked"
    );
    assert_eq!(reconciled.host_errors.len(), 1, "{:?}", reconciled.host_errors);

    // And a host that will not answer is still no reason to write a row.
    assert!(service.registry().confirmed_workspaces().is_empty());
}

#[test]
fn test_aliases_of_one_daemon_do_not_duplicate_its_record() {
    let remote = FakeBackend::new("remote").identified("daemon-1").holding(vec![record(
        "ade-viral-studio-2de8b3",
        "ade-viral-studio-2de8b3",
        "/home/user/Code/viral-studio",
        1_700_000_000,
    )]);
    let mut service = service_with(Vec::new(), FakeBackend::new("local"))
        .with_backend_for_host("100.78.83.67", remote.clone())
        .with_backend_for_host("fevm1.local", remote);

    let reconciled = service.reconcile_all();
    assert_eq!(
        discoveries(&reconciled.entries).len(),
        1,
        "one daemon reached twice holds one workspace, not two"
    );

    let original = service
        .confirm_discovered(Some("100.78.83.67"), "ade-viral-studio-2de8b3", id(8), NOW)
        .unwrap();
    assert_eq!(original.daemon_id.as_deref(), Some("daemon-1"));

    let reconciled = service.reconcile_all();
    assert!(discoveries(&reconciled.entries).is_empty());
    assert_eq!(reconciled.entries.len(), 1);

    // The other spelling reaches the same daemon, so it finds the row by
    // identity rather than recording a second one.
    let again = service
        .confirm_discovered(Some("fevm1.local"), "ade-viral-studio-2de8b3", id(9), NOW)
        .unwrap();
    assert_eq!(again.id, original.id);
    assert_eq!(
        again.terminal_session_id, original.terminal_session_id,
        "its session history moves with it"
    );
    assert_eq!(service.registry().confirmed_workspaces().len(), 1);
}

#[test]
fn test_a_working_alias_wins_over_a_failed_alias_of_the_same_daemon() {
    let record = record(
        "ade-viral-studio-2de8b3",
        "ade-viral-studio-2de8b3",
        "/home/user/Code/viral-studio",
        1_700_000_000,
    );
    let failed = FakeBackend::failing("failed", "ssh: connect: timed out")
        .identified("daemon-1")
        .holding(vec![record.clone()]);
    let healthy =
        FakeBackend::new("healthy").identified("daemon-1").holding(vec![record]);
    healthy
        .clone()
        .create(
            &SessionSpec::new(
                SessionId("ade-viral-studio-2de8b3".to_owned()),
                "/home/user/Code/viral-studio".to_owned(),
            ),
            None,
        )
        .unwrap();
    let mut service = service_with(Vec::new(), FakeBackend::new("local"))
        .with_backend_for_host("a-failed", failed)
        .with_backend_for_host("z-healthy", healthy);

    let reconciled = service.reconcile_all();
    let found = discoveries(&reconciled.entries);
    assert_eq!(found.len(), 1);
    assert_eq!(found[0].remote_host(), Some("z-healthy"));
    assert_eq!(found[0].state(), SessionState::Alive);
}

#[test]
fn test_an_identityless_daemons_route_is_its_identity() {
    let remote = FakeBackend::new("remote").holding(vec![record(
        "ade-viral-studio-2de8b3",
        "ade-viral-studio-2de8b3",
        "/home/user/Code/viral-studio",
        1_700_000_000,
    )]);
    let mut service = service_with(Vec::new(), FakeBackend::new("local"))
        .with_backend_for_host("100.78.83.67", remote.clone())
        .with_backend_for_host("fevm1.local", remote);

    let original = service
        .confirm_discovered(Some("100.78.83.67"), "ade-viral-studio-2de8b3", id(8), NOW)
        .unwrap();

    let listed = service.ensure_host_workspaces(Some("fevm1.local")).unwrap();
    assert_eq!(listed.len(), 1);
    assert_eq!(discoveries(&listed).len(), 1);
    let stored = service.registry().get_workspace(&original.id).unwrap();
    assert_eq!(stored.remote_host.as_deref(), Some("100.78.83.67"));

    let confirmed = service
        .confirm_discovered(Some("fevm1.local"), "ade-viral-studio-2de8b3", id(9), NOW)
        .unwrap();
    assert_ne!(confirmed.id, original.id);
    assert_eq!(confirmed.remote_host.as_deref(), Some("fevm1.local"));
    assert_eq!(service.registry().confirmed_workspaces().len(), 2);
}

#[test]
fn test_operations_on_a_persisted_row_carry_its_daemon() {
    let backend = FakeBackend::new("a-box").identified("daemon-a");
    let mut owned = workspace(1, "main", "project-a", "/home/user/main");
    owned.terminal_session_id = Some("ade-main-2de8b3".to_owned());
    owned.daemon_id = Some("daemon-a".to_owned());
    owned.remote_host = Some("a.example".to_owned());
    // A row from before identities were recorded stays permissive.
    let mut legacy = workspace(2, "old", "project-b", "/home/user/old");
    legacy.terminal_session_id = Some("ade-old-000001".to_owned());
    legacy.remote_host = Some("a.example".to_owned());
    let mut service =
        service_with(vec![owned.clone(), legacy.clone()], FakeBackend::new("local"))
            .with_backend_for_host("a.example", backend.clone());

    let mut probed = owned.clone();
    service.probe(&mut probed).unwrap();
    service.attach_command(&owned).unwrap();
    service.kill_workspace(&owned.id).unwrap();

    assert_eq!(
        backend.calls(),
        vec![
            "exists:ade-main-2de8b3|daemon-a",
            "attach:ade-main-2de8b3|daemon-a",
            "kill_workspace:ade-main-2de8b3|daemon-a",
        ]
    );

    service.attach_command(&legacy).unwrap();
    assert!(
        backend.calls().contains(&"attach:ade-old-000001".to_owned()),
        "{:?}",
        backend.calls()
    );
}

#[test]
fn test_another_daemons_listing_cannot_probe_a_fenced_row() {
    let replacement = FakeBackend::new("a-box").identified("daemon-b");
    let mut owned = workspace(1, "main", "project-a", "/home/user/main");
    owned.terminal_session_id = Some("ade-main-2de8b3".to_owned());
    owned.daemon_id = Some("daemon-a".to_owned());
    owned.remote_host = Some("a.example".to_owned());
    owned.status = WorkspaceStatus::Running;
    let mut service = service_with(vec![owned.clone()], FakeBackend::new("local"))
        .with_backend_for_host("a.example", replacement);

    let reconciled = service.reconcile_all();
    let (row, state) = reconciled
        .entries
        .iter()
        .filter_map(WorkspaceEntry::persisted)
        .find(|(row, _)| row.id == owned.id)
        .expect("the row is reconciled, not dropped");
    assert_eq!(state, SessionState::Unknown);
    assert_eq!(
        row.status,
        WorkspaceStatus::Running,
        "a stranger's listing must not move the recorded status"
    );
}

#[test]
fn test_a_persisted_daemon_id_identifies_and_owns_its_row() {
    let mut cold_started = workspace(1, "main", "project-a", "/home/user/main");
    cold_started.terminal_session_id = Some("ade-main-2de8b3".to_owned());
    cold_started.daemon_id = Some("daemon-a".to_owned());

    let held = || {
        vec![record(
            "ade-main-2de8b3",
            "ade-main-2de8b3",
            "/home/user/main",
            1_700_000_000,
        )]
    };
    let daemon_a = FakeBackend::new("daemon-a-box").identified("daemon-a").holding(held());
    let daemon_b = FakeBackend::new("daemon-b-box").identified("daemon-b").holding(held());
    let mut service = service_with(vec![cold_started.clone()], FakeBackend::new("local"))
        .with_backend_for_host("a.example", daemon_a);

    let listed = service.ensure_host_workspaces(Some("a.example")).unwrap();
    assert_eq!(listed.len(), 1);
    let (row, _) = listed[0].persisted().expect("daemon A's own row");
    assert_eq!(row.id, cold_started.id);
    assert_eq!(row.remote_host.as_deref(), Some("a.example"));

    // The same alias now reaches another daemon with a colliding record.
    let mut service = service.with_backend_for_host("a.example", daemon_b);
    let listed = service.ensure_host_workspaces(Some("a.example")).unwrap();
    assert_eq!(listed.len(), 1);
    assert!(listed.iter().all(|entry| entry.persisted().is_none()));
    let a_row = service
        .registry()
        .get_workspace(&cold_started.id)
        .expect("daemon A's row survives untouched");
    assert_eq!(
        a_row.remote_host.as_deref(),
        Some("a.example"),
        "daemon B must not have reclaimed it"
    );
    assert_eq!(a_row.daemon_id.as_deref(), Some("daemon-a"));
    assert_eq!(
        discoveries(&listed).len(),
        1,
        "daemon B's colliding record is a discovery, not a row it stole"
    );
    assert_eq!(
        service.registry().confirmed_workspaces().len(),
        1,
        "and a listing writes nothing, colliding or not"
    );
}

#[test]
fn test_a_persisted_daemon_id_wins_over_a_newer_legacy_match() {
    let session_id = "ade-main-2de8b3";

    let mut exact = workspace(1, "main", "project-a", "/home/user/main");
    exact.terminal_session_id = Some(session_id.to_owned());
    exact.daemon_id = Some("daemon-a".to_owned());
    exact.remote_host = Some("old-alias".to_owned());
    exact.last_opened_at = 1_000;
    exact.project_identity = Some("/home/user/main".to_owned());
    exact.project_scope_rev = 2;

    let mut legacy = workspace(2, "legacy", "project-a", "/home/user/main");
    legacy.terminal_session_id = Some(session_id.to_owned());
    legacy.remote_host = Some("new-alias".to_owned());
    legacy.last_opened_at = 2_000;
    legacy.project_id = "wrong-project".to_owned();
    legacy.project_identity = Some("/home/user/wrong-project".to_owned());
    legacy.project_scope_rev = 3;

    let backend = FakeBackend::new("daemon-a").identified("daemon-a").holding(vec![record(
        session_id,
        session_id,
        "/home/user/main",
        1_700_000_000,
    )]);
    let mut service =
        service_with(vec![exact.clone(), legacy.clone()], FakeBackend::new("local"))
            .with_backend_for_host("new-alias", backend);

    let listed = service.ensure_host_workspaces(Some("new-alias")).unwrap();
    let rows: Vec<&AdeWorkspace> = listed
        .iter()
        .filter_map(WorkspaceEntry::persisted)
        .map(|(workspace, _)| workspace)
        .collect();
    let exact = rows
        .iter()
        .find(|workspace| workspace.id == exact.id)
        .expect("the identified row survives");
    assert_eq!(exact.remote_host.as_deref(), Some("new-alias"));
    assert_eq!(exact.daemon_id.as_deref(), Some("daemon-a"));
    assert_eq!(exact.project_identity.as_deref(), Some("/home/user/main"));
    let legacy = rows
        .iter()
        .find(|workspace| workspace.id == legacy.id)
        .expect("the legacy row is not rebound");
    assert_eq!(legacy.project_id, "wrong-project");
    assert!(legacy.daemon_id.is_none());
}

#[test]
fn two_confirmations_agree_on_one_row() {
    let remote = FakeBackend::new("remote").identified("daemon-1").holding(vec![record(
        "ade-viral-studio-2de8b3",
        "ade-viral-studio-2de8b3",
        "/home/user/Code/viral-studio",
        1_700_000_000,
    )]);
    let mut service = service_with(Vec::new(), FakeBackend::new("local"))
        .with_backend_for_host("100.78.83.67", remote.clone())
        .with_backend_for_host("fevm1.local", remote);

    let by_ip = service
        .confirm_discovered(Some("100.78.83.67"), "ade-viral-studio-2de8b3", id(8), NOW)
        .unwrap();
    let by_name = service
        .confirm_discovered(Some("fevm1.local"), "ade-viral-studio-2de8b3", id(9), NOW)
        .unwrap();

    assert_eq!(by_ip.id, by_name.id, "both callers get the daemon's one row");
    assert_eq!(service.registry().confirmed_workspaces().len(), 1);
}

#[test]
fn test_discovery_refreshes_a_listing_after_taking_the_daemon_lock() {
    let remote = FakeBackend::new("remote")
        .identified("daemon-a")
        .holding(vec![record("ade-stale-000001", "stale", "/repos/stale", 1)]);
    remote.replace_workspaces_after_next_list(Vec::new());
    let mut service = service_with(Vec::new(), FakeBackend::new("local"))
        .with_backend_for_host("remote", remote.clone());

    assert!(
        service.ensure_host_workspaces(Some("remote")).unwrap().is_empty(),
        "a workspace killed before the locked refresh must not be adopted"
    );
    assert_eq!(remote.count_exact("list_workspaces"), 2);
}

#[test]
fn test_project_scope_update_keeps_dead_row_recreatable_when_record_is_missing() {
    let mut row = workspace(
        1,
        "seedance2-5",
        "seedance2-5",
        "/worktrees/viral-studio/seedance2-5",
    );
    row.terminal_session_id = Some("ade-seedance2-5-000001".to_owned());
    let mut service = service_with(vec![row.clone()], FakeBackend::new("local"));

    let updated = service
        .update_workspace_project_scope(&row.id, "viral-studio", "/repos/viral-studio")
        .unwrap();
    assert_eq!(updated.project_id, "viral-studio");
    assert_eq!(updated.project_identity.as_deref(), Some("/repos/viral-studio"));
    assert_eq!(
        service
            .registry()
            .get_workspace(&row.id)
            .unwrap()
            .project_identity
            .as_deref(),
        Some("/repos/viral-studio")
    );
}

#[test]
fn test_repository_scope_update_moves_root_and_identity_together() {
    let mut row = workspace(1, "feature", "project-a", "/repos/project-a-old");
    row.daemon_id = Some("daemon-a".to_owned());
    row.terminal_session_id = Some("ade-project-a-000001".to_owned());
    let mut sibling = workspace(2, "other", "project-a", "/repos/project-a-old");
    sibling.daemon_id = Some("daemon-a".to_owned());
    sibling.terminal_session_id = Some("ade-project-a-000002".to_owned());
    let backend = FakeBackend::new("local").identified("daemon-a").holding(vec![
        record("ade-project-a-000001", "feature", "/repos/project-a-old", 1),
        record("ade-project-a-000002", "other", "/repos/project-a-old", 1),
    ]);
    let mut service = service_with(vec![row.clone(), sibling.clone()], backend.clone());

    let updated = service
        .update_workspace_repository_scope(
            &row.id,
            "/repos/project-a-new",
            "project-a-new",
            "/repos/project-a-main",
        )
        .unwrap();
    assert_eq!(updated.repository_path, "/repos/project-a-new");
    assert_eq!(updated.project_scope_rev, 1);
    assert_eq!(updated.project_id, "project-a-new");
    assert_eq!(updated.project_identity.as_deref(), Some("/repos/project-a-main"));
    assert_eq!(service.registry().get_workspace(&row.id), Some(updated));
    let stored_sibling = service.registry().get_workspace(&sibling.id).unwrap();
    assert_eq!(stored_sibling.repository_path, "/repos/project-a-new");
    assert_eq!(stored_sibling.project_scope_rev, 1);
    assert_eq!(stored_sibling.project_id, "project-a-new");
    assert_eq!(
        stored_sibling.project_identity.as_deref(),
        Some("/repos/project-a-main")
    );
    assert_eq!(backend.project_scope_updates().len(), 2);
    assert_eq!(
        backend.project_scope_updates()[0].3.as_deref(),
        Some("/repos/project-a-new")
    );
}

#[test]
fn test_old_daemon_discovery_gets_a_canonical_local_scope() {
    let remote = FakeBackend::new("remote").identified("daemon-a").holding(vec![record(
        "ade-seedance2-5-000001",
        "seedance2-5",
        "/worktrees/viral-studio/seedance2-5",
        1,
    )]);
    let mut service = service_with(Vec::new(), FakeBackend::new("local"))
        .with_backend_for_host("remote", remote);

    assert_eq!(
        service
            .update_discovered_workspace_project_scope(
                Some("remote"),
                "ade-seedance2-5-000001",
                "viral-studio",
                "/repos/viral-studio",
                id(9),
                NOW,
            )
            .unwrap(),
        Some(false),
        "the old backend cannot persist project metadata"
    );
    let rows = service.registry().confirmed_workspaces();
    assert_eq!(rows.len(), 1, "the discovered record is adopted once");
    assert_eq!(rows[0].project_id, "viral-studio");
    assert_eq!(rows[0].project_identity.as_deref(), Some("/repos/viral-studio"));
    assert_eq!(
        rows[0].terminal_session_id.as_deref(),
        Some("ade-seedance2-5-000001")
    );
}

fn seedance_row() -> AdeWorkspace {
    let mut row = workspace(
        1,
        "seedance2-5",
        "seedance2-5",
        "/worktrees/viral-studio/seedance2-5",
    );
    row.remote_host = Some("remote".to_owned());
    row.daemon_id = Some("daemon-a".to_owned());
    row.terminal_session_id = Some("ade-seedance2-5-000001".to_owned());
    row
}

#[test]
fn test_reconciliation_hydrates_project_scope_from_daemon() {
    let row = seedance_row();
    let mut held = record(
        "ade-seedance2-5-000001",
        "seedance2-5",
        "/worktrees/viral-studio/seedance2-5",
        1,
    );
    held.project_id = Some("viral-studio".to_owned());
    held.project_identity = Some("/repos/viral-studio".to_owned());
    let remote = FakeBackend::new("remote").identified("daemon-a").holding(vec![held]);
    let mut service = service_with(vec![row.clone()], FakeBackend::new("local"))
        .with_backend_for_host("remote", remote);

    service.ensure_host_workspaces(Some("remote")).unwrap();
    let stored = service.registry().get_workspace(&row.id).unwrap();
    assert_eq!(stored.project_id, "viral-studio");
    assert_eq!(stored.project_identity.as_deref(), Some("/repos/viral-studio"));
}

fn studio_record(root: &str) -> BackendWorkspace {
    let mut held = record("ade-viral-studio-000001", "feature", root, 1);
    held.project_id = Some("viral-studio".to_owned());
    held.project_identity = Some("/repos/viral-studio-main".to_owned());
    held.project_scope_rev = 1;
    held
}

#[test]
fn test_reconciliation_hydrates_root_and_scope_from_daemon_together() {
    let mut row = workspace(1, "feature", "viral-studio", "/repos/viral-studio-old");
    row.project_identity = Some("/repos/viral-studio".to_owned());
    row.remote_host = Some("remote".to_owned());
    row.daemon_id = Some("daemon-a".to_owned());
    row.terminal_session_id = Some("ade-viral-studio-000001".to_owned());
    let remote = FakeBackend::new("remote")
        .identified("daemon-a")
        .holding(vec![studio_record("/repos/viral-studio-new")]);
    let mut service = service_with(vec![row.clone()], FakeBackend::new("local"))
        .with_backend_for_host("remote", remote);

    service.ensure_host_workspaces(Some("remote")).unwrap();
    let stored = service.registry().get_workspace(&row.id).unwrap();
    assert_eq!(stored.repository_path, "/repos/viral-studio-new");
    assert_eq!(stored.project_scope_rev, 1);
    assert_eq!(stored.project_id, "viral-studio");
    assert_eq!(
        stored.project_identity.as_deref(),
        Some("/repos/viral-studio-main")
    );
}

#[test]
fn test_equal_root_revision_keeps_the_local_pending_root() {
    let mut row = workspace(1, "feature", "viral-studio", "/repos/viral-studio-new");
    row.project_identity = Some("/repos/viral-studio-main".to_owned());
    row.project_scope_rev = 1;
    row.remote_host = Some("remote".to_owned());
    row.daemon_id = Some("daemon-a".to_owned());
    row.terminal_session_id = Some("ade-viral-studio-000001".to_owned());
    let remote = FakeBackend::new("remote")
        .identified("daemon-a")
        .holding(vec![studio_record("/repos/viral-studio-old")]);
    let mut service = service_with(vec![row.clone()], FakeBackend::new("local"))
        .with_backend_for_host("remote", remote.clone());

    service.ensure_host_workspaces(Some("remote")).unwrap();
    let stored = service.registry().get_workspace(&row.id).unwrap();
    assert_eq!(stored.repository_path, "/repos/viral-studio-new");
    assert_eq!(stored.project_scope_rev, 1);
    assert_eq!(
        remote.project_scope_updates()[0].3.as_deref(),
        Some("/repos/viral-studio-new")
    );
}

#[test]
fn test_reconciliation_hydrates_scope_from_a_resolved_legacy_record() {
    let row = seedance_row();
    let remote = FakeBackend::new("remote")
        .identified("daemon-a")
        .holding(vec![record(
            "ade-seedance2-5-000001",
            "seedance2-5",
            "/worktrees/viral-studio/seedance2-5",
            1,
        )])
        .resolving_repository("/worktrees/viral-studio/seedance2-5", "/repos/viral-studio");
    let mut service = service_with(vec![row.clone()], FakeBackend::new("local"))
        .with_backend_for_host("remote", remote);

    service.ensure_host_workspaces(Some("remote")).unwrap();
    let stored = service.registry().get_workspace(&row.id).unwrap();
    assert_eq!(stored.project_id, "viral-studio");
    assert_eq!(stored.project_identity.as_deref(), Some("/repos/viral-studio"));
}

#[test]
fn test_missing_legacy_record_resolves_scope_without_a_daemon_workspace() {
    let row = seedance_row();
    let remote = FakeBackend::new("remote")
        .identified("daemon-a")
        .resolving_repository("/worktrees/viral-studio/seedance2-5", "/repos/viral-studio");
    let mut service = service_with(vec![row.clone()], FakeBackend::new("local"))
        .with_backend_for_host("remote", remote.clone());

    for _ in 0..2 {
        let listed = service.ensure_host_workspaces(Some("remote")).unwrap();
        assert_eq!(listed.len(), 1);
        assert_eq!(listed[0].project_id(), "viral-studio");
        assert_eq!(listed[0].project_identity(), "/repos/viral-studio");
    }
    assert_eq!(
        remote.count_calls("resolve:"),
        1,
        "the persisted scope is the success cache"
    );
    let stored = service.registry().get_workspace(&row.id).unwrap();
    assert_eq!(stored.project_id, "viral-studio");
    assert_eq!(stored.project_identity.as_deref(), Some("/repos/viral-studio"));
}

#[test]
fn test_missing_legacy_record_resolves_on_its_route_after_daemon_restart() {
    let row = seedance_row();
    let remote = FakeBackend::new("remote")
        .identified("daemon-b")
        .resolving_repository("/worktrees/viral-studio/seedance2-5", "/repos/viral-studio");
    let mut service = service_with(vec![row.clone()], FakeBackend::new("local"))
        .with_backend_for_host("remote", remote.clone());

    service.ensure_host_workspaces(Some("remote")).unwrap();
    let stored = service.registry().get_workspace(&row.id).unwrap();
    assert_eq!(stored.project_id, "viral-studio");
    assert_eq!(stored.project_identity.as_deref(), Some("/repos/viral-studio"));
    assert_eq!(remote.count_calls("resolve:"), 1);
}

#[test]
fn test_persisted_multi_root_scope_beats_a_legacy_daemon_record() {
    let project_identity = "/repos/project-a\n/repos/project-b".to_owned();
    let mut row = workspace(
        1,
        "project-a",
        "multi-project",
        "/worktrees/project-a/feature",
    );
    row.project_identity = Some(project_identity.clone());
    row.remote_host = Some("remote".to_owned());
    row.daemon_id = Some("daemon-a".to_owned());
    row.terminal_session_id = Some("ade-project-a-000001".to_owned());
    let remote = FakeBackend::new("remote").identified("daemon-a").holding(vec![record(
        "ade-project-a-000001",
        "project-a",
        "/worktrees/project-a/feature",
        1,
    )]);
    let mut service = service_with(vec![row.clone()], FakeBackend::new("local"))
        .with_backend_for_host("remote", remote.clone());

    for _ in 0..2 {
        let listed = service.ensure_host_workspaces(Some("remote")).unwrap();
        assert_eq!(listed[0].project_id(), "multi-project");
        assert_eq!(listed[0].project_identity(), project_identity);
    }
    assert_eq!(
        remote.count_calls("resolve:"),
        0,
        "an authoritative multi-root identity must not be replaced by a Git lookup"
    );
    assert_eq!(remote.project_scope_updates().len(), 1);
    let stored = service.registry().get_workspace(&row.id).unwrap();
    assert_eq!(stored.project_id, "multi-project");
    assert_eq!(stored.project_identity, Some(project_identity));
}

#[test]
fn test_discovery_retries_when_the_listing_changes_daemon() {
    let remote = FakeBackend::new("remote")
        .identified("daemon-b")
        .listing_identities(vec![Some("daemon-a"), Some("daemon-b"), Some("daemon-b")])
        .holding(vec![record("ade-current-000001", "current", "/repos/current", 1)]);
    let mut service = service_with(Vec::new(), FakeBackend::new("local"))
        .with_backend_for_host("remote", remote.clone());

    let listed = service.ensure_host_workspaces(Some("remote")).unwrap();
    assert_eq!(listed.len(), 1);
    assert_eq!(discoveries(&listed).len(), 1);
    assert_eq!(remote.count_exact("list_workspaces"), 4);
}

#[test]
fn a_legacy_row_survives_its_kill_after_an_alias_discovery() {
    let daemon_workspace = record("ade-shared-000001", "shared", "/repos/shared", 1);
    let backend = FakeBackend::new("remote")
        .identified("daemon-a")
        .holding(vec![daemon_workspace.clone()]);
    let mut legacy = row_for_record(&daemon_workspace, Some("old-alias"), None, id(1), NOW);
    legacy.status = WorkspaceStatus::Running;
    let mut service = service_with(vec![legacy.clone()], FakeBackend::new("local"))
        .with_backend_for_host("old-alias", backend.clone())
        .with_backend_for_host("new-alias", backend.clone());

    service.ensure_host_workspaces(Some("new-alias")).unwrap();
    service.kill_workspace(&legacy.id).unwrap();

    let rows = service.registry().confirmed_workspaces();
    assert_eq!(rows.len(), 1);
    assert_eq!(rows[0].id, legacy.id);
    assert!(rows[0].terminal_session_id.is_none());
    assert!(rows[0].daemon_id.is_none());
    assert!(backend.state().workspaces.is_empty());
}

#[test]
fn test_manual_remote_create_uses_the_git_project_identity() {
    let local = FakeBackend::new("local");
    let checkout = "/home/user/Code/worktrees/viral-studio/vast-dune/seedance2-5";
    let project_identity = "/home/user/Code/viral-studio";
    let remote = FakeBackend::new("remote").resolving_repository(checkout, project_identity);
    let mut service = service_with(Vec::new(), local.clone())
        .with_backend_for_host("build-box", remote.clone());
    let requested = "~/Code/worktrees/viral-studio/vast-dune/seedance2-5/src";

    let created = service
        .create_workspace_from_repository(NewWorkspace {
            id: id(1),
            name: "seedance2-5".to_owned(),
            project_id: String::new(),
            project_identity: None,
            repository_path: requested.to_owned(),
            branch: None,
            remote_host: Some("build-box".to_owned()),
            now: NOW,
        })
        .expect("manual workspace creation should resolve its repository");

    assert_eq!(created.repository_path, checkout);
    assert_eq!(created.project_id, "viral-studio");
    assert_eq!(created.project_identity.as_deref(), Some(project_identity));
    assert_eq!(created.remote_host.as_deref(), Some("build-box"));
    assert!(remote.calls().contains(&format!("resolve:{requested}")));
    assert!(local.calls().is_empty());
}

#[test]
fn test_reconcile_discovers_daemon_only_workspaces() {
    let local = FakeBackend::new("local");
    let mut service = service_with(Vec::new(), local.clone());

    let known = create(&mut service, 1, "known", "project-a", "/repos/zed", None);
    local.hold(record(
        "ade-testproj-2de8b3",
        "ade-testproj-2de8b3",
        "/home/user/testproj",
        1_700_000_000,
    ));

    let reconciled = service.reconcile_all();
    assert!(reconciled.host_errors.is_empty(), "{:?}", reconciled.host_errors);
    assert_eq!(reconciled.entries.len(), 2);

    // Rows lead; what the host merely holds follows them.
    let (row, _) = reconciled.entries[0].persisted().expect("this client's row leads");
    assert_eq!(row.id, known.id);

    let found = discoveries(&reconciled.entries);
    assert_eq!(found.len(), 1);
    assert_eq!(found[0].wire_id(), "ade-testproj-2de8b3");
    assert_eq!(found[0].name(), "testproj");
    // Probed in the same pass: the fake holds no session under that id.
    assert_eq!(found[0].state(), SessionState::Dead);
    assert_eq!(
        service.registry().confirmed_workspaces().len(),
        1,
        "a discovery is not a row"
    );

    // A second pass records nothing further either.
    let again = service.reconcile_all();
    assert_eq!(again.entries.len(), 2);
    assert_eq!(service.registry().confirmed_workspaces().len(), 1);
}

#[test]
fn test_a_derived_workspace_name_is_recognised() {
    // A session id in the place a project name belongs.
    assert!(is_derived_workspace_name("ade-testproj-2de8b3"));
    assert!(is_derived_workspace_name("ade-feature-auth-012345"));
    // A name somebody typed, which is kept verbatim.
    assert!(!is_derived_workspace_name("testproj"));
    assert!(!is_derived_workspace_name("Investigation: vector DB"));
    assert!(!is_derived_workspace_name("my-project"));
    // The right shape but the wrong prefix, or the wrong id.
    assert!(!is_derived_workspace_name("zed-main-012345"));
    assert!(!is_derived_workspace_name("ade-main-01234"));
    assert!(!is_derived_workspace_name("ade-main-zzzzzz"));

    assert_eq!(display_name_for("ade-testproj-2de8b3", "testproj"), "testproj");
    assert_eq!(display_name_for("a name", "testproj"), "a name");
}

fn backendless_service(rows: Vec<AdeWorkspace>) -> Service {
    service_with(
        rows,
        FakeBackend::failing("local", "no session backend in this test"),
    )
}

#[test]
fn test_never_created_needs_no_backend() {
    let mut workspace = workspace(1, "main", "project-a", "/repos/zed");
    let mut service = backendless_service(vec![workspace.clone()]);

    // No session id means nothing to ask the backend about.
    assert_eq!(
        service.probe(&mut workspace).unwrap(),
        SessionState::NeverCreated
    );
    assert_eq!(workspace.status, WorkspaceStatus::Creating);

    let (opened, state) = service.open_workspace(&workspace.id, NOW).unwrap();
    assert_eq!(state, SessionState::NeverCreated);
    assert_eq!(opened.status, WorkspaceStatus::Creating);
}

#[test]
fn test_backend_failure_records_error_status() {
    let mut service = backendless_service(Vec::new());

    let error = try_create(&mut service, 1, "main", "project-a", "/repos/zed", None).unwrap_err();
    assert!(error.message().contains("no session backend in this test"));

    // The row survives, marked so the user can see what happened.
    let stored = service.registry().confirmed_workspaces();
    assert_eq!(stored.len(), 1);
    assert_eq!(stored[0].status, WorkspaceStatus::Error);
    assert!(stored[0].terminal_session_id.is_none());
}

#[test]
fn test_a_remote_workspace_is_served_by_its_hosts_backend() {
    let local = FakeBackend::new("local");
    let host = FakeBackend::new("dev-box");
    let mut service =
        service_with(Vec::new(), local.clone()).with_backend_for_host("dev-box", host.clone());

    // The path is read on the host, so it is never checked here.
    let workspace = service
        .create_workspace_scoped(NewWorkspace {
            id: id(1),
            name: "main".to_owned(),
            project_id: "project-a".to_owned(),
            project_identity: Some("/srv/checkouts/zed".to_owned()),
            repository_path: "/srv/checkouts/zed".to_owned(),
            branch: Some("main".to_owned()),
            remote_host: Some("dev-box".to_owned()),
            now: NOW,
        })
        .unwrap();
    let session = workspace.tmux_session_name();
    assert_eq!(workspace.remote_host.as_deref(), Some("dev-box"));
    assert_eq!(workspace.status, WorkspaceStatus::Running);
    assert_eq!(host.calls(), vec![format!("create:{session}")]);

    // Probe.
    let mut probed = workspace.clone();
    assert_eq!(service.probe(&mut probed).unwrap(), SessionState::Alive);

    // Attach: the argv is the host backend's, not this machine's.
    let argv = service.attach_command(&workspace).unwrap().argv;
    assert_eq!(argv, vec!["dev-box-attach".to_owned(), session.clone()]);

    // Recreate on a live session adopts rather than duplicating.
    let recreated = service.recreate_session(&workspace.id).unwrap();
    assert_eq!(recreated.terminal_session_id.as_deref(), Some(session.as_str()));

    // Stop detaches on the host; kill kills there.
    let stopped = service.stop_workspace(&workspace.id).unwrap();
    assert_eq!(stopped.status, WorkspaceStatus::Stopped);
    assert!(host.calls().contains(&format!("detach:{session}")));

    let killed = service.kill_workspace_session(&workspace.id).unwrap();
    assert_eq!(killed.status, WorkspaceStatus::Stopped);
    assert_eq!(killed.terminal_session_id.as_deref(), Some(session.as_str()));
    assert_eq!(killed.daemon_id, workspace.daemon_id);
    assert!(host.calls().contains(&format!("kill:{session}")));

    assert!(
        local.calls().is_empty(),
        "this machine's backend was asked about a remote workspace: {:?}",
        local.calls()
    );
}

#[test]
fn test_one_unreachable_host_does_not_block_the_others() {
    let local = FakeBackend::new("local");
    let down = FakeBackend::failing("h1", "ssh: connect: no route to host");
    let mut there = workspace(2, "there", "project-a", "/srv/zed");
    there.remote_host = Some("h1".to_owned());
    there.terminal_session_id = Some(there.tmux_session_name());
    there.status = WorkspaceStatus::Running;
    let mut service = service_with(vec![there.clone()], local.clone())
        .with_backend_for_host("h1", down.clone());

    let here = create(&mut service, 1, "here", "project-a", "/repos/zed", None);

    let reconciled = service.reconcile_all();
    let state_of = |id: &WorkspaceId| {
        reconciled
            .entries
            .iter()
            .filter_map(WorkspaceEntry::persisted)
            .find(|(workspace, _)| &workspace.id == id)
            .map(|(_, state)| state)
    };

    // Both rows are there. A host being down never empties the sidebar.
    assert_eq!(reconciled.entries.len(), 2);
    assert_eq!(state_of(&here.id), Some(SessionState::Alive));
    assert_eq!(state_of(&there.id), Some(SessionState::Unknown));

    assert_eq!(reconciled.host_errors.len(), 1);
    let (host, message) = &reconciled.host_errors[0];
    assert_eq!(host, "h1");
    assert!(message.contains("no route to host"), "{message}");

    // Nothing was written about the host that could not be asked.
    let stored = service.registry().get_workspace(&there.id).unwrap();
    assert_eq!(stored.status, WorkspaceStatus::Running);
    assert_eq!(
        local.calls(),
        vec![
            format!("create:{}", here.tmux_session_name()),
            "list_workspaces".to_owned(),
            "list_workspaces".to_owned(),
            "list".to_owned()
        ]
    );
    assert_eq!(down.calls(), vec!["list_workspaces".to_owned()]);
}

/// Forwards whatever the opened streams hold by now.
fn drain(pumps: &mut EventPumps, opened: &OpenedPumps) {
    for pump in &opened.pumps {
        while let Ok(event) = pump.events.try_recv() {
            if !pumps.forward(pump.generation, pump.remote_host.as_deref(), event) {
                break;
            }
        }
    }
}

fn status_event(id: &str, change: SessionChange) -> StatusEvent {
    StatusEvent::new(SessionId(id.to_owned()), change)
}

fn layout_event(rev: u64) -> LayoutEvent {
    LayoutEvent {
        workspace_id: "ade-here-000001".to_owned(),
        layout: LayoutDoc { document: "{}".to_owned() },
        rev,
    }
}

#[test]
fn test_status_from_every_host_arrives_on_one_stream() {
    let local = FakeBackend::new("local");
    let host = FakeBackend::new("h1");
    let mut service =
        service_with(Vec::new(), local.clone()).with_backend_for_host("h1", host.clone());
    let mut pumps = EventPumps::new();

    assert_eq!(service.status_delivery(), StatusDelivery::Push);
    let events = pumps.fanout().subscribe_status();
    let opened = service.ensure_pumps(&mut pumps);
    assert!(opened.failure.is_none());

    local.push(status_event(
        "ade-here-000001",
        SessionChange::Status(WorkspaceStatus::Running),
    ));
    host.push(status_event("ade-there-000002", SessionChange::Exited));
    drain(&mut pumps, &opened);

    let mut seen = vec![events.try_recv().unwrap(), events.try_recv().unwrap()];
    seen.sort_by(|a, b| a.id.cmp(&b.id));
    assert_eq!(
        seen,
        vec![
            status_event(
                "ade-here-000001",
                SessionChange::Status(WorkspaceStatus::Running)
            ),
            status_event("ade-there-000002", SessionChange::Exited),
        ]
    );
}

#[test]
fn a_pump_that_could_not_start_is_tried_again() {
    let local = FakeBackend::new("local");
    let host = FakeBackend::new("h1");
    let mut service =
        service_with(Vec::new(), local.clone()).with_backend_for_host("h1", host.clone());
    let mut pumps = EventPumps::new();
    let _events = pumps.fanout().subscribe_status();
    assert_eq!(service.ensure_pumps(&mut pumps).pumps.len(), 2);

    pumps.release(Some("h1"));
    pumps.release(Some("another.example"));
    let again = service.ensure_pumps(&mut pumps);
    assert_eq!(again.pumps.len(), 1);
    assert_eq!(again.pumps[0].remote_host.as_deref(), Some("h1"));
    assert_eq!(host.count_exact("subscribe"), 2);
    assert_eq!(local.count_exact("subscribe"), 1);
}

#[test]
fn test_status_and_layouts_share_one_subscription_per_host() {
    let local = FakeBackend::new("local");
    let mut service = service_with(Vec::new(), local.clone());
    let mut pumps = EventPumps::new();

    let statuses = pumps.fanout().subscribe_status();
    let opened = service.ensure_pumps(&mut pumps);
    let layouts = pumps.fanout().subscribe_layout();
    assert!(service.ensure_pumps(&mut pumps).pumps.is_empty());
    let workspace_changes = pumps.fanout().subscribe_workspace_changes();
    assert!(service.ensure_pumps(&mut pumps).pumps.is_empty());
    assert_eq!(
        local.count_exact("subscribe"),
        1,
        "a second subscriber must ride the first subscription"
    );

    local.push(status_event("ade-here-000001", SessionChange::Exited));
    local.push_event(DaemonEvent::Layout(layout_event(7)));
    drain(&mut pumps, &opened);

    // Each kind lands on its own stream, in the order the daemon sent them.
    assert_eq!(
        statuses.try_recv().unwrap(),
        status_event("ade-here-000001", SessionChange::Exited)
    );
    assert_eq!(
        layouts.try_recv().unwrap(),
        WorkspaceEvent::Layout {
            remote_host: None,
            daemon_id: None,
            event: layout_event(7)
        }
    );
    assert!(workspace_changes.try_recv().is_err());

    local.push_event(DaemonEvent::WorkspaceChanged(layout_event(7)));
    drain(&mut pumps, &opened);
    assert!(matches!(
        layouts.try_recv().unwrap(),
        WorkspaceEvent::Layout { .. }
    ));
    workspace_changes.try_recv().unwrap();

    local.push_event(DaemonEvent::WorkspaceReset(layout_event(1)));
    drain(&mut pumps, &opened);
    assert_eq!(
        layouts.try_recv().unwrap(),
        WorkspaceEvent::Reset {
            remote_host: None,
            daemon_id: None,
            event: layout_event(1)
        },
        "an incarnation replacement must remain distinct from a kill"
    );
    workspace_changes.try_recv().unwrap();

    // A killed workspace rides the same stream, so a client cannot see a layout
    // for a workspace it has already been told is gone.
    local.push_workspace_removed("ade-here-000001");
    drain(&mut pumps, &opened);
    assert_eq!(
        layouts.try_recv().unwrap(),
        WorkspaceEvent::Removed {
            remote_host: None,
            daemon_id: None,
            workspace_id: "ade-here-000001".to_owned()
        }
    );
    workspace_changes.try_recv().unwrap();
}

#[test]
fn test_workspace_events_keep_their_source_host() {
    let local = FakeBackend::new("local");
    let remote = FakeBackend::new("h1");
    let mut service =
        service_with(Vec::new(), local.clone()).with_backend_for_host("h1", remote.clone());
    let mut pumps = EventPumps::new();
    let events = pumps.fanout().subscribe_layout();
    let opened = service.ensure_pumps(&mut pumps);

    local.push_workspace_removed("same-id");
    remote.push_workspace_removed("same-id");
    drain(&mut pumps, &opened);

    let mut received = vec![events.try_recv().unwrap(), events.try_recv().unwrap()];
    received.sort_by_key(|event| match event {
        WorkspaceEvent::Layout { remote_host, .. }
        | WorkspaceEvent::Reset { remote_host, .. }
        | WorkspaceEvent::Removed { remote_host, .. } => remote_host.clone(),
    });
    assert_eq!(
        received,
        vec![
            WorkspaceEvent::Removed {
                remote_host: None,
                daemon_id: None,
                workspace_id: "same-id".to_owned(),
            },
            WorkspaceEvent::Removed {
                remote_host: Some("h1".to_owned()),
                daemon_id: None,
                workspace_id: "same-id".to_owned(),
            },
        ]
    );
}

#[test]
fn test_disconnect_replaces_the_event_pump_with_the_new_backend() {
    let old = FakeBackend::new("old");
    let mut service = service_with(Vec::new(), old.clone());
    let mut pumps = EventPumps::new();
    let events = pumps.fanout().subscribe_status();
    let stale = service.ensure_pumps(&mut pumps);

    service.disconnect();
    pumps.disconnect();
    let new = FakeBackend::new("new");
    let mut service = service_with(Vec::new(), new.clone());
    let current = service.ensure_pumps(&mut pumps);

    old.push(status_event(
        "stale",
        SessionChange::Status(WorkspaceStatus::Running),
    ));
    new.push(status_event(
        "current",
        SessionChange::Status(WorkspaceStatus::Running),
    ));
    drain(&mut pumps, &stale);
    drain(&mut pumps, &current);

    assert_eq!(
        events.try_recv().unwrap().id.as_str(),
        "current",
        "the disconnected backend's pump must not feed the live stream"
    );
    assert_eq!(
        new.count_exact("subscribe"),
        1,
        "the replacement backend needs its own pump"
    );
}

#[test]
fn test_killing_sessions_preserves_daemon_mapping_for_recreate() {
    let backend = FakeBackend::new("local").identified("daemon-a");
    let mut service = service_with(Vec::new(), backend.clone());
    let workspace = create(&mut service, 1, "main", "project-a", "/repos/zed", None);
    let daemon_workspace_id = workspace.daemon_workspace_id();

    let killed = service
        .kill_workspace_session(&workspace.id)
        .expect("the workspace sessions should be killed");
    assert_eq!(
        killed.terminal_session_id.as_deref(),
        Some(daemon_workspace_id.as_str())
    );
    assert_eq!(killed.daemon_id.as_deref(), Some("daemon-a"));
    assert_eq!(
        service.registry().get_workspace(&workspace.id),
        Some(killed)
    );

    let (opened, state) = service
        .open_workspace(&workspace.id, NOW)
        .expect("the retained workspace should reopen");
    assert_eq!(state, SessionState::Dead);
    assert_eq!(opened.daemon_workspace_id(), daemon_workspace_id);

    let recreated = service
        .recreate_session(&workspace.id)
        .expect("the retained workspace should recreate its session");
    assert_eq!(recreated.daemon_workspace_id(), daemon_workspace_id);
    assert_eq!(recreated.daemon_id.as_deref(), Some("daemon-a"));
    assert!(
        backend
            .calls()
            .contains(&format!("create:{daemon_workspace_id}|daemon-a"))
    );
    assert_eq!(backend.count_calls("kill_workspace:"), 0);
}

#[test]
fn test_killing_a_workspace_is_one_call_and_forgets_its_session() {
    let backend = FakeBackend::new("local");
    let mut service = service_with(Vec::new(), backend.clone());

    let workspace = create(&mut service, 1, "main", "project-a", "/repos/zed", None);
    let session = workspace.tmux_session_name();

    let killed = service.kill_workspace(&workspace.id).unwrap();

    // One workspace-level call, named by the id the daemon knows the workspace
    // by: not a session kill, and not a listing first.
    assert!(
        backend.calls().contains(&format!("kill_workspace:{session}")),
        "{:?}",
        backend.calls()
    );
    assert_eq!(
        backend.count_exact(&format!("kill:{session}")),
        0,
        "the workspace kill must not also take the session by hand: {:?}",
        backend.calls()
    );

    // The registry keeps the row and forgets the session.
    assert_eq!(killed.status, WorkspaceStatus::Stopped);
    assert!(killed.terminal_session_id.is_none());
    assert_eq!(service.registry().get_workspace(&workspace.id), Some(killed));
}

#[test]
fn test_killed_workspace_can_be_recreated_on_a_new_daemon() {
    let daemon = FakeBackend::new("a").identified("daemon-a");
    let mut service = service_with(Vec::new(), daemon.clone());
    let workspace = create(&mut service, 1, "main", "project-a", "/repos/zed", None);

    let killed = service.kill_workspace(&workspace.id).unwrap();
    assert!(killed.terminal_session_id.is_none());
    assert!(killed.daemon_id.is_none());
    let calls_of_a = daemon.calls();

    // Another daemon answers from here on.
    daemon.state().instance_id = Some("daemon-b".to_owned());
    daemon.state().calls.clear();
    let recreated = service.recreate_session(&workspace.id).unwrap();
    assert_eq!(recreated.daemon_id.as_deref(), Some("daemon-b"));
    assert!(recreated.terminal_session_id.is_some());
    assert!(
        calls_of_a
            .iter()
            .any(|call| call.contains("kill_workspace:") && call.ends_with("|daemon-a"))
    );
    assert!(daemon.count_calls("create:") > 0);
}

#[test]
fn test_a_workspace_kill_refusal_never_falls_back_to_the_session() {
    let backend = FakeBackend::new("local").without_workspace_kill();
    let mut service = service_with(Vec::new(), backend.clone());

    let workspace = create(&mut service, 1, "main", "project-a", "/repos/zed", None);
    let session = workspace.tmux_session_name();

    service
        .kill_workspace(&workspace.id)
        .expect_err("a workspace-record refusal must remain visible");

    assert!(
        !backend.calls().contains(&format!("kill:{session}")),
        "a workspace refusal must not become a session kill: {:?}",
        backend.calls()
    );
    assert_eq!(
        service.registry().get_workspace(&workspace.id),
        Some(workspace)
    );
}

#[test]
fn test_an_identified_workspace_kill_never_falls_back_after_refusal() {
    let backend = FakeBackend::new("local")
        .identified("daemon-a")
        .without_workspace_kill();
    let mut service = service_with(Vec::new(), backend.clone());
    let workspace = create(&mut service, 1, "main", "project-a", "/repos/zed", None);
    let session = workspace.daemon_workspace_id();

    service
        .kill_workspace(&workspace.id)
        .expect_err("an identified daemon refusal must propagate");

    assert!(
        backend
            .calls()
            .contains(&format!("kill_workspace:{session}|daemon-a"))
    );
    assert!(!backend.calls().contains(&format!("kill:{session}|daemon-a")));
    assert_eq!(
        service.registry().get_workspace(&workspace.id),
        Some(workspace)
    );
}

#[test]
fn test_resetting_workspace_sessions_deletes_duplicates_and_preserves_target() {
    let backend = FakeBackend::new("local");
    let other_host = FakeBackend::new("other-host");
    let mut service = service_with(Vec::new(), backend.clone())
        .with_backend_for_host("other.example", other_host.clone());

    let target = create(&mut service, 1, "target", "project-a", "/repos/target", None);
    let duplicate = create(&mut service, 2, "stale", "project-a", "/repos/target", None);
    let sibling = create(&mut service, 3, "sibling", "project-b", "/repos/sibling", None);
    let same_path_other_host = create(
        &mut service,
        4,
        "remote",
        "project-a",
        "/repos/target",
        Some("other.example"),
    );
    let sibling_before = service.registry().get_workspace(&sibling.id);
    let other_host_before = service.registry().get_workspace(&same_path_other_host.id);
    assert!(sibling_before.is_some() && other_host_before.is_some());
    let target_session = target.daemon_workspace_id();
    let duplicate_session = duplicate.daemon_workspace_id();
    let sibling_session = sibling.daemon_workspace_id();

    let (reset, attached) = service
        .reset_workspace_sessions(&target.id)
        .expect("reset should recreate the target session");

    assert_eq!(reset.id, target.id);
    assert_eq!(reset.status, WorkspaceStatus::Running);
    assert_eq!(reset.terminal_session_id, target.terminal_session_id);
    assert_eq!(attached.session_id, target_session);
    let calls = backend.calls();
    assert_eq!(
        backend.count_exact(&format!("reset:{target_session}:/repos/target")),
        1,
        "reset must use the backend's old-daemon recovery path: {calls:?}"
    );
    assert_eq!(
        backend.count_exact(&format!("kill:{target_session}")),
        1,
        "only the target workspace should be killed: {calls:?}"
    );
    assert_eq!(
        backend.count_exact(&format!("create:{target_session}")),
        2,
        "the target should have its original and replacement sessions: {calls:?}"
    );
    assert_eq!(
        backend.count_exact(&format!("kill_workspace:{duplicate_session}")),
        1,
        "the stale daemon workspace record must be removed: {calls:?}"
    );
    assert_eq!(
        backend.count_exact(&format!("kill_workspace:{target_session}")),
        0,
        "a duplicate row sharing the target identity must not kill it: {calls:?}"
    );
    assert_eq!(
        backend.count_exact(&format!("kill:{sibling_session}"))
            + backend.count_exact(&format!("kill_workspace:{sibling_session}")),
        0,
        "the sibling must remain alive: {calls:?}"
    );
    assert_eq!(
        service.registry().get_workspace(&duplicate.id),
        None,
        "a killed duplicate must not be re-adoptable through its old row"
    );
    assert_eq!(service.registry().get_workspace(&target.id), Some(reset));
    assert_eq!(service.registry().get_workspace(&sibling.id), sibling_before);
    assert_eq!(
        service.registry().get_workspace(&same_path_other_host.id),
        other_host_before
    );
    assert_eq!(
        other_host.count_calls("kill:") + other_host.count_calls("kill_workspace:"),
        0,
        "the same path on another host is a different worktree"
    );
}

#[test]
fn test_resetting_workspace_sessions_preserves_another_project_at_the_same_path() {
    let backend = FakeBackend::new("local");
    let mut service = service_with(Vec::new(), backend.clone());

    let target = create(&mut service, 1, "target", "project-a", "/repos/shared", None);
    let other_project = create(&mut service, 2, "other", "project-b", "/repos/shared", None);
    let other_session = other_project.daemon_workspace_id();

    service
        .reset_workspace_sessions(&target.id)
        .expect("target workspace should be reset");

    assert_eq!(
        backend.count_exact(&format!("kill:{other_session}"))
            + backend.count_exact(&format!("kill_workspace:{other_session}")),
        0,
        "resetting one project must not kill another project's workspace: {:?}",
        backend.calls()
    );
    assert_eq!(
        service.registry().get_workspace(&other_project.id),
        Some(other_project),
        "resetting one project must not delete another project's registry row"
    );
}

#[test]
fn test_reset_preserves_the_same_workspace_id_on_another_daemon() {
    let backend = FakeBackend::new("local").identified("daemon-a");
    let session_id = "ade-main-000001".to_owned();
    let mut target = workspace(1, "main", "project-a", "/repos/shared");
    target.terminal_session_id = Some(session_id.clone());
    target.daemon_id = Some("daemon-a".to_owned());
    let mut other = workspace(2, "main-copy", "project-a", "/repos/shared");
    other.terminal_session_id = Some(session_id);
    other.daemon_id = Some("daemon-b".to_owned());
    let mut service = service_with(vec![target.clone(), other.clone()], backend.clone());

    service.reset_workspace_sessions(&target.id).unwrap();

    assert_eq!(service.registry().get_workspace(&other.id), Some(other));
    assert!(!backend.calls().iter().any(|call| call.contains("daemon-b")));
}

#[test]
fn test_cleanup_dead_workspaces_reprobes_before_kill_and_delete() {
    let backend = FakeBackend::new("local");
    let mut service = service_with(Vec::new(), backend.clone());

    let first_dead = create(&mut service, 1, "first-dead", "project-a", "/repos/first", None);
    let second_dead = create(&mut service, 2, "second-dead", "project-b", "/repos/second", None);
    let revived = create(&mut service, 3, "revived", "project-c", "/repos/revived", None);
    let alive = create(&mut service, 4, "alive", "project-d", "/repos/alive", None);
    let unconfirmed_dead = create(
        &mut service,
        5,
        "unconfirmed-dead",
        "project-e",
        "/repos/unconfirmed",
        None,
    );
    let confirmed = vec![
        first_dead.id.clone(),
        second_dead.id.clone(),
        revived.id.clone(),
    ];

    backend.remove_session(&first_dead.daemon_workspace_id());
    backend.remove_session(&second_dead.daemon_workspace_id());
    backend.remove_session(&revived.daemon_workspace_id());
    backend.remove_session(&unconfirmed_dead.daemon_workspace_id());
    backend.revive_after_next_list(revived.daemon_workspace_id());

    assert_eq!(
        service
            .cleanup_dead_workspaces(confirmed)
            .expect("dead workspace cleanup should succeed"),
        2
    );

    for workspace in [&first_dead, &second_dead] {
        assert_eq!(service.registry().get_workspace(&workspace.id), None);
        assert!(
            backend
                .calls()
                .contains(&format!("kill_workspace:{}", workspace.daemon_workspace_id())),
            "the daemon record must be killed before its row is removed: {:?}",
            backend.calls()
        );
    }
    for workspace in [&revived, &alive, &unconfirmed_dead] {
        assert!(
            service.registry().get_workspace(&workspace.id).is_some(),
            "an alive or unconfirmed workspace must survive cleanup"
        );
        assert!(
            !backend
                .calls()
                .contains(&format!("kill_workspace:{}", workspace.daemon_workspace_id())),
            "an alive or unconfirmed workspace must not be killed: {:?}",
            backend.calls()
        );
    }
}

#[test]
fn test_cleanup_keeps_row_when_workspace_record_kill_fails() {
    let backend = FakeBackend::new("local").without_workspace_kill();
    let mut service = service_with(Vec::new(), backend.clone());
    let workspace = create(&mut service, 1, "dead", "project-a", "/repos/dead", None);
    let daemon_workspace_id = workspace.daemon_workspace_id();
    backend.remove_session(&daemon_workspace_id);

    let error = service
        .cleanup_dead_workspaces(vec![workspace.id.clone()])
        .expect_err("a failed workspace-record kill must fail cleanup");

    assert!(
        error.message().contains("killing daemon workspace record"),
        "the record-kill failure should remain visible: {}",
        error.message()
    );
    let retained = service
        .registry()
        .get_workspace(&workspace.id)
        .expect("a failed record kill must retain the registry row");
    assert_eq!(
        retained.terminal_session_id.as_deref(),
        Some(daemon_workspace_id.as_str())
    );
    let calls = backend.calls();
    assert!(
        calls.contains(&format!("kill_workspace:{daemon_workspace_id}")),
        "cleanup must attempt the workspace-record kill: {calls:?}"
    );
    assert!(
        !calls.contains(&format!("kill:{daemon_workspace_id}")),
        "cleanup must not convert a record-kill failure into session-only success: {calls:?}"
    );
}

#[test]
fn test_the_upgrade_arrow_needs_a_recorded_verdict() {
    let local = FakeBackend::new("local");
    // Reachable, connected, holding sessions, and up to date.
    let current = FakeBackend::new("current-box").holding(vec![record(
        "ade-proj-0a1b2c",
        "ade-proj-0a1b2c",
        "/home/kingii/proj",
        1_700_000_000,
    )]);
    let behind = FakeBackend::new("behind-box").behind();
    let service = service_with(Vec::new(), local.clone())
        .with_backend_for_host("current-box", current.clone())
        .with_backend_for_host("behind-box", behind);

    assert!(service.host_daemon_stale("behind-box"));
    assert!(
        !service.host_daemon_stale("current-box"),
        "a busy, connected daemon is not an update"
    );
    // Nothing has contacted it, so nothing is known, so nothing is claimed.
    assert!(!service.host_daemon_stale("never-touched"));
    // Nor did any of it reach a backend's operations.
    assert!(local.calls().is_empty(), "{:?}", local.calls());
    assert!(current.calls().is_empty(), "{:?}", current.calls());
}

#[test]
fn upgrading_a_host_is_one_call_on_its_backend() {
    let local = FakeBackend::new("local");
    let remote = FakeBackend::new("behind-box").behind();
    let down = FakeBackend::failing("down-box", "connection refused");
    let mut service = service_with(Vec::new(), local.clone())
        .with_backend_for_host("behind-box", remote.clone())
        .with_backend_for_host("down-box", down);

    assert_eq!(
        service.upgrade_host_daemon("behind-box").ok(),
        Some("behind-box upgraded".to_owned())
    );
    assert_eq!(remote.calls(), vec!["upgrade"]);
    assert!(local.calls().is_empty(), "{:?}", local.calls());
    assert_eq!(
        service.upgrade_host_daemon("down-box").unwrap_err().message(),
        "connection refused"
    );
    assert_eq!(
        service.upgrade_host_daemon("never-touched").unwrap_err().message(),
        "reaching host never-touched: no backend for never-touched in this test"
    );
}

#[test]
fn test_a_freshness_change_reaches_every_watcher() {
    let freshness = Arc::new(Mutex::new(DaemonFreshness::new()));
    let announced = freshness.clone();
    let local = FakeBackend::new("local");
    let behind = FakeBackend::new("behind-box").behind();
    let service = WorkspaceLifecycleService::with_backend(
        AdeWorkspaceRegistry::new(),
        local.clone(),
        Arc::new(move || announced.lock().unwrap().announce()),
    )
    .with_backend_for_host("behind-box", behind.clone());

    // Two windows, and the second must not silence the first.
    let one = freshness.lock().unwrap().watch_daemon_freshness();
    let two = freshness.lock().unwrap().watch_daemon_freshness();
    assert!(one.is_empty() && two.is_empty(), "nothing has moved yet");

    behind.note_freshness(false);
    assert_eq!(one.try_recv().ok(), Some(()));
    assert_eq!(two.try_recv().ok(), Some(()));
    assert!(one.is_empty() && two.is_empty(), "each is told once");
    assert!(!service.host_daemon_stale("behind-box"));

    // This machine's backend has nobody to tell.
    local.note_freshness(true);
    assert!(one.is_empty() && two.is_empty());

    // A closed window's watcher goes with it.
    drop(one);
    drop(two);
    behind.note_freshness(true);
    assert!(
        freshness.lock().unwrap().is_empty(),
        "a dropped receiver's sender was kept"
    );
    assert!(service.host_daemon_stale("behind-box"));
}

#[test]
fn test_record_attached_session_needs_no_backend() {
    // A workspace the registry knows about that has never had a session.
    let workspace = workspace(1, "main", "project-a", "/repos/zed");
    let mut service = backendless_service(vec![workspace.clone()]);
    assert!(workspace.terminal_session_id.is_none());
    assert_eq!(workspace.status, WorkspaceStatus::Creating);

    let recorded = service
        .record_attached_session(&workspace.id, Some("daemon-a"))
        .unwrap();
    assert_eq!(
        recorded.terminal_session_id.as_deref(),
        Some(workspace.tmux_session_name().as_str())
    );
    assert_eq!(recorded.status, WorkspaceStatus::Running);
    assert_eq!(recorded.daemon_id.as_deref(), Some("daemon-a"));

    // And it is the stored row that moved, not just the returned copy.
    let stored = service.registry().get_workspace(&workspace.id).unwrap();
    assert_eq!(
        stored.terminal_session_id.as_deref(),
        Some(workspace.tmux_session_name().as_str())
    );
    assert_eq!(stored.status, WorkspaceStatus::Running);
    assert_eq!(stored.daemon_id.as_deref(), Some("daemon-a"));

    // A second attach to the same session changes nothing.
    let again = service.record_attached_session(&workspace.id, None).unwrap();
    assert_eq!(again, stored);
}

#[test]
fn test_unknown_workspace_id_is_an_error() {
    let mut service = backendless_service(Vec::new());
    let id = id(1);
    assert!(service.open_workspace(&id, NOW).is_err());
    assert!(service.stop_workspace(&id).is_err());
    assert!(service.kill_workspace_session(&id).is_err());
    assert!(service.recreate_session(&id).is_err());
}

#[test]
fn killing_sessions_keeps_rows_and_reports_refusals() {
    let local = FakeBackend::new("local").holding(vec![record(
        "ade-found-000009",
        "found",
        "/repos/found",
        1,
    )]);
    local.state().sessions.push("ade-found-000009".to_owned());
    let down = FakeBackend::failing("h1", "no route to host");
    let mut there = workspace(2, "there", "project-a", "/srv/zed");
    there.remote_host = Some("h1".to_owned());
    there.terminal_session_id = Some("ade-there-000002".to_owned());
    let mut service =
        service_with(vec![there.clone()], local.clone()).with_backend_for_host("h1", down);
    let here = create(&mut service, 1, "here", "project-a", "/repos/zed", None);
    let entries = service.reconcile_all().entries;
    assert_eq!(entries.len(), 3);

    let targets = entries
        .into_iter()
        .enumerate()
        .map(|(n, entry)| KillTarget { entry, fresh: id(100 + n as u32) })
        .collect();
    let error = service
        .kill_session_targets(targets, NOW)
        .expect_err("the host that is down cannot kill its session");
    assert!(error.message().contains("no route to host"), "{}", error.message());
    assert!(!error.message().contains(here.id.as_str()), "{}", error.message());
    assert!(error.message().contains(there.id.as_str()), "{}", error.message());

    assert_eq!(local.count_calls("kill_workspace:"), 0);
    assert_eq!(
        local.count_exact(&format!("kill:{}", here.tmux_session_name())),
        1
    );
    assert_eq!(local.count_exact("kill:ade-found-000009"), 1);
    assert!(service.registry().get_workspace(&here.id).is_some());
    assert_eq!(service.registry().get_workspace(&there.id), Some(there));
}

#[test]
fn a_session_is_resized_on_its_own_host() {
    let host = FakeBackend::new("h1").identified("daemon-a");
    let mut row = workspace(1, "main", "project-a", "/srv/zed");
    row.remote_host = Some("h1".to_owned());
    row.daemon_id = Some("daemon-a".to_owned());
    let mut service = service_with(vec![row.clone()], FakeBackend::new("local"))
        .with_backend_for_host("h1", host.clone());
    service.resize_session(&row, "ade-main-000001", 80, 24).unwrap();
    assert_eq!(host.calls(), vec!["resize:ade-main-000001:80x24|daemon-a"]);
}

#[test]
fn a_backend_without_workspaces_refuses_what_it_lacks() {
    let row = workspace(1, "main", "project-a", "/repos/zed");
    let mut service = service_with(vec![row.clone()], FakeBackend::new("local"));
    let renamed = service.rename_workspace(&row.id, "other").unwrap_err();
    assert!(
        renamed.message().contains("no workspaces of its own to rename"),
        "{}",
        renamed.message()
    );
    assert_eq!(service.registry().get_workspace(&row.id).unwrap().name, "main");
    let layout = service.open_workspace_layout(&row).unwrap_err();
    assert!(layout.message().contains("does not store workspace layouts"));
    let killed = service.kill_session(&row, "ade-main-000001").unwrap_err();
    assert!(killed.message().contains("no sessions of its own to kill"));
    let attached = service.attach_session_command(&row, "ade-main-000001").unwrap_err();
    assert!(attached.message().contains("no sessions of its own to attach to"));
    let added = service.create_session_in_workspace(&row, "/repos/zed").unwrap_err();
    assert!(added.message().contains("one session per workspace"));
}
