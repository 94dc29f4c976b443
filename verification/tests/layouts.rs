//! The lifecycle service against a backend that stores workspaces and layouts.

use ade_workspaces::entry::{SessionState, WorkspaceEntry};
use ade_workspaces::registry::AdeWorkspaceRegistry;
use ade_workspaces::service::WorkspaceLifecycleService;
use ade_workspaces::session_backend::{
    Attached, LayoutDoc, SessionBackend, SessionId, SessionInfo, SessionSpec, StatusDelivery,
    WorkspaceLayout,
};
use ade_workspaces::workspace::{AdeWorkspace, WorkspaceId};
use std::sync::{Arc, Mutex};

const NOW: i64 = 1_800_000_000;

/// Records what it is told, and takes all of it.
#[derive(Clone)]
struct DaemonShaped(Arc<Mutex<Vec<String>>>);

impl DaemonShaped {
    fn new() -> Self {
        DaemonShaped(Arc::new(Mutex::new(Vec::new())))
    }

    fn note(&self, call: String) {
        self.0.lock().unwrap().push(call);
    }

    fn calls(&self) -> Vec<String> {
        self.0.lock().unwrap().clone()
    }
}

fn fence(expected: Option<&str>) -> String {
    expected.map(|id| format!("|{id}")).unwrap_or_default()
}

impl SessionBackend for DaemonShaped {
    type UpgradeOutcome = ();
    /// Where it is noted that a backend was handed it.
    type DaemonFreshnessObserver = Arc<Mutex<Vec<String>>>;

    fn remote(_: &str) -> Result<Self, String> {
        Ok(DaemonShaped::new())
    }

    fn observe_daemon_freshness(&mut self, observer: Arc<Mutex<Vec<String>>>) {
        let asked = self.calls().len();
        observer.lock().unwrap().push(format!("handed after {asked} calls"));
    }

    fn create(&mut self, spec: &SessionSpec, _: Option<&str>) -> Result<SessionId, String> {
        Ok(spec.id.clone())
    }

    fn list(&mut self) -> Result<Vec<SessionInfo>, String> {
        Ok(vec![SessionInfo {
            id: SessionId("ade-main-000001".to_owned()),
        }])
    }

    fn resolve_repository(&mut self, _: &str) -> Result<(String, String), String> {
        Err("no repository".to_owned())
    }

    fn update_workspace_project_scope(
        &mut self,
        _: &str,
        _: &str,
        _: &str,
        _: Option<&str>,
        _: Option<u64>,
        _: Option<&str>,
    ) -> Result<Option<u64>, String> {
        Ok(Some(9))
    }

    fn session_exists(&mut self, _: &SessionId, _: Option<&str>) -> Result<bool, String> {
        Ok(true)
    }

    fn attach(&mut self, spec: &SessionSpec, _: Option<&str>) -> Result<Attached, String> {
        Ok(Attached {
            session_id: spec.id.as_str().to_owned(),
            daemon_id: self.instance_id(),
            argv: vec!["attach".to_owned()],
        })
    }

    fn detach(&mut self, _: &SessionId) -> Result<(), String> {
        Ok(())
    }

    fn kill(&mut self, _: &SessionId, _: Option<&str>) -> Result<(), String> {
        Ok(())
    }

    fn status_delivery(&self) -> StatusDelivery {
        StatusDelivery::Poll {
            interval_millis: 1_000,
        }
    }

    fn create_session_in_workspace(
        &mut self,
        workspace_id: &str,
        cwd: &str,
        expected: Option<&str>,
    ) -> Result<String, String> {
        self.note(format!("add:{workspace_id}:{cwd}{}", fence(expected)));
        Ok("second-session".to_owned())
    }

    fn attach_session(
        &mut self,
        session_id: &str,
        expected: Option<&str>,
    ) -> Result<Vec<String>, String> {
        self.note(format!("attach:{session_id}{}", fence(expected)));
        Ok(vec!["attach".to_owned(), session_id.to_owned()])
    }

    fn open_workspace(
        &mut self,
        workspace_id: &str,
        expected: Option<&str>,
    ) -> Result<WorkspaceLayout, String> {
        self.note(format!("open:{workspace_id}{}", fence(expected)));
        Ok(WorkspaceLayout {
            layout: LayoutDoc {
                document: "{}".to_owned(),
            },
            rev: 4,
        })
    }

    fn update_layout(
        &mut self,
        workspace_id: &str,
        layout: &LayoutDoc,
        rev: u64,
        expected: Option<&str>,
    ) -> Result<(), String> {
        self.note(format!(
            "layout:{workspace_id}:{}:{rev}{}",
            layout.document,
            fence(expected)
        ));
        Ok(())
    }

    fn kill_session(&mut self, session_id: &str, expected: Option<&str>) -> Result<(), String> {
        self.note(format!("kill:{session_id}{}", fence(expected)));
        Ok(())
    }

    fn resize_session(&mut self, _: &str, _: u16, _: u16, _: Option<&str>) -> Result<(), String> {
        Ok(())
    }

    fn rename_workspace(
        &mut self,
        workspace_id: &str,
        name: &str,
        expected: Option<&str>,
    ) -> Result<(), String> {
        self.note(format!("rename:{workspace_id}:{name}{}", fence(expected)));
        Ok(())
    }

    fn instance_id(&self) -> Option<String> {
        Some("daemon-a".to_owned())
    }
}

fn row(n: u32, project_id: &str) -> AdeWorkspace {
    let mut row = AdeWorkspace::new(
        WorkspaceId(format!("{n:06x}00-0000-4000-8000-000000000000")),
        "main",
        project_id,
        "/repos/zed",
        NOW,
    );
    row.terminal_session_id = Some(format!("ade-main-{n:06}"));
    row
}

fn service_of(
    rows: &[AdeWorkspace],
) -> (WorkspaceLifecycleService<DaemonShaped>, DaemonShaped) {
    let mut registry = AdeWorkspaceRegistry::new();
    for row in rows {
        registry.create_workspace(row.clone(), NOW).unwrap();
    }
    let backend = DaemonShaped::new();
    (
        WorkspaceLifecycleService::with_backend(
            registry,
            backend.clone(),
            Arc::new(Mutex::new(Vec::new())),
        ),
        backend,
    )
}

#[test]
fn a_rename_reaches_the_daemon_before_the_row() {
    let main = row(1, "zed");
    let (mut service, backend) = service_of(&[main.clone()]);
    let renamed = service.rename_workspace(&main.id, "  Vector DB  ").unwrap();
    assert_eq!(renamed.name, "Vector DB");
    assert_eq!(backend.calls(), vec!["rename:ade-main-000001:Vector DB"]);
    assert_eq!(
        service.registry().get_workspace(&main.id).unwrap().name,
        "Vector DB"
    );
    // The same name is not asked for again, and an empty one never.
    service.rename_workspace(&main.id, "Vector DB").unwrap();
    assert_eq!(backend.calls().len(), 1);
    let error = service.rename_workspace(&main.id, "   ").unwrap_err();
    assert_eq!(error.message(), "a workspace needs a name");
}

#[test]
fn a_layout_is_opened_and_stored_for_its_own_daemon() {
    let mut main = row(1, "zed");
    let (mut service, backend) = service_of(&[main.clone()]);
    let layout = service.open_workspace_layout_identified(&mut main).unwrap();
    assert_eq!(layout.rev, 4);
    // The daemon that answered owns the row from now on.
    assert_eq!(main.daemon_id.as_deref(), Some("daemon-a"));
    assert_eq!(
        service
            .registry()
            .get_workspace(&main.id)
            .unwrap()
            .daemon_id
            .as_deref(),
        Some("daemon-a")
    );
    service.open_workspace_layout(&main).unwrap();
    let document = LayoutDoc {
        document: "[]".to_owned(),
    };
    service.update_layout(&main, &document, 5).unwrap();
    assert_eq!(
        backend.calls(),
        vec![
            "open:ade-main-000001",
            "open:ade-main-000001|daemon-a",
            "layout:ade-main-000001:[]:5|daemon-a",
        ]
    );
}

#[test]
fn sessions_of_a_workspace_are_named_by_the_daemon() {
    let mut main = row(1, "zed");
    main.daemon_id = Some("daemon-a".to_owned());
    let (mut service, backend) = service_of(&[main.clone()]);
    let (session, argv, daemon) = service
        .create_session_in_workspace(&main, "/repos/zed/src")
        .unwrap();
    assert_eq!(session, "second-session");
    assert_eq!(argv, vec!["attach", "second-session"]);
    assert_eq!(daemon.as_deref(), Some("daemon-a"));
    assert_eq!(
        service.attach_session_command(&main, "third").unwrap(),
        vec!["attach", "third"]
    );
    service.kill_session(&main, "third").unwrap();
    assert_eq!(
        backend.calls(),
        vec![
            "add:ade-main-000001:/repos/zed/src|daemon-a",
            "attach:second-session|daemon-a",
            "attach:third|daemon-a",
            "kill:third|daemon-a",
        ]
    );
}

#[test]
fn a_daemon_that_keeps_projects_chooses_the_revision() {
    let main = row(1, "zed");
    let (mut service, _) = service_of(&[main.clone()]);
    // The daemon holds no record, so the row's own revision counts.
    let moved = service
        .update_workspace_project_scope(&main.id, "praxis", "/repos/praxis")
        .unwrap();
    assert_eq!(moved.project_scope_rev, 1);
    assert_eq!(moved.project_id, "praxis");
}

#[test]
fn a_project_is_reconciled_alone() {
    let (mut service, _) = service_of(&[row(1, "zed"), row(2, "praxis")]);
    let found = service.reconcile_project("zed");
    assert_eq!(found.entries.len(), 1);
    let (kept, state) = found.entries[0].persisted().unwrap();
    assert_eq!(kept.project_id, "zed");
    assert_eq!(state, SessionState::Alive);
    let all = service.reconcile_all();
    assert_eq!(all.entries.len(), 2);
    let states: Vec<SessionState> = all.entries.iter().map(WorkspaceEntry::state).collect();
    assert!(states.contains(&SessionState::Alive));
    assert!(states.contains(&SessionState::Dead));
}

#[test]
fn a_polling_backend_opens_no_stream() {
    let (mut service, _) = service_of(&[]);
    let mut pumps = ade_workspaces::events::EventPumps::new();
    assert!(service.ensure_pumps(&mut pumps).failure.is_none());
    let _events = pumps.fanout().subscribe_status();
    let opened = service.ensure_pumps(&mut pumps);
    assert!(opened.pumps.is_empty());
    assert!(
        opened
            .failure
            .is_some_and(|failure| failure.message().contains("by polling, not by pushing"))
    );
}

#[test]
fn a_host_gets_its_backend_when_it_is_first_needed() {
    let mut main = row(1, "zed");
    main.remote_host = Some("h1".to_owned());
    let (mut service, local) = service_of(&[main.clone()]);
    let attached = service.attach_command(&main).unwrap();
    assert_eq!(attached.session_id, "ade-main-000001");
    assert!(local.calls().is_empty());
}

#[test]
fn a_backend_without_a_daemon_to_upgrade_says_so() {
    assert_eq!(
        DaemonShaped::new().upgrade_daemon(),
        Err("this session backend has no host daemon to upgrade".to_owned())
    );
}

#[test]
fn a_backend_that_is_made_is_handed_the_announcer_first() {
    let handed = Arc::new(Mutex::new(Vec::new()));
    let mut main = row(1, "zed");
    main.remote_host = Some("h1".to_owned());
    let mut registry = AdeWorkspaceRegistry::new();
    registry.create_workspace(main.clone(), NOW).unwrap();
    let mut service = WorkspaceLifecycleService::with_backend(
        registry,
        DaemonShaped::new(),
        handed.clone(),
    );
    assert!(handed.lock().unwrap().is_empty());
    service.open_workspace_layout(&main).unwrap();
    service.open_workspace_layout(&main).unwrap();
    assert_eq!(handed.lock().unwrap().clone(), vec!["handed after 0 calls"]);
    // The connections are gone, and the next one is another backend.
    service.disconnect();
    service.open_workspace_layout(&main).unwrap();
    assert_eq!(handed.lock().unwrap().len(), 2);
    // A backend that a host is given is handed it too.
    let service = service.with_backend_for_host("h2", DaemonShaped::new());
    assert_eq!(handed.lock().unwrap().len(), 3);
    assert_eq!(service.status_delivery(), StatusDelivery::Push);
}
