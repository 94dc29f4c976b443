//! The sidebar, the store behind it and the rename modal.

use ade_workspaces::bulk::KillTarget;
use ade_workspaces::entry::{Failure, Reconciled, SessionState, WorkspaceEntry, WorkspaceGone};
use ade_workspaces::registry::AdeWorkspaceRegistry;
use ade_workspaces::rename_workspace_modal::{ConfirmStep, RenameWorkspaceModal};
use ade_workspaces::service::WorkspaceLifecycleService;
use ade_workspaces::session_backend::{
    Attached, BackendWorkspace, SessionBackend, SessionId, SessionInfo, SessionSpec,
    StatusDelivery,
};
use ade_workspaces::daemon::DaemonKey;
use ade_workspaces::store::{
    friendly_shell_title, status_plan, terminal_title, AdeWorkspaceStore, StatusPlan,
};
use ade_workspaces::workspace::{AdeWorkspace, WorkspaceId, WorkspaceStatus};
use ade_workspaces::workspace_sidebar::{
    discovered_row, gone_workspace_ids, group_rows, live_session_entries, persisted_row,
    project_heading, status_color, workspace_status, Color, LineModel, MenuLine, RowAction, SidebarBody,
    SidebarRow, WorkspaceSidebar,
};
use std::sync::{Arc, Mutex};

const NOW: i64 = 1_800_000_000;

/// A backend whose sessions are all alive and can only be killed.
#[derive(Clone)]
struct PromptBackend {
    workspaces: Vec<BackendWorkspace>,
    killed: Arc<Mutex<Vec<String>>>,
}

impl PromptBackend {
    fn with_live_workspaces(workspaces: Vec<BackendWorkspace>) -> Self {
        PromptBackend {
            workspaces,
            killed: Arc::new(Mutex::new(Vec::new())),
        }
    }

    fn killed(&self) -> Vec<String> {
        self.killed.lock().unwrap().clone()
    }
}

impl SessionBackend for PromptBackend {
    type UpgradeOutcome = ();
    type DaemonFreshnessObserver = ();

    fn remote(_: &str) -> Result<Self, String> {
        Err("unexpected host".to_owned())
    }

    fn create(&mut self, _: &SessionSpec, _: Option<&str>) -> Result<SessionId, String> {
        Err("unexpected create".to_owned())
    }

    fn list(&mut self) -> Result<Vec<SessionInfo>, String> {
        Ok(Vec::new())
    }

    fn list_workspaces(&mut self) -> Result<Vec<BackendWorkspace>, String> {
        Ok(self.workspaces.clone())
    }

    fn resolve_repository(&mut self, _: &str) -> Result<(String, String), String> {
        Err("unexpected resolution".to_owned())
    }

    fn update_workspace_project_scope(
        &mut self,
        _: &str,
        _: &str,
        _: &str,
        _: Option<&str>,
        _: Option<u64>,
        _: Option<&str>,
    ) -> Result<Option<u64>, String> {
        Ok(None)
    }

    fn session_exists(&mut self, _: &SessionId, _: Option<&str>) -> Result<bool, String> {
        Ok(true)
    }

    fn attach(&mut self, _: &SessionSpec, _: Option<&str>) -> Result<Attached, String> {
        Err("unexpected attach".to_owned())
    }

    fn detach(&mut self, _: &SessionId) -> Result<(), String> {
        Ok(())
    }

    fn kill(&mut self, id: &SessionId, _: Option<&str>) -> Result<(), String> {
        self.killed.lock().unwrap().push(id.as_str().to_owned());
        Ok(())
    }

    fn resize_session(&mut self, _: &str, _: u16, _: u16, _: Option<&str>) -> Result<(), String> {
        Ok(())
    }

    fn status_delivery(&self) -> StatusDelivery {
        StatusDelivery::Push
    }

    fn instance_id(&self) -> Option<String> {
        Some("daemon-a".to_owned())
    }
}

fn id(name: &str) -> WorkspaceId {
    WorkspaceId(format!("id-of-{name}"))
}

fn entry(
    name: &str,
    project_id: &str,
    status: WorkspaceStatus,
    state: SessionState,
) -> WorkspaceEntry {
    let mut workspace = AdeWorkspace::new(
        id(name),
        name,
        project_id,
        &format!("/repos/{project_id}"),
        NOW,
    );
    workspace.status = status;
    WorkspaceEntry::Persisted(workspace, state)
}

fn with_project_identity(entry: WorkspaceEntry, identity: &str) -> WorkspaceEntry {
    match entry {
        WorkspaceEntry::Persisted(mut workspace, state) => {
            workspace.project_identity = Some(identity.to_owned());
            WorkspaceEntry::Persisted(workspace, state)
        }
        entry => entry,
    }
}

/// The same row, on a named host.
fn entry_on(
    host: &str,
    name: &str,
    project_id: &str,
    status: WorkspaceStatus,
    state: SessionState,
) -> WorkspaceEntry {
    let WorkspaceEntry::Persisted(mut workspace, state) = entry(name, project_id, status, state)
    else {
        unreachable!("entry builds a row")
    };
    workspace.remote_host = Some(host.to_owned());
    WorkspaceEntry::Persisted(workspace, state)
}

fn record(id: &str, name: &str, root: &str) -> BackendWorkspace {
    BackendWorkspace {
        id: id.to_owned(),
        name: name.to_owned(),
        project_id: None,
        project_identity: None,
        project_root: root.to_owned(),
        project_scope_rev: 0,
        created_at: 1_700_000_000,
    }
}

/// A workspace a host holds that this client has never opened.
fn discovered(name: &str, root: &str, state: SessionState) -> WorkspaceEntry {
    WorkspaceEntry::Discovered {
        remote_host: None,
        workspace: record(name, name, root),
        state,
    }
}

#[test]
fn test_group_rows_preserves_order_and_counts() {
    let entries = vec![
        with_project_identity(
            entry(
                "spike",
                "seedance2-5",
                WorkspaceStatus::Running,
                SessionState::Alive,
            ),
            "/repos/viral-studio",
        ),
        entry(
            "elsewhere",
            "praxis",
            WorkspaceStatus::Stopped,
            SessionState::NeverCreated,
        ),
        // The canonical project checkout has a different leaf label but the
        // same identity, so it rejoins the first group without making that
        // first linked checkout's label the heading.
        with_project_identity(
            entry(
                "main",
                "viral-studio",
                WorkspaceStatus::Disconnected,
                SessionState::Dead,
            ),
            "/repos/viral-studio",
        ),
    ];

    let rows = group_rows(&entries);
    assert_eq!(rows.len(), 5);
    assert_eq!(
        rows[0],
        SidebarRow::Project {
            project_id: "viral-studio".into(),
            project_identity: "/repos/viral-studio".into(),
            remote_host: None,
            live_count: 1,
            gone_count: 1,
        }
    );
    assert_eq!(
        rows[1],
        SidebarRow::Workspace {
            entry: entries[0].clone(),
        }
    );
    assert_eq!(
        rows[2],
        SidebarRow::Workspace {
            entry: entries[2].clone(),
        }
    );
    // The second project keeps first-appearance order, so it follows.
    assert_eq!(
        rows[3],
        SidebarRow::Project {
            project_id: "praxis".into(),
            project_identity: "/repos/praxis".into(),
            remote_host: None,
            live_count: 0,
            gone_count: 0,
        }
    );
    assert_eq!(
        rows[4],
        SidebarRow::Workspace {
            entry: entries[1].clone(),
        }
    );
}

#[test]
fn test_group_rows_place_discoveries_in_their_project() {
    let entries = vec![
        entry("main", "zed", WorkspaceStatus::Running, SessionState::Alive),
        discovered("ade-zed-2de8b3", "/repos/zed", SessionState::Alive),
        discovered("ade-praxis-0f1e2d", "/repos/praxis", SessionState::Dead),
    ];

    let rows = group_rows(&entries);
    assert_eq!(rows.len(), 5);
    assert_eq!(
        rows[0],
        SidebarRow::Project {
            project_id: "zed".into(),
            project_identity: "/repos/zed".into(),
            remote_host: None,
            live_count: 2,
            gone_count: 0,
        }
    );
    assert_eq!(
        rows[2],
        SidebarRow::Workspace {
            entry: entries[1].clone(),
        }
    );
    assert_eq!(
        rows[3],
        SidebarRow::Project {
            project_id: "praxis".into(),
            project_identity: "/repos/praxis".into(),
            remote_host: None,
            live_count: 0,
            gone_count: 1,
        }
    );
}

#[test]
fn test_group_rows_of_nothing_is_nothing() {
    assert!(group_rows(&[]).is_empty());
}

#[test]
fn test_group_rows_scopes_projects_by_host() {
    let entries = vec![
        entry_on(
            "user@host-a",
            "first",
            "viral-studio",
            WorkspaceStatus::Running,
            SessionState::Alive,
        ),
        entry_on(
            "user@host-b",
            "other-host",
            "viral-studio",
            WorkspaceStatus::Running,
            SessionState::Alive,
        ),
        entry_on(
            "user@host-a",
            "second",
            "viral-studio",
            WorkspaceStatus::Disconnected,
            SessionState::Dead,
        ),
    ];

    let rows = group_rows(&entries);
    assert_eq!(rows.len(), 5);
    assert_eq!(
        rows[0],
        SidebarRow::Project {
            project_id: "viral-studio".into(),
            project_identity: "/repos/viral-studio".into(),
            remote_host: Some("user@host-a".into()),
            live_count: 1,
            gone_count: 1,
        }
    );
    assert_eq!(
        rows[3],
        SidebarRow::Project {
            project_id: "viral-studio".into(),
            project_identity: "/repos/viral-studio".into(),
            remote_host: Some("user@host-b".into()),
            live_count: 1,
            gone_count: 0,
        }
    );
}

#[test]
fn test_group_rows_separates_same_label_with_different_project_identities() {
    let entries = vec![
        with_project_identity(
            entry_on(
                "user@host",
                "first",
                "viral-studio",
                WorkspaceStatus::Running,
                SessionState::Alive,
            ),
            "/repos/one/viral-studio",
        ),
        with_project_identity(
            entry_on(
                "user@host",
                "second",
                "viral-studio",
                WorkspaceStatus::Running,
                SessionState::Alive,
            ),
            "/repos/two/viral-studio",
        ),
    ];

    let rows = group_rows(&entries);
    let projects = rows
        .iter()
        .filter_map(|row| match row {
            SidebarRow::Project {
                project_id,
                project_identity,
                ..
            } => Some((project_id.as_str(), project_identity.as_str())),
            SidebarRow::Workspace { .. } => None,
        })
        .collect::<Vec<_>>();
    assert_eq!(
        projects,
        vec![
            ("viral-studio", "/repos/one/viral-studio"),
            ("viral-studio", "/repos/two/viral-studio"),
        ]
    );
}

#[test]
fn test_kill_all_targets_only_live_visible_sessions() {
    let entries = vec![
        entry("main", "zed", WorkspaceStatus::Running, SessionState::Alive),
        entry(
            "gone",
            "zed",
            WorkspaceStatus::Disconnected,
            SessionState::Dead,
        ),
        discovered("ade-praxis-live", "/repos/praxis", SessionState::Alive),
        discovered("ade-praxis-gone", "/repos/praxis", SessionState::Dead),
    ];

    let targets = live_session_entries(&group_rows(&entries));
    assert!(
        matches!(
            targets.as_slice(),
            [
                WorkspaceEntry::Persisted(_, _),
                WorkspaceEntry::Discovered { workspace, .. }
            ] if workspace.id == "ade-praxis-live"
        ),
        "only the live persisted and discovered rows must be in kill-all scope: {targets:?}"
    );
}

fn targets(entries: Vec<WorkspaceEntry>) -> Vec<KillTarget> {
    entries
        .into_iter()
        .enumerate()
        .map(|(n, entry)| KillTarget {
            entry,
            fresh: id(&format!("fresh-{n}")),
        })
        .collect()
}

#[test]
fn test_kill_all_keeps_persisted_and_discovered_workspace_records() {
    let mut persisted = AdeWorkspace::new(id("main"), "main", "zed", "/repos/zed", NOW);
    persisted.terminal_session_id = Some("ade-zed-live".to_owned());
    persisted.daemon_id = Some("daemon-a".to_owned());
    let mut registry = AdeWorkspaceRegistry::new();
    registry
        .create_workspace(persisted.clone(), NOW)
        .expect("the persisted workspace should be registered");

    let mut discovered_workspace = record("ade-praxis-live", "praxis", "/repos/praxis");
    discovered_workspace.project_id = Some("praxis".to_owned());
    discovered_workspace.project_identity = Some("/repos/praxis".to_owned());
    let backend = PromptBackend::with_live_workspaces(vec![discovered_workspace.clone()]);
    let mut lifecycle = WorkspaceLifecycleService::with_backend(registry, backend.clone(), ());

    lifecycle
        .kill_session_targets(
            targets(vec![
                WorkspaceEntry::Persisted(persisted, SessionState::Alive),
                WorkspaceEntry::Discovered {
                    remote_host: None,
                    workspace: discovered_workspace,
                    state: SessionState::Alive,
                },
            ]),
            NOW,
        )
        .expect("all visible sessions should be killed");

    assert_eq!(backend.killed(), vec!["ade-zed-live", "ade-praxis-live"]);
    let workspaces = lifecycle.registry().confirmed_workspaces();
    assert_eq!(workspaces.len(), 2);
    let mut mappings = workspaces
        .iter()
        .map(|workspace| {
            (
                workspace.terminal_session_id.clone(),
                workspace.daemon_id.clone(),
            )
        })
        .collect::<Vec<_>>();
    mappings.sort();
    assert_eq!(
        mappings,
        vec![
            (
                Some("ade-praxis-live".to_owned()),
                Some("daemon-a".to_owned())
            ),
            (Some("ade-zed-live".to_owned()), Some("daemon-a".to_owned())),
        ],
        "kill-all must retain each daemon workspace mapping"
    );
}

#[test]
fn test_kill_all_accepts_a_discovery_removed_by_another_client() {
    let mut lifecycle = WorkspaceLifecycleService::with_backend(
        AdeWorkspaceRegistry::new(),
        PromptBackend::with_live_workspaces(Vec::new()),
        (),
    );
    lifecycle
        .kill_session_targets(
            targets(vec![discovered(
                "ade-already-gone",
                "/repos/viral-studio",
                SessionState::Alive,
            )]),
            NOW,
        )
        .expect("another client already achieved the requested result");
}

#[test]
fn test_store_reports_its_initial_refresh() {
    let mut store = AdeWorkspaceStore::new(None);
    assert!(store.is_refreshing());
    let ticket = store.pass().expect("the first pass is under way");
    let landed = store.land(
        ticket,
        Ok(Reconciled {
            entries: Vec::new(),
            host_errors: Vec::new(),
        }),
        Vec::new(),
    );
    assert!(landed);
    assert!(!store.is_refreshing());
}

#[test]
fn test_cleanup_prompt_cancel_does_not_run_and_can_retry() {
    let entries = [entry(
        "gone",
        "zed",
        WorkspaceStatus::Disconnected,
        SessionState::Dead,
    )];
    let mut sidebar = WorkspaceSidebar::new(&entries);

    let (prompt, ids) = sidebar
        .cleanup_gone_workspaces()
        .expect("cleanup confirmation prompt");
    assert_eq!(ids, vec![id("gone")]);
    assert_eq!(prompt.title, "Kill and clean up 1 gone workspace?");
    assert!(
        prompt
            .detail
            .contains("If a session starts in one before cleanup finishes"),
        "the prompt must disclose the final probe-to-kill race: {}",
        prompt.detail
    );
    assert!(
        prompt
            .detail
            .contains("Other live sessions and repository files are not changed"),
        "the prompt must identify what remains outside cleanup scope: {}",
        prompt.detail
    );

    assert!(!sidebar.start_bulk_action(false));
    assert!(
        sidebar.cleanup_gone_workspaces().is_some(),
        "cancelling must leave cleanup available for another attempt"
    );
    assert!(!sidebar.start_bulk_action(false));

    // Once one runs, no other starts until it has ended.
    assert!(sidebar.start_bulk_action(true));
    assert!(!sidebar.start_bulk_action(true));
    assert!(sidebar.cleanup_gone_workspaces().is_none());
    sidebar.bulk_action_ended(&Err(Failure::Message("kill failed".to_owned())));
    assert_eq!(sidebar.error(), Some("kill failed"));
    assert!(sidebar.cleanup_gone_workspaces().is_some());
}

#[test]
fn test_status_colors_come_from_the_status_palette() {
    assert_eq!(status_color(WorkspaceStatus::Running), Color::Success);
    assert_eq!(status_color(WorkspaceStatus::Disconnected), Color::Warning);
    assert_eq!(status_color(WorkspaceStatus::Stopped), Color::Muted);
    assert_eq!(status_color(WorkspaceStatus::Creating), Color::Muted);
    assert_eq!(status_color(WorkspaceStatus::Error), Color::Error);
}

#[test]
fn test_a_dead_session_reads_disconnected_before_the_registry_catches_up() {
    let WorkspaceEntry::Persisted(mut workspace, _) =
        entry("main", "zed", WorkspaceStatus::Running, SessionState::Alive)
    else {
        unreachable!("entry builds a row")
    };
    // The backend says gone; the row must not still show green.
    assert_eq!(
        workspace_status(&workspace, SessionState::Dead),
        WorkspaceStatus::Disconnected
    );
    assert_eq!(
        status_color(workspace_status(&workspace, SessionState::Dead)),
        Color::Warning
    );
    // Otherwise the reconciled status is taken as-is.
    assert_eq!(
        workspace_status(&workspace, SessionState::Alive),
        WorkspaceStatus::Running
    );
    workspace.status = WorkspaceStatus::Error;
    assert_eq!(
        workspace_status(&workspace, SessionState::NeverCreated),
        WorkspaceStatus::Error
    );
}

#[test]
fn a_row_offers_its_menu_and_a_discovery_none() {
    let WorkspaceEntry::Persisted(workspace, _) =
        entry("main", "zed", WorkspaceStatus::Running, SessionState::Alive)
    else {
        unreachable!("entry builds a row")
    };
    let row = persisted_row(&workspace, SessionState::Alive, true);
    assert!(row.selected);
    assert_eq!(row.dot, Color::Success);
    assert_eq!(row.name, "main");
    assert_eq!(row.gone, None);
    assert!(row.menu.contains(&MenuLine::Entry(RowAction::KillWorkspace)));
    assert!(RowAction::KillWorkspace.label().contains("Kill"));
    let dead = persisted_row(&workspace, SessionState::Dead, false);
    assert!(dead.gone.is_some());
    let found = discovered_row(&discovered("ade-zed-2de8b3", "/repos/zed", SessionState::Dead));
    assert!(found.menu.is_empty());
    assert_eq!(found.dot, Color::Warning);
}

#[test]
fn a_heading_counts_what_is_below_it() {
    let heading = project_heading("zed", None, 2, 1, true);
    assert_eq!(heading.name, "zed");
    assert_eq!(heading.counts, "2 live · 1 gone");
    assert_eq!(heading.host, "local");
    assert_eq!(project_heading("zed", Some("h1"), 0, 0, false).host, "h1");
}

#[test]
fn a_selection_does_not_outlive_its_row() {
    let entries = [
        entry("main", "zed", WorkspaceStatus::Running, SessionState::Alive),
        entry("gone", "zed", WorkspaceStatus::Running, SessionState::Dead),
    ];
    let mut sidebar = WorkspaceSidebar::new(&entries);
    assert_eq!(sidebar.body(true), SidebarBody::Rows);
    sidebar.select(&id("gone"));
    assert_eq!(sidebar.selected(), Some(&id("gone")));
    sidebar.take_rows(&entries[..1]);
    assert_eq!(sidebar.selected(), None);
    assert_eq!(sidebar.rows().len(), 2);
    assert!(gone_workspace_ids(sidebar.rows()).is_empty());
    sidebar.take_rows(&[]);
    assert_eq!(sidebar.body(true), SidebarBody::Blank);
    assert_eq!(sidebar.body(false), SidebarBody::Empty);
}

#[test]
fn a_discovery_that_vanished_is_no_failure_to_show() {
    let mut sidebar = WorkspaceSidebar::new(&[]);
    sidebar.discovery_opened(&Err(Failure::Message("no route".to_owned())));
    assert_eq!(sidebar.error(), Some("no route"));
    sidebar.discovery_opened(&Err(Failure::Gone(WorkspaceGone {
        remote_host: Some("h1".to_owned()),
        wire_id: "ade-zed-2de8b3".to_owned(),
    })));
    assert_eq!(sidebar.error(), None);
}

#[test]
fn a_shell_path_title_becomes_the_shell_name() {
    assert_eq!(
        friendly_shell_title(r"C:\WINDOWS\System32\WindowsPowerShell\v1.0\powershell.exe"),
        "PowerShell"
    );
    assert_eq!(
        friendly_shell_title(r"C:\Program Files\PowerShell\7\pwsh.exe"),
        "PowerShell"
    );
    assert_eq!(friendly_shell_title("cmd.exe"), "Command Prompt");
    assert_eq!(friendly_shell_title(r"C:\WINDOWS\system32\conhost.exe"), "");
    assert_eq!(friendly_shell_title("Building zed"), "Building zed");
    assert_eq!(friendly_shell_title(""), "");
}

#[test]
fn a_newer_pass_outdates_the_last_and_a_removal_stays_hidden() {
    let refusal = Failure::Message("no route".to_owned());
    let mut store = AdeWorkspaceStore::new(Some(&refusal));
    assert_eq!(
        store.status_stream_error(),
        Some("status updates are off: no route")
    );
    let found = |name: &str| Reconciled {
        entries: vec![discovered(name, "/repos/zed", SessionState::Alive)],
        host_errors: vec![("h1".to_owned(), "no route".to_owned())],
    };
    let stale = store.refresh();
    let ticket = store.refresh();
    assert!(!store.land(stale, Ok(found("stale")), Vec::new()));
    assert!(store.entries().is_empty());
    assert!(store.is_refreshing(), "the newer pass still runs");
    assert!(store.land(ticket, Ok(found("ade-zed-1")), Vec::new()));
    assert_eq!(store.entries().len(), 1);
    assert!(store.persisted().is_empty());
    assert_eq!(store.host_errors(), &vec!["host h1: no route".to_owned()]);

    // A removal hides the workspace at once, and a listing that still holds it
    // does not bring it back.
    store.forget_workspace(None, "ade-zed-1");
    assert!(store.entries().is_empty());
    let ticket = store.refresh();
    assert!(store.land(ticket, Ok(found("ade-zed-1")), Vec::new()));
    assert!(store.entries().is_empty());
    // A refused removal does.
    assert!(!store.removal_ended(
        None,
        "ade-zed-1",
        &Err(Failure::Message("refused".to_owned()))
    ));
    let ticket = store.refresh();
    assert!(store.land(ticket, Ok(found("ade-zed-1")), Vec::new()));
    assert_eq!(store.entries().len(), 1);

    let ticket = store.refresh();
    assert!(store.land(
        ticket,
        Err(Failure::Message("registry".to_owned())),
        Vec::new()
    ));
    assert_eq!(store.error(), Some("registry"));
}

#[test]
fn an_outdated_pass_ends_without_landing() {
    let mut store = AdeWorkspaceStore::new(None);
    let ticket = store.pass().unwrap();
    // A removal that fails begins no pass of its own.
    store.forget_workspace(None, "ade-zed-1");
    assert!(store.is_refreshing());
    let refused = Err(Failure::Message("refused".to_owned()));
    assert!(!store.removal_ended(None, "ade-zed-1", &refused));
    let found = Reconciled {
        entries: vec![discovered("ade-zed-1", "/repos/zed", SessionState::Alive)],
        host_errors: Vec::new(),
    };
    assert!(!store.land(ticket, Ok(found), Vec::new()));
    assert!(store.entries().is_empty());
    assert_eq!(store.error(), Some("refused"));
    assert!(!store.is_refreshing());
    assert_eq!(store.pass(), None);
}

#[test]
fn the_selection_marks_its_row_and_its_group() {
    let mut sidebar = WorkspaceSidebar::new(&[
        entry("main", "zed", WorkspaceStatus::Running, SessionState::Alive),
        entry("gone", "zed", WorkspaceStatus::Running, SessionState::Dead),
        entry("other", "praxis", WorkspaceStatus::Running, SessionState::Alive),
    ]);
    let marks = |sidebar: &WorkspaceSidebar| {
        sidebar
            .line_models()
            .iter()
            .map(|line| match line {
                LineModel::Heading(heading) => heading.color == Color::Default,
                LineModel::Row(row) => row.selected,
            })
            .collect::<Vec<_>>()
    };
    assert_eq!(sidebar.line_models().len(), sidebar.rows().len());
    assert_eq!(marks(&sidebar), vec![false; 5]);
    sidebar.select(&id("gone"));
    assert_eq!(marks(&sidebar), vec![true, false, true, false, false]);
    sidebar.select(&id("other"));
    assert_eq!(marks(&sidebar), vec![false, false, false, true, true]);
    assert!(matches!(
        &sidebar.line_models()[0],
        LineModel::Heading(heading) if heading.counts == "1 live · 1 gone"
    ));
}

#[test]
fn only_the_terminal_that_spoke_clears_a_title() {
    let mut store = AdeWorkspaceStore::new(None);
    let workspace = id("main");
    assert!(store.set_session_title(&workspace, 1, "building"));
    assert!(!store.set_session_title(&workspace, 2, ""));
    assert_eq!(store.session_title(&workspace), Some("building"));
    assert!(store.set_session_title(&workspace, 1, ""));
    assert_eq!(store.session_title(&workspace), None);
}

#[test]
fn status_is_polled_or_pushed() {
    assert_eq!(
        status_plan(StatusDelivery::Poll {
            interval_millis: 1_000
        }),
        StatusPlan::Timer(1_000)
    );
    assert_eq!(status_plan(StatusDelivery::Push), StatusPlan::Stream);
}

#[test]
fn a_rename_is_asked_for_once_and_needs_a_name() {
    let workspace = AdeWorkspace::new(id("main"), "main", "zed", "/repos/zed", NOW);
    let mut modal = RenameWorkspaceModal::new(workspace.clone());
    assert_eq!(modal.prefill(), "main");
    assert!(matches!(modal.confirm("   "), ConfirmStep::Show));
    assert!(modal.error().is_some());
    assert!(matches!(modal.confirm("main"), ConfirmStep::Dismiss));
    let mut modal = RenameWorkspaceModal::new(workspace.clone());
    assert!(
        matches!(modal.confirm("  other "), ConfirmStep::Ask { name, .. } if name == "other")
    );
    assert!(matches!(modal.confirm("third"), ConfirmStep::Ignore));
    assert_eq!(modal.button(), ("Renaming…", false));
    let refused = modal.renamed(Err(Failure::Message("refused".to_owned())), None);
    assert!(!refused.done);
    assert_eq!(modal.error(), Some("refused"));
    let mut renamed = workspace;
    renamed.name = "other".to_owned();
    let shown = renamed.id.clone();
    let outcome = modal.renamed(Ok(renamed), Some(&shown));
    assert!(outcome.done);
    assert_eq!(outcome.retitle.as_deref(), Some("other"));
}

#[test]
fn killing_all_sessions_asks_first() {
    let sidebar = WorkspaceSidebar::new(&[
        entry("main", "zed", WorkspaceStatus::Running, SessionState::Alive),
        discovered("ade-zed-1", "/repos/zed", SessionState::Alive),
    ]);
    let (prompt, live) = sidebar.kill_all_sessions().expect("two sessions are alive");
    assert_eq!(prompt.title, "Kill sessions in 2 live workspaces?");
    assert_eq!(prompt.confirm, "Kill All Sessions");
    assert_eq!(live.len(), 2);
    assert_eq!(sidebar.header_buttons(), (true, false, true));
    let quiet = WorkspaceSidebar::new(&[]);
    assert!(quiet.kill_all_sessions().is_none());
    assert_eq!(quiet.header_buttons(), (false, false, true));
}

#[test]
fn every_failure_has_its_line() {
    let refusal = Failure::Message("no stream".to_owned());
    let mut store = AdeWorkspaceStore::new(Some(&refusal));
    let ticket = store.refresh();
    store.land(
        ticket,
        Ok(Reconciled {
            entries: Vec::new(),
            host_errors: vec![("h1".to_owned(), "down".to_owned())],
        }),
        vec![(Some("h1".to_owned()), "daemon-a".to_owned())],
    );
    let mut sidebar = WorkspaceSidebar::new(store.entries());
    sidebar.action_ended(&Err(Failure::Message("last action".to_owned())));
    assert_eq!(
        sidebar.error_lines(&store),
        vec![
            "status updates are off: no stream",
            "host h1: down",
            "last action"
        ]
    );
    sidebar.action_ended(&Ok(()));
    assert_eq!(
        sidebar.error_lines(&store),
        vec!["status updates are off: no stream", "host h1: down"]
    );
    assert_eq!(store.daemons().len(), 1);
    assert_eq!(
        store.daemon_of(Some("h1")),
        DaemonKey::Instance("daemon-a".to_owned())
    );
}

#[test]
fn a_terminals_title_is_what_it_speaks() {
    assert_eq!(terminal_title("  building  "), "building");
    assert_eq!(terminal_title(r" C:\WINDOWS\system32\cmd.exe "), "Command Prompt");
    assert_eq!(terminal_title("   "), "");
}

#[test]
fn a_followed_terminal_titles_its_workspace() {
    let first = WorkspaceId("0000000000000001".to_owned());
    let second = WorkspaceId("0000000000000002".to_owned());
    let mut store = AdeWorkspaceStore::new(None);
    assert_eq!(store.breadcrumbs_changed(7, "tests"), None);

    store.follow_session_title(first.clone(), 7, &vec![7]);
    store.follow_session_title(first.clone(), 8, &vec![7, 8]);
    let change = store.breadcrumbs_changed(7, "  tests ").unwrap();
    assert!(change.changed);
    assert_eq!(change.custom_title.as_deref(), Some("tests"));
    assert_eq!(store.session_title(&first), Some("tests"));

    // A sibling without a title falls back to its label and takes nothing.
    let change = store.breadcrumbs_changed(8, "").unwrap();
    assert!(!change.changed);
    assert_eq!(change.custom_title, None);
    assert_eq!(store.session_title(&first), Some("tests"));

    // Followed anew, it titles the other workspace; a terminal that is gone is
    // no longer followed.
    store.follow_session_title(second.clone(), 8, &vec![8]);
    assert!(store.breadcrumbs_changed(8, r"C:\bin\pwsh.exe").unwrap().changed);
    assert_eq!(store.session_title(&second), Some("PowerShell"));
    assert_eq!(store.breadcrumbs_changed(7, "again"), None);
}
