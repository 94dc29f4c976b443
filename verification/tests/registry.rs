//! The table of workspaces.

use ade_workspaces::registry::{AdeWorkspaceRegistry, RecordConflict, StoredRow};
use ade_workspaces::workspace::{AdeWorkspace, WorkspaceId, WorkspaceStatus};

const NOW: i64 = 1_700_000_000;

fn workspace(n: u32, name: &str, project_id: &str) -> AdeWorkspace {
    AdeWorkspace::new(
        WorkspaceId(format!("{n:06x}00-0000-4000-8000-000000000000")),
        name,
        project_id,
        "/repos/zed",
        NOW,
    )
}

fn stored(workspace: &AdeWorkspace, used_by_client_at: Option<i64>) -> StoredRow {
    StoredRow {
        workspace: workspace.clone(),
        used_by_client_at,
    }
}

#[test]
fn test_workspace_round_trip() {
    let mut db = AdeWorkspaceRegistry::new();

    let mut local = workspace(1, "main", "project-a");
    local.branch = Some("main".into());
    local.terminal_session_id = Some(local.tmux_session_name());
    local.status = WorkspaceStatus::Running;

    let mut remote = workspace(2, "feature/auth", "project-a");
    remote.remote_host = Some("dev-box".into());
    remote.remote_workspace_path = Some("/home/kingii/zed".into());

    assert!(db.get_workspace(&local.id).is_none());

    db.create_workspace(local.clone(), NOW).unwrap();
    db.create_workspace(remote.clone(), NOW).unwrap();

    // Every field survives the trip, including the optional ones left None.
    assert_eq!(db.get_workspace(&local.id), Some(local.clone()));
    assert_eq!(db.get_workspace(&remote.id), Some(remote.clone()));

    let other_project = workspace(3, "main", "project-b");
    db.create_workspace(other_project, NOW).unwrap();

    assert_eq!(db.list_workspaces().len(), 3);
    let for_project_a = db.list_workspaces_for_project("project-a");
    assert_eq!(for_project_a.len(), 2);
    assert!(for_project_a.iter().all(|w| w.project_id == "project-a"));
    assert_eq!(db.list_workspaces_for_project("project-c").len(), 0);

    db.update_status(&remote.id, WorkspaceStatus::Disconnected);
    db.update_terminal_session_id(&remote.id, Some("ade-feature-auth-abc123"))
        .unwrap();
    let opened_at = 1_800_000_000;
    db.update_last_opened_at(&remote.id, opened_at);

    let stored = db.get_workspace(&remote.id).unwrap();
    assert_eq!(stored.status, WorkspaceStatus::Disconnected);
    assert_eq!(
        stored.terminal_session_id.as_deref(),
        Some("ade-feature-auth-abc123")
    );
    assert_eq!(stored.last_opened_at, opened_at);
    assert_eq!(stored.created_at, remote.created_at);
    // The updates touched only that workspace.
    assert_eq!(db.get_workspace(&local.id), Some(local));

    // Clearing the session id is how a dead session is recorded.
    db.update_terminal_session_id(&remote.id, None).unwrap();
    assert!(
        db.get_workspace(&remote.id)
            .unwrap()
            .terminal_session_id
            .is_none()
    );

    db.delete_workspace(&remote.id);
    assert!(db.get_workspace(&remote.id).is_none());
    assert_eq!(db.list_workspaces().len(), 2);
}

#[test]
fn test_daemon_id_round_trips_and_updates_atomically_with_remote_host() {
    let mut db = AdeWorkspaceRegistry::new();

    let mut remote = workspace(1, "main", "project-a");
    remote.daemon_id = Some("daemon-abc".into());
    db.create_workspace(remote.clone(), NOW).unwrap();
    assert_eq!(
        db.get_workspace(&remote.id).unwrap().daemon_id,
        Some("daemon-abc".to_owned())
    );

    db.update_remote_host_and_daemon_id(&remote.id, Some("dev-box"), Some("daemon-def"))
        .unwrap();
    let stored = db.get_workspace(&remote.id).unwrap();
    assert_eq!(stored.remote_host.as_deref(), Some("dev-box"));
    assert_eq!(stored.daemon_id.as_deref(), Some("daemon-def"));
}

#[test]
fn test_list_is_most_recently_opened_first() {
    let mut db = AdeWorkspaceRegistry::new();

    let older = workspace(1, "older", "project-a");
    let newer = workspace(2, "newer", "project-a");
    db.create_workspace(older.clone(), NOW).unwrap();
    db.create_workspace(newer.clone(), NOW).unwrap();

    db.update_last_opened_at(&older.id, 1_000);
    db.update_last_opened_at(&newer.id, 2_000);

    let listed = db.list_workspaces();
    assert_eq!(
        listed.iter().map(|w| w.id.clone()).collect::<Vec<_>>(),
        vec![newer.id, older.id]
    );
}

#[test]
fn test_migration_dedup_keeps_the_winning_confirmed_row() {
    // Branch metadata wins even when its row is older.
    let mut older = workspace(1, "older-alias", "project-a");
    older.remote_host = Some("branch-box".into());
    older.terminal_session_id = Some("sess-1".into());
    older.branch = Some("feature/keep".into());
    older.last_opened_at = 1_000;

    let mut newer = workspace(2, "newer-alias", "project-a");
    newer.remote_host = Some("branch-box".into());
    newer.terminal_session_id = Some("sess-1".into());
    newer.last_opened_at = 2_000;

    // Legacy daemons use their host spelling as the effective identity.
    let mut legacy_older = workspace(3, "legacy-older", "project-a");
    legacy_older.remote_host = Some("dev-box".into());
    legacy_older.terminal_session_id = Some("sess-2".into());
    legacy_older.last_opened_at = 1_000;

    let mut legacy_newer = workspace(4, "legacy-newer", "project-a");
    legacy_newer.remote_host = Some("dev-box".into());
    legacy_newer.terminal_session_id = Some("sess-2".into());
    legacy_newer.last_opened_at = 2_000;

    // Same session, same last_opened_at: the lexically lower id wins the tie.
    let mut higher_id = workspace(5, "tie-b", "project-a");
    higher_id.id = WorkspaceId("zzz-loser".into());
    higher_id.remote_host = Some("tie-box".into());
    higher_id.terminal_session_id = Some("sess-3".into());
    higher_id.last_opened_at = 3_000;

    let mut lower_id = workspace(6, "tie-a", "project-a");
    lower_id.id = WorkspaceId("aaa-winner".into());
    lower_id.remote_host = Some("tie-box".into());
    lower_id.terminal_session_id = Some("sess-3".into());
    lower_id.last_opened_at = 3_000;

    let db = AdeWorkspaceRegistry::open(&vec![
        stored(&older, Some(1)),
        stored(&newer, Some(2)),
        stored(&legacy_older, Some(1)),
        stored(&legacy_newer, Some(2)),
        stored(&higher_id, Some(3)),
        stored(&lower_id, Some(3)),
    ])
    .unwrap();
    let listed = db.list_workspaces();

    let branch_box: Vec<_> = listed
        .iter()
        .filter(|workspace| workspace.remote_host.as_deref() == Some("branch-box"))
        .collect();
    assert_eq!(branch_box.len(), 1, "only the winner survives: {listed:?}");
    assert_eq!(branch_box[0].id, older.id, "the row with a branch wins");
    assert_eq!(
        branch_box[0].name, older.name,
        "the winner's own metadata is kept, not merged with the loser's"
    );
    assert_eq!(branch_box[0].branch.as_deref(), Some("feature/keep"));

    let surviving_legacy = listed
        .iter()
        .find(|workspace| workspace.remote_host.as_deref() == Some("dev-box"))
        .expect("one legacy host row survives");
    assert_eq!(surviving_legacy.id, legacy_newer.id, "the newer row wins");

    let tie_box: Vec<_> = listed
        .iter()
        .filter(|workspace| workspace.remote_host.as_deref() == Some("tie-box"))
        .collect();
    assert_eq!(tie_box.len(), 1, "only the winner survives: {listed:?}");
    assert_eq!(tie_box[0].id, lower_id.id, "the lexically lower id wins the tie");
}

#[test]
fn test_record_index_leaves_distinct_daemon_ids_separate() {
    let mut db = AdeWorkspaceRegistry::new();

    let mut first = workspace(1, "first", "project-a");
    first.daemon_id = Some("daemon-a".into());
    first.terminal_session_id = Some("shared-session".into());
    db.create_workspace(first, NOW).unwrap();

    let mut second = workspace(2, "second", "project-a");
    second.daemon_id = Some("daemon-b".into());
    second.terminal_session_id = Some("shared-session".into());
    db.create_workspace(second, NOW).unwrap();

    assert_eq!(
        db.list_workspaces().len(),
        2,
        "different daemon_ids sharing a terminal_session_id are not duplicates"
    );
}

#[test]
fn test_migration_dedup_leaves_quarantined_rows_untouched() {
    let mut first = workspace(1, "first", "project-a");
    first.daemon_id = Some("daemon-x".into());
    first.terminal_session_id = Some("sess-1".into());

    let mut second = workspace(2, "second", "project-a");
    second.daemon_id = Some("daemon-x".into());
    second.terminal_session_id = Some("sess-1".into());

    let db = AdeWorkspaceRegistry::open(&vec![stored(&first, None), stored(&second, None)]).unwrap();
    assert_eq!(
        db.list_workspaces().len(),
        2,
        "quarantined rows are never deleted or constrained"
    );
}

#[test]
fn test_create_workspace_preserves_existing_row_on_identity_conflict_but_replaces_by_id() {
    let mut db = AdeWorkspaceRegistry::new();

    let mut original = workspace(1, "original", "project-a");
    original.daemon_id = Some("daemon-x".into());
    original.terminal_session_id = Some("sess-1".into());
    db.create_workspace(original.clone(), NOW).unwrap();

    // A different id claiming the same confirmed identity must not clobber the
    // existing row or its id.
    let mut challenger = workspace(2, "challenger", "project-a");
    challenger.daemon_id = Some("daemon-x".into());
    challenger.terminal_session_id = Some("sess-1".into());
    db.create_workspace(challenger.clone(), NOW).unwrap();

    assert_eq!(
        db.get_workspace(&original.id),
        Some(original.clone()),
        "the existing row's id and metadata survive the index conflict"
    );
    assert!(
        db.get_workspace(&challenger.id).is_none(),
        "the challenger is never inserted"
    );
    assert_eq!(db.list_workspaces().len(), 1);

    // Re-inserting under the same id still replaces it.
    let mut renamed = original.clone();
    renamed.name = "renamed".into();
    renamed.status = WorkspaceStatus::Running;
    db.create_workspace(renamed.clone(), NOW).unwrap();

    assert_eq!(
        db.get_workspace(&original.id),
        Some(renamed),
        "a same-id insert still retains replace/update semantics"
    );
    assert_eq!(db.list_workspaces().len(), 1);
}

#[test]
fn a_used_row_is_stamped_and_a_quarantined_one_is_not() {
    let row = workspace(1, "created-here", "project-a");
    let mut db = AdeWorkspaceRegistry::new();
    db.create_workspace(row.clone(), NOW).unwrap();
    assert_eq!(db.used_by_client_at(&row.id), Some(NOW));
    db.quarantine_workspace(&row.id);
    assert_eq!(db.used_by_client_at(&row.id), None);
    assert!(db.confirmed_workspaces().is_empty());
    assert_eq!(db.unconfirmed_workspaces().len(), 1);
}

#[test]
fn an_update_that_would_share_a_record_is_refused() {
    let mut db = AdeWorkspaceRegistry::new();
    let mut owner = workspace(1, "owner", "project-a");
    owner.daemon_id = Some("daemon-x".into());
    owner.terminal_session_id = Some("sess-1".into());
    let mut other = workspace(2, "other", "project-a");
    other.daemon_id = Some("daemon-x".into());
    db.create_workspace(owner, NOW).unwrap();
    db.create_workspace(other.clone(), NOW).unwrap();
    assert_eq!(
        db.update_terminal_session_id(&other.id, Some("sess-1")),
        Err(RecordConflict)
    );
    assert_eq!(db.get_workspace(&other.id), Some(other));
}

#[test]
fn a_scope_write_needs_a_later_revision() {
    let mut db = AdeWorkspaceRegistry::new();
    let mut row = workspace(1, "main", "project-a");
    row.project_identity = Some("/repos/zed".into());
    row.project_scope_rev = 3;
    db.create_workspace(row.clone(), NOW).unwrap();
    let (written, kept) = db.update_project_scope(&row.id, 3, "b", "/repos/b").unwrap();
    assert!(!written);
    assert_eq!(kept, row);
    let (written, moved) = db.update_project_scope(&row.id, 4, "b", "/repos/b").unwrap();
    assert!(written);
    assert_eq!(moved.project_id, "b");
    assert_eq!(moved.project_identity.as_deref(), Some("/repos/b"));
    assert_eq!(moved.project_scope_rev, 4);
    assert_eq!(db.get_workspace(&row.id), Some(moved));
    assert!(
        db.update_project_scope(&WorkspaceId("nobody".into()), 9, "b", "/b")
            .is_none()
    );
}
