//! Windows, terminals, tabs and menus.

use ade_workspaces::disconnected_overlay::{
    lost_host, DisconnectedOverlay, Host, OverlayButton, OverlayStep, ProjectEvent,
};
use ade_workspaces::edit_prediction_button::{
    copilot_settings_url, disabled_globs_range, edit_prediction_menu_opened,
    ensure_disabled_globs, get_available_providers, hide_copilot, set_completion_provider, set_next_edit_suggestions,
    toggle_edit_prediction_mode, toggle_show_edit_predictions_for_language, ButtonModel,
    DataCollection, EditPredictionButton, EditPredictionProvider, EditPredictionsMode, EditorState,
    IconName, MenuAction, MenuEntry, MenuItem, PredictionSettings, SettingsContent, Status,
};
use ade_workspaces::missing_tab::{MissingTab, Tab};
use ade_workspaces::paths::{extension, file_name, same_path};
use ade_workspaces::row_display::{
    format_age, format_history_entry_timestamp, fuzzy_match_positions, in_both_cases, positions_of,
};
use ade_workspaces::session_backend::Attached;
use ade_workspaces::terminal_agents::{
    append_terminal_agents, init_delivery, terminal_agent_presets, terminal_init_command_input,
    AgentIcon, AgentMenuLine, AgentPreset, AgentThreadSource, InitDelivery,
};
use ade_workspaces::terminal_pane::{
    attach_spawn_task, open_workspace_terminal, OpenStep, WorkspaceTerminals,
};
use ade_workspaces::workspace::{AdeWorkspace, WorkspaceId};
use ade_workspaces::workspace_sidebar::Color;
use ade_workspaces::workspace_view::{
    find_worktree,
    ensure_repository_worktree, settled_scope, worktree_path, BoundWorkspaces, EnsureWorktree,
    PollStep,
};
use ade_workspaces::worktree_metadata_store::{
    created_id, is_archived_worktree_referenced, worktree_info_from_thread_paths,
    TestMetadataDbName, ThreadItemWorktreeInfo, WorktreeKind, WorktreePair,
};

const NOW: i64 = 1_800_000_000;

fn workspace(name: &str, project_id: &str, path: &str) -> AdeWorkspace {
    AdeWorkspace::new(
        WorkspaceId("0123456789abcdef".to_owned()),
        name,
        project_id,
        path,
        NOW,
    )
}

#[test]
fn test_a_local_workspace_contributes_its_repository_path() {
    let workspace = workspace("main", "zed", "/repos/zed");
    assert_eq!(worktree_path(&workspace), Some("/repos/zed"));
}

#[test]
fn test_a_remote_workspace_contributes_nothing_local() {
    let mut workspace = workspace("main", "zed", "/repos/zed");
    workspace.remote_host = Some("build-box".into());
    workspace.remote_workspace_path = Some("/repos/zed".into());
    // The path exists, and may even exist locally: that is exactly the case
    // that must not be opened.
    assert_eq!(worktree_path(&workspace), None);
}

fn roots(paths: &[&str]) -> Vec<(String, u64)> {
    paths
        .iter()
        .enumerate()
        .map(|(n, path)| ((*path).to_owned(), n as u64 + 1))
        .collect()
}

#[test]
fn test_the_window_is_named_after_the_workspace() {
    let mut bound = BoundWorkspaces::new();
    let spike = workspace("Vector DB spike", "zed", "/repos/zed");
    let named = bound
        .name_window_after_workspace(1, &spike, None, &roots(&["/repos/zed"]))
        .expect("the matching workspace should bind");
    assert_eq!(named.title, "Vector DB spike");
    assert!(named.is_first);
    assert_eq!(bound.bound_workspace(1), Some(&spike.id));
    assert_eq!(bound.bound_workspace(2), None);
}

#[test]
fn test_ensure_repository_worktree_adds_an_exact_root_below_a_visible_parent() {
    let spike = workspace("Vector DB spike", "zed", "/repos/zed");
    assert_eq!(
        ensure_repository_worktree(&spike, &roots(&["/repos"])),
        EnsureWorktree::Create("/repos/zed".to_owned())
    );
    assert_eq!(
        ensure_repository_worktree(&spike, &roots(&["/repos", "/repos/zed"])),
        EnsureWorktree::Reuse(2)
    );
    let mut bound = BoundWorkspaces::new();
    bound
        .name_window_after_workspace(1, &spike, None, &roots(&["/repos", "/repos/zed"]))
        .expect("the workspace should bind to its exact repository worktree");
    assert_eq!(bound.worktree_moved(1).map(|wait| wait.worktree_id), Some(2));
    let mut remote = spike;
    remote.remote_host = Some("build-box".to_owned());
    assert_eq!(
        ensure_repository_worktree(&remote, &roots(&["/repos"])),
        EnsureWorktree::Nothing
    );
}

#[test]
fn test_the_binding_survives_two_workspaces_of_one_name() {
    let mut bound = BoundWorkspaces::new();
    let first = workspace("Vector DB spike", "zed", "/repos/zed");
    let mut sibling = first.clone();
    sibling.id = WorkspaceId("fedcba9876543210".to_owned());
    assert_eq!(first.name, sibling.name);

    bound
        .name_window_after_workspace(1, &first, None, &roots(&["/repos/zed"]))
        .expect("the first workspace should bind");
    assert_eq!(bound.bound_workspace(1), Some(&first.id));

    let again = bound
        .name_window_after_workspace(1, &sibling, None, &roots(&["/repos/zed"]))
        .expect("the sibling workspace should bind");
    assert!(!again.is_first);
    assert_eq!(bound.bound_workspace(1), Some(&sibling.id));
}

#[test]
fn test_a_binding_only_targets_its_exact_worktree_and_host() {
    let mut bound = BoundWorkspaces::new();
    let spike = workspace("Vector DB spike", "zed", "/repos/zed");
    bound
        .name_window_after_workspace(1, &spike, None, &roots(&["/repos/zed"]))
        .expect("the workspace should bind");

    assert_eq!(
        bound.bound_workspace_for_worktree(1, "/repos/zed", None),
        Some(&spike.id)
    );
    assert!(
        bound
            .bound_workspace_for_worktree(1, "/repos/sibling", None)
            .is_none(),
        "another root in the same window must not inherit the destructive target"
    );
    assert!(
        bound
            .bound_workspace_for_worktree(1, "/repos/zed", Some("other@build-box"))
            .is_none(),
        "the same path on another destination must not inherit the destructive target"
    );
    bound.clear_window_binding(1);
    assert_eq!(bound.bound_workspace(1), None);
}

#[test]
fn a_bound_worktree_move_is_followed_once() {
    let mut bound = BoundWorkspaces::new();
    let spike = workspace("Vector DB spike", "zed", "/repos/zed");
    bound
        .name_window_after_workspace(1, &spike, None, &roots(&["/repos/zed"]))
        .unwrap();

    let first = bound.worktree_moved(1).expect("the window is bound");
    let second = bound.worktree_moved(1).expect("the window is bound");
    assert_eq!(bound.poll(first, true, 0), PollStep::Abandon);
    assert_eq!(bound.poll(second, false, 0), PollStep::WaitMillis(250));
    assert_eq!(bound.poll(second, false, 119_750), PollStep::WaitMillis(250));
    assert_eq!(bound.poll(second, false, 120_000), PollStep::GiveUp);
    assert_eq!(bound.poll(second, true, 120_000), PollStep::Write);
    assert!(!bound.may_write(first));
    assert!(bound.may_write(second));

    let mut updated = spike.clone();
    updated.repository_path = "/repos/zed-renamed".to_owned();
    bound.scope_written(first, &updated);
    assert!(bound.bound_workspace_for_worktree(1, "/repos/zed", None).is_some());
    bound.scope_written(second, &updated);
    assert_eq!(
        bound.bound_workspace_for_worktree(1, "/repos/zed-renamed", None),
        Some(&spike.id)
    );
    assert!(bound.bound_workspace_for_worktree(1, "/repos/zed", None).is_none());

    // Showing another workspace outdates the move that is being followed.
    bound
        .name_window_after_workspace(1, &spike, None, &roots(&["/repos/zed"]))
        .unwrap();
    assert!(!bound.may_write(second));
    assert_eq!(bound.worktree_moved(7), None);
}

#[test]
fn a_scope_settles_when_all_of_it_is_known() {
    let known = |is_known: bool, path: Option<&str>, identity: &str| {
        settled_scope(
            is_known,
            path.map(str::to_owned),
            "zed".to_owned(),
            identity.to_owned(),
        )
    };
    assert!(known(false, Some("/repos/zed"), "/repos/zed").is_none());
    assert!(known(true, None, "/repos/zed").is_none());
    assert!(known(true, Some("/repos/zed"), "").is_none());
    let scope = known(true, Some("/repos/zed"), "/repos/main").unwrap();
    assert_eq!(scope.repository_path, "/repos/zed");
    assert_eq!(scope.project_id, "zed");
    assert_eq!(scope.project_identity, "/repos/main");
}

#[test]
fn test_an_unrelated_remote_workspace_cannot_rebind_the_window() {
    let mut bound = BoundWorkspaces::new();
    let spike = workspace("Vector DB spike", "zed", "/repos/zed");
    bound
        .name_window_after_workspace(1, &spike, None, &roots(&["/repos/zed"]))
        .expect("the matching workspace should bind");

    let mut unrelated = workspace("Seedance", "viral-studio", "/repos/seedance");
    unrelated.id = WorkspaceId("seedance".to_owned());
    unrelated.remote_host = Some("user@build-box".into());
    let error = bound
        .name_window_after_workspace(1, &unrelated, None, &roots(&["/repos/zed", "/a\"b"]))
        .expect_err("a row from another project must not take over this window");
    assert_eq!(
        error.message(),
        "workspace seedance belongs to user@build-box at /repos/seedance, but this window is \
         scoped to a local host at [\"/repos/zed\", \"/a\\\"b\"]"
    );
    assert_eq!(
        bound.bound_workspace(1),
        Some(&spike.id),
        "the failed cross-project open must preserve the existing binding"
    );

    let named = bound
        .name_window_after_workspace(
            2,
            &unrelated,
            Some("user@build-box"),
            &roots(&["/repos/seedance"]),
        )
        .expect("its own window takes it");
    assert_eq!(named.title, "Seedance");
}

fn attached(session_id: &str, argv: &[&str]) -> Attached {
    Attached {
        session_id: session_id.to_owned(),
        daemon_id: None,
        argv: argv.iter().map(|part| (*part).to_owned()).collect(),
    }
}

#[test]
fn test_attach_spawn_task_carries_argv_cwd_and_name() {
    let workspace = workspace("Vector DB spike", "project-a", "/repos/zed");

    let spawn_task = attach_spawn_task(
        &workspace,
        attached(
            "ade-vector-db-spike-012345",
            &[
                "tmux",
                "new-session",
                "-A",
                "-s",
                "ade-vector-db-spike-012345",
                "-c",
                "/repos/zed",
            ],
        ),
    )
    .unwrap();

    // The argv is run verbatim.
    assert_eq!(spawn_task.command.as_deref(), Some("tmux"));
    assert_eq!(
        spawn_task.args,
        vec![
            "new-session",
            "-A",
            "-s",
            "ade-vector-db-spike-012345",
            "-c",
            "/repos/zed"
        ]
    );
    assert_eq!(spawn_task.cwd.as_deref(), Some("/repos/zed"));
    // The tab reads as the workspace, not as the session string.
    assert_eq!(spawn_task.label, "Vector DB spike");
    assert_eq!(spawn_task.full_label, "Vector DB spike");
    assert_eq!(
        spawn_task.command_label,
        "tmux new-session -A -s ade-vector-db-spike-012345 -c /repos/zed"
    );
    // The session, not the workspace: it is what a layout names.
    assert_eq!(spawn_task.id, "ade-session:ade-vector-db-spike-012345");
    // Task chrome stays off: this is a terminal, not a build.
    assert!(!spawn_task.show_summary);
    assert!(!spawn_task.show_command);
    assert!(!spawn_task.show_rerun);
}

#[test]
fn test_a_remote_workspace_gets_no_local_working_directory() {
    let mut workspace = workspace("main", "zed", "/repos/zed");
    workspace.remote_host = Some("build-box".into());

    let spawn_task = attach_spawn_task(
        &workspace,
        attached(
            "session-uuid",
            &[
                "/opt/ade/ade-daemon",
                "attach",
                "session-uuid",
                "--socket",
                "/home/k/.ade/hosts/build-box.sock",
            ],
        ),
    )
    .unwrap();

    assert_eq!(spawn_task.cwd, None);
    assert_eq!(spawn_task.command.as_deref(), Some("/opt/ade/ade-daemon"));
    assert!(!spawn_task.args.iter().any(|argument| argument == "ssh"));
    assert!(spawn_task.args.contains(&"--socket".to_owned()));
}

#[test]
fn test_empty_attach_argv_is_an_error_not_a_panic() {
    let workspace = workspace("main", "project-a", "/repos/zed");
    let error = attach_spawn_task(&workspace, attached("s1", &[])).unwrap_err();
    assert!(error.message().contains("empty"));
}

#[test]
fn test_two_sessions_never_share_a_task_id() {
    let workspace = workspace("main", "project-a", "/repos/zed");
    assert_ne!(
        attach_spawn_task(&workspace, attached("s1", &["tmux"])).unwrap().id,
        attach_spawn_task(&workspace, attached("s2", &["tmux"])).unwrap().id
    );
}

#[test]
fn test_dead_views_are_pruned_on_access() {
    let mut open = WorkspaceTerminals::new();
    let alive_id = WorkspaceId("alive".to_owned());
    let closed_id = WorkspaceId("closed".to_owned());

    let (alive, closed) = (1, 2);
    open.insert(alive_id.clone(), alive);
    open.insert(closed_id.clone(), closed);
    assert_eq!(open.len(), 2);

    // Nothing has been closed yet, so nothing is pruned.
    let (found, pruned) = open.get(&alive_id, &vec![alive, closed]);
    assert!(found.is_some(), "a live view must be found");
    assert!(pruned.is_empty());

    // Asking about the other workspace still clears the dead handle, so the
    // map cannot grow without bound.
    let (found, pruned) = open.get(&alive_id, &vec![alive]);
    assert!(found.is_some());
    assert_eq!(pruned, vec![closed_id.clone()]);
    assert_eq!(open.len(), 1);
    assert!(open.get(&closed_id, &vec![alive]).0.is_none());

    // Forgetting is idempotent, and reinserting takes the slot back.
    open.forget(&alive_id);
    assert_eq!(open.len(), 0);
    open.forget(&alive_id);
    open.insert(alive_id.clone(), alive);
    assert_eq!(open.get(&alive_id, &vec![alive]).0, Some(alive));
}

#[test]
fn an_open_terminal_comes_to_the_front_unless_its_session_is_another() {
    let workspace = workspace("main", "zed", "/repos/zed");
    let mut open = WorkspaceTerminals::new();
    open.insert(workspace.id.clone(), 5);
    let step = open_workspace_terminal(
        &mut open,
        &workspace,
        attached("s1", &["tmux"]),
        &vec![5],
        Some("s1"),
        false,
        true,
    );
    assert_eq!(
        step,
        OpenStep::Activate {
            view: 5,
            focus: true
        }
    );
    let step = open_workspace_terminal(
        &mut open,
        &workspace,
        attached("s2", &["tmux"]),
        &vec![5],
        Some("s1"),
        false,
        true,
    );
    assert!(matches!(step, OpenStep::Spawn { title, .. } if title == "main"));
    assert_eq!(open.len(), 0);
    let step = open_workspace_terminal(
        &mut open,
        &workspace,
        attached("s2", &["tmux"]),
        &Vec::new(),
        None,
        false,
        false,
    );
    assert!(
        matches!(step, OpenStep::Refuse(failure) if failure.message().contains("cannot host"))
    );
}

#[test]
fn test_the_tab_shows_the_file_name_and_keeps_the_whole_path() {
    let item = MissingTab::file("/repos/zed/src/main.rs");
    assert_eq!(
        item.tab(),
        &Tab::Editor {
            path: "/repos/zed/src/main.rs".to_owned()
        }
    );
    assert_eq!(item.short_name(), "main.rs");
    assert_eq!(item.subject(), "/repos/zed/src/main.rs");
}

#[test]
fn test_a_path_with_no_components_is_shown_whole() {
    assert_eq!(MissingTab::file("/").short_name(), "/");
    // A Windows path is split on its own separator too.
    assert_eq!(
        MissingTab::file(r"C:\repos\zed\main.rs").short_name(),
        "main.rs"
    );
}

#[test]
fn test_a_session_placeholder_keeps_the_session_it_stands_for() {
    let item = MissingTab::session("9f2c-terminal");
    assert_eq!(
        item.tab(),
        &Tab::Terminal {
            session_id: "9f2c-terminal".into()
        }
    );
    // An id has no components, so the tab shows it whole.
    assert_eq!(item.short_name(), "9f2c-terminal");
    // And the tab says the session is still running.
    assert!(
        item.tab_tooltip_text().contains("still running"),
        "the tooltip must not imply the session is gone"
    );
}

#[test]
fn test_fuzzy_match_positions_finds_a_contiguous_run() {
    assert_eq!(fuzzy_match_positions("bar", "foobar"), Some(vec![3, 4, 5]));
    assert_eq!(fuzzy_match_positions("BAR", "foobar"), Some(vec![3, 4, 5]));
    assert_eq!(fuzzy_match_positions("", "foobar"), Some(Vec::new()));
    assert_eq!(fuzzy_match_positions("bar", "foo"), None);
    assert_eq!(
        fuzzy_match_positions("longer", "no"),
        None,
        "a query longer than the candidate must not panic on the window count"
    );
}

#[test]
fn a_match_is_shown_by_its_characters_whatever_their_case() {
    assert_eq!(fuzzy_match_positions("b", "äab"), Some(vec![2]));
    assert_eq!(fuzzy_match_positions("a", "éa"), Some(vec![1]));
    assert_eq!(fuzzy_match_positions("É", "é"), Some(vec![0]));
    assert_eq!(fuzzy_match_positions("ä", "xÄ"), Some(vec![1]));
    assert_eq!(fuzzy_match_positions("жук", "О ЖУК"), Some(vec![2, 3, 4]));
    assert_eq!(fuzzy_match_positions("ΟΔΟΣ", "οδος"), Some(vec![0, 1, 2, 3]));
    assert_eq!(fuzzy_match_positions("ẞ", "ß"), Some(vec![0]));
    assert_eq!(fuzzy_match_positions("×", "÷"), None);
    assert_eq!(fuzzy_match_positions("[", "{"), None);
}

#[test]
fn letters_are_compared_in_both_cases() {
    let letters = in_both_cases("Aß");
    assert_eq!(letters[0].lower, vec!['a']);
    assert_eq!(letters[0].upper, vec!['A']);
    assert_eq!(letters[1].lower, vec!['ß']);
    assert_eq!(letters[1].upper, vec!['S', 'S']);
    assert_eq!(positions_of(&in_both_cases("SS"), &letters), None);
    for code in 0u32..0x100 {
        let c = char::from_u32(code).unwrap();
        let text = c.to_string();
        let cased = &in_both_cases(&text)[0];
        assert_eq!(cased.lower, c.to_lowercase().collect::<Vec<char>>());
        assert_eq!(cased.upper, c.to_uppercase().collect::<Vec<char>>());
        let capital = c.is_ascii_uppercase() || (0xc0..=0xde).contains(&code) && code != 0xd7;
        let small = c.is_ascii_lowercase() || (0xe0..=0xfe).contains(&code) && code != 0xf7;
        if capital {
            assert_eq!(cased.lower, vec![char::from_u32(code + 32).unwrap()]);
            assert_eq!(cased.upper, vec![c]);
        } else if small {
            assert_eq!(cased.upper, vec![char::from_u32(code - 32).unwrap()]);
            assert_eq!(cased.lower, vec![c]);
        } else if c.is_ascii() {
            assert_eq!((&cased.lower, &cased.upper), (&vec![c], &vec![c]));
        }
    }
}

#[test]
fn an_age_is_shown_in_its_largest_unit() {
    assert_eq!(format_age(0), "1m");
    assert_eq!(format_age(-5), "1m");
    assert_eq!(format_age(5 * 60), "5m");
    assert_eq!(format_age(59 * 60 + 59), "59m");
    assert_eq!(format_age(3 * 3_600), "3h");
    assert_eq!(format_age(2 * 86_400), "2d");
    assert_eq!(format_age(7 * 86_400), "1w");
    assert_eq!(format_age(120 * 86_400), "4mo");
}

#[test]
fn an_entrys_age_rounds_towards_zero() {
    // 299.5 seconds are not yet five minutes.
    assert_eq!(
        format_history_entry_timestamp(NOW, 500_000_000, NOW + 300, 0),
        "4m"
    );
    assert_eq!(format_history_entry_timestamp(NOW, 0, NOW + 300, 0), "5m");
    assert_eq!(format_history_entry_timestamp(NOW + 300, 0, NOW, 0), "1m");
    // From the beginning of a leap second, which is one second more.
    assert_eq!(
        format_history_entry_timestamp(NOW - 1, 1_000_000_000, NOW + 299, 0),
        "5m"
    );
    // The ends of the calendar.
    assert_eq!(
        format_history_entry_timestamp(-8_334_601_228_800, 0, 8_210_266_876_799, 999_999_999),
        format_age(8_210_266_876_799 + 8_334_601_228_800)
    );
}

#[test]
fn the_agents_are_offered_in_order() {
    assert_eq!(AgentThreadSource::AgentPanel.as_str(), "agent_panel");
    assert_eq!(AgentThreadSource::GitPanel.as_str(), "git_panel");
    assert_eq!(AgentThreadSource::Sidebar.as_str(), "sidebar");
    let configured = AgentPreset {
        label: "Agent (Full Access)".to_owned(),
        icon: AgentIcon::Claude,
        command: "agent --skip-permissions".to_owned(),
    };
    let presets = terminal_agent_presets(vec![configured]);
    assert_eq!(presets.len(), 3);
    assert_eq!(presets[0].label, "Codex (Full Access)");
    assert_eq!(presets[0].command, "codex --yolo");
    assert_eq!(presets[0].icon, AgentIcon::OpenAi);
    assert_eq!(presets[1].icon, AgentIcon::Claude);
    assert_eq!(presets[2].label, "OpenCode (Full Access)");
    assert_eq!(presets[2].command, "opencode --auto");
    let mut menu = Vec::new();
    append_terminal_agents(&mut menu, presets);
    assert_eq!(menu.len(), 5);
    assert_eq!(menu[0], AgentMenuLine::Separator);
    assert_eq!(menu[1], AgentMenuLine::Header);
    assert!(
        matches!(&menu[3], AgentMenuLine::Agent(agent, Color::Muted) if agent.command == "agent --skip-permissions")
    );
    assert_eq!(
        terminal_init_command_input("codex --yolo".to_owned()),
        b"codex --yolo\r".to_vec()
    );
    assert_eq!(init_delivery(false), InitDelivery::Now);
    assert_eq!(
        init_delivery(true),
        InitDelivery::AfterStartup {
            timeout_millis: 5_000
        }
    );
}

fn pair(main: &str, folder: &str, short: Option<&str>) -> WorktreePair {
    WorktreePair {
        main_path: main.to_owned(),
        folder_path: folder.to_owned(),
        short_name: short.map(str::to_owned),
    }
}

fn names(infos: &[ThreadItemWorktreeInfo]) -> Vec<&str> {
    infos
        .iter()
        .map(|info| info.worktree_name.as_deref().unwrap_or_default())
        .collect()
}

#[test]
fn linked_worktrees_are_told_apart_by_their_project() {
    let branches = vec![("/w/feature".to_owned(), "feature/x".to_owned())];
    let one = worktree_info_from_thread_paths(
        &vec![
            pair("/p/zed", "/p/zed", None),
            pair("/p/zed", "/w/feature", Some("feature")),
            pair("/", "/", None),
        ],
        &branches,
    );
    // Two main checkouts, and names that differ.
    assert_eq!(names(&one), vec!["zed", "zed:feature", "/"]);
    assert_eq!(one[2].full_path, "/");
    assert_eq!(one[2].kind, WorktreeKind::Main);
    assert_eq!(one[0].kind, WorktreeKind::Main);
    assert_eq!(one[1].kind, WorktreeKind::Linked);
    assert_eq!(one[1].full_path, "/w/feature");
    assert_eq!(one[1].branch_name.as_deref(), Some("feature/x"));
    assert_eq!(one[0].branch_name, None);

    let single = worktree_info_from_thread_paths(
        &vec![
            pair("/p/zed", "/p/zed", None),
            pair("/p/zed", "/w/feature", Some("feature")),
        ],
        &branches,
    );
    assert_eq!(names(&single), vec!["zed", "feature"]);

    let same = worktree_info_from_thread_paths(
        &vec![
            pair("/p/zed", "/w/zed/feature", Some("feature")),
            pair("/p/praxis", "/w/praxis/feature", Some("feature")),
        ],
        &branches,
    );
    assert_eq!(names(&same), vec!["feature", "feature"]);

    let nameless = worktree_info_from_thread_paths(
        &vec![
            pair("/p/zed", "/w/zed/feature", None),
            pair("/p/praxis", "/p/praxis", None),
        ],
        &branches,
    );
    assert_eq!(names(&nameless), vec!["zed:", "praxis"]);
}

#[test]
fn an_archived_worktree_is_referenced_by_any_row() {
    assert!(is_archived_worktree_referenced(Some(2)));
    assert!(!is_archived_worktree_referenced(Some(0)));
    assert!(!is_archived_worktree_referenced(None));
    assert_eq!(created_id(Some(7)), Ok(7));
    assert_eq!(created_id(None), Err("expected RETURNING id".to_owned()));
    let given = TestMetadataDbName("given".to_owned());
    assert_eq!(TestMetadataDbName::global(Some(&given), Some("t")), "given");
    assert_eq!(
        TestMetadataDbName::global(None, Some("t")),
        "THREAD_METADATA_DB_t"
    );
    assert_eq!(
        TestMetadataDbName::global(None, None),
        "THREAD_METADATA_DB_unknown_test"
    );
}

#[test]
fn test_copilot_settings_url_with_enterprise_uri() {
    assert_eq!(
        copilot_settings_url(Some("https://my-company.ghe.com")),
        "https://my-company.ghe.com/settings/copilot"
    );
}

#[test]
fn test_copilot_settings_url_with_enterprise_uri_trailing_slash() {
    assert_eq!(
        copilot_settings_url(Some("https://my-company.ghe.com/")),
        "https://my-company.ghe.com/settings/copilot"
    );
    assert_eq!(copilot_settings_url(Some("//")), "/settings/copilot");
}

#[test]
fn test_copilot_settings_url_without_enterprise_uri() {
    assert_eq!(
        copilot_settings_url(None),
        "https://github.com/settings/copilot"
    );
}

fn settings(provider: EditPredictionProvider) -> PredictionSettings {
    PredictionSettings {
        disable_ai: false,
        provider,
        mode: EditPredictionsMode::Eager,
        language_enabled: true,
        globally_enabled: true,
        next_edit_suggestions: None,
        enterprise_uri: None,
    }
}

fn editor() -> EditorState {
    EditorState {
        id: 3,
        language: Some("Rust".to_owned()),
        file_enabled: None,
        shows_predictions: true,
        provider: None,
    }
}

fn labels(menu: &[MenuItem]) -> Vec<&str> {
    menu.iter()
        .map(|item| match item {
            MenuItem::Header(label) => label.as_str(),
            MenuItem::Separator => "-",
            MenuItem::Entry(entry) => entry.label.as_str(),
        })
        .collect()
}

fn find<'a>(menu: &'a [MenuItem], label: &str) -> &'a MenuEntry {
    menu.iter()
        .find_map(|item| match item {
            MenuItem::Entry(entry) if entry.label == label => Some(entry),
            _ => None,
        })
        .expect("the menu has the entry")
}

#[test]
fn the_button_shows_how_copilot_is_doing() {
    let mut button = EditPredictionButton::new();
    let copilot = settings(EditPredictionProvider::Copilot);
    assert_eq!(button.render(&copilot, None), ButtonModel::Hidden);
    assert_eq!(
        button.render(&settings(EditPredictionProvider::Zed), Some(Status::Authorized)),
        ButtonModel::Hidden
    );
    let mut disabled = settings(EditPredictionProvider::Copilot);
    disabled.disable_ai = true;
    assert_eq!(
        button.render(&disabled, Some(Status::Authorized)),
        ButtonModel::Hidden
    );
    assert_eq!(
        button.render(&copilot, Some(Status::Error("no node".to_owned()))),
        ButtonModel::Failed {
            icon: IconName::CopilotError,
            toast: "Copilot can't be started: no node".to_owned()
        }
    );
    assert_eq!(
        button.render(&copilot, Some(Status::Other)),
        ButtonModel::Menu {
            icon: IconName::CopilotInit
        }
    );
    assert_eq!(
        button.render(&copilot, Some(Status::Authorized)),
        ButtonModel::Menu {
            icon: IconName::CopilotDisabled
        }
    );
    button.set_active_pane_item(Some(editor()));
    assert_eq!(
        button.render(&copilot, Some(Status::Authorized)),
        ButtonModel::Menu {
            icon: IconName::Copilot
        }
    );
    button.set_active_pane_item(None);
    assert_eq!(
        button.render(&copilot, Some(Status::Authorized)),
        ButtonModel::Menu {
            icon: IconName::CopilotDisabled
        }
    );
    assert!(button.menu(&copilot, None).is_none());
}

#[test]
fn the_menus_hold_what_applies() {
    let mut button = EditPredictionButton::new();
    let copilot = settings(EditPredictionProvider::Copilot);
    let start = button.menu(&copilot, Some(Status::Other)).unwrap();
    assert_eq!(
        labels(&start),
        vec![
            "Sign In to Copilot",
            "Disable Copilot",
            "-",
            "Configure Providers"
        ]
    );

    let bare = button.menu(&copilot, Some(Status::Authorized)).unwrap();
    assert_eq!(
        labels(&bare),
        vec![
            "Show Edit Predictions For",
            "All Files",
            "-",
            "Display Modes",
            "Eager",
            "Subtle",
            "-",
            "Privacy",
            "Configure Excluded Files",
            "View Docs",
            "-",
            "Configure Providers",
            "-",
            "Copilot: Next Edit Suggestions",
            "-",
            "Go to Copilot Settings",
            "Sign Out",
        ]
    );
    assert_eq!(find(&bare, "Eager").toggled, Some(true));
    assert_eq!(find(&bare, "Subtle").toggled, Some(false));
    assert_eq!(
        find(&bare, "Copilot: Next Edit Suggestions").action,
        MenuAction::SetNextEditSuggestions(false)
    );
    assert_eq!(
        find(&bare, "Go to Copilot Settings").action,
        MenuAction::OpenUrl("https://github.com/settings/copilot".to_owned())
    );

    let mut excluded = editor();
    excluded.file_enabled = Some(false);
    button.update_enabled(excluded);
    let mut off = settings(EditPredictionProvider::Copilot);
    off.language_enabled = false;
    let menu = button.menu(&off, Some(Status::Authorized)).unwrap();
    let buffer = find(&menu, "This Buffer");
    assert!(buffer.disabled);
    assert_eq!(
        buffer.aside.as_deref(),
        Some("Edit predictions are disabled for Rust")
    );
    assert_eq!(find(&menu, "Rust").toggled, Some(false));
    assert_eq!(
        find(&menu, "This file is excluded.").icon,
        Some(IconName::ZedPredict)
    );
    assert_eq!(
        find(&menu, "Predict Edit at Cursor").action,
        MenuAction::PredictAtCursor
    );
}

#[test]
fn collecting_data_is_offered_where_the_provider_does() {
    let mut button = EditPredictionButton::new();
    let mut state = editor();
    state.provider = Some(DataCollection {
        is_supported: true,
        is_enabled: true,
        is_project_open_source: false,
        can_toggle: true,
    });
    button.update_enabled(state);
    let mut menu = Vec::new();
    button.build_language_settings_menu(&mut menu, &settings(EditPredictionProvider::Zed));
    let entry = find(&menu, "Training Data Collection");
    assert_eq!(entry.icon_color, Some(Color::Accent));
    assert_eq!(
        entry.note.as_ref().map(|note| note.text.as_str()),
        Some("Project not identified as open source. No data captured.")
    );
    assert!(find(&menu, "No data captured.").disabled);
    let mut menu = Vec::new();
    button.build_language_settings_menu(&mut menu, &settings(EditPredictionProvider::Copilot));
    assert!(!labels(&menu).contains(&"Training Data Collection"));
}

#[test]
fn the_settings_change_where_they_were_asked_to() {
    let empty = || SettingsContent {
        disable_ai: Some(true),
        edit_predictions: None,
        languages: vec![("Rust".to_owned(), Some(true))],
    };
    let chosen = set_completion_provider(empty(), EditPredictionProvider::Copilot);
    assert_eq!(chosen.disable_ai, Some(false));
    assert_eq!(
        chosen.edit_predictions.as_ref().unwrap().provider,
        Some(EditPredictionProvider::Copilot)
    );
    assert_eq!(
        set_completion_provider(empty(), EditPredictionProvider::Nobody).disable_ai,
        Some(true)
    );
    let hidden = hide_copilot(chosen);
    assert_eq!(hidden.disable_ai, Some(false));
    assert_eq!(
        hidden.edit_predictions.as_ref().unwrap().provider,
        Some(EditPredictionProvider::Nobody)
    );
    let subtle = toggle_edit_prediction_mode(
        hidden,
        EditPredictionsMode::Eager,
        EditPredictionsMode::Subtle,
    );
    assert_eq!(
        subtle.edit_predictions.as_ref().unwrap().mode,
        Some(EditPredictionsMode::Subtle)
    );
    assert_eq!(
        toggle_edit_prediction_mode(
            empty(),
            EditPredictionsMode::Eager,
            EditPredictionsMode::Eager
        ),
        empty()
    );
    let globs = ensure_disabled_globs(subtle);
    assert_eq!(
        globs.edit_predictions.as_ref().unwrap().disabled_globs,
        Some(Vec::new())
    );
    let suggested = set_next_edit_suggestions(globs, false);
    assert_eq!(
        suggested
            .edit_predictions
            .as_ref()
            .unwrap()
            .enable_next_edit_suggestions,
        Some(false)
    );
    let toggled = toggle_show_edit_predictions_for_language(suggested, "Rust", true);
    assert_eq!(toggled.languages, vec![("Rust".to_owned(), Some(false))]);
    let toggled = toggle_show_edit_predictions_for_language(toggled, "Go", false);
    assert_eq!(toggled.languages[1], ("Go".to_owned(), Some(true)));
    assert_eq!(
        get_available_providers(true),
        vec![EditPredictionProvider::Copilot]
    );
    assert!(get_available_providers(false).is_empty());
}

#[test]
fn the_disabled_globs_are_selected_between_their_brackets() {
    let text = "{\n  \"edit_predictions\": {\n    \"disabled_globs\": [\n      \"**/.env*\",\n      \"*.pem\"\n    ]\n  }\n}";
    let (start, end) = disabled_globs_range(text).expect("the file lists them");
    assert_eq!(&text[start..end], "\"**/.env*\",\n      \"*.pem\"");
    let empty = "{\"disabled_globs\": []}";
    let (start, end) = disabled_globs_range(empty).expect("the file lists none");
    assert_eq!(start, end);
    assert_eq!(&empty[end..], "]}");
    assert_eq!(disabled_globs_range("{}"), None);
}

#[test]
fn close_icon_dismisses_disconnected_overlay() {
    let mut overlay = DisconnectedOverlay::new(Host::CollabGuestProject);
    assert!(!overlay.on_before_dismiss());
    assert_eq!(overlay.dismiss(), OverlayStep::Dismiss);
    assert!(overlay.on_before_dismiss());
}

#[test]
fn close_disconnected_workspace_keeps_window_open() {
    let mut overlay = DisconnectedOverlay::new(Host::CollabGuestProject);
    assert_eq!(overlay.handle_close_workspace(false), OverlayStep::Stay);
    assert!(!overlay.on_before_dismiss());
    assert_eq!(
        overlay.handle_close_workspace(true),
        OverlayStep::CloseWorkspace
    );
    assert!(overlay.on_before_dismiss());
}

#[test]
fn a_lost_server_can_be_reconnected_to() {
    assert_eq!(lost_host(ProjectEvent::Other, None), None);
    assert_eq!(
        lost_host(ProjectEvent::DisconnectedFromHost, None),
        Some(Host::CollabGuestProject)
    );
    let host = lost_host(
        ProjectEvent::DisconnectedFromRemote {
            server_not_running: true,
        },
        Some("build-box".to_owned()),
    )
    .expect("the server is lost");
    let mut overlay = DisconnectedOverlay::new(host);
    assert!(overlay.can_reconnect());
    assert_eq!(
        overlay.message(true),
        "Your connection to build-box has been lost due to the server process exiting \
         unexpectedly.\nUnsaved changes are stored locally."
    );
    assert_eq!(
        overlay.buttons(),
        vec![OverlayButton::CloseWorkspace, OverlayButton::Reconnect]
    );
    assert_eq!(overlay.handle_reconnect(true), OverlayStep::Reconnect);
    let mut guest = DisconnectedOverlay::new(Host::CollabGuestProject);
    assert_eq!(guest.buttons(), vec![OverlayButton::CloseWorkspace]);
    assert_eq!(guest.handle_reconnect(true), OverlayStep::Dismiss);
    assert_eq!(
        guest.message(false),
        "Your connection to the remote project has been lost."
    );
}

#[test]
fn two_spellings_of_a_path_are_one() {
    let spellings = [
        "", ".", "./", "..", "../", "/", "//", "/.", "/./", "/..", "a", "a/", "a//", "./a", ".//a",
        "a/.", "a/./", "/a", "//a", "/./a", "/a/", "/a/.", "a/b", "a//b", "a/./b", "a/b/", "a/../b",
        "/a/b", "/a/b//", ".a", "a.", "..a", "/a/..", "a/..", "a/.b", "/é/ü", "/é//ü/",
    ];
    for left in spellings {
        for right in spellings {
            assert_eq!(
                same_path(left, right),
                std::path::Path::new(left) == std::path::Path::new(right),
                "{left:?} and {right:?}"
            );
        }
        assert_eq!(
            file_name(left),
            std::path::Path::new(left)
                .file_name()
                .map(|name| name.to_string_lossy().into_owned()),
            "{left:?}"
        );
    }
    for name in ["a.rs", ".rs", "a.", "a.b.c", "a", "", "/d.x/a", "/d/a.tar.gz/", "..", "..a", ".a.b"] {
        assert_eq!(
            extension(name),
            std::path::Path::new(name)
                .extension()
                .map(|part| part.to_string_lossy().into_owned()),
            "{name:?}"
        );
    }
    assert_eq!(extension("main.rs"), Some("rs".to_owned()));
    assert!(same_path("/repos/zed/", "/repos//zed"));
    assert!(!same_path("/repos/zed", "repos/zed"));
    assert_eq!(file_name("/repos/zed/"), Some("zed".to_owned()));
    assert_eq!(file_name("/repos/.."), None);
}

#[test]
fn a_worktree_is_found_under_any_spelling_of_its_path() {
    let roots = vec![("/repos/zed/".to_owned(), 4), ("/repos/praxis".to_owned(), 5)];
    assert_eq!(find_worktree(&roots, "/repos//zed"), Some(4));
    assert_eq!(find_worktree(&roots, "/repos/./praxis/"), Some(5));
    assert_eq!(find_worktree(&roots, "/repos"), None);

    let infos = worktree_info_from_thread_paths(
        &vec![pair("/p/zed/", "/p/zed", None), pair("/p//zed", "/w/feature", Some("feature"))],
        &vec![("/w/feature/".to_owned(), "main".to_owned())],
    );
    assert_eq!(names(&infos), vec!["zed", "feature"]);
    assert_eq!(infos[0].kind, WorktreeKind::Main);
    assert_eq!(infos[1].branch_name.as_deref(), Some("main"));
}

#[test]
fn opening_the_menu_reports_the_extension_of_the_file() {
    let report = edit_prediction_menu_opened("copilot", Some("main.rs"), true, Some(true));
    assert_eq!(report.event, "Toolbar Menu Opened");
    assert_eq!(report.name, "Edit Predictions");
    assert_eq!(report.provider, "copilot");
    assert_eq!(report.file_extension.as_deref(), Some("rs"));
    assert!(report.edit_predictions_enabled_for_language);
    assert!(report.is_via_ssh);

    let report = edit_prediction_menu_opened("copilot", Some(".gitignore"), false, None);
    assert_eq!(report.file_extension, None);
    assert!(!report.is_via_ssh);
    assert_eq!(edit_prediction_menu_opened("copilot", None, false, None).file_extension, None);
}
