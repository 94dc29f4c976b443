//! What the tree of workspaces shows, and of which it offers to end something.

use crate::entry::{EntryView, FailureView, SessionState};
use crate::workspace;
use crate::workspace::{WorkspaceStatus, WorkspaceView};
use crate::workspace_sidebar;
use crate::workspace_sidebar::{Color, LineView, SidebarView};
use vstd::prelude::*;

verus! {

/// Whether a line is the heading of a host's project.
pub open spec fn is_heading_of(
    line: LineView,
    host: Option<Seq<char>>,
    identity: Seq<char>,
) -> bool {
    line matches LineView::Project { project_id, project_identity, remote_host, .. } && remote_host
        == host && project_identity == identity && project_id == workspace::path_project_id(
        identity,
    )
}

/// Whether a place of the tree has the heading it stands under.
pub open spec fn is_headed(
    lines: Seq<LineView>,
    k: int,
    host: Option<Seq<char>>,
    identity: Seq<char>,
) -> bool {
    exists|h: int|
        {
            &&& 0 <= h < k
            &&& is_heading_of(#[trigger] lines[h], host, identity)
            &&& forall|i: int| h < i <= k ==> #[trigger] lines[i] is Workspace
        }
}

/// What holds of a tree of some groups.
spec fn is_shown(entries: Seq<EntryView>, lines: Seq<LineView>) -> bool {
    forall|k: int|
        #![trigger lines[k]]
        0 <= k < lines.len() ==> match lines[k] {
            LineView::Workspace(entry) => entries.contains(entry) && is_headed(
                lines,
                k,
                entry.remote_host(),
                entry.project_identity(),
            ),
            LineView::Project { project_identity, remote_host, live_count, gone_count, .. } => {
                &&& is_heading_of(lines[k], remote_host, project_identity)
                &&& live_count == count(entries, remote_host, project_identity, SessionState::Alive)
                &&& gone_count == count(entries, remote_host, project_identity, SessionState::Dead)
            },
        }
}

/// How many entries of a host's project are in a state.
pub open spec fn count(
    entries: Seq<EntryView>,
    host: Option<Seq<char>>,
    identity: Seq<char>,
    state: SessionState,
) -> nat
    decreases entries.len(),
{
    if entries.len() == 0 {
        0
    } else {
        let last = entries.last();
        count(entries.drop_last(), host, identity, state) + if last.remote_host() == host
            && last.project_identity() == identity && last.state() == state {
            1nat
        } else {
            0nat
        }
    }
}

proof fn lemma_count(
    entries: Seq<EntryView>,
    group: (Option<Seq<char>>, Seq<char>),
    state: SessionState,
)
    ensures
        workspace_sidebar::members(entries, group).filter(
            workspace_sidebar::in_state(state),
        ).len() == count(entries, group.0, group.1, state),
    decreases entries.len(),
{
    reveal(Seq::filter);
    if entries.len() > 0 {
        lemma_count(entries.drop_last(), group, state);
        let last = entries.last();
        let rest = workspace_sidebar::members(entries.drop_last(), group);
        if workspace_sidebar::in_group(group)(last) {
            assert(rest.push(last).drop_last() =~= rest);
            assert(rest.push(last).last() == last);
        }
    }
}

proof fn lemma_blocks(
    entries: Seq<EntryView>,
    groups: Seq<(Option<Seq<char>>, Seq<char>)>,
)
    ensures
        is_shown(entries, workspace_sidebar::blocks(entries, groups)),
        forall|k: int|
            #![trigger entries[k]]
            0 <= k < entries.len() && groups.contains(workspace_sidebar::group_of(entries[k]))
                ==> workspace_sidebar::blocks(entries, groups).contains(
                LineView::Workspace(entries[k]),
            ),
    decreases groups.len(),
{
    if groups.len() > 0 {
        let group = groups.last();
        lemma_blocks(entries, groups.drop_last());
        let before = workspace_sidebar::blocks(entries, groups.drop_last());
        let block = workspace_sidebar::block(entries, group);
        let lines = workspace_sidebar::blocks(entries, groups);
        let inside = workspace_sidebar::members(entries, group);
        let meets = workspace_sidebar::in_group(group);
        let start = before.len() as int;
        lemma_count(entries, group, SessionState::Alive);
        lemma_count(entries, group, SessionState::Dead);
        assert(lines =~= before + block);
        assert(lines[start] == workspace_sidebar::heading(inside, group));
        assert(is_heading_of(lines[start], group.0, group.1));
        assert forall|i: int| start < i < lines.len() implies #[trigger] lines[i]
            == LineView::Workspace(inside[i - start - 1]) by {
            assert(lines[i] == block[i - start]);
        }
        assert forall|k: int|
            #![trigger lines[k]]
            0 <= k < lines.len() implies match lines[k] {
            LineView::Workspace(entry) => entries.contains(entry) && is_headed(
                lines,
                k,
                entry.remote_host(),
                entry.project_identity(),
            ),
            LineView::Project { project_identity, remote_host, live_count, gone_count, .. } => {
                &&& is_heading_of(lines[k], remote_host, project_identity)
                &&& live_count == count(entries, remote_host, project_identity, SessionState::Alive)
                &&& gone_count == count(entries, remote_host, project_identity, SessionState::Dead)
            },
        } by {
            if k < start {
                assert(lines[k] == before[k]);
                if let LineView::Workspace(entry) = before[k] {
                    assert(is_headed(before, k, entry.remote_host(), entry.project_identity()));
                    let h = choose|h: int|
                        {
                            &&& 0 <= h < k
                            &&& is_heading_of(
                                #[trigger] before[h],
                                entry.remote_host(),
                                entry.project_identity(),
                            )
                            &&& forall|i: int| h < i <= k ==> #[trigger] before[i] is Workspace
                        };
                    assert(lines[h] == before[h]);
                    assert forall|i: int| h < i <= k implies #[trigger] lines[i] is Workspace by {
                        assert(lines[i] == before[i]);
                    }
                }
            } else if k > start {
                let m = k - start - 1;
                entries.lemma_filter_pred(meets, m);
                assert(inside.contains(inside[m]));
                entries.lemma_filter_contains_rev(meets, inside[m]);
                assert forall|i: int| start < i <= k implies #[trigger] lines[i] is Workspace by {}
            }
        }
        assert forall|k: int|
            #![trigger entries[k]]
            0 <= k < entries.len() && groups.contains(
                workspace_sidebar::group_of(entries[k]),
            ) implies lines.contains(LineView::Workspace(entries[k])) by {
            let line = LineView::Workspace(entries[k]);
            if workspace_sidebar::group_of(entries[k]) == group {
                entries.lemma_filter_contains(meets, k);
                let m = choose|m: int| 0 <= m < inside.len() && inside[m] == entries[k];
                assert(lines[start + 1 + m] == line);
            } else {
                let g = choose|g: int|
                    0 <= g < groups.len() && groups[g] == workspace_sidebar::group_of(entries[k]);
                assert(groups.drop_last()[g] == groups[g]);
                let i = choose|i: int| 0 <= i < before.len() && before[i] == line;
                assert(lines[i] == line);
            }
        }
    }
}

/// The tree shows every entry, and each under the heading of its own host and
/// project. A heading counts the sessions of its project that are alive, and those
/// that are gone.
pub proof fn law_an_entry_stands_under_its_own_heading(entries: Seq<EntryView>)
    ensures
        ({
            let lines = workspace_sidebar::tree(entries);
            &&& forall|k: int|
                #![trigger entries[k]]
                0 <= k < entries.len() ==> lines.contains(LineView::Workspace(entries[k]))
            &&& forall|k: int|
                #![trigger lines[k]]
                0 <= k < lines.len() ==> match lines[k] {
                    LineView::Workspace(entry) => entries.contains(entry) && is_headed(
                        lines,
                        k,
                        entry.remote_host(),
                        entry.project_identity(),
                    ),
                    LineView::Project {
                        project_identity,
                        remote_host,
                        live_count,
                        gone_count,
                        ..
                    } => {
                        &&& is_heading_of(lines[k], remote_host, project_identity)
                        &&& live_count == count(
                            entries,
                            remote_host,
                            project_identity,
                            SessionState::Alive,
                        )
                        &&& gone_count == count(
                            entries,
                            remote_host,
                            project_identity,
                            SessionState::Dead,
                        )
                    },
                }
        }),
{
    workspace_sidebar::law_grouping_keeps_every_entry(entries);
    lemma_blocks(entries, workspace_sidebar::groups(entries));
}

/// Killing all is offered for exactly the entries shown whose sessions are alive.
pub proof fn law_the_live_are_those_shown_alive(lines: Seq<LineView>, entry: EntryView)
    ensures
        workspace_sidebar::live_entries(lines).contains(entry) <==> lines.contains(
            LineView::Workspace(entry),
        ) && entry.state() == SessionState::Alive,
{
    let meets = |line: LineView| workspace_sidebar::live_line(line);
    let entry_of = |line: LineView| workspace_sidebar::line_entry(line);
    let kept = lines.filter(meets);
    let live = workspace_sidebar::live_entries(lines);
    if live.contains(entry) {
        let k = choose|k: int| 0 <= k < live.len() && live[k] == entry;
        lines.lemma_filter_pred(meets, k);
        assert(kept.contains(kept[k]));
        lines.lemma_filter_contains_rev(meets, kept[k]);
        assert(kept[k] == LineView::Workspace(entry));
    }
    if lines.contains(LineView::Workspace(entry)) && entry.state() == SessionState::Alive {
        let i = choose|i: int| 0 <= i < lines.len() && lines[i] == LineView::Workspace(entry);
        lines.lemma_filter_contains(meets, i);
        let k = choose|k: int| 0 <= k < kept.len() && kept[k] == lines[i];
        assert(live[k] == entry);
    }
}

/// Cleaning up is offered for exactly the rows shown whose sessions are dead, and
/// never for a discovery.
pub proof fn law_the_gone_are_the_rows_shown_dead(lines: Seq<LineView>, id: Seq<char>)
    ensures
        workspace_sidebar::gone_ids(lines).contains(id) <==> exists|k: int|
            0 <= k < lines.len() && (#[trigger] lines[k] matches LineView::Workspace(
                EntryView::Persisted(row, SessionState::Dead),
            ) && row.id == id),
{
    let meets = |line: LineView| workspace_sidebar::gone_line(line);
    let id_of = |line: LineView| workspace_sidebar::line_id(line);
    let kept = lines.filter(meets);
    let gone = workspace_sidebar::gone_ids(lines);
    if gone.contains(id) {
        let k = choose|k: int| 0 <= k < gone.len() && gone[k] == id;
        lines.lemma_filter_pred(meets, k);
        assert(kept.contains(kept[k]));
        lines.lemma_filter_contains_rev(meets, kept[k]);
        let i = choose|i: int| 0 <= i < lines.len() && lines[i] == kept[k];
        assert(lines[i] matches LineView::Workspace(EntryView::Persisted(row, SessionState::Dead))
            && row.id == id);
    }
    if exists|k: int|
        0 <= k < lines.len() && (#[trigger] lines[k] matches LineView::Workspace(
            EntryView::Persisted(row, SessionState::Dead),
        ) && row.id == id) {
        let i = choose|i: int|
            0 <= i < lines.len() && (#[trigger] lines[i] matches LineView::Workspace(
                EntryView::Persisted(row, SessionState::Dead),
            ) && row.id == id);
        lines.lemma_filter_contains(meets, i);
        let k = choose|k: int| 0 <= k < kept.len() && kept[k] == lines[i];
        assert(gone[k] == id);
    }
}

/// Each kind of status has a colour of its own: running, disconnected and failed
/// are told apart from one another and from a row that is at rest.
pub proof fn law_a_colour_tells_the_status(status: WorkspaceStatus)
    ensures
        workspace_sidebar::color_of(status) == Color::Success <==> status
            == WorkspaceStatus::Running,
        workspace_sidebar::color_of(status) == Color::Warning <==> status
            == WorkspaceStatus::Disconnected,
        workspace_sidebar::color_of(status) == Color::Error <==> status == WorkspaceStatus::Error,
        workspace_sidebar::color_of(status) == Color::Muted <==> status
            == WorkspaceStatus::Stopped || status == WorkspaceStatus::Creating,
{
}

/// A row whose session was found dead looks disconnected and says what is gone,
/// whatever is recorded of it; any other looks as it is recorded and says nothing.
/// It shows its own name, branch and checkout, and only the selected one stands
/// out.
pub proof fn law_a_row_shows_its_workspace(
    workspace: WorkspaceView,
    state: SessionState,
    selected: bool,
)
    ensures
        ({
            let model = workspace_sidebar::persisted_model(workspace, state, selected);
            &&& state == SessionState::Dead ==> model.dot == Color::Warning && model.gone is Some
            &&& state != SessionState::Dead ==> model.gone is None && (model.dot == Color::Success
                <==> workspace.status == WorkspaceStatus::Running) && (model.dot == Color::Warning
                <==> workspace.status == WorkspaceStatus::Disconnected) && (model.dot
                == Color::Error <==> workspace.status == WorkspaceStatus::Error)
            &&& model.name == workspace.name && model.branch == workspace.branch
            &&& model.selected == selected
            &&& model.name_color == Color::Accent <==> selected
            &&& workspace.daemon_workspace_id().is_prefix_of(model.detail)
            &&& workspace.repository_path.is_suffix_of(model.detail)
        }),
{
    let wire_id = workspace.daemon_workspace_id();
    let model = workspace_sidebar::persisted_model(workspace, state, selected);
    assert(model.detail =~= wire_id + (" · "@ + workspace.repository_path));
}

/// A discovery looks running, disconnected or at rest by what is known of its
/// sessions, and is never the selection.
pub proof fn law_a_discovery_shows_its_state(entry: EntryView)
    ensures
        ({
            let model = workspace_sidebar::discovered_model(entry);
            &&& model.dot == Color::Success <==> entry.state() == SessionState::Alive
            &&& model.dot == Color::Warning <==> entry.state() == SessionState::Dead
            &&& model.dot != Color::Error
            &&& !model.selected && model.name_color != Color::Accent
            &&& model.name == entry.name()
        }),
{
}

/// Building the tree again keeps the selection exactly where its row is still
/// there, and touches neither what failed nor what is under way.
pub proof fn law_the_selection_outlives_a_refresh(
    sidebar: SidebarView,
    entries: Seq<EntryView>,
    id: Seq<char>,
)
    requires
        sidebar.selected == Some(id),
    ensures
        ({
            let after = workspace_sidebar::rebuilt(sidebar, entries);
            let is_there = exists|k: int|
                0 <= k < entries.len() && (#[trigger] entries[k] matches EntryView::Persisted(
                    row,
                    _,
                ) && row.id == id);
            &&& is_there ==> after.selected == Some(id)
            &&& !is_there ==> after.selected is None
            &&& after.error == sidebar.error && after.busy == sidebar.busy
        }),
{
}

/// Nothing is selected by building the tree, and letting go of a row takes the
/// selection away from that row only.
pub proof fn law_a_row_lets_go_of_its_own_selection(
    sidebar: SidebarView,
    entries: Seq<EntryView>,
    id: Seq<char>,
)
    ensures
        sidebar.selected is None ==> workspace_sidebar::rebuilt(sidebar, entries).selected is None,
        ({
            let after = workspace_sidebar::letting_go(sidebar, id);
            &&& after.selected != Some(id)
            &&& sidebar.selected != Some(id) ==> after == sidebar
            &&& after.rows == sidebar.rows && after.error == sidebar.error && after.busy
                == sidebar.busy
        }),
{
}

/// An opened discovery becomes the selection. One that had gone is no failure to
/// show; any other failure is shown, and the selection stays.
pub proof fn law_an_opened_discovery_is_selected(
    sidebar: SidebarView,
    confirmed: Result<WorkspaceView, FailureView>,
)
    ensures
        ({
            let after = workspace_sidebar::after_opening(sidebar, confirmed);
            &&& after.rows == sidebar.rows && after.busy == sidebar.busy
            &&& match confirmed {
                Ok(workspace) => after.selected == Some(workspace.id) && after.error
                    == sidebar.error,
                Err(failure) => after.selected == sidebar.selected && (failure is Gone
                    <==> after.error is None) && (!(failure is Gone) ==> after.error == Some(
                    failure.message(),
                )),
            }
        }),
{
}

/// The group that stands out is the group of the selected row, where that is
/// shown.
pub proof fn law_the_group_that_stands_out_has_the_selection(
    lines: Seq<LineView>,
    selected: Option<Seq<char>>,
)
    ensures
        match workspace_sidebar::selected_group(lines, selected) {
            Some(group) => exists|k: int|
                0 <= k < lines.len() && (#[trigger] lines[k] matches LineView::Workspace(
                    EntryView::Persisted(row, _),
                ) && selected == Some(row.id) && group == (row.remote_host, row.identity_or_path())),
            None => forall|k: int|
                0 <= k < lines.len() ==> !(#[trigger] lines[k] matches LineView::Workspace(
                    EntryView::Persisted(row, _),
                ) && selected == Some(row.id)),
        },
    decreases lines.len(),
{
    if lines.len() > 0 {
        let rest = lines.drop_first();
        law_the_group_that_stands_out_has_the_selection(rest, selected);
        let is_first = lines[0] matches LineView::Workspace(EntryView::Persisted(row, _))
            && selected == Some(row.id);
        if !is_first {
            match workspace_sidebar::selected_group(rest, selected) {
                Some(group) => {
                    let k = choose|k: int|
                        0 <= k < rest.len() && (#[trigger] rest[k] matches LineView::Workspace(
                            EntryView::Persisted(row, _),
                        ) && selected == Some(row.id) && group == (
                            row.remote_host,
                            row.identity_or_path(),
                        ));
                    assert(lines[k + 1] == rest[k]);
                },
                None => {
                    assert forall|k: int| 0 <= k < lines.len() implies !(
                    #[trigger] lines[k] matches LineView::Workspace(EntryView::Persisted(row, _))
                        && selected == Some(row.id)) by {
                        if k > 0 {
                            assert(rest[k - 1] == lines[k]);
                        }
                    }
                },
            }
        }
    }
}

} // verus!
