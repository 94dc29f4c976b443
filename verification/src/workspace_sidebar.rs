//! The workspace sidebar: what it shows, and what each of its controls does.
//!
//! Selecting attaches and never repairs. Killing is reachable only from a
//! control that says "Kill".

use crate::daemon;
use crate::entry::{EntryView, Failure, FailureView, SessionState, WorkspaceEntry};
use crate::store::AdeWorkspaceStore;
use crate::text;
use crate::workspace;
use crate::workspace::{
    AdeWorkspace, WorkspaceId, WorkspaceStatus, WorkspaceView, project_id_from_identity,
};
use vstd::prelude::*;
use vstd::string::*;

verus! {

/// A colour of the theme.
#[derive(Clone, Copy, Debug, PartialEq, Eq, Structural)]
pub enum Color {
    Default,
    Accent,
    Muted,
    Success,
    Warning,
    Error,
}

/// One line of the tree.
#[derive(Debug, PartialEq, Eq)]
pub enum SidebarRow {
    Project {
        project_id: String,
        project_identity: String,
        remote_host: Option<String>,
        live_count: usize,
        gone_count: usize,
    },
    Workspace { entry: WorkspaceEntry },
}

/// What a [`SidebarRow`] holds.
#[verifier::ext_equal]
pub enum LineView {
    Project {
        project_id: Seq<char>,
        project_identity: Seq<char>,
        remote_host: Option<Seq<char>>,
        live_count: nat,
        gone_count: nat,
    },
    Workspace(EntryView),
}

impl View for SidebarRow {
    type V = LineView;

    open spec fn view(&self) -> LineView {
        match *self {
            SidebarRow::Project {
                project_id,
                project_identity,
                remote_host,
                live_count,
                gone_count,
            } => LineView::Project {
                project_id: project_id@,
                project_identity: project_identity@,
                remote_host: text::opt(remote_host),
                live_count: live_count as nat,
                gone_count: gone_count as nat,
            },
            SidebarRow::Workspace { entry } => LineView::Workspace(entry@),
        }
    }
}

impl DeepView for SidebarRow {
    type V = LineView;

    open spec fn deep_view(&self) -> LineView {
        self@
    }
}

/// The group an entry belongs to: its host and its project.
pub open spec fn group_of(entry: EntryView) -> (Option<Seq<char>>, Seq<char>) {
    (entry.remote_host(), entry.project_identity())
}

/// The groups, in the order they first appear.
pub open spec fn groups(entries: Seq<EntryView>) -> Seq<(Option<Seq<char>>, Seq<char>)>
    decreases entries.len(),
{
    if entries.len() == 0 {
        Seq::empty()
    } else {
        let known = groups(entries.drop_last());
        let group = group_of(entries.last());
        if known.contains(group) {
            known
        } else {
            known.push(group)
        }
    }
}

/// The condition of belonging to a group.
pub open spec fn in_group(group: (Option<Seq<char>>, Seq<char>)) -> spec_fn(EntryView) -> bool {
    |entry: EntryView| group_of(entry) == group
}

/// The entries of one group, in the order they had.
pub open spec fn members(
    entries: Seq<EntryView>,
    group: (Option<Seq<char>>, Seq<char>),
) -> Seq<EntryView> {
    entries.filter(in_group(group))
}

/// The condition of being in a state.
pub open spec fn in_state(state: SessionState) -> spec_fn(EntryView) -> bool {
    |entry: EntryView| entry.state() == state
}

/// A group's heading, with how many of its sessions are alive and how many are
/// gone. It is named after the project's identity, not after a checkout of it.
pub open spec fn heading(
    members: Seq<EntryView>,
    group: (Option<Seq<char>>, Seq<char>),
) -> LineView {
    LineView::Project {
        project_id: workspace::path_project_id(group.1),
        project_identity: group.1,
        remote_host: group.0,
        live_count: members.filter(in_state(SessionState::Alive)).len(),
        gone_count: members.filter(in_state(SessionState::Dead)).len(),
    }
}

/// One group: its heading, then its entries.
pub open spec fn block(
    entries: Seq<EntryView>,
    group: (Option<Seq<char>>, Seq<char>),
) -> Seq<LineView> {
    let inside = members(entries, group);
    seq![heading(inside, group)] + inside.map_values(|entry: EntryView| LineView::Workspace(entry))
}

/// The blocks of the groups, in turn.
pub open spec fn blocks(
    entries: Seq<EntryView>,
    groups: Seq<(Option<Seq<char>>, Seq<char>)>,
) -> Seq<LineView>
    decreases groups.len(),
{
    if groups.len() == 0 {
        Seq::empty()
    } else {
        blocks(entries, groups.drop_last()) + block(entries, groups.last())
    }
}

/// The tree: project groups over workspace rows.
pub open spec fn tree(entries: Seq<EntryView>) -> Seq<LineView> {
    blocks(entries, groups(entries))
}

fn group_keys(entries: &[WorkspaceEntry]) -> (keys: Vec<(Option<String>, String)>)
    ensures
        keys.deep_view() == groups(entries.deep_view()),
{
    let ghost all = entries.deep_view();
    let mut keys: Vec<(Option<String>, String)> = Vec::new();
    let mut i: usize = 0;
    proof {
        assert(all.take(0).len() == 0);
        assert(keys.deep_view() =~= Seq::<(Option<Seq<char>>, Seq<char>)>::empty());
    }
    while i < entries.len()
        invariant
            i <= entries.len(),
            all == entries.deep_view(),
            keys.deep_view() == groups(all.take(i as int)),
        decreases entries.len() - i,
    {
        let ghost before = keys.deep_view();
        let entry = &entries[i];
        proof {
            assert(all.take(i + 1).drop_last() =~= all.take(i as int));
            assert(all.take(i + 1).last() == entry@);
        }
        let host = text::owned(entry.remote_host());
        let identity = entry.project_identity();
        if !lists_group(&keys, &host, identity.as_str()) {
            let key = (host, identity);
            keys.push(key);
            assert(keys.deep_view() =~= before.push(key.deep_view()));
        }
        i = i + 1;
    }
    assert(all.take(all.len() as int) =~= all);
    keys
}

fn lists_group(
    keys: &Vec<(Option<String>, String)>,
    host: &Option<String>,
    identity: &str,
) -> (listed: bool)
    ensures
        listed == keys.deep_view().contains((text::opt(*host), identity@)),
{
    let mut i: usize = 0;
    while i < keys.len()
        invariant
            i <= keys.len(),
            forall|k: int|
                0 <= k < i ==> keys.deep_view()[k] != (text::opt(*host), identity@),
        decreases keys.len() - i,
    {
        assert(keys.deep_view()[i as int] == (text::opt(keys[i as int].0), keys[i as int].1@));
        if text::same_opt_text(text::borrowed(&keys[i].0), text::borrowed(host))
            && text::same_text(keys[i].1.as_str(), identity) {
            return true;
        }
        i = i + 1;
    }
    false
}

/// How many of the entries are in a state.
fn count_in_state(entries: &Vec<WorkspaceEntry>, state: SessionState) -> (count: usize)
    ensures
        count == entries.deep_view().filter(in_state(state)).len(),
{
    let ghost all = entries.deep_view();
    let ghost meets = in_state(state);
    let mut count: usize = 0;
    let mut i: usize = 0;
    assert(all.take(0).filter(meets).len() == 0) by {
        reveal(Seq::filter);
    }
    while i < entries.len()
        invariant
            i <= entries.len(),
            all == entries.deep_view(),
            meets == in_state(state),
            count <= i,
            count == all.take(i as int).filter(meets).len(),
        decreases entries.len() - i,
    {
        proof {
            reveal(Seq::filter);
            assert(all.take(i + 1).drop_last() =~= all.take(i as int));
            assert(all.take(i + 1).last() == entries[i as int]@);
        }
        if entries[i].state() == state {
            count = count + 1;
        }
        i = i + 1;
    }
    assert(all.take(all.len() as int) =~= all);
    count
}

fn group_members(
    entries: &[WorkspaceEntry],
    host: &Option<String>,
    identity: &str,
) -> (inside: Vec<WorkspaceEntry>)
    ensures
        inside.deep_view() == members(entries.deep_view(), (text::opt(*host), identity@)),
{
    let ghost all = entries.deep_view();
    let ghost meets = in_group((text::opt(*host), identity@));
    let mut inside: Vec<WorkspaceEntry> = Vec::new();
    let mut i: usize = 0;
    assert(all.take(0).filter(meets) =~= Seq::<EntryView>::empty()) by {
        reveal(Seq::filter);
    }
    while i < entries.len()
        invariant
            i <= entries.len(),
            all == entries.deep_view(),
            meets == in_group((text::opt(*host), identity@)),
            inside.deep_view() == all.take(i as int).filter(meets),
        decreases entries.len() - i,
    {
        let ghost before = inside.deep_view();
        let entry = &entries[i];
        proof {
            reveal(Seq::filter);
            assert(all.take(i + 1).drop_last() =~= all.take(i as int));
            assert(all.take(i + 1).last() == entry@);
        }
        if text::same_opt_text(entry.remote_host(), text::borrowed(host)) && text::same_text(
            entry.project_identity().as_str(),
            identity,
        ) {
            let copy = entry.clone();
            inside.push(copy);
            assert(inside.deep_view() =~= before.push(copy@));
        }
        i = i + 1;
    }
    assert(all.take(all.len() as int) =~= all);
    inside
}

/// Adds one group's lines.
fn push_block(rows: &mut Vec<SidebarRow>, entries: &[WorkspaceEntry], key: &(Option<String>, String))
    ensures
        final(rows).deep_view() == old(rows).deep_view() + block(
            entries.deep_view(),
            key.deep_view(),
        ),
{
    let ghost given = rows.deep_view();
    let inside = group_members(entries, &key.0, key.1.as_str());
    let ghost list = inside.deep_view();
    let ghost line = |entry: EntryView| LineView::Workspace(entry);
    let head = SidebarRow::Project {
        project_id: project_id_from_identity(key.1.as_str()),
        project_identity: key.1.clone(),
        remote_host: text::owned(text::borrowed(&key.0)),
        live_count: count_in_state(&inside, SessionState::Alive),
        gone_count: count_in_state(&inside, SessionState::Dead),
    };
    let ghost top = head@;
    rows.push(head);
    proof {
        assert(rows.deep_view() =~= given.push(top));
        assert(given.push(top) =~= given + (seq![top] + list.take(0).map_values(line)));
    }
    let mut i: usize = 0;
    while i < inside.len()
        invariant
            i <= inside.len(),
            list == inside.deep_view(),
            line == (|entry: EntryView| LineView::Workspace(entry)),
            rows.deep_view() == given + (seq![top] + list.take(i as int).map_values(line)),
        decreases inside.len() - i,
    {
        let ghost before = rows.deep_view();
        let row = SidebarRow::Workspace { entry: inside[i].clone() };
        rows.push(row);
        proof {
            assert(rows.deep_view() =~= before.push(row@));
            assert(list.take(i + 1).map_values(line) =~= list.take(i as int).map_values(line).push(
                row@,
            ));
            assert(before.push(row@) =~= given + (seq![top] + list.take(i + 1).map_values(line)));
        }
        i = i + 1;
    }
    assert(list.take(list.len() as int) =~= list);
}

/// Flattens entries into project-grouped rows. Groups come in the order they
/// first appear, and the entries of a group in the order they had.
pub fn group_rows(entries: &[WorkspaceEntry]) -> (rows: Vec<SidebarRow>)
    ensures
        rows.deep_view() == tree(entries.deep_view()),
{
    let keys = group_keys(entries);
    let ghost all = keys.deep_view();
    let mut rows: Vec<SidebarRow> = Vec::new();
    let mut i: usize = 0;
    proof {
        assert(all.take(0).len() == 0);
        assert(rows.deep_view() =~= Seq::<LineView>::empty());
    }
    while i < keys.len()
        invariant
            i <= keys.len(),
            all == keys.deep_view(),
            rows.deep_view() == blocks(entries.deep_view(), all.take(i as int)),
        decreases keys.len() - i,
    {
        proof {
            assert(all.take(i + 1).drop_last() =~= all.take(i as int));
            assert(all.take(i + 1).last() == keys[i as int].deep_view());
        }
        push_block(&mut rows, entries, &keys[i]);
        i = i + 1;
    }
    assert(all.take(all.len() as int) =~= all);
    rows
}

proof fn lemma_groups(entries: Seq<EntryView>)
    ensures
        groups(entries).no_duplicates(),
        forall|k: int|
            0 <= k < entries.len() ==> groups(entries).contains(group_of(#[trigger] entries[k])),
        forall|g: int|
            0 <= g < groups(entries).len() ==> exists|k: int|
                0 <= k < entries.len() && group_of(#[trigger] entries[k]) == #[trigger] groups(
                    entries,
                )[g],
    decreases entries.len(),
{
    if entries.len() > 0 {
        let rest = entries.drop_last();
        lemma_groups(rest);
        let known = groups(rest);
        let all = groups(entries);
        let last = group_of(entries.last());
        assert forall|k: int| 0 <= k < entries.len() implies all.contains(
            group_of(#[trigger] entries[k]),
        ) by {
            if k < rest.len() {
                assert(rest[k] == entries[k]);
                let g = choose|g: int| 0 <= g < known.len() && known[g] == group_of(rest[k]);
                assert(all[g] == known[g]);
            } else if !known.contains(last) {
                assert(all[known.len() as int] == last);
            }
        }
        assert forall|g: int| 0 <= g < all.len() implies exists|k: int|
            0 <= k < entries.len() && group_of(#[trigger] entries[k]) == #[trigger] all[g] by {
            if g < known.len() {
                assert(all[g] == known[g]);
                let k = choose|k: int|
                    0 <= k < rest.len() && group_of(#[trigger] rest[k]) == known[g];
                assert(entries[k] == rest[k]);
            } else {
                assert(group_of(entries[entries.len() - 1]) == all[g]);
            }
        }
    }
}

/// How many entries the groups have between them.
spec fn membership(
    entries: Seq<EntryView>,
    groups: Seq<(Option<Seq<char>>, Seq<char>)>,
) -> nat
    decreases groups.len(),
{
    if groups.len() == 0 {
        0
    } else {
        membership(entries, groups.drop_last()) + members(entries, groups.last()).len()
    }
}

proof fn lemma_blocks_len(entries: Seq<EntryView>, groups: Seq<(Option<Seq<char>>, Seq<char>)>)
    ensures
        blocks(entries, groups).len() == groups.len() + membership(entries, groups),
    decreases groups.len(),
{
    if groups.len() > 0 {
        lemma_blocks_len(entries, groups.drop_last());
    }
}

proof fn lemma_membership_grows(
    entries: Seq<EntryView>,
    groups: Seq<(Option<Seq<char>>, Seq<char>)>,
    last: EntryView,
)
    requires
        groups.no_duplicates(),
    ensures
        membership(entries.push(last), groups) == membership(entries, groups)
            + if groups.contains(group_of(last)) {
            1nat
        } else {
            0nat
        },
    decreases groups.len(),
{
    if groups.len() > 0 {
        let rest = groups.drop_last();
        let group = groups.last();
        lemma_membership_grows(entries, rest, last);
        assert(entries.push(last).drop_last() =~= entries);
        assert(members(entries.push(last), group).len() == members(entries, group).len()
            + if group_of(last) == group {
            1nat
        } else {
            0nat
        }) by {
            reveal(Seq::filter);
        }
        if groups.contains(group_of(last)) {
            let k = choose|k: int| 0 <= k < groups.len() && groups[k] == group_of(last);
            if k < rest.len() {
                assert(rest[k] == group_of(last));
                assert(groups[k] != groups[groups.len() - 1]);
            }
        }
        if rest.contains(group_of(last)) {
            let k = choose|k: int| 0 <= k < rest.len() && rest[k] == group_of(last);
            assert(groups[k] == group_of(last));
            assert(groups[k] != groups[groups.len() - 1]);
        }
        if group == group_of(last) {
            assert(groups[groups.len() - 1] == group_of(last));
        }
    }
}

proof fn lemma_membership_is_all(entries: Seq<EntryView>)
    ensures
        membership(entries, groups(entries)) == entries.len(),
    decreases entries.len(),
{
    if entries.len() > 0 {
        let rest = entries.drop_last();
        let last = entries.last();
        let known = groups(rest);
        lemma_membership_is_all(rest);
        lemma_groups(rest);
        assert(rest.push(last) =~= entries);
        lemma_membership_grows(rest, known, last);
        if !known.contains(group_of(last)) {
            let all = groups(entries);
            assert(all.drop_last() =~= known);
            assert(members(rest, group_of(last)).len() == 0) by {
                let meets = in_group(group_of(last));
                if members(rest, group_of(last)).len() > 0 {
                    rest.lemma_filter_pred(meets, 0);
                    let found = rest.filter(meets)[0];
                    rest.lemma_filter_contains_rev(meets, found);
                    let k = choose|k: int| 0 <= k < rest.len() && rest[k] == found;
                    assert(known.contains(group_of(rest[k])));
                }
            }
            assert(members(entries, group_of(last)).len() == 1) by {
                reveal(Seq::filter);
            }
        }
    } else {
        assert(groups(entries).len() == 0);
    }
}

/// Grouping loses no entry and shows none twice: there is a line for every
/// entry and one for every group, no two groups are the same, and each entry's
/// group is among them.
pub proof fn law_grouping_keeps_every_entry(entries: Seq<EntryView>)
    ensures
        tree(entries).len() == entries.len() + groups(entries).len(),
        groups(entries).no_duplicates(),
        forall|k: int|
            0 <= k < entries.len() ==> groups(entries).contains(group_of(#[trigger] entries[k])),
{
    lemma_blocks_len(entries, groups(entries));
    lemma_membership_is_all(entries);
    lemma_groups(entries);
}

/// The entries of a group all belong to it.
pub proof fn law_a_group_holds_its_own(
    entries: Seq<EntryView>,
    group: (Option<Seq<char>>, Seq<char>),
    k: int,
)
    requires
        0 <= k < members(entries, group).len(),
    ensures
        group_of(members(entries, group)[k]) == group,
        entries.contains(members(entries, group)[k]),
{
    entries.lemma_filter_pred(in_group(group), k);
    entries.lemma_filter_contains_rev(in_group(group), members(entries, group)[k]);
}

/// The entry of a line whose session is alive.
pub open spec fn live_line(line: LineView) -> bool {
    line matches LineView::Workspace(entry) && entry.state() == SessionState::Alive
}

/// The entry a line is about.
pub open spec fn line_entry(line: LineView) -> EntryView {
    line->Workspace_0
}

/// The entries whose sessions are alive, as shown.
pub open spec fn live_entries(rows: Seq<LineView>) -> Seq<EntryView> {
    rows.filter(|line: LineView| live_line(line)).map_values(|line: LineView| line_entry(line))
}

pub fn live_session_entries(rows: &[SidebarRow]) -> (live: Vec<WorkspaceEntry>)
    ensures
        live.deep_view() == live_entries(rows.deep_view()),
{
    let ghost all = rows.deep_view();
    let ghost meets = |line: LineView| live_line(line);
    let ghost entry_of = |line: LineView| line_entry(line);
    let mut live: Vec<WorkspaceEntry> = Vec::new();
    let mut i: usize = 0;
    assert(all.take(0).filter(meets).map_values(entry_of) =~= Seq::<EntryView>::empty()) by {
        reveal(Seq::filter);
    }
    while i < rows.len()
        invariant
            i <= rows.len(),
            all == rows.deep_view(),
            meets == (|line: LineView| live_line(line)),
            entry_of == (|line: LineView| line_entry(line)),
            live.deep_view() == all.take(i as int).filter(meets).map_values(entry_of),
        decreases rows.len() - i,
    {
        let ghost before = live.deep_view();
        let ghost kept = all.take(i as int).filter(meets);
        let row = &rows[i];
        proof {
            reveal(Seq::filter);
            assert(all.take(i + 1).drop_last() =~= all.take(i as int));
            assert(all.take(i + 1).last() == row@);
        }
        match row {
            SidebarRow::Workspace { entry } => {
                if entry.state() == SessionState::Alive {
                    let copy = entry.clone();
                    live.push(copy);
                    proof {
                        assert(live.deep_view() =~= before.push(copy@));
                        assert(kept.push(row@).map_values(entry_of) =~= kept.map_values(
                            entry_of,
                        ).push(entry_of(row@)));
                    }
                }
            },
            SidebarRow::Project { .. } => {},
        }
        i = i + 1;
    }
    assert(all.take(all.len() as int) =~= all);
    live
}

/// Whether a line is a row of this client's whose session is dead.
pub open spec fn gone_line(line: LineView) -> bool {
    line matches LineView::Workspace(EntryView::Persisted(_, SessionState::Dead))
}

/// The id of the row a line is about.
pub open spec fn line_id(line: LineView) -> Seq<char> {
    line_entry(line)->Persisted_0.id
}

/// The rows whose sessions are gone, as shown. A discovery is nothing this
/// client has used, so cleaning up must not reach one.
pub open spec fn gone_ids(rows: Seq<LineView>) -> Seq<Seq<char>> {
    rows.filter(|line: LineView| gone_line(line)).map_values(|line: LineView| line_id(line))
}

pub fn gone_workspace_ids(rows: &[SidebarRow]) -> (ids: Vec<WorkspaceId>)
    ensures
        ids.deep_view() == gone_ids(rows.deep_view()),
{
    let ghost all = rows.deep_view();
    let ghost meets = |line: LineView| gone_line(line);
    let ghost id_of = |line: LineView| line_id(line);
    let mut ids: Vec<WorkspaceId> = Vec::new();
    let mut i: usize = 0;
    assert(all.take(0).filter(meets).map_values(id_of) =~= Seq::<Seq<char>>::empty()) by {
        reveal(Seq::filter);
    }
    while i < rows.len()
        invariant
            i <= rows.len(),
            all == rows.deep_view(),
            meets == (|line: LineView| gone_line(line)),
            id_of == (|line: LineView| line_id(line)),
            ids.deep_view() == all.take(i as int).filter(meets).map_values(id_of),
        decreases rows.len() - i,
    {
        let ghost before = ids.deep_view();
        let ghost kept = all.take(i as int).filter(meets);
        let row = &rows[i];
        proof {
            reveal(Seq::filter);
            assert(all.take(i + 1).drop_last() =~= all.take(i as int));
            assert(all.take(i + 1).last() == row@);
        }
        match row {
            SidebarRow::Workspace { entry } => match entry.persisted() {
                Some((workspace, state)) => {
                    if state == SessionState::Dead {
                        let id = workspace.id.clone();
                        ids.push(id);
                        proof {
                            assert(ids.deep_view() =~= before.push(id@));
                            assert(kept.push(row@).map_values(id_of) =~= kept.map_values(
                                id_of,
                            ).push(id_of(row@)));
                        }
                    }
                },
                None => {},
            },
            SidebarRow::Project { .. } => {},
        }
        i = i + 1;
    }
    assert(all.take(all.len() as int) =~= all);
    ids
}

/// The colour of a status, off the theme's palette.
pub open spec fn color_of(status: WorkspaceStatus) -> Color {
    match status {
        WorkspaceStatus::Running => Color::Success,
        WorkspaceStatus::Disconnected => Color::Warning,
        WorkspaceStatus::Stopped | WorkspaceStatus::Creating => Color::Muted,
        WorkspaceStatus::Error => Color::Error,
    }
}

pub fn status_color(status: WorkspaceStatus) -> (color: Color)
    ensures
        color == color_of(status),
{
    match status {
        WorkspaceStatus::Running => Color::Success,
        WorkspaceStatus::Disconnected => Color::Warning,
        WorkspaceStatus::Stopped | WorkspaceStatus::Creating => Color::Muted,
        WorkspaceStatus::Error => Color::Error,
    }
}

/// The status a row's dot shows: the one recorded, but for a session found dead
/// before the row has caught up.
pub open spec fn shown_status(status: WorkspaceStatus, state: SessionState) -> WorkspaceStatus {
    match state {
        SessionState::Dead => WorkspaceStatus::Disconnected,
        _ => status,
    }
}

pub fn workspace_status(workspace: &AdeWorkspace, state: SessionState) -> (status: WorkspaceStatus)
    ensures
        status == shown_status(workspace@.status, state),
{
    match state {
        SessionState::Dead => WorkspaceStatus::Disconnected,
        _ => workspace.status,
    }
}

/// The status a discovery's dot shows.
pub open spec fn discovered_status(state: SessionState) -> WorkspaceStatus {
    match state {
        SessionState::Alive => WorkspaceStatus::Running,
        SessionState::Dead => WorkspaceStatus::Disconnected,
        SessionState::NeverCreated | SessionState::Unknown => WorkspaceStatus::Stopped,
    }
}

/// What one entry of a row's menu does.
#[derive(Clone, Copy, Debug, PartialEq, Eq, Structural)]
pub enum RowAction {
    /// Opens the workspace again, which attaches and never repairs.
    Reconnect,
    /// Drops the clients; the session and everything in it survives.
    StopDetach,
    /// Kills every session of the workspace, and the record with them.
    KillWorkspace,
    /// Forgets the row, and touches no session.
    RemoveFromList,
}

/// One line of a row's menu.
#[derive(Clone, Copy, Debug, PartialEq, Eq, Structural)]
pub enum MenuLine {
    Entry(RowAction),
    Separator,
}

/// What an entry of the menu says.
pub open spec fn action_text(action: RowAction) -> Seq<char> {
    match action {
        RowAction::Reconnect => "Reconnect"@,
        RowAction::StopDetach => "Stop (detach)"@,
        RowAction::KillWorkspace => "Kill workspace…"@,
        RowAction::RemoveFromList => "Remove from list"@,
    }
}

impl RowAction {
    pub fn label(&self) -> (label: &'static str)
        ensures
            label@ == action_text(*self),
    {
        match self {
            RowAction::Reconnect => "Reconnect",
            RowAction::StopDetach => "Stop (detach)",
            RowAction::KillWorkspace => "Kill workspace…",
            RowAction::RemoveFromList => "Remove from list",
        }
    }
}

/// A row of the tree, ready to draw.
#[derive(Debug, PartialEq, Eq)]
pub struct RowModel {
    pub selected: bool,
    pub dot: Color,
    pub name: String,
    pub name_color: Color,
    pub branch: Option<String>,
    /// The workspace's wire id and checkout.
    pub detail: String,
    /// What died, for a row that offers to recreate it.
    pub gone: Option<String>,
    pub menu: Vec<MenuLine>,
}

/// What a [`RowModel`] holds.
#[verifier::ext_equal]
pub struct RowModelView {
    pub selected: bool,
    pub dot: Color,
    pub name: Seq<char>,
    pub name_color: Color,
    pub branch: Option<Seq<char>>,
    pub detail: Seq<char>,
    pub gone: Option<Seq<char>>,
    pub menu: Seq<MenuLine>,
}

impl View for RowModel {
    type V = RowModelView;

    open spec fn view(&self) -> RowModelView {
        RowModelView {
            selected: self.selected,
            dot: self.dot,
            name: self.name@,
            name_color: self.name_color,
            branch: text::opt(self.branch),
            detail: self.detail@,
            gone: text::opt(self.gone),
            menu: self.menu@,
        }
    }
}

/// The menu of a row of this client's.
pub open spec fn row_menu() -> Seq<MenuLine> {
    seq![
        MenuLine::Entry(RowAction::Reconnect),
        MenuLine::Entry(RowAction::StopDetach),
        MenuLine::Separator,
        MenuLine::Entry(RowAction::KillWorkspace),
        MenuLine::Entry(RowAction::RemoveFromList),
    ]
}

/// A row of this client's, as shown. A dead one says what died and offers the
/// repair, without performing it.
pub open spec fn persisted_model(
    workspace: WorkspaceView,
    state: SessionState,
    selected: bool,
) -> RowModelView {
    RowModelView {
        selected,
        dot: color_of(shown_status(workspace.status, state)),
        name: workspace.name,
        name_color: if selected {
            Color::Accent
        } else {
            Color::Default
        },
        branch: workspace.branch,
        detail: workspace.daemon_workspace_id() + " · "@ + workspace.repository_path,
        gone: if state == SessionState::Dead {
            Some("Session "@ + workspace.daemon_workspace_id() + " is gone"@)
        } else {
            None
        },
        menu: row_menu(),
    }
}

/// A discovery, as shown. Nothing of it can be stopped, killed or removed here:
/// those are for a row, and it has none until it is opened.
pub open spec fn discovered_model(entry: EntryView) -> RowModelView {
    RowModelView {
        selected: false,
        dot: color_of(discovered_status(entry.state())),
        name: entry.name(),
        name_color: Color::Muted,
        branch: None,
        detail: entry.wire_id() + " · "@ + entry.repository_path(),
        gone: None,
        menu: Seq::empty(),
    }
}

pub fn persisted_row(
    workspace: &AdeWorkspace,
    state: SessionState,
    selected: bool,
) -> (row: RowModel)
    ensures
        row@ == persisted_model(workspace@, state, selected),
{
    let wire_id = workspace.daemon_workspace_id();
    let menu = vec![
        MenuLine::Entry(RowAction::Reconnect),
        MenuLine::Entry(RowAction::StopDetach),
        MenuLine::Separator,
        MenuLine::Entry(RowAction::KillWorkspace),
        MenuLine::Entry(RowAction::RemoveFromList),
    ];
    assert(menu@ =~= row_menu());
    RowModel {
        selected,
        dot: status_color(workspace_status(workspace, state)),
        name: workspace.name.clone(),
        name_color: if selected {
            Color::Accent
        } else {
            Color::Default
        },
        branch: text::owned(text::borrowed(&workspace.branch)),
        detail: text::joined3(wire_id.as_str(), " · ", workspace.repository_path.as_str()),
        gone: if state == SessionState::Dead {
            Some(text::joined3("Session ", wire_id.as_str(), " is gone"))
        } else {
            None
        },
        menu,
    }
}

pub fn discovered_row(entry: &WorkspaceEntry) -> (row: RowModel)
    ensures
        row@ == discovered_model(entry@),
{
    let status = match entry.state() {
        SessionState::Alive => WorkspaceStatus::Running,
        SessionState::Dead => WorkspaceStatus::Disconnected,
        SessionState::NeverCreated | SessionState::Unknown => WorkspaceStatus::Stopped,
    };
    let menu: Vec<MenuLine> = Vec::new();
    assert(menu@ =~= Seq::<MenuLine>::empty());
    RowModel {
        selected: false,
        dot: status_color(status),
        name: entry.name(),
        name_color: Color::Muted,
        branch: None,
        detail: text::joined3(entry.wire_id().as_str(), " · ", entry.repository_path().as_str()),
        gone: None,
        menu,
    }
}

/// Killing is reachable only from an entry that says so, and every row of this
/// client's has exactly one such entry.
pub proof fn law_killing_says_kill(workspace: WorkspaceView, state: SessionState, selected: bool)
    ensures
        ({
            let menu = persisted_model(workspace, state, selected).menu;
            &&& menu.contains(MenuLine::Entry(RowAction::KillWorkspace))
            &&& forall|i: int, j: int|
                0 <= i < menu.len() && 0 <= j < menu.len() && #[trigger] menu[i]
                    == MenuLine::Entry(RowAction::KillWorkspace) && #[trigger] menu[j] == menu[i]
                    ==> i == j
        }),
        "Kill"@.is_prefix_of(action_text(RowAction::KillWorkspace)),
        forall|action: RowAction|
            action != RowAction::KillWorkspace ==> !"Kill"@.is_prefix_of(
                #[trigger] action_text(action),
            ),
{
    reveal_strlit("Kill");
    reveal_strlit("Kill workspace…");
    reveal_strlit("Reconnect");
    reveal_strlit("Stop (detach)");
    reveal_strlit("Remove from list");
    assert(row_menu()[3] == MenuLine::Entry(RowAction::KillWorkspace));
    assert("Kill"@.len() == 4);
    assert forall|action: RowAction| action != RowAction::KillWorkspace implies !"Kill"@
        .is_prefix_of(#[trigger] action_text(action)) by {
        if "Kill"@.is_prefix_of(action_text(action)) {
            assert("Kill"@[0] == action_text(action)[0]);
        }
    }
}

/// A discovery offers nothing that could end anything.
pub proof fn law_a_discovery_has_no_menu(entry: EntryView)
    ensures
        discovered_model(entry).menu.len() == 0,
        discovered_model(entry).gone is None,
{
}

/// A group's heading, ready to draw.
#[derive(Debug, PartialEq, Eq)]
pub struct HeadingModel {
    pub name: String,
    pub host: String,
    pub color: Color,
    pub counts: String,
}

/// What a heading shows beside its name: how many sessions are alive and gone.
pub open spec fn counts_text(live_count: nat, gone_count: nat) -> Seq<char> {
    text::decimal(live_count) + " live · "@ + text::decimal(gone_count) + " gone"@
}

/// What a [`HeadingModel`] holds.
#[verifier::ext_equal]
pub struct HeadingView {
    pub name: Seq<char>,
    pub host: Seq<char>,
    pub color: Color,
    pub counts: Seq<char>,
}

impl View for HeadingModel {
    type V = HeadingView;

    open spec fn view(&self) -> HeadingView {
        HeadingView {
            name: self.name@,
            host: self.host@,
            color: self.color,
            counts: self.counts@,
        }
    }
}

/// A group's heading, as shown: it stands out where the selection is inside.
pub open spec fn heading_model(
    project_id: Seq<char>,
    remote_host: Option<Seq<char>>,
    live_count: nat,
    gone_count: nat,
    contains_selection: bool,
) -> HeadingView {
    HeadingView {
        name: project_id,
        host: daemon::host_name(remote_host),
        color: if contains_selection {
            Color::Default
        } else {
            Color::Muted
        },
        counts: counts_text(live_count, gone_count),
    }
}

pub fn project_heading(
    project_id: &str,
    remote_host: Option<&str>,
    live_count: usize,
    gone_count: usize,
    contains_selection: bool,
) -> (model: HeadingModel)
    ensures
        model@ == heading_model(
            project_id@,
            remote_host.deep_view(),
            live_count as nat,
            gone_count as nat,
            contains_selection,
        ),
{
    let live = text::number(live_count as u64);
    let gone = text::number(gone_count as u64);
    let counts = text::joined3(live.as_str(), " live · ", gone.as_str());
    HeadingModel {
        name: project_id.to_owned(),
        host: daemon::host_label(remote_host),
        color: if contains_selection {
            Color::Default
        } else {
            Color::Muted
        },
        counts: text::joined(counts.as_str(), " gone"),
    }
}

/// One line of the tree, ready to draw.
#[derive(Debug, PartialEq, Eq)]
pub enum LineModel {
    Heading(HeadingModel),
    Row(RowModel),
}

/// What a [`LineModel`] holds.
pub enum LineModelView {
    Heading(HeadingView),
    Row(RowModelView),
}

impl DeepView for LineModel {
    type V = LineModelView;

    open spec fn deep_view(&self) -> LineModelView {
        match *self {
            LineModel::Heading(heading) => LineModelView::Heading(heading@),
            LineModel::Row(row) => LineModelView::Row(row@),
        }
    }
}

/// A line of the tree, as shown: the row of the selected workspace is marked, and
/// so is the heading of its group.
pub open spec fn line_model(
    line: LineView,
    selected: Option<Seq<char>>,
    group: Option<(Option<Seq<char>>, Seq<char>)>,
) -> LineModelView {
    match line {
        LineView::Project {
            project_id,
            project_identity,
            remote_host,
            live_count,
            gone_count,
        } => LineModelView::Heading(
            heading_model(
                project_id,
                remote_host,
                live_count,
                gone_count,
                group == Some((remote_host, project_identity)),
            ),
        ),
        LineView::Workspace(EntryView::Persisted(row, state)) => LineModelView::Row(
            persisted_model(row, state, selected == Some(row.id)),
        ),
        LineView::Workspace(entry) => LineModelView::Row(discovered_model(entry)),
    }
}

/// A question the user is asked before something is ended.
#[derive(Debug, PartialEq, Eq)]
pub struct Prompt {
    pub title: String,
    pub detail: &'static str,
    /// The answer that goes ahead; the other one is to cancel.
    pub confirm: &'static str,
}

/// The plural ending for a count.
pub open spec fn plural(count: nat) -> Seq<char> {
    if count == 1 {
        ""@
    } else {
        "s"@
    }
}

/// What a user is asked before every live session is killed.
pub open spec fn asks_to_kill(prompt: Prompt, count: nat) -> bool {
    &&& prompt.title@ == "Kill sessions in "@ + text::decimal(count) + " live workspace"@ + plural(
        count,
    ) + "?"@
    &&& prompt.detail@
        == "This terminates the sessions active when each shown workspace is processed, including their agents and child processes. Workspace records, saved layouts, repository files, and host daemons are kept."@
    &&& prompt.confirm@ == "Kill All Sessions"@
}

/// What a user is asked before the workspaces that are gone are removed.
pub open spec fn asks_to_clean_up(prompt: Prompt, count: nat) -> bool {
    &&& prompt.title@ == "Kill and clean up "@ + text::decimal(count) + " gone workspace"@ + plural(
        count,
    ) + "?"@
    &&& prompt.detail@
        == "This permanently deletes their daemon workspace records and saved layouts. If a session starts in one before cleanup finishes, that session is terminated. Other live sessions and repository files are not changed."@
    &&& prompt.confirm@ == "Kill and Clean Up"@
}

fn counted(head: &str, count: usize, noun: &str) -> (title: String)
    ensures
        title@ == head@ + text::decimal(count as nat) + noun@ + plural(count as nat) + "?"@,
{
    let number = text::number(count as u64);
    let suffix = if count == 1 {
        ""
    } else {
        "s"
    };
    let title = text::joined3(head, number.as_str(), noun);
    text::joined3(title.as_str(), suffix, "?")
}

/// What a [`WorkspaceSidebar`] holds.
#[verifier::ext_equal]
pub struct SidebarView {
    pub rows: Seq<LineView>,
    pub selected: Option<Seq<char>>,
    pub error: Option<Seq<char>>,
    pub busy: bool,
}

/// The sidebar, apart from drawing it.
pub struct WorkspaceSidebar {
    rows: Vec<SidebarRow>,
    /// The workspace whose terminal the centre is showing, as far as is known.
    selected: Option<WorkspaceId>,
    /// The last failed action.
    error: Option<String>,
    bulk_action_in_progress: bool,
}

impl View for WorkspaceSidebar {
    type V = SidebarView;

    closed spec fn view(&self) -> SidebarView {
        SidebarView {
            rows: self.rows.deep_view(),
            selected: self.selected.deep_view(),
            error: text::opt(self.error),
            busy: self.bulk_action_in_progress,
        }
    }
}

/// Whether a row of this client's with this id is among the entries.
pub open spec fn has_row(entries: Seq<EntryView>, id: Seq<char>) -> bool {
    exists|k: int|
        0 <= k < entries.len() && (#[trigger] entries[k] matches EntryView::Persisted(row, _)
            && row.id == id)
}

fn lists_row(entries: &[WorkspaceEntry], id: &WorkspaceId) -> (listed: bool)
    ensures
        listed == has_row(entries.deep_view(), id@),
{
    let ghost all = entries.deep_view();
    let mut i: usize = 0;
    while i < entries.len()
        invariant
            i <= entries.len(),
            all == entries.deep_view(),
            forall|k: int|
                0 <= k < i ==> !(#[trigger] all[k] matches EntryView::Persisted(row, _) && row.id
                    == id@),
        decreases entries.len() - i,
    {
        assert(all[i as int] == entries[i as int]@);
        match entries[i].persisted() {
            Some((row, _)) => {
                if row.id.is(id) {
                    return true;
                }
            },
            None => {},
        }
        i = i + 1;
    }
    false
}

/// The message of a failure, where there is one.
pub open spec fn failure_text(result: Result<(), FailureView>) -> Option<Seq<char>> {
    match result {
        Ok(()) => None,
        Err(failure) => Some(failure.message()),
    }
}

fn message_of(result: &Result<(), Failure>) -> (message: Option<String>)
    ensures
        text::opt(message) == failure_text(crate::service::told(*result)),
{
    match result {
        Ok(()) => None,
        Err(failure) => Some(failure.message()),
    }
}

/// The group of the selected row, where one is selected and shown: the first
/// line about it says which.
pub open spec fn selected_group(
    rows: Seq<LineView>,
    selected: Option<Seq<char>>,
) -> Option<(Option<Seq<char>>, Seq<char>)>
    decreases rows.len(),
{
    if rows.len() == 0 {
        None
    } else {
        match rows[0] {
            LineView::Workspace(EntryView::Persisted(row, _)) if selected == Some(row.id) => Some(
                (row.remote_host, row.identity_or_path()),
            ),
            _ => selected_group(rows.drop_first(), selected),
        }
    }
}

/// The sidebar after its tree was built again.
pub open spec fn rebuilt(sidebar: SidebarView, entries: Seq<EntryView>) -> SidebarView {
    SidebarView {
        rows: tree(entries),
        selected: match sidebar.selected {
            Some(id) => if has_row(entries, id) {
                Some(id)
            } else {
                None
            },
            None => None,
        },
        ..sidebar
    }
}

/// The sidebar after the opening of a discovery ended.
pub open spec fn after_opening(
    sidebar: SidebarView,
    confirmed: Result<WorkspaceView, FailureView>,
) -> SidebarView {
    match confirmed {
        Ok(workspace) => SidebarView { selected: Some(workspace.id), ..sidebar },
        Err(FailureView::Gone { .. }) => SidebarView { error: None, ..sidebar },
        Err(failure) => SidebarView { error: Some(failure.message()), ..sidebar },
    }
}

/// The sidebar as a row is about to be removed.
pub open spec fn letting_go(sidebar: SidebarView, id: Seq<char>) -> SidebarView {
    SidebarView {
        selected: if sidebar.selected == Some(id) {
            None
        } else {
            sidebar.selected
        },
        ..sidebar
    }
}

/// What the sidebar's body shows.
#[derive(Clone, Copy, Debug, PartialEq, Eq, Structural)]
pub enum SidebarBody {
    /// The tree.
    Rows,
    /// That there are no workspaces yet.
    Empty,
    /// Nothing: the first pass has not landed.
    Blank,
}

impl WorkspaceSidebar {
    pub fn new(entries: &[WorkspaceEntry]) -> (sidebar: Self)
        ensures
            sidebar@ == (SidebarView {
                rows: tree(entries.deep_view()),
                selected: None,
                error: None,
                busy: false,
            }),
    {
        WorkspaceSidebar {
            rows: group_rows(entries),
            selected: None,
            error: None,
            bulk_action_in_progress: false,
        }
    }

    pub fn rows(&self) -> (rows: &[SidebarRow])
        ensures
            rows.deep_view() == self@.rows,
    {
        self.rows.as_slice()
    }

    pub fn selected(&self) -> (selected: Option<&WorkspaceId>)
        ensures
            selected.deep_view() == self@.selected,
    {
        match &self.selected {
            Some(id) => Some(id),
            None => None,
        }
    }

    pub fn error(&self) -> (error: Option<&str>)
        ensures
            error.deep_view() == self@.error,
    {
        text::borrowed(&self.error)
    }

    /// Rebuilds the tree. A workspace that has been removed can no longer be
    /// the selection.
    pub fn take_rows(&mut self, entries: &[WorkspaceEntry])
        ensures
            final(self)@ == rebuilt(old(self)@, entries.deep_view()),
    {
        let stays = match &self.selected {
            Some(id) => lists_row(entries, id),
            None => false,
        };
        if !stays {
            self.selected = None;
        }
        self.rows = group_rows(entries);
    }

    /// An action ended: its failure is shown, and a success takes the last one
    /// away.
    pub fn action_ended(&mut self, result: &Result<(), Failure>)
        ensures
            final(self)@ == (SidebarView {
                error: failure_text(crate::service::told(*result)),
                ..old(self)@
            }),
    {
        self.error = message_of(result);
    }

    /// A row was clicked, or recreated.
    pub fn select(&mut self, id: &WorkspaceId)
        ensures
            final(self)@ == (SidebarView { selected: Some(id@), ..old(self)@ }),
    {
        self.selected = Some(id.clone());
    }

    /// Opening a discovery ended. One that vanished between the listing and the
    /// click is no failure to show: the next pass drops it.
    pub fn discovery_opened(&mut self, confirmed: &Result<AdeWorkspace, Failure>)
        ensures
            final(self)@ == after_opening(old(self)@, crate::service::told(*confirmed)),
    {
        match confirmed {
            Ok(workspace) => {
                self.selected = Some(workspace.id.clone());
            },
            Err(Failure::Gone(_)) => {
                self.error = None;
            },
            Err(failure) => {
                self.error = Some(failure.message());
            },
        }
    }

    /// A row is about to be removed from the list.
    pub fn removing(&mut self, id: &WorkspaceId)
        ensures
            final(self)@ == letting_go(old(self)@, id@),
    {
        let is_selected = match &self.selected {
            Some(selected) => selected.is(id),
            None => false,
        };
        if is_selected {
            self.selected = None;
        }
    }

    /// What killing every live session would ask, and of which workspaces.
    /// Nothing where none is alive, or a bulk action is running.
    pub fn kill_all_sessions(&self) -> (asked: Option<(Prompt, Vec<WorkspaceEntry>)>)
        ensures
            match asked {
                Some((prompt, targets)) => {
                    &&& !self@.busy
                    &&& targets.deep_view() == live_entries(self@.rows)
                    &&& targets@.len() > 0
                    &&& asks_to_kill(prompt, targets@.len())
                },
                None => self@.busy || live_entries(self@.rows).len() == 0,
            },
    {
        let targets = live_session_entries(self.rows.as_slice());
        if targets.len() == 0 || self.bulk_action_in_progress {
            return None;
        }
        let prompt = Prompt {
            title: counted("Kill sessions in ", targets.len(), " live workspace"),
            detail: "This terminates the sessions active when each shown workspace is processed, including their agents and child processes. Workspace records, saved layouts, repository files, and host daemons are kept.",
            confirm: "Kill All Sessions",
        };
        Some((prompt, targets))
    }

    /// What cleaning up would ask, and of which workspaces. Nothing where none
    /// is gone, or a bulk action is running.
    pub fn cleanup_gone_workspaces(&self) -> (asked: Option<(Prompt, Vec<WorkspaceId>)>)
        ensures
            match asked {
                Some((prompt, ids)) => {
                    &&& !self@.busy
                    &&& ids.deep_view() == gone_ids(self@.rows)
                    &&& ids@.len() > 0
                    &&& asks_to_clean_up(prompt, ids@.len())
                },
                None => self@.busy || gone_ids(self@.rows).len() == 0,
            },
    {
        let ids = gone_workspace_ids(self.rows.as_slice());
        if ids.len() == 0 || self.bulk_action_in_progress {
            return None;
        }
        let prompt = Prompt {
            title: counted("Kill and clean up ", ids.len(), " gone workspace"),
            detail: "This permanently deletes their daemon workspace records and saved layouts. If a session starts in one before cleanup finishes, that session is terminated. Other live sessions and repository files are not changed.",
            confirm: "Kill and Clean Up",
        };
        Some((prompt, ids))
    }

    /// The user answered: whether the bulk action starts. It does not where
    /// they cancelled, or another one started in the meantime.
    pub fn start_bulk_action(&mut self, confirmed: bool) -> (started: bool)
        ensures
            started == (confirmed && !old(self)@.busy),
            final(self)@ == (SidebarView { busy: old(self)@.busy || started, ..old(self)@ }),
    {
        if !confirmed || self.bulk_action_in_progress {
            return false;
        }
        self.bulk_action_in_progress = true;
        true
    }

    /// A bulk action ended.
    pub fn bulk_action_ended(&mut self, result: &Result<(), Failure>)
        ensures
            final(self)@ == (SidebarView {
                busy: false,
                error: failure_text(crate::service::told(*result)),
                ..old(self)@
            }),
    {
        self.bulk_action_in_progress = false;
        self.error = message_of(result);
    }

    /// Which of the two bulk buttons the header shows, and whether they can be
    /// pressed.
    pub fn header_buttons(&self) -> (shown: (bool, bool, bool))
        ensures
            shown.0 == (live_entries(self@.rows).len() > 0),
            shown.1 == (gone_ids(self@.rows).len() > 0),
            shown.2 == !self@.busy,
    {
        let live = live_session_entries(self.rows.as_slice());
        let gone = gone_workspace_ids(self.rows.as_slice());
        proof {
            assert(live.deep_view().len() == live@.len());
            assert(gone.deep_view().len() == gone@.len());
        }
        (live.len() > 0, gone.len() > 0, !self.bulk_action_in_progress)
    }

    /// The group of the selected row.
    pub fn selected_group(&self) -> (group: Option<(Option<String>, String)>)
        ensures
            group.deep_view() == selected_group(self@.rows, self@.selected),
    {
        let ghost all = self.rows.deep_view();
        let mut i: usize = 0;
        assert(all.skip(0) =~= all);
        while i < self.rows.len()
            invariant
                i <= self.rows.len(),
                all == self.rows.deep_view(),
                selected_group(all, self@.selected) == selected_group(
                    all.skip(i as int),
                    self@.selected,
                ),
            decreases self.rows.len() - i,
        {
            proof {
                assert(all.skip(i as int)[0] == self.rows[i as int]@);
                assert(all.skip(i as int).drop_first() =~= all.skip(i + 1));
            }
            match &self.rows[i] {
                SidebarRow::Workspace { entry } => match (entry.persisted(), &self.selected) {
                    (Some((workspace, _)), Some(selected)) => {
                        if selected.is(&workspace.id) {
                            return Some(
                                (
                                    text::owned(text::borrowed(&workspace.remote_host)),
                                    workspace.project_identity(),
                                ),
                            );
                        }
                    },
                    _ => {},
                },
                SidebarRow::Project { .. } => {},
            }
            i = i + 1;
        }
        None
    }

    fn line_model(
        &self,
        row: &SidebarRow,
        group: &Option<(Option<String>, String)>,
    ) -> (model: LineModel)
        ensures
            model.deep_view() == line_model(row@, self@.selected, group.deep_view()),
    {
        match row {
            SidebarRow::Project {
                project_id,
                project_identity,
                remote_host,
                live_count,
                gone_count,
            } => {
                let contains_selection = match group {
                    Some((host, identity)) => text::same_opt_text(
                        text::borrowed(host),
                        text::borrowed(remote_host),
                    ) && text::same_text(identity.as_str(), project_identity.as_str()),
                    None => false,
                };
                LineModel::Heading(
                    project_heading(
                        project_id.as_str(),
                        text::borrowed(remote_host),
                        *live_count,
                        *gone_count,
                        contains_selection,
                    ),
                )
            },
            SidebarRow::Workspace { entry } => match entry.persisted() {
                Some((workspace, state)) => {
                    let selected = match &self.selected {
                        Some(selected) => selected.is(&workspace.id),
                        None => false,
                    };
                    LineModel::Row(persisted_row(workspace, state, selected))
                },
                None => LineModel::Row(discovered_row(entry)),
            },
        }
    }

    /// Every line of the tree, ready to draw.
    pub fn line_models(&self) -> (lines: Vec<LineModel>)
        ensures
            lines.deep_view() == self@.rows.map_values(
                |line: LineView|
                    line_model(
                        line,
                        self@.selected,
                        selected_group(self@.rows, self@.selected),
                    ),
            ),
    {
        let group = self.selected_group();
        let ghost all = self.rows.deep_view();
        let ghost drawn = |line: LineView| line_model(line, self@.selected, group.deep_view());
        let mut lines: Vec<LineModel> = Vec::new();
        let mut i: usize = 0;
        assert(lines.deep_view() =~= all.take(0).map_values(drawn));
        while i < self.rows.len()
            invariant
                i <= self.rows.len(),
                all == self.rows.deep_view(),
                drawn == (|line: LineView|
                    line_model(line, self@.selected, group.deep_view())),
                lines.deep_view() == all.take(i as int).map_values(drawn),
            decreases self.rows.len() - i,
        {
            let ghost before = lines.deep_view();
            let line = self.line_model(&self.rows[i], &group);
            lines.push(line);
            proof {
                assert(all[i as int] == self.rows[i as int]@);
                assert(lines.deep_view() =~= before.push(line.deep_view()));
                assert(all.take(i + 1).map_values(drawn) =~= all.take(i as int).map_values(
                    drawn,
                ).push(drawn(all[i as int])));
            }
            i = i + 1;
        }
        assert(all.take(all.len() as int) =~= all);
        lines
    }

    /// What the body shows.
    pub fn body(&self, is_refreshing: bool) -> (body: SidebarBody)
        ensures
            body == (if self@.rows.len() > 0 {
                SidebarBody::Rows
            } else if is_refreshing {
                SidebarBody::Blank
            } else {
                SidebarBody::Empty
            }),
    {
        if self.rows.len() > 0 {
            SidebarBody::Rows
        } else if is_refreshing {
            SidebarBody::Blank
        } else {
            SidebarBody::Empty
        }
    }

    /// The error lines, from the one that stands longest to the last action's.
    pub fn error_lines(&self, store: &AdeWorkspaceStore) -> (lines: Vec<String>)
        ensures
            lines.deep_view() == crate::store::lines_of(store@.status_stream_error)
                + store@.host_errors + crate::store::lines_of(store@.error)
                + crate::store::lines_of(self@.error),
    {
        let mut lines: Vec<String> = Vec::new();
        assert(lines.deep_view() =~= Seq::<Seq<char>>::empty());
        push_line(&mut lines, store.status_stream_error());
        let errors = store.host_errors();
        let ghost given = lines.deep_view();
        let ghost all = errors.deep_view();
        let mut i: usize = 0;
        assert(given + all.take(0) =~= given);
        while i < errors.len()
            invariant
                i <= errors.len(),
                all == errors.deep_view(),
                lines.deep_view() == given + all.take(i as int),
            decreases errors.len() - i,
        {
            let ghost before = lines.deep_view();
            let line = errors[i].clone();
            lines.push(line);
            proof {
                assert(lines.deep_view() =~= before.push(line@));
                assert(before.push(line@) =~= given + all.take(i + 1));
            }
            i = i + 1;
        }
        assert(all.take(all.len() as int) =~= all);
        push_line(&mut lines, store.error());
        push_line(&mut lines, self.error());
        proof {
            assert(lines.deep_view() =~= crate::store::lines_of(store@.status_stream_error)
                + store@.host_errors + crate::store::lines_of(store@.error)
                + crate::store::lines_of(self@.error));
        }
        lines
    }
}

fn push_line(lines: &mut Vec<String>, line: Option<&str>)
    ensures
        final(lines).deep_view() == old(lines).deep_view() + crate::store::lines_of(
            line.deep_view(),
        ),
{
    let ghost before = lines.deep_view();
    match line {
        Some(line) => {
            let owned = line.to_owned();
            lines.push(owned);
            assert(lines.deep_view() =~= before + seq![line@]);
        },
        None => {
            assert(before + Seq::<Seq<char>>::empty() =~= before);
        },
    }
}

} // verus!
