//! What each write of the table writes, and what each of its lists holds.

use crate::daemon;
use crate::daemon::KeyView;
use crate::order;
use crate::paths;
use crate::reconcile_laws;
use crate::registry;
use crate::registry::RowView;
use crate::session_backend::RecordView;
use crate::session_laws;
use crate::text;
use crate::workspace::{AdeWorkspace, WorkspaceStatus, WorkspaceView};
use crate::worktree_metadata_store;
use crate::worktree_metadata_store::{PairView, WorktreeKind};
use vstd::prelude::*;

verus! {

/// That a write left one row as said, and all others as they were.
pub open spec fn writes(
    before: Seq<RowView>,
    after: Option<Seq<RowView>>,
    k: int,
    workspace: WorkspaceView,
    used: Option<i64>,
) -> bool {
    after == Some(before.update(k, RowView { workspace, used_by_client_at: used }))
}

/// A status, a name or a time of opening is written to the row it is for, and
/// nothing else is. A row that is put in quarantine is in use no longer and is
/// otherwise what it was. None of these is ever refused.
pub proof fn law_a_plain_write_changes_its_own_column(
    rows: Seq<RowView>,
    k: int,
    status: WorkspaceStatus,
    name: Seq<char>,
    time: i64,
)
    requires
        registry::is_table(rows),
        0 <= k < rows.len(),
    ensures
        ({
            let (id, was, used) = (
                rows[k].workspace.id,
                rows[k].workspace,
                rows[k].used_by_client_at,
            );
            &&& writes(
                rows,
                registry::changed(rows, id, registry::status_change(status)),
                k,
                WorkspaceView { status, ..was },
                used,
            )
            &&& writes(
                rows,
                registry::changed(rows, id, registry::name_change(name)),
                k,
                WorkspaceView { name, ..was },
                used,
            )
            &&& writes(
                rows,
                registry::changed(rows, id, registry::opening_change(time)),
                k,
                WorkspaceView { last_opened_at: time, ..was },
                used,
            )
            &&& writes(
                rows,
                registry::changed(rows, id, registry::quarantine_change()),
                k,
                was,
                None,
            )
        }),
{
    let id = rows[k].workspace.id;
    registry::lemma_position_is(rows, id, k);
    session_laws::lemma_record_is_free(rows, k, registry::status_change(status)(rows[k]));
    session_laws::lemma_record_is_free(rows, k, registry::name_change(name)(rows[k]));
    session_laws::lemma_record_is_free(rows, k, registry::opening_change(time)(rows[k]));
}

/// Whether another row in use stands for a session of a daemon, or of a host whose
/// daemon has no name.
pub open spec fn is_owned_elsewhere(
    rows: Seq<RowView>,
    k: int,
    session: Option<Seq<char>>,
    row: RowView,
) -> bool {
    &&& row.used_by_client_at is Some && session is Some
    &&& exists|j: int|
        {
            &&& 0 <= j < rows.len() && j != k
            &&& (#[trigger] rows[j]).used_by_client_at is Some
            &&& rows[j].workspace.terminal_session_id == session
            &&& rows[j].owner() == row.owner()
        }
}

/// A session, a daemon and a route are written to the row they are for, and nothing
/// else is, unless another row in use already stands for that session there: then
/// the write is refused.
pub proof fn law_a_record_has_one_row_in_use(
    rows: Seq<RowView>,
    k: int,
    session: Option<Seq<char>>,
    daemon: Option<Seq<char>>,
    host: Option<Seq<char>>,
    now: i64,
)
    requires
        registry::is_table(rows),
        0 <= k < rows.len(),
    ensures
        ({
            let (id, was, used) = (
                rows[k].workspace.id,
                rows[k].workspace,
                rows[k].used_by_client_at,
            );
            let named = WorkspaceView { terminal_session_id: session, ..was };
            let bound = WorkspaceView { terminal_session_id: session, daemon_id: daemon, ..was };
            let moved = WorkspaceView { remote_host: host, daemon_id: daemon, ..was };
            let taken = WorkspaceView { last_opened_at: now, ..moved };
            let one = registry::changed(rows, id, registry::session_change(session));
            let two = registry::changed(
                rows,
                id,
                registry::session_and_daemon_change(session, daemon),
            );
            let three = registry::changed(rows, id, registry::route_change(host, daemon));
            let four = registry::changed(rows, id, registry::confirmation(host, daemon, now));
            &&& one is None <==> is_owned_elsewhere(
                rows,
                k,
                session,
                RowView { workspace: named, used_by_client_at: used },
            )
            &&& one is Some ==> writes(rows, one, k, named, used)
            &&& two is None <==> is_owned_elsewhere(
                rows,
                k,
                session,
                RowView { workspace: bound, used_by_client_at: used },
            )
            &&& two is Some ==> writes(rows, two, k, bound, used)
            &&& three is None <==> is_owned_elsewhere(
                rows,
                k,
                was.terminal_session_id,
                RowView { workspace: moved, used_by_client_at: used },
            )
            &&& three is Some ==> writes(rows, three, k, moved, used)
            &&& four is None <==> is_owned_elsewhere(
                rows,
                k,
                was.terminal_session_id,
                RowView { workspace: taken, used_by_client_at: Some(now) },
            )
            &&& four is Some ==> writes(rows, four, k, taken, Some(now))
        }),
{
    let id = rows[k].workspace.id;
    registry::lemma_position_is(rows, id, k);
    lemma_collides(rows, k, registry::session_change(session)(rows[k]));
    lemma_collides(rows, k, registry::session_and_daemon_change(session, daemon)(rows[k]));
    lemma_collides(rows, k, registry::route_change(host, daemon)(rows[k]));
    lemma_collides(rows, k, registry::confirmation(host, daemon, now)(rows[k]));
}

proof fn lemma_collides(rows: Seq<RowView>, k: int, row: RowView)
    ensures
        registry::collides(rows, k, row) <==> is_owned_elsewhere(
            rows,
            k,
            row.workspace.terminal_session_id,
            row,
        ),
{
    if registry::collides(rows, k, row) {
        let j = choose|j: int|
            0 <= j < rows.len() && j != k && row.same_record(#[trigger] rows[j]);
        assert(rows[j].used_by_client_at is Some);
    }
    if is_owned_elsewhere(rows, k, row.workspace.terminal_session_id, row) {
        let j = choose|j: int|
            {
                &&& 0 <= j < rows.len() && j != k
                &&& (#[trigger] rows[j]).used_by_client_at is Some
                &&& rows[j].workspace.terminal_session_id == row.workspace.terminal_session_id
                &&& rows[j].owner() == row.owner()
            };
        assert(row.same_record(rows[j]));
    }
}

/// Rows of one daemon have one owner, however their hosts are spelled; rows whose
/// daemons have no name have one owner exactly where their hosts are spelled alike.
pub proof fn law_an_owner_is_the_daemon_or_the_route(a: RowView, b: RowView)
    ensures
        a.workspace.daemon_id is Some && b.workspace.daemon_id is Some ==> (a.owner() == b.owner()
            <==> a.workspace.daemon_id == b.workspace.daemon_id),
        a.workspace.daemon_id is None && b.workspace.daemon_id is None && a.workspace.remote_host
            == b.workspace.remote_host ==> a.owner() == b.owner(),
        a.workspace.daemon_id is None && b.workspace.daemon_id is None && a.owner() == b.owner()
            && a.workspace.remote_host != Some(seq!['\0']) && b.workspace.remote_host != Some(
            seq!['\0'],
        ) ==> a.workspace.remote_host == b.workspace.remote_host,
{
    if a.workspace.daemon_id is None && b.workspace.daemon_id is None && a.owner() == b.owner() {
        let host_a = match a.workspace.remote_host {
            Some(host) => host,
            None => seq!['\0'],
        };
        let host_b = match b.workspace.remote_host {
            Some(host) => host,
            None => seq!['\0'],
        };
        assert(a.owner().skip(1) =~= host_a);
        assert(b.owner().skip(1) =~= host_b);
    }
}

/// A workspace that has no row, and whose record nobody owns, gets one behind the
/// others; a row in use or not as given.
pub proof fn law_a_new_row_comes_behind_the_others(rows: Seq<RowView>, row: RowView)
    requires
        forall|k: int| 0 <= k < rows.len() ==> (#[trigger] rows[k]).workspace.id
            != row.workspace.id,
        !is_owned_elsewhere(rows, rows.len() as int, row.workspace.terminal_session_id, row),
    ensures
        registry::with_workspace(rows, row) == Some(rows.push(row)),
{
    registry::lemma_position(rows, row.workspace.id);
    lemma_collides(rows, rows.len() as int, row);
}

/// Each list of the table has exactly the rows it is of: all of them, those in use,
/// those in quarantine, those of a project, and those in quarantine that a daemon
/// may own.
pub proof fn law_a_list_has_the_rows_it_is_of(
    rows: Seq<RowView>,
    k: int,
    project: Seq<char>,
    instance: Option<Seq<char>>,
)
    requires
        registry::is_table(rows),
        0 <= k < rows.len(),
    ensures
        ({
            let w = rows[k].workspace;
            let used = rows[k].used_by_client_at is Some;
            &&& registry::listing(rows, registry::any_row()).contains(w)
            &&& registry::listing(rows, registry::used_rows()).contains(w) <==> used
            &&& registry::listing(rows, registry::quarantined_rows()).contains(w) <==> !used
            &&& registry::listing(rows, registry::rows_of_project(project)).contains(w)
                <==> w.project_id == project
            &&& registry::listing(rows, registry::used_rows_of_project(project)).contains(w)
                <==> used && w.project_id == project
            &&& registry::listing(rows, registry::promotable_rows(instance)).contains(w) <==> !used
                && (w.daemon_id is None || w.daemon_id == instance)
        }),
{
    lemma_listed(rows, registry::any_row(), k);
    lemma_listed(rows, registry::used_rows(), k);
    lemma_listed(rows, registry::quarantined_rows(), k);
    lemma_listed(rows, registry::rows_of_project(project), k);
    lemma_listed(rows, registry::used_rows_of_project(project), k);
    lemma_listed(rows, registry::promotable_rows(instance), k);
}

proof fn lemma_listed(rows: Seq<RowView>, keep: spec_fn(RowView) -> bool, k: int)
    requires
        registry::is_table(rows),
        0 <= k < rows.len(),
    ensures
        registry::listing(rows, keep).contains(rows[k].workspace) <==> keep(rows[k]),
{
    session_laws::lemma_listing(rows, keep);
    let list = registry::listing(rows, keep);
    if list.contains(rows[k].workspace) {
        let at = reconcile_laws::lemma_listed_places(rows, keep);
        let i = choose|i: int| 0 <= i < list.len() && list[i] == rows[k].workspace;
        assert(rows[at[i]].workspace == list[i] && keep(rows[at[i]]));
        if at[i] < k {
            assert(rows[at[i]].workspace.id != rows[k].workspace.id);
        } else if k < at[i] {
            assert(rows[k].workspace.id != rows[at[i]].workspace.id);
        }
    }
}

/// A list has no row twice, and begins with what was opened last: no row stands
/// behind one that was opened earlier, and of two opened at once the one with the
/// lower id stands first.
pub proof fn law_a_list_begins_with_what_was_opened_last(
    rows: Seq<RowView>,
    keep: spec_fn(RowView) -> bool,
    i: int,
    j: int,
)
    requires
        registry::is_table(rows),
        0 <= i < j < registry::listing(rows, keep).len(),
    ensures
        ({
            let list = registry::listing(rows, keep);
            &&& list[i].id != list[j].id
            &&& list[i].last_opened_at >= list[j].last_opened_at
            &&& list[i].last_opened_at == list[j].last_opened_at ==> !text::text_before(
                list[j].id,
                list[i].id,
            )
        }),
{
    let plain = registry::workspaces_where(rows, keep);
    let list = registry::listing(rows, keep);
    let before = order::rank_of::<AdeWorkspace>();
    order::lemma_ranked_is_sorted::<AdeWorkspace>(plain);
    let by = choose|by: Seq<int>| order::sorts(plain, list, by, before);
    assert(before(list[i], list[j]) || !before(list[j], list[i]));
    if before(list[i], list[j]) {
        text::lemma_text_order(list[i].id, list[j].id, list[i].id);
    }
    let at = reconcile_laws::lemma_listed_places(rows, keep);
    assert(at[i] != at[j]);
    assert(rows[at[i]].workspace == list[i] && rows[at[j]].workspace == list[j]);
    if at[i] < at[j] {
        assert(rows[at[i]].workspace.id != rows[at[j]].workspace.id);
    } else {
        assert(rows[at[j]].workspace.id != rows[at[i]].workspace.id);
    }
}

/// The row to reconnect to was opened no earlier than any other.
pub proof fn law_the_leading_row_was_opened_last(rows: Seq<WorkspaceView>, at: int, k: int)
    requires
        daemon::leads(rows, at),
        0 <= k < rows.len(),
    ensures
        rows[k].last_opened_at <= rows[at].last_opened_at,
{
    assert(!daemon::opened_before_in_list(rows[k], rows[at]));
}

/// A row that carries the name of its daemon is on the daemon of that name. One
/// that carries none goes by its route alone, and stands for a record exactly where
/// that was listed on its own host under the row's session.
pub proof fn law_a_row_without_an_identity_goes_by_its_route(
    row: WorkspaceView,
    key: KeyView,
    instance: Option<Seq<char>>,
    host: Option<Seq<char>>,
    record: RecordView,
)
    ensures
        row.daemon_id matches Some(own) ==> daemon::on_daemon(row, KeyView::Instance(own), host)
            && daemon::maybe_on_daemon(row, KeyView::Instance(own), host),
        row.daemon_id is None ==> {
            &&& daemon::on_daemon(row, key, host) <==> row.remote_host == host
            &&& daemon::maybe_on_daemon(row, key, host) <==> row.remote_host == host
            &&& daemon::mirrors(row, instance, host, record) <==> row.remote_host == host
                && row.terminal_session_id == Some(record.id)
        },
        row.daemon_id is Some && key is Host ==> !daemon::on_daemon(row, key, host) && (
        daemon::maybe_on_daemon(row, key, host) <==> row.remote_host == host),
{
}

/// A write of project columns takes effect on a row that has no identity yet, or
/// with a later revision than the row's; it writes all of them or none, and nothing
/// else.
pub proof fn law_a_project_is_written_whole_or_not_at_all(
    workspace: WorkspaceView,
    path: Seq<char>,
    rev: u64,
    project_id: Seq<char>,
    identity: Seq<char>,
)
    ensures
        ({
            let after = registry::with_scope(workspace, path, rev, project_id, identity);
            if workspace.project_identity is None || rev > workspace.project_scope_rev {
                after == (WorkspaceView {
                    repository_path: path,
                    project_scope_rev: rev,
                    project_id,
                    project_identity: Some(identity),
                    ..workspace
                })
            } else {
                after == workspace
            }
        }),
{
}

/// Every worktree of a list is shown once, in its place: by its own folder, as the
/// main checkout exactly where it is the folder of one, and with the branch that is
/// known of that folder. A main checkout goes by the name of its folder; a linked
/// one by its short name, with its project in front exactly where that is needed.
pub proof fn law_a_worktree_is_shown_by_its_own_folder(
    pairs: Seq<PairView>,
    branches: Seq<(Seq<char>, Seq<char>)>,
    k: int,
)
    requires
        0 <= k < pairs.len(),
    ensures
        ({
            let infos = worktree_metadata_store::infos_of(pairs, branches);
            let (pair, info) = (pairs[k], infos[k]);
            let is_main = paths::is_same(pair.main_path, pair.folder_path);
            let several = exists|i: int, j: int|
                0 <= i < pairs.len() && 0 <= j < pairs.len() && !paths::is_same(
                    (#[trigger] pairs[i]).main_path,
                    (#[trigger] pairs[j]).main_path,
                );
            let short = match pair.short_name {
                Some(name) => name,
                None => Seq::empty(),
            };
            &&& infos.len() == pairs.len()
            &&& info.full_path == pair.folder_path
            &&& info.kind == WorktreeKind::Main <==> is_main
            &&& info.highlight_positions.len() == 0
            &&& is_main ==> info.worktree_name == Some(
                match paths::name_of(pair.folder_path) {
                    Some(name) => name,
                    None => pair.folder_path,
                },
            )
            &&& !is_main ==> (info.worktree_name == Some(short) || (several
                && info.worktree_name == Some(
                (match paths::name_of(pair.main_path) {
                    Some(name) => name,
                    None => Seq::empty(),
                }) + ":"@ + short,
            )))
            &&& match info.branch_name {
                Some(branch) => exists|b: int|
                    0 <= b < branches.len() && (#[trigger] branches[b]).1 == branch
                        && paths::is_same(branches[b].0, pair.folder_path),
                None => forall|b: int|
                    0 <= b < branches.len() ==> !paths::is_same(
                        (#[trigger] branches[b]).0,
                        pair.folder_path,
                    ),
            }
        }),
{
    lemma_branch_of(branches, pairs[k].folder_path);
}

proof fn lemma_branch_of(branches: Seq<(Seq<char>, Seq<char>)>, folder: Seq<char>)
    ensures
        match worktree_metadata_store::branch_of(branches, folder) {
            Some(branch) => exists|b: int|
                0 <= b < branches.len() && (#[trigger] branches[b]).1 == branch && paths::is_same(
                    branches[b].0,
                    folder,
                ),
            None => forall|b: int|
                0 <= b < branches.len() ==> !paths::is_same((#[trigger] branches[b]).0, folder),
        },
    decreases branches.len(),
{
    if branches.len() > 0 {
        if paths::is_same(branches[0].0, folder) {
            assert(branches[0].1 == branches[0].1);
        } else {
            let rest = branches.drop_first();
            lemma_branch_of(rest, folder);
            match worktree_metadata_store::branch_of(rest, folder) {
                Some(branch) => {
                    let b = choose|b: int|
                        0 <= b < rest.len() && (#[trigger] rest[b]).1 == branch && paths::is_same(
                            rest[b].0,
                            folder,
                        );
                    assert(branches[b + 1] == rest[b]);
                },
                None => {
                    assert forall|b: int| 0 <= b < branches.len() implies !paths::is_same(
                        (#[trigger] branches[b]).0,
                        folder,
                    ) by {
                        if b > 0 {
                            assert(rest[b - 1] == branches[b]);
                        }
                    }
                },
            }
        }
    }
}

/// Two linked worktrees of different projects that go by one name are told apart,
/// unless every worktree of the list goes by that name.
pub proof fn law_worktrees_of_two_projects_are_told_apart(
    pairs: Seq<PairView>,
    branches: Seq<(Seq<char>, Seq<char>)>,
    i: int,
    j: int,
    project_i: Seq<char>,
    project_j: Seq<char>,
    short: Seq<char>,
    odd: int,
)
    requires
        0 <= i < pairs.len(),
        0 <= j < pairs.len(),
        0 <= odd < pairs.len(),
        !paths::is_same(pairs[i].main_path, pairs[i].folder_path),
        !paths::is_same(pairs[j].main_path, pairs[j].folder_path),
        !paths::is_same(pairs[i].main_path, pairs[j].main_path),
        paths::name_of(pairs[i].main_path) == Some(project_i),
        paths::name_of(pairs[j].main_path) == Some(project_j),
        project_i != project_j,
        pairs[i].short_name == Some(short),
        pairs[j].short_name == Some(short),
        !paths::is_same(pairs[odd].main_path, pairs[odd].folder_path),
        pairs[odd].short_name != Some(short),
        pairs[odd].short_name is Some,
    ensures
        ({
            let infos = worktree_metadata_store::infos_of(pairs, branches);
            infos[i].worktree_name != infos[j].worktree_name
        }),
{
    assert(worktree_metadata_store::several_mains(pairs));
    assert(!worktree_metadata_store::all_same_name(pairs)) by {
        if worktree_metadata_store::all_same_name(pairs) {
            assert(worktree_metadata_store::plain_name(pairs[i])
                == worktree_metadata_store::plain_name(pairs[0]));
            assert(worktree_metadata_store::plain_name(pairs[odd])
                == worktree_metadata_store::plain_name(pairs[0]));
        }
    }
    let (a, b) = (project_i + ":"@ + short, project_j + ":"@ + short);
    if a == b {
        assert(a.len() == b.len());
        assert(project_i =~= a.take(project_i.len() as int));
        assert(project_j =~= b.take(project_j.len() as int));
    }
}

} // verus!
