//! What moving a checkout leaves behind: every row that stood for it has moved,
//! and no other.

use crate::paths;
use crate::reconcile_laws;
use crate::registry;
use crate::registry::RowView;
use crate::scope;
use crate::service::{Exchange, ServiceView};
use crate::session_backend::RecordView;
use crate::session_laws;
use crate::workspace::WorkspaceView;
use vstd::prelude::*;

verus! {

/// Whether one workspace is another moved to a checkout and a project: it is
/// checked out exactly there, or was there already under another spelling, and
/// all else is as it was.
pub open spec fn is_moved(
    before: WorkspaceView,
    after: WorkspaceView,
    root: Seq<char>,
    project_id: Seq<char>,
    project_identity: Seq<char>,
) -> bool {
    &&& after == (WorkspaceView {
        repository_path: after.repository_path,
        project_id,
        project_identity: Some(project_identity),
        project_scope_rev: after.project_scope_rev,
        ..before
    })
    &&& after.repository_path == root || (after == before && paths::is_same(
        before.repository_path,
        root,
    ))
    &&& before.project_identity is Some ==> after.project_scope_rev >= before.project_scope_rev
}

/// That nothing was asked of a host but what it holds, and that it take the scope
/// for a workspace.
pub open spec fn tells_only(
    before: ServiceView,
    after: ServiceView,
    asked_of: Option<Seq<char>>,
    root: Seq<char>,
    id: Seq<char>,
    identity: Seq<char>,
) -> bool {
    &&& before.log.is_prefix_of(after.log)
    &&& forall|n: int|
        before.log.len() <= n < after.log.len() ==> {
            &&& (#[trigger] after.log[n]).host() == asked_of
            &&& after.log[n] is ListWorkspaces || (after.log[n] matches Exchange::UpdateScope {
                project_id,
                project_identity,
                project_root,
                ..
            } && project_id == id && project_identity == identity && project_root == Some(root))
        }
}

proof fn lemma_moving_one(
    state: ServiceView,
    later: ServiceView,
    held: Option<Seq<RecordView>>,
    at: int,
    root: Seq<char>,
    project_id: Seq<char>,
    project_identity: Seq<char>,
)
    requires
        registry::is_table(state.rows),
        0 <= at < state.rows.len(),
    ensures
        ({
            let workspace = state.rows[at].workspace;
            let run = scope::moving_one(
                state,
                later,
                held,
                workspace,
                root,
                project_id,
                project_identity,
            );
            &&& tells_only(
                state,
                run.state,
                workspace.remote_host,
                root,
                project_id,
                project_identity,
            )
            &&& registry::is_table(run.state.rows)
            &&& match run.result {
                Ok(left) => {
                    &&& is_moved(workspace, left, root, project_id, project_identity)
                    &&& run.state.rows == state.rows.update(
                        at,
                        RowView { workspace: left, ..state.rows[at] },
                    )
                },
                Err(_) => run.state.rows == state.rows && workspace.project_scope_rev == u64::MAX,
            }
        }),
{
    let workspace = state.rows[at].workspace;
    registry::lemma_position_is(state.rows, workspace.id, at);
    let run = scope::moving_one(
        state,
        later,
        held,
        workspace,
        root,
        project_id,
        project_identity,
    );
    if let Ok(left) = run.result {
        let row = RowView { workspace: left, ..state.rows[at] };
        session_laws::lemma_record_is_free(state.rows, at, row);
        registry::lemma_update_keeps_the_rules(state.rows, at, row);
        assert(run.state.rows =~= state.rows.update(at, row));
    }
}

proof fn lemma_moving_all(
    state: ServiceView,
    later: ServiceView,
    held: Option<Seq<RecordView>>,
    workspaces: Seq<WorkspaceView>,
    at: Seq<int>,
    host: Option<Seq<char>>,
    root: Seq<char>,
    project_id: Seq<char>,
    project_identity: Seq<char>,
)
    requires
        registry::is_table(state.rows),
        at.len() == workspaces.len(),
        forall|k: int|
            #![trigger at[k]]
            0 <= k < at.len() ==> 0 <= at[k] < state.rows.len() && state.rows[at[k]].workspace
                == workspaces[k] && workspaces[k].remote_host == host,
        forall|i: int, k: int| 0 <= i < k < at.len() ==> #[trigger] at[i] != #[trigger] at[k],
    ensures
        ({
            let run = scope::moving_all(
                state,
                later,
                held,
                workspaces,
                root,
                project_id,
                project_identity,
            );
            &&& tells_only(state, run.state, host, root, project_id, project_identity)
            &&& registry::is_table(run.state.rows)
            &&& run.state.rows.len() == state.rows.len()
            &&& forall|j: int|
                #![trigger run.state.rows[j]]
                0 <= j < state.rows.len() ==> run.state.rows[j].used_by_client_at
                    == state.rows[j].used_by_client_at
            &&& forall|j: int|
                #![trigger run.state.rows[j]]
                0 <= j < state.rows.len() && !at.contains(j) ==> run.state.rows[j]
                    == state.rows[j]
            &&& match run.result {
                Ok(moved) => {
                    &&& moved.len() == workspaces.len()
                    &&& forall|k: int|
                        #![trigger moved[k]]
                        0 <= k < moved.len() ==> run.state.rows[at[k]].workspace == moved[k]
                            && is_moved(
                            workspaces[k],
                            moved[k],
                            root,
                            project_id,
                            project_identity,
                        )
                },
                Err(_) => exists|k: int|
                    0 <= k < workspaces.len() && (#[trigger] workspaces[k]).project_scope_rev
                        == u64::MAX,
            }
        }),
    decreases workspaces.len(),
{
    if workspaces.len() > 0 {
        let rest = workspaces.drop_last();
        let fewer = at.drop_last();
        let last = workspaces.len() - 1;
        lemma_moving_all(
            state,
            later,
            held,
            rest,
            fewer,
            host,
            root,
            project_id,
            project_identity,
        );
        let run = scope::moving_all(state, later, held, rest, root, project_id, project_identity);
        assert forall|j: int| fewer.contains(j) implies at.contains(j) && j != at[last] by {
            let i = choose|i: int| 0 <= i < fewer.len() && fewer[i] == j;
            assert(at[i] == j);
        }
        assert(at.contains(at[last]));
        if let Ok(moved) = run.result {
            assert(run.state.rows[at[last]] == state.rows[at[last]]);
            assert(run.state.rows[at[last]].workspace == workspaces.last());
            lemma_moving_one(
                run.state,
                later,
                held,
                at[last],
                root,
                project_id,
                project_identity,
            );
            let one = scope::moving_one(
                run.state,
                later,
                held,
                workspaces.last(),
                root,
                project_id,
                project_identity,
            );
            assert(tells_only(state, one.state, host, root, project_id, project_identity)) by {
                assert forall|n: int| state.log.len() <= n < one.state.log.len() implies {
                    &&& (#[trigger] one.state.log[n]).host() == host
                    &&& one.state.log[n] is ListWorkspaces || (
                    one.state.log[n] matches Exchange::UpdateScope {
                        project_id: told,
                        project_identity: identity,
                        project_root,
                        ..
                    } && told == project_id && identity == project_identity && project_root == Some(
                        root,
                    ))
                } by {
                    if n < run.state.log.len() {
                        assert(one.state.log[n] == run.state.log[n]);
                    }
                }
            }
            if let Ok(left) = one.result {
                let all = moved.push(left);
                assert forall|k: int|
                    #![trigger all[k]]
                    0 <= k < all.len() implies one.state.rows[at[k]].workspace == all[k]
                    && is_moved(workspaces[k], all[k], root, project_id, project_identity) by {
                    if k < last {
                        assert(all[k] == moved[k]);
                        assert(fewer[k] == at[k]);
                        assert(at[k] != at[last]);
                        assert(rest[k] == workspaces[k]);
                    }
                }
            } else {
                assert(workspaces[last].project_scope_rev == u64::MAX);
            }
        } else {
            let k = choose|k: int|
                0 <= k < rest.len() && (#[trigger] rest[k]).project_scope_rev == u64::MAX;
            assert(workspaces[k] == rest[k]);
        }
    }
}

proof fn lemma_find_id(workspaces: Seq<WorkspaceView>, id: Seq<char>)
    ensures
        scope::find_id(workspaces, id) matches Some(found) ==> found.id == id
            && workspaces.contains(found),
        scope::find_id(workspaces, id) is None ==> forall|k: int|
            0 <= k < workspaces.len() ==> (#[trigger] workspaces[k]).id != id,
    decreases workspaces.len(),
{
    if workspaces.len() > 0 && workspaces[0].id != id {
        let rest = workspaces.drop_first();
        lemma_find_id(rest, id);
        if let Some(found) = scope::find_id(rest, id) {
            let k = choose|k: int| 0 <= k < rest.len() && rest[k] == found;
            assert(workspaces[k + 1] == found);
        } else {
            assert forall|k: int| 0 <= k < workspaces.len() implies (
            #[trigger] workspaces[k]).id != id by {
                if k > 0 {
                    assert(rest[k - 1] == workspaces[k]);
                }
            }
        }
    }
}

/// The places of what a filter keeps.
proof fn lemma_filtered_places(
    items: Seq<WorkspaceView>,
    keep: spec_fn(WorkspaceView) -> bool,
) -> (at: Seq<int>)
    ensures
        at.len() == items.filter(keep).len(),
        forall|k: int|
            #![trigger at[k]]
            0 <= k < at.len() ==> 0 <= at[k] < items.len() && items[at[k]] == items.filter(keep)[k]
                && keep(items[at[k]]),
        forall|i: int, k: int| 0 <= i < k < at.len() ==> #[trigger] at[i] < #[trigger] at[k],
        forall|j: int| 0 <= j < items.len() && keep(#[trigger] items[j]) ==> at.contains(j),
    decreases items.len(),
{
    reveal(Seq::filter);
    if items.len() == 0 {
        Seq::empty()
    } else {
        let rest = items.drop_last();
        let fewer = lemma_filtered_places(rest, keep);
        let at = if keep(items.last()) {
            fewer.push(items.len() - 1)
        } else {
            fewer
        };
        assert forall|j: int| 0 <= j < items.len() && keep(#[trigger] items[j]) implies at.contains(
            j,
        ) by {
            if j < rest.len() {
                assert(rest[j] == items[j]);
                let i = choose|i: int| 0 <= i < fewer.len() && fewer[i] == j;
                assert(at[i] == j);
            } else {
                assert(at[fewer.len() as int] == j);
            }
        }
        at
    }
}

/// Whether a row in use is checked out at one path of one host.
pub open spec fn is_at(row: RowView, host: Option<Seq<char>>, root: Seq<char>) -> bool {
    row.used_by_client_at is Some && row.workspace.remote_host == host && paths::is_same(
        row.workspace.repository_path,
        root,
    )
}

/// The rows at a path are exactly those in use that are checked out there.
proof fn lemma_rows_at(rows: Seq<RowView>, host: Option<Seq<char>>, root: Seq<char>) -> (at: Seq<
    int,
>)
    requires
        registry::is_table(rows),
    ensures
        at.len() == scope::rows_at(rows, host, root).len(),
        forall|k: int|
            #![trigger at[k]]
            0 <= k < at.len() ==> 0 <= at[k] < rows.len() && rows[at[k]].workspace
                == scope::rows_at(rows, host, root)[k] && is_at(rows[at[k]], host, root),
        forall|i: int, k: int| 0 <= i < k < at.len() ==> #[trigger] at[i] != #[trigger] at[k],
        forall|j: int| 0 <= j < rows.len() && is_at(#[trigger] rows[j], host, root) ==> at.contains(j),
{
    let used = registry::used_rows();
    let listed = registry::listing(rows, used);
    let keep = |workspace: WorkspaceView|
        workspace.remote_host == host && paths::is_same(workspace.repository_path, root);
    let places = reconcile_laws::lemma_listed_places(rows, used);
    let kept = lemma_filtered_places(listed, keep);
    let at = Seq::new(kept.len(), |k: int| places[kept[k]]);
    session_laws::lemma_listing(rows, used);
    assert forall|k: int|
        #![trigger at[k]]
        0 <= k < at.len() implies 0 <= at[k] < rows.len() && rows[at[k]].workspace
        == scope::rows_at(rows, host, root)[k] && is_at(rows[at[k]], host, root) by {
        assert(0 <= kept[k] < listed.len());
        assert(0 <= places[kept[k]] < rows.len());
    }
    assert forall|i: int, k: int| 0 <= i < k < at.len() implies #[trigger] at[i]
        != #[trigger] at[k] by {
        assert(kept[i] < kept[k]);
        assert(0 <= kept[i] < listed.len() && 0 <= kept[k] < listed.len());
        assert(places[kept[i]] != places[kept[k]]);
    }
    assert forall|j: int| 0 <= j < rows.len() && is_at(
        #[trigger] rows[j],
        host,
        root,
    ) implies at.contains(j) by {
        assert(used(rows[j]));
        assert(listed.contains(rows[j].workspace));
        let i = choose|i: int| 0 <= i < listed.len() && listed[i] == rows[j].workspace;
        assert(rows[places[i]].workspace == listed[i]);
        if places[i] < j {
            assert(rows[places[i]].workspace.id != rows[j].workspace.id);
        } else if j < places[i] {
            assert(rows[j].workspace.id != rows[places[i]].workspace.id);
        }
        assert(keep(listed[i]));
        assert(kept.contains(i));
        let k = choose|k: int| 0 <= k < kept.len() && kept[k] == i;
        assert(at[k] == j);
    }
    at
}

/// Moving a checkout moves every row in use that stood for it on its host, and no
/// other row: each is then checked out at the new path, in the project given, and
/// is otherwise what it was. The workspace answered is the one that was asked
/// about, as it is stored. Nothing is created or ended, and the host is told the
/// path and the project that were given.
pub proof fn law_a_checkout_moves_with_all_its_rows(
    state: ServiceView,
    later: ServiceView,
    workspace: WorkspaceView,
    root: Seq<char>,
    project_id: Seq<char>,
    project_identity: Seq<char>,
)
    requires
        registry::is_table(state.rows),
        session_laws::stores(state.rows, workspace),
    ensures
        ({
            let run = scope::moving_repository(
                state,
                later,
                workspace.id,
                root,
                project_id,
                project_identity,
            );
            let (host, path) = (workspace.remote_host, workspace.repository_path);
            &&& tells_only(state, run.state, host, root, project_id, project_identity)
            &&& registry::is_table(run.state.rows)
            &&& run.state.rows.len() == state.rows.len()
            &&& forall|j: int|
                #![trigger run.state.rows[j]]
                0 <= j < state.rows.len() ==> {
                    &&& run.state.rows[j].used_by_client_at == state.rows[j].used_by_client_at
                    &&& !is_at(state.rows[j], host, path) ==> run.state.rows[j] == state.rows[j]
                }
            &&& match run.result {
                Ok(left) => {
                    &&& is_moved(workspace, left, root, project_id, project_identity)
                    &&& session_laws::stores_as_used(run.state.rows, left)
                    &&& forall|j: int|
                        #![trigger run.state.rows[j]]
                        0 <= j < state.rows.len() && is_at(state.rows[j], host, path) ==> is_moved(
                            state.rows[j].workspace,
                            run.state.rows[j].workspace,
                            root,
                            project_id,
                            project_identity,
                        )
                },
                Err(_) => {
                    ||| exists|j: int|
                        0 <= j < state.rows.len() && is_at(#[trigger] state.rows[j], host, path)
                            && state.rows[j].workspace.project_scope_rev == u64::MAX
                    ||| forall|j: int|
                        0 <= j < state.rows.len() && (#[trigger] state.rows[j]).workspace
                            == workspace ==> !is_at(state.rows[j], host, path)
                },
            }
        }),
{
    let id = workspace.id;
    let (host, path) = (workspace.remote_host, workspace.repository_path);
    let own = choose|k: int|
        0 <= k < state.rows.len() && (#[trigger] state.rows[k]).workspace == workspace;
    registry::lemma_position_is(state.rows, id, own);
    let matching = scope::rows_at(state.rows, host, path);
    let at = lemma_rows_at(state.rows, host, path);
    let (asked, held) = scope::asking_what_is_held(state, later, host);
    assert(asked.rows == state.rows);
    lemma_moving_all(asked, later, held, matching, at, host, root, project_id, project_identity);
    let run = scope::moving_all(asked, later, held, matching, root, project_id, project_identity);
    let whole = scope::moving_repository(state, later, id, root, project_id, project_identity);
    assert(tells_only(state, whole.state, host, root, project_id, project_identity)) by {
        assert forall|n: int| state.log.len() <= n < run.state.log.len() implies {
            &&& (#[trigger] run.state.log[n]).host() == host
            &&& run.state.log[n] is ListWorkspaces || (
            run.state.log[n] matches Exchange::UpdateScope {
                project_id: told,
                project_identity: identity,
                project_root,
                ..
            } && told == project_id && identity == project_identity && project_root == Some(root))
        } by {
            if n < asked.log.len() {
                assert(run.state.log[n] == asked.log[n]);
            }
        }
    }
    assert forall|j: int|
        #![trigger run.state.rows[j]]
        0 <= j < state.rows.len() && !is_at(state.rows[j], host, path) implies run.state.rows[j]
        == state.rows[j] by {
        if at.contains(j) {
            let k = choose|k: int| 0 <= k < at.len() && at[k] == j;
            assert(is_at(state.rows[at[k]], host, path));
        }
    }
    match run.result {
        Ok(moved) => {
            lemma_find_id(moved, id);
            assert forall|j: int|
                #![trigger run.state.rows[j]]
                0 <= j < state.rows.len() && is_at(state.rows[j], host, path) implies is_moved(
                state.rows[j].workspace,
                run.state.rows[j].workspace,
                root,
                project_id,
                project_identity,
            ) by {
                assert(is_at(state.rows[j], host, path));
                let k = choose|k: int| 0 <= k < at.len() && at[k] == j;
                assert(run.state.rows[at[k]].workspace == moved[k]);
            }
            if let Some(left) = scope::find_id(moved, id) {
                let k = choose|k: int| 0 <= k < moved.len() && moved[k] == left;
                assert(is_moved(matching[k], moved[k], root, project_id, project_identity));
                assert(state.rows[at[k]].workspace == matching[k]);
                if at[k] < own {
                    assert(state.rows[at[k]].workspace.id != state.rows[own].workspace.id);
                } else if own < at[k] {
                    assert(state.rows[own].workspace.id != state.rows[at[k]].workspace.id);
                }
                assert(run.state.rows[at[k]].workspace == left);
            } else {
                assert forall|j: int|
                    0 <= j < state.rows.len() && (#[trigger] state.rows[j]).workspace
                        == workspace implies !is_at(state.rows[j], host, path) by {
                    if is_at(state.rows[j], host, path) {
                        let k = choose|k: int| 0 <= k < at.len() && at[k] == j;
                        assert(moved[k].id != id);
                    }
                }
            }
        },
        Err(_) => {
            let k = choose|k: int|
                0 <= k < matching.len() && (#[trigger] matching[k]).project_scope_rev == u64::MAX;
            assert(is_at(state.rows[at[k]], host, path));
        },
    }
}

/// A daemon that holds a workspace is told which project it is in, once, under the
/// identity of the row's daemon and with the next revision. The revision that it
/// answers is the one stored, unless that comes too late for the row; then, or
/// where nothing holds the workspace, it is the next one. A workspace that is in
/// the project already is told of to nobody.
pub proof fn law_the_daemon_that_holds_it_is_told(
    state: ServiceView,
    later: ServiceView,
    workspace: WorkspaceView,
    id: Seq<char>,
    identity: Seq<char>,
)
    requires
        registry::is_table(state.rows),
        session_laws::stores(state.rows, workspace),
    ensures
        ({
            let run = scope::moving_project(state, later, workspace.id, id, identity);
            let n = state.log.len() as int;
            let wire_id = session_laws::wire_id(workspace);
            let there = workspace.project_id == id && workspace.project_identity == Some(identity);
            if there {
                run.state == state && run.result is Ok
            } else if workspace.project_scope_rev == u64::MAX {
                run.state == state && run.result is Err
            } else {
                &&& run.result matches Ok(left)
                &&& if session_laws::is_unreached(state, run.state, workspace.remote_host) {
                    run.state.log == state.log && left.project_scope_rev
                        == workspace.project_scope_rev + 1
                } else {
                    &&& run.state.log.len() > n
                    &&& run.state.log[n] matches Exchange::ListWorkspaces { host, reply }
                    &&& host == workspace.remote_host
                    &&& if reply matches Ok((_, held)) && exists|k: int|
                        0 <= k < held.len() && (#[trigger] held[k]).id == wire_id {
                        &&& run.state.log.len() == n + 2
                        &&& run.state.log[n + 1] matches Exchange::UpdateScope {
                            host,
                            workspace_id,
                            project_id,
                            project_identity,
                            project_root,
                            minimum,
                            expected,
                            reply,
                        }
                        &&& host == workspace.remote_host && workspace_id == wire_id
                        &&& project_id == id && project_identity == identity && project_root
                            is None
                        &&& minimum == Some((workspace.project_scope_rev + 1) as u64)
                        &&& expected == workspace.daemon_id
                        &&& left.project_scope_rev == (match reply {
                            Ok(Some(rev)) if workspace.project_identity is None || rev
                                > workspace.project_scope_rev => rev as int,
                            _ => workspace.project_scope_rev + 1,
                        })
                    } else {
                        run.state.log.len() == n + 1 && left.project_scope_rev
                            == workspace.project_scope_rev + 1
                    }
                }
            }
        }),
{
    let own = choose|k: int|
        0 <= k < state.rows.len() && (#[trigger] state.rows[k]).workspace == workspace;
    registry::lemma_position_is(state.rows, workspace.id, own);
    session_laws::lemma_reached(state, later, workspace.remote_host);
    let (asked, held) = scope::asking_what_is_held(state, later, workspace.remote_host);
    if let Some(held) = held {
        assert(scope::holds(held, session_laws::wire_id(workspace)) <==> exists|k: int|
            0 <= k < held.len() && (#[trigger] held[k]).id == session_laws::wire_id(workspace));
    }
}

} // verus!
