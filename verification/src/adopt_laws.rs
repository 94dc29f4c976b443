//! What connecting to a checkout, and moving a workspace to a project, leave
//! behind.

use crate::adopt;
use crate::adopt::{Adoption, Stable};
use crate::confirm;
use crate::confirm_laws;
use crate::daemon;
use crate::daemon::KeyView;
use crate::order::Ranked;
use crate::paths;
use crate::registry;
use crate::registry::RowView;
use crate::replay;
use crate::scope;
use crate::service::{Exchange, ServiceView};
use crate::session_backend::RecordView;
use crate::session_laws;
use crate::text;
use crate::workspace;
use crate::workspace::{AdeWorkspace, WorkspaceStatus, WorkspaceView};
use vstd::prelude::*;

verus! {

/// Moving a workspace to a project gives it that project and leaves its checkout,
/// its session, its host and its name alone. What is answered is stored, no other
/// row changes, and nothing is created or ended on the way.
pub proof fn law_a_moved_workspace_is_in_the_project(
    state: ServiceView,
    later: ServiceView,
    workspace: WorkspaceView,
    project_id: Seq<char>,
    project_identity: Seq<char>,
)
    requires
        registry::is_table(state.rows),
        session_laws::stores(state.rows, workspace),
    ensures
        ({
            let run = scope::moving_project(
                state,
                later,
                workspace.id,
                project_id,
                project_identity,
            );
            &&& state.log.is_prefix_of(run.state.log)
            &&& forall|n: int|
                state.log.len() <= n < run.state.log.len() ==> {
                    ||| #[trigger] run.state.log[n] is ListWorkspaces
                    ||| (run.state.log[n] matches Exchange::UpdateScope {
                        host,
                        workspace_id,
                        project_id: told_id,
                        project_identity: told_identity,
                        ..
                    } && host == workspace.remote_host && workspace_id == session_laws::wire_id(
                        workspace,
                    ) && told_id == project_id && told_identity == project_identity)
                }
            &&& match run.result {
                Ok(left) => {
                    &&& left == (WorkspaceView {
                        project_id,
                        project_identity: Some(project_identity),
                        project_scope_rev: left.project_scope_rev,
                        ..workspace
                    })
                    &&& workspace.project_identity is Some ==> left.project_scope_rev
                        >= workspace.project_scope_rev
                    &&& registry::is_table(run.state.rows)
                    &&& session_laws::stores(run.state.rows, left)
                    &&& session_laws::differs_only_at(state.rows, run.state.rows, workspace.id)
                },
                Err(_) => run.state.rows == state.rows && workspace.project_scope_rev == u64::MAX,
            }
        }),
{
    let rows = state.rows;
    let id = workspace.id;
    let run = scope::moving_project(state, later, id, project_id, project_identity);
    let at = choose|k: int| 0 <= k < rows.len() && (#[trigger] rows[k]).workspace == workspace;
    registry::lemma_position_is(rows, id, at);
    if let Ok(left) = run.result {
        let row = RowView { workspace: left, ..rows[at] };
        session_laws::lemma_record_is_free(rows, at, row);
        registry::lemma_update_keeps_the_rules(rows, at, row);
        assert(run.state.rows =~= rows.update(at, row));
        assert(run.state.rows[at].workspace == left);
    }
}

proof fn lemma_listed_stably(
    state: ServiceView,
    later: ServiceView,
    host: Option<Seq<char>>,
    tries: nat,
)
    ensures
        ({
            let run = adopt::listing_stably(state, later, host, tries);
            &&& run.state.rows == state.rows
            &&& session_laws::creates_nothing(state, run.state)
            &&& run.result matches Ok(stable) ==> {
                &&& stable.key matches KeyView::Host(route) ==> route == host
                &&& stable.held matches Ok(held) ==> {
                    &&& run.state.log.len() > state.log.len()
                    &&& run.state.log.last() matches Exchange::ListWorkspaces {
                        host: asked,
                        reply: Ok((instance, listed)),
                    }
                    &&& asked == host && listed == held && stable.key == daemon::key_of(
                        instance,
                        host,
                    )
                }
            }
        }),
    decreases tries,
{
    if tries > 0 {
        let expected = confirm::expecting(state, later, host);
        assert(expected.state.rows == state.rows);
        assert(session_laws::creates_nothing(state, expected.state));
        if let Ok(named) = expected.result {
            let (listed, reply) = replay::list_workspaces(expected.state, later, host);
            assert(session_laws::creates_nothing(state, listed));
            lemma_listed_stably(listed, later, host, (tries - 1) as nat);
            let again = adopt::listing_stably(listed, later, host, (tries - 1) as nat);
            session_laws::lemma_creates_nothing(state, listed, again.state);
        }
    }
}

/// Whether the daemon of a host was found, since an earlier time, to hold a record
/// of a checkout under an id.
pub open spec fn was_found_held(
    before: ServiceView,
    after: ServiceView,
    host: Option<Seq<char>>,
    root: Seq<char>,
    wire_id: Seq<char>,
) -> bool {
    exists|n: int, k: int|
        #![trigger after.log[n], after.log[n]->ListWorkspaces_reply->Ok_0.1[k]]
        before.log.len() <= n < after.log.len() && (
        after.log[n] matches Exchange::ListWorkspaces { host: asked, reply: Ok((_, held)) }
            && asked == host && 0 <= k < held.len() && held[k].id == wire_id && paths::is_same(
            held[k].project_root,
            root,
        ))
}

/// Connecting to a checkout answers with a workspace of that checkout, which is
/// stored and in use.
///
/// One that was created is checked out exactly there, on the host asked for, in
/// the project given or else the checkout's own, and its session was asked for
/// there. One that was found is a row of that checkout, by whatever spelling of
/// its path; nothing is created for it. A row that was in quarantine keeps the
/// path it had: it is answered because it stands for a record that the daemon
/// holds of that checkout.
pub proof fn law_the_checkout_asked_for_is_answered(
    state: ServiceView,
    later: ServiceView,
    root: Seq<char>,
    host: Option<Seq<char>>,
    project_scope: Option<(Seq<char>, Seq<char>)>,
    id: Seq<char>,
    now: i64,
)
    requires
        registry::is_table(state.rows),
        adopt::adopting_or_creating(
            state,
            later,
            root,
            host,
            project_scope,
            id,
            now,
        ).result is Ok,
    ensures
        ({
            let run = adopt::adopting_or_creating(
                state,
                later,
                root,
                host,
                project_scope,
                id,
                now,
            );
            let (answer, created) = run.result->Ok_0;
            &&& session_laws::stores_as_used(run.state.rows, answer)
            &&& if created {
                &&& answer.repository_path == root
                &&& answer.remote_host == host
                &&& answer.id == id
                &&& answer.status == WorkspaceStatus::Running
                &&& match project_scope {
                    Some((project_id, identity)) => answer.project_id == project_id
                        && answer.project_identity == Some(identity),
                    None => answer.project_id == workspace::path_project_id(root)
                        && answer.project_identity == Some(root),
                }
                &&& session_laws::came(state.rows, run.state.rows, answer)
                &&& run.state.log.len() > state.log.len()
                &&& run.state.log.last() matches Exchange::Create {
                    host: asked,
                    spec,
                    reply: Ok((session, _)),
                    ..
                }
                &&& asked == host && spec.directory == root && answer.terminal_session_id == Some(
                    session,
                )
                &&& session_laws::creates_nothing(
                    state,
                    ServiceView { log: run.state.log.drop_last(), ..run.state },
                )
            } else {
                &&& session_laws::creates_nothing(state, run.state)
                &&& paths::is_same(answer.repository_path, root) || (
                answer.terminal_session_id is Some && was_found_held(
                    state,
                    run.state,
                    host,
                    root,
                    answer.terminal_session_id->0,
                ) && exists|k: int|
                    0 <= k < state.rows.len() && (#[trigger] state.rows[k]).used_by_client_at is None
                        && state.rows[k].workspace.id == answer.id
                        && state.rows[k].workspace.repository_path == answer.repository_path)
            }
        }),
{
    let run = adopt::adopting_or_creating(state, later, root, host, project_scope, id, now);
    let (answer, created) = run.result->Ok_0;
    let (reached, connected) = replay::connect(state, later, host);
    lemma_listed_stably(reached, later, host, 3);
    let listed = adopt::listing_stably(reached, later, host, 3);
    let stable = listed.result->Ok_0;
    let rows = registry::listing(state.rows, registry::used_rows());
    let decision = adopt::adoption(rows, stable, host, root);
    session_laws::lemma_listing(state.rows, registry::used_rows());
    match decision {
        Adoption::Refuse(_) => {},
        Adoption::Existing(row) => {
            lemma_existing(rows, stable, host, root);
            let k = choose|k: int| 0 <= k < rows.len() && rows[k] == row;
            assert(session_laws::stores_where(state.rows, registry::used_rows(), rows[k]));
            let j = choose|j: int|
                0 <= j < state.rows.len() && (#[trigger] state.rows[j]).workspace == row && (
                registry::used_rows())(state.rows[j]);
            assert(session_laws::stores_as_used(state.rows, row));
        },
        Adoption::Discovered(record) => {
            let held = stable.held->Ok_0;
            lemma_discovered(rows, stable, host, root);
            let at = choose|at: int| 0 <= at < held.len() && held[at] == record;
            confirm_laws::law_a_confirmed_record_is_owned_promoted_or_new(
                listed.state,
                stable.key,
                host,
                record,
                id,
                now,
            );
            let confirmed = confirm::confirming(listed.state, stable.key, host, record, id, now);
            let row = confirmed.result->Ok_0;
            let n = listed.state.log.len() - 1;
            assert(!exists|k: int|
                0 <= k < state.rows.len() && confirm_laws::owns(
                    #[trigger] state.rows[k],
                    stable.key,
                    host,
                    record.id,
                )) by {
                if exists|k: int|
                    0 <= k < state.rows.len() && confirm_laws::owns(
                        #[trigger] state.rows[k],
                        stable.key,
                        host,
                        record.id,
                    ) {
                    let k = choose|k: int|
                        0 <= k < state.rows.len() && confirm_laws::owns(
                            #[trigger] state.rows[k],
                            stable.key,
                            host,
                            record.id,
                        );
                    assert((registry::used_rows())(state.rows[k]));
                    let m = choose|m: int| 0 <= m < rows.len() && rows[m]
                        == state.rows[k].workspace;
                    assert(daemon::on_daemon(rows[m], stable.key, host));
                    assert(adopt::is_used(rows, stable.key, host, record.id));
                }
            }
            let k = choose|k: int|
                0 <= k < confirmed.state.rows.len() && (
                #[trigger] confirmed.state.rows[k]).workspace == row
                    && confirmed.state.rows[k].used_by_client_at is Some;
            if let Some((project_id, identity)) = project_scope {
                law_a_moved_workspace_is_in_the_project(
                    confirmed.state,
                    later,
                    row,
                    project_id,
                    identity,
                );
                let j = choose|j: int|
                    0 <= j < run.state.rows.len() && (#[trigger] run.state.rows[j]).workspace
                        == answer;
                assert(confirmed.state.rows[j].workspace.id == row.id);
                if j < k {
                    assert(confirmed.state.rows[j].workspace.id
                        != confirmed.state.rows[k].workspace.id);
                } else if k < j {
                    assert(confirmed.state.rows[k].workspace.id
                        != confirmed.state.rows[j].workspace.id);
                }
                assert(run.state.rows[k].used_by_client_at is Some);
                assert(session_laws::creates_nothing(listed.state, run.state));
                session_laws::lemma_creates_nothing(state, listed.state, run.state);
            }
            assert(run.state.log[n] == listed.state.log[n]);
            assert(run.state.log[n]->ListWorkspaces_reply->Ok_0.1[at] == record);
            assert(was_found_held(state, run.state, host, root, record.id));
            assert(answer.repository_path == row.repository_path);
        },
        Adoption::Create => {
            let row = adopt::first_row(id, root, host, project_scope, now);
            session_laws::lemma_reached(state, later, host);
            assert(listed.state.hosts == reached.hosts) by {
                lemma_listing_keeps_the_hosts(reached, later, host, 3);
            }
            session_laws::lemma_creating(listed.state, later, row, now);
            let n = listed.state.log.len() as int;
            assert(run.state.log.drop_last() =~= run.state.log.take(n));
        },
    }
}

proof fn lemma_listing_keeps_the_hosts(
    state: ServiceView,
    later: ServiceView,
    host: Option<Seq<char>>,
    tries: nat,
)
    ensures
        adopt::listing_stably(state, later, host, tries).state.hosts == state.hosts,
    decreases tries,
{
    if tries > 0 {
        let expected = confirm::expecting(state, later, host);
        if let Ok(named) = expected.result {
            let (listed, reply) = replay::list_workspaces(expected.state, later, host);
            lemma_listing_keeps_the_hosts(listed, later, host, (tries - 1) as nat);
        }
    }
}

proof fn lemma_something_leads(rows: Seq<WorkspaceView>)
    requires
        rows.len() > 0,
    ensures
        exists|at: int| daemon::leads(rows, at),
    decreases rows.len(),
{
    let rest = rows.drop_last();
    let last = rows.len() - 1;
    if rest.len() == 0 {
        AdeWorkspace::rank_is_an_order(rows[0], rows[0], rows[0]);
        assert(daemon::leads(rows, 0));
    } else {
        lemma_something_leads(rest);
        let best = choose|at: int| daemon::leads(rest, at);
        let new_best = if daemon::opened_before_in_list(rows[last], rows[best]) {
            last
        } else {
            best
        };
        assert forall|k: int| 0 <= k < rows.len() implies !daemon::opened_before_in_list(
            #[trigger] rows[k],
            rows[new_best],
        ) by {
            if k < last {
                assert(rest[k] == rows[k]);
            }
            AdeWorkspace::rank_is_an_order(rows[k], rows[last], rows[best]);
            AdeWorkspace::rank_is_an_order(rows[last], rows[best], rows[k]);
            AdeWorkspace::rank_is_an_order(rows[k], rows[k], rows[k]);
        }
        assert forall|k: int| 0 <= k < new_best implies daemon::opened_before_in_list(
            rows[new_best],
            #[trigger] rows[k],
        ) by {
            assert(rest[k] == rows[k]);
            AdeWorkspace::rank_is_an_order(rows[last], rows[k], rows[best]);
        }
        assert(daemon::leads(rows, new_best));
    }
}

proof fn lemma_something_is_oldest(records: Seq<RecordView>)
    requires
        records.len() > 0,
    ensures
        exists|at: int| adopt::is_oldest(records, at),
    decreases records.len(),
{
    let rest = records.drop_last();
    let last = records.len() - 1;
    if rest.len() == 0 {
        text::lemma_text_order(records[0].id, records[0].id, records[0].id);
        assert(adopt::is_oldest(records, 0));
    } else {
        lemma_something_is_oldest(rest);
        let best = choose|at: int| adopt::is_oldest(rest, at);
        let new_best = if adopt::is_older(records[last], records[best]) {
            last
        } else {
            best
        };
        assert forall|k: int| 0 <= k < records.len() implies !adopt::is_older(
            #[trigger] records[k],
            records[new_best],
        ) by {
            if k < last {
                assert(rest[k] == records[k]);
            }
            text::lemma_text_order(records[k].id, records[last].id, records[best].id);
            text::lemma_text_order(records[last].id, records[best].id, records[k].id);
            text::lemma_text_order(records[k].id, records[k].id, records[k].id);
        }
        assert forall|k: int| 0 <= k < new_best implies adopt::is_older(
            records[new_best],
            #[trigger] records[k],
        ) by {
            assert(rest[k] == records[k]);
            text::lemma_text_order(records[last].id, records[best].id, records[k].id);
            text::lemma_text_order(records[k].id, records[last].id, records[best].id);
            text::lemma_text_order(records[best].id, records[k].id, records[last].id);
        }
        assert(adopt::is_oldest(records, new_best));
    }
}

/// A list that is not empty has a row that leads it.
proof fn lemma_leading(rows: Seq<WorkspaceView>)
    ensures
        adopt::leading(rows) matches Some(row) ==> rows.contains(row) && forall|k: int|
            0 <= k < rows.len() ==> !daemon::opened_before_in_list(#[trigger] rows[k], row),
        adopt::leading(rows) is None <==> rows.len() == 0,
{
    if rows.len() > 0 {
        lemma_something_leads(rows);
        let at = choose|at: int| daemon::leads(rows, at);
        assert(daemon::leads(rows, at));
    }
}

/// A row that is answered as found is one of those there are, and of the checkout
/// asked for.
proof fn lemma_existing(
    rows: Seq<WorkspaceView>,
    stable: Stable,
    host: Option<Seq<char>>,
    root: Seq<char>,
)
    ensures
        adopt::adoption(rows, stable, host, root) matches Adoption::Existing(row)
            ==> rows.contains(row) && paths::is_same(row.repository_path, root),
{
    let perhaps = adopt::perhaps_on(stable.key, host);
    lemma_rows_of_root(rows, root, perhaps);
    lemma_leading(adopt::rows_of_root(rows, root, perhaps));
    if let Ok(held) = stable.held {
        let live = adopt::live_on(stable.key, host, held);
        let unstarted = adopt::unstarted_on(stable.key, host);
        lemma_rows_of_root(rows, root, live);
        lemma_rows_of_root(rows, root, unstarted);
        lemma_leading(adopt::rows_of_root(rows, root, live));
        lemma_leading(adopt::rows_of_root(rows, root, unstarted));
    }
}

proof fn lemma_rows_of_root(
    rows: Seq<WorkspaceView>,
    root: Seq<char>,
    keep: spec_fn(WorkspaceView) -> bool,
)
    ensures
        forall|row: WorkspaceView| #[trigger]
            adopt::rows_of_root(rows, root, keep).contains(row) <==> (rows.contains(row)
                && paths::is_same(row.repository_path, root) && keep(row)),
{
    let meets = |row: WorkspaceView| paths::is_same(row.repository_path, root) && keep(row);
    let found = adopt::rows_of_root(rows, root, keep);
    assert forall|row: WorkspaceView| #[trigger] found.contains(row) <==> (rows.contains(row)
        && paths::is_same(row.repository_path, root) && keep(row)) by {
        if found.contains(row) {
            let k = choose|k: int| 0 <= k < found.len() && found[k] == row;
            rows.lemma_filter_contains_rev(meets, row);
            rows.lemma_filter_pred(meets, k);
        }
        if rows.contains(row) && paths::is_same(row.repository_path, root) && keep(row) {
            let k = choose|k: int| 0 <= k < rows.len() && rows[k] == row;
            assert(meets(rows[k]));
            rows.lemma_filter_contains(meets, k);
        }
    }
}

/// A record that is answered as found is one the daemon holds, of the checkout
/// asked for, and no row uses it.
proof fn lemma_discovered(
    rows: Seq<WorkspaceView>,
    stable: Stable,
    host: Option<Seq<char>>,
    root: Seq<char>,
)
    ensures
        adopt::adoption(rows, stable, host, root) matches Adoption::Discovered(record) ==> {
            &&& stable.held matches Ok(held)
            &&& held.contains(record)
            &&& paths::is_same(record.project_root, root)
            &&& !adopt::is_used(rows, stable.key, host, record.id)
        },
{
    if let Adoption::Discovered(record) = adopt::adoption(rows, stable, host, root) {
        let held = stable.held->Ok_0;
        let free = |record: RecordView|
            !adopt::is_used(rows, stable.key, host, record.id) && paths::is_same(
                record.project_root,
                root,
            );
        let records = adopt::free_records(rows, stable.key, host, held, root);
        lemma_something_is_oldest(records);
        let at = choose|at: int| adopt::is_oldest(records, at);
        assert(adopt::is_oldest(records, at));
        held.lemma_filter_contains_rev(free, records[at]);
        held.lemma_filter_pred(free, at);
    }
}

/// Of the rows of a checkout, one that its daemon still holds comes before one
/// that was never started, and that before a record that no row uses; among such
/// rows the one opened last is taken. Only where there is none of them is a
/// workspace created. A daemon that could not be asked leaves only its rows.
pub proof fn law_the_connect_decision_prefers_what_is_there(
    rows: Seq<WorkspaceView>,
    stable: Stable,
    host: Option<Seq<char>>,
    root: Seq<char>,
    row: WorkspaceView,
)
    requires
        rows.contains(row),
        paths::is_same(row.repository_path, root),
    ensures
        ({
            let decision = adopt::adoption(rows, stable, host, root);
            match stable.held {
                Err(_) => daemon::maybe_on_daemon(row, stable.key, host) ==> (
                decision matches Adoption::Existing(chosen) && !daemon::opened_before_in_list(
                    row,
                    chosen,
                ) && daemon::maybe_on_daemon(chosen, stable.key, host)),
                Ok(held) => daemon::on_daemon(row, stable.key, host) ==> {
                    &&& scope::holds(held, session_laws::wire_id(row)) ==> (
                    decision matches Adoption::Existing(chosen) && scope::holds(
                        held,
                        session_laws::wire_id(chosen),
                    ) && daemon::on_daemon(chosen, stable.key, host)
                        && !daemon::opened_before_in_list(row, chosen))
                    &&& row.terminal_session_id is None ==> (
                    decision matches Adoption::Existing(chosen) && daemon::on_daemon(
                        chosen,
                        stable.key,
                        host,
                    ) && (scope::holds(held, session_laws::wire_id(chosen))
                        || !daemon::opened_before_in_list(row, chosen)))
                },
            }
        }),
{
    let perhaps = adopt::perhaps_on(stable.key, host);
    let maybe = adopt::rows_of_root(rows, root, perhaps);
    lemma_rows_of_root(rows, root, perhaps);
    lemma_leading(maybe);
    match stable.held {
        Err(_) => {
            if daemon::maybe_on_daemon(row, stable.key, host) {
                assert(maybe.contains(row));
                let chosen = adopt::leading(maybe)->0;
                assert(maybe.contains(chosen));
            }
        },
        Ok(held) => {
            let live = adopt::live_on(stable.key, host, held);
            let unstarted = adopt::unstarted_on(stable.key, host);
            let alive = adopt::rows_of_root(rows, root, live);
            let bare = adopt::rows_of_root(rows, root, unstarted);
            lemma_rows_of_root(rows, root, live);
            lemma_rows_of_root(rows, root, unstarted);
            lemma_leading(alive);
            lemma_leading(bare);
            if daemon::on_daemon(row, stable.key, host) {
                if scope::holds(held, session_laws::wire_id(row)) {
                    assert(alive.contains(row));
                }
                if row.terminal_session_id is None {
                    assert(bare.contains(row));
                }
                if alive.len() > 0 {
                    assert(alive.contains(adopt::leading(alive)->0));
                }
                if bare.len() > 0 {
                    assert(bare.contains(adopt::leading(bare)->0));
                }
            }
        },
    }
}

} // verus!
