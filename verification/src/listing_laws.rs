//! What a listing settles between a record of a daemon and the row that stands for
//! it: which of the two has the project, and how each learns of it.

use crate::daemon;
use crate::daemon::KeyView;
use crate::enrich;
use crate::entry::FailureView;
use crate::listing;
use crate::paths;
use crate::registry;
use crate::registry::RowView;
use crate::service::{Exchange, ServiceView};
use crate::session_backend::RecordView;
use crate::session_laws;
use crate::workspace;
use crate::workspace::WorkspaceView;
use vstd::prelude::*;

verus! {

/// The row to go by is one that meets the condition, and there is none only where
/// no row does. It names its daemon where any that meets it does, and no later row
/// would have served as well.
pub proof fn law_the_row_to_go_by_is_the_best_there_is(
    rows: Seq<WorkspaceView>,
    meets: spec_fn(WorkspaceView) -> bool,
)
    ensures
        match enrich::preferred(rows, meets) {
            None => forall|k: int| 0 <= k < rows.len() ==> !meets(#[trigger] rows[k]),
            Some(row) => exists|k: int|
                {
                    &&& 0 <= k < rows.len() && #[trigger] rows[k] == row && meets(row)
                    &&& forall|j: int|
                        0 <= j < rows.len() && meets(#[trigger] rows[j]) && rows[j].daemon_id
                            is Some ==> row.daemon_id is Some && j <= k
                    &&& row.daemon_id is None ==> forall|j: int|
                        k < j < rows.len() ==> !meets(#[trigger] rows[j])
                },
        },
{
    let named = |row: WorkspaceView| meets(row) && row.daemon_id is Some;
    lemma_last_where(rows, named);
    lemma_last_where(rows, meets);
    match enrich::last_where(rows, named) {
        Some(row) => {
            let k = choose|k: int|
                {
                    &&& 0 <= k < rows.len() && #[trigger] rows[k] == row && named(row)
                    &&& forall|j: int| k < j < rows.len() ==> !named(#[trigger] rows[j])
                };
            assert(rows[k] == row);
            assert forall|j: int|
                0 <= j < rows.len() && meets(#[trigger] rows[j]) && rows[j].daemon_id
                    is Some implies j <= k by {
                assert(named(rows[j]));
            }
        },
        None => {
            assert forall|j: int|
                0 <= j < rows.len() && meets(#[trigger] rows[j]) implies rows[j].daemon_id
                is None by {
                assert(!named(rows[j]));
            }
        },
    }
}

proof fn lemma_last_where(rows: Seq<WorkspaceView>, meets: spec_fn(WorkspaceView) -> bool)
    ensures
        match enrich::last_where(rows, meets) {
            None => forall|k: int| 0 <= k < rows.len() ==> !meets(#[trigger] rows[k]),
            Some(row) => exists|k: int|
                {
                    &&& 0 <= k < rows.len() && #[trigger] rows[k] == row && meets(row)
                    &&& forall|j: int| k < j < rows.len() ==> !meets(#[trigger] rows[j])
                },
        },
    decreases rows.len(),
{
    if rows.len() > 0 {
        let rest = rows.drop_last();
        lemma_last_where(rest, meets);
        if meets(rows.last()) {
            assert(rows[rows.len() - 1] == rows.last());
        } else {
            match enrich::last_where(rest, meets) {
                None => {
                    assert forall|k: int| 0 <= k < rows.len() implies !meets(
                        #[trigger] rows[k],
                    ) by {
                        if k < rest.len() {
                            assert(rest[k] == rows[k]);
                        }
                    }
                },
                Some(row) => {
                    let k = choose|k: int|
                        {
                            &&& 0 <= k < rest.len() && #[trigger] rest[k] == row && meets(row)
                            &&& forall|j: int| k < j < rest.len() ==> !meets(#[trigger] rest[j])
                        };
                    assert(rows[k] == row);
                    assert forall|j: int| k < j < rows.len() implies !meets(
                        #[trigger] rows[j],
                    ) by {
                        if j < rest.len() {
                            assert(rest[j] == rows[j]);
                        }
                    }
                },
            }
        }
    }
}

/// That one row, and no other, meets a condition.
pub open spec fn is_the_one(
    rows: Seq<WorkspaceView>,
    row: WorkspaceView,
    meets: spec_fn(WorkspaceView) -> bool,
) -> bool {
    &&& exists|k: int| 0 <= k < rows.len() && #[trigger] rows[k] == row
    &&& meets(row)
    &&& forall|k: int| 0 <= k < rows.len() && meets(#[trigger] rows[k]) ==> rows[k] == row
}

proof fn lemma_the_one(
    rows: Seq<WorkspaceView>,
    row: WorkspaceView,
    meets: spec_fn(WorkspaceView) -> bool,
)
    requires
        is_the_one(rows, row, meets),
    ensures
        enrich::preferred(rows, meets) == Some(row),
{
    law_the_row_to_go_by_is_the_best_there_is(rows, meets);
    let k = choose|k: int| 0 <= k < rows.len() && #[trigger] rows[k] == row;
    assert(meets(rows[k]));
}

/// Between a record and the one row that stands for it and has a project, the
/// newer project holds. A record with an older one, or with none, takes the row's
/// project and checkout, and its daemon is told just that unless it was told
/// before; a record with a newer one keeps its own, and nobody is asked.
pub proof fn law_the_newer_project_holds(
    state: ServiceView,
    later: ServiceView,
    host: Option<Seq<char>>,
    key: KeyView,
    instance: Option<Seq<char>>,
    known: Seq<WorkspaceView>,
    cached: Seq<RecordView>,
    record: RecordView,
    row: WorkspaceView,
    identity: Seq<char>,
)
    requires
        row.project_identity == Some(identity),
        is_the_one(
            known,
            row,
            |row: WorkspaceView|
                daemon::mirrors(row, instance, host, record) && row.project_identity is Some,
        ),
    ensures
        ({
            let (after, result) = enrich::enriching_one(
                state,
                later,
                host,
                key,
                instance,
                known,
                cached,
                record,
            );
            let n = state.log.len() as int;
            let same = record.project_id == Some(row.project_id) && record.project_identity
                == row.project_identity && paths::is_same(record.project_root, row.repository_path);
            let is_older = record.project_identity is None || record.project_scope_rev
                < row.project_scope_rev || (record.project_scope_rev == row.project_scope_rev
                && !same);
            &&& is_older ==> {
                &&& result matches Ok(given)
                &&& given == (RecordView {
                    project_id: Some(row.project_id),
                    project_identity: Some(identity),
                    project_root: row.repository_path,
                    project_scope_rev: given.project_scope_rev,
                    ..record
                })
                &&& after.log == state.log || (after.log.len() == n + 1 && after.log.take(n)
                    == state.log && (after.log[n] matches Exchange::UpdateScope {
                    host: asked,
                    workspace_id,
                    project_id,
                    project_identity,
                    project_root,
                    minimum,
                    expected,
                    ..
                } && asked == host && workspace_id == record.id && project_id == row.project_id
                    && project_identity == identity && project_root == Some(row.repository_path)
                    && minimum == Some(row.project_scope_rev) && expected == instance))
                &&& after.log == state.log ==> exists|k: int|
                    0 <= k < cached.len() && (#[trigger] cached[k]).id == record.id
                        && cached[k].project_identity == Some(identity) && cached[k].project_root
                        == row.repository_path && cached[k].project_scope_rev
                        >= row.project_scope_rev
            }
            &&& !is_older && record.project_id is Some ==> result == Ok::<
                RecordView,
                FailureView,
            >(record) && after.log == state.log
        }),
{
    let meets = enrich::scoped_mirror(instance, host, record);
    let stated = |row: WorkspaceView|
        daemon::mirrors(row, instance, host, record) && row.project_identity is Some;
    assert forall|row: WorkspaceView| #[trigger] meets(row) == stated(row) by {}
    assert(is_the_one(known, row, meets)) by {
        assert forall|k: int| 0 <= k < known.len() && meets(#[trigger] known[k]) implies known[k]
            == row by {
            assert(stated(known[k]));
        }
    }
    lemma_the_one(known, row, meets);
    let carries = enrich::carries(record, row);
    lemma_first_where(cached, carries);
    let (after, result) = enrich::enriching_one(
        state,
        later,
        host,
        key,
        instance,
        known,
        cached,
        record,
    );
    let n = state.log.len() as int;
    if after.log.len() == n + 1 {
        assert(after.log.take(n) =~= state.log);
    }
}

proof fn lemma_first_where(records: Seq<RecordView>, meets: spec_fn(RecordView) -> bool)
    ensures
        match enrich::first_where(records, meets) {
            Some(record) => exists|k: int|
                0 <= k < records.len() && #[trigger] records[k] == record && meets(record),
            None => forall|k: int| 0 <= k < records.len() ==> !meets(#[trigger] records[k]),
        },
    decreases records.len(),
{
    if records.len() > 0 {
        if meets(records[0]) {
            assert(records[0] == records[0]);
        } else {
            let rest = records.drop_first();
            lemma_first_where(rest, meets);
            match enrich::first_where(rest, meets) {
                Some(record) => {
                    let k = choose|k: int|
                        0 <= k < rest.len() && #[trigger] rest[k] == record && meets(record);
                    assert(records[k + 1] == record);
                },
                None => {
                    assert forall|k: int| 0 <= k < records.len() implies !meets(
                        #[trigger] records[k],
                    ) by {
                        if k > 0 {
                            assert(rest[k - 1] == records[k]);
                        }
                    }
                },
            }
        }
    }
}

/// A record without a project that no row and no earlier listing gives one is
/// looked up by its own checkout, on its own host. It takes the project found, and
/// its daemon is told; where nothing is found it stays without.
pub proof fn law_a_record_without_a_project_is_looked_up(
    state: ServiceView,
    later: ServiceView,
    host: Option<Seq<char>>,
    key: KeyView,
    instance: Option<Seq<char>>,
    known: Seq<WorkspaceView>,
    record: RecordView,
)
    requires
        record.project_identity is None,
        forall|k: int|
            0 <= k < known.len() ==> !(daemon::mirrors(
                #[trigger] known[k],
                instance,
                host,
                record,
            ) && known[k].project_identity is Some),
    ensures
        ({
            let (after, result) = enrich::enriching_one(
                state,
                later,
                host,
                key,
                instance,
                known,
                Seq::empty(),
                record,
            );
            let n = state.log.len() as int;
            &&& after.log.len() > n
            &&& after.log[n] matches Exchange::Resolve { host: asked, path, reply }
            &&& asked == host && path == record.project_root
            &&& match reply {
                Ok((_, identity)) if identity.len() > 0 => {
                    if record.project_scope_rev == u64::MAX {
                        after.log.len() == n + 1 && result is Err
                    } else {
                        &&& result matches Ok(given)
                        &&& given == (RecordView {
                            project_id: Some(workspace::path_project_id(identity)),
                            project_identity: Some(identity),
                            project_scope_rev: given.project_scope_rev,
                            ..record
                        })
                        &&& after.log.len() == n + 2
                        &&& after.log[n + 1] matches Exchange::UpdateScope {
                            host: asked,
                            workspace_id,
                            project_id,
                            project_identity,
                            project_root,
                            minimum,
                            expected,
                            reply,
                        }
                        &&& asked == host && workspace_id == record.id && project_id
                            == workspace::path_project_id(identity) && project_identity == identity
                            && project_root == Some(record.project_root) && expected == instance
                        &&& minimum == Some((record.project_scope_rev + 1) as u64)
                        &&& given.project_scope_rev == (match reply {
                            Ok(Some(rev)) => rev as int,
                            _ => record.project_scope_rev + 1,
                        })
                    }
                },
                _ => after.log.len() == n + 1 && result == Ok::<
                    RecordView,
                    FailureView,
                >(record),
            }
        }),
{
    let meets = enrich::scoped_mirror(instance, host, record);
    law_the_row_to_go_by_is_the_best_there_is(known, meets);
    assert(enrich::preferred(known, meets) is None) by {
        if let Some(row) = enrich::preferred(known, meets) {
            let k = choose|k: int| 0 <= k < known.len() && #[trigger] known[k] == row;
            assert(meets(known[k]));
        }
    }
}

/// The one row that stands for a record comes into step with it. It takes a newer
/// project and its checkout from the record; it is then reached where the record
/// was listed, under the name the daemon has. Everything else of it stays, and so
/// does every other row.
pub proof fn law_a_row_comes_into_step_with_its_record(
    state: ServiceView,
    later: ServiceView,
    host: Option<Seq<char>>,
    instance: Option<Seq<char>>,
    known: Seq<WorkspaceView>,
    record: RecordView,
    row: WorkspaceView,
    identity: Seq<char>,
)
    requires
        registry::is_table(state.rows),
        session_laws::stores(state.rows, row),
        record.project_identity == Some(identity),
        is_the_one(
            known,
            row,
            |row: WorkspaceView| daemon::mirrors(row, instance, host, record),
        ),
    ensures
        ({
            let run = listing::mirroring_one(state, later, host, instance, known, record);
            let is_newer = row.project_identity is None || record.project_scope_rev
                > row.project_scope_rev;
            let scoped = if is_newer {
                WorkspaceView {
                    repository_path: record.project_root,
                    project_scope_rev: record.project_scope_rev,
                    project_id: match record.project_id {
                        Some(project_id) => project_id,
                        None => workspace::path_project_id(identity),
                    },
                    project_identity: Some(identity),
                    ..row
                }
            } else {
                row
            };
            let settled = WorkspaceView { remote_host: host, daemon_id: instance, ..scoped };
            &&& run.state.log == state.log
            &&& session_laws::differs_only_at(state.rows, run.state.rows, row.id)
            &&& match run.result {
                Ok(changed) => {
                    &&& session_laws::stores(run.state.rows, settled)
                    &&& changed <==> settled != row || is_newer
                },
                Err(_) => {
                    &&& session_laws::stores(run.state.rows, scoped)
                    &&& session_laws::is_taken(state.rows, row.id, record.id)
                },
            }
        }),
{
    let meets = enrich::mirror(instance, host, record);
    let stated = |row: WorkspaceView| daemon::mirrors(row, instance, host, record);
    assert forall|row: WorkspaceView| #[trigger] meets(row) == stated(row) by {}
    assert(is_the_one(known, row, meets)) by {
        assert forall|k: int| 0 <= k < known.len() && meets(#[trigger] known[k]) implies known[k]
            == row by {
            assert(stated(known[k]));
        }
    }
    lemma_the_one(known, row, meets);
    let at = choose|k: int| 0 <= k < state.rows.len() && (#[trigger] state.rows[k]).workspace == row;
    registry::lemma_position_is(state.rows, row.id, at);
    let (shared, changed) = listing::sharing_scope(state, later, host, instance, row, record);
    let scoped = shared.rows[at].workspace;
    let next = RowView { workspace: scoped, ..state.rows[at] };
    assert(shared.rows =~= state.rows.update(at, next));
    session_laws::lemma_record_is_free(state.rows, at, next);
    registry::lemma_update_keeps_the_rules(state.rows, at, next);
    registry::lemma_position_is(shared.rows, row.id, at);
    let run = listing::mirroring_one(state, later, host, instance, known, record);
    let change = registry::route_change(host, instance);
    if run.result is Ok {
        assert(run.state.rows[at].workspace == (WorkspaceView {
            remote_host: host,
            daemon_id: instance,
            ..scoped
        }));
    } else {
        assert(run.state.rows[at].workspace == scoped);
        let k = choose|k: int|
            0 <= k < shared.rows.len() && k != at && change(shared.rows[at]).same_record(
                #[trigger] shared.rows[k],
            );
        assert(shared.rows[k] == state.rows[k]);
        if k < at {
            assert(state.rows[k].workspace.id != state.rows[at].workspace.id);
        } else {
            assert(state.rows[at].workspace.id != state.rows[k].workspace.id);
        }
        assert(session_laws::is_taken(state.rows, row.id, record.id));
    }
}

/// A row of a host that has no project, and no record to take one from, is looked
/// up by its own checkout and stored in the project found. Any other row is left
/// alone, and nobody is asked about it.
pub proof fn law_a_row_without_a_project_is_looked_up(
    state: ServiceView,
    later: ServiceView,
    host: Option<Seq<char>>,
    instance: Option<Seq<char>>,
    held: Seq<RecordView>,
    row: WorkspaceView,
)
    requires
        registry::is_table(state.rows),
        session_laws::stores(state.rows, row),
    ensures
        ({
            let run = listing::resolving_one(state, later, host, instance, held, row);
            let n = state.log.len() as int;
            let is_settled = row.project_identity is Some || row.remote_host != host || exists|k: int|
                0 <= k < held.len() && daemon::mirrors(row, instance, host, #[trigger] held[k]);
            if is_settled {
                run.state == state && run.result == Ok::<
                    (WorkspaceView, bool),
                    FailureView,
                >((row, false))
            } else {
                &&& run.state.log.len() == n + 1
                &&& run.state.log[n] matches Exchange::Resolve { host: asked, path, reply }
                &&& asked == host && path == row.repository_path
                &&& match reply {
                    Ok((_, identity)) if identity.len() > 0 => if row.project_scope_rev
                        == u64::MAX {
                        run.result is Err && run.state.rows == state.rows
                    } else {
                        let found = WorkspaceView {
                            project_id: workspace::path_project_id(identity),
                            project_identity: Some(identity),
                            project_scope_rev: (row.project_scope_rev + 1) as u64,
                            ..row
                        };
                        &&& run.result == Ok::<
                            (WorkspaceView, bool),
                            FailureView,
                        >((found, true))
                        &&& session_laws::stores(run.state.rows, found)
                        &&& session_laws::differs_only_at(state.rows, run.state.rows, row.id)
                    },
                    _ => run.state.rows == state.rows && run.result == Ok::<
                        (WorkspaceView, bool),
                        FailureView,
                    >((row, false)),
                }
            }
        }),
{
    let at = choose|k: int| 0 <= k < state.rows.len() && (#[trigger] state.rows[k]).workspace == row;
    registry::lemma_position_is(state.rows, row.id, at);
    let run = listing::resolving_one(state, later, host, instance, held, row);
    assert(listing::is_mirrored(row, instance, host, held) <==> exists|k: int|
        0 <= k < held.len() && daemon::mirrors(row, instance, host, #[trigger] held[k]));
    if let Ok((found, true)) = run.result {
        assert(run.state.rows[at].workspace == found);
    }
}

} // verus!
