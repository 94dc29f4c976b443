//! What a pass over every workspace writes back: for each row a verdict that its
//! own host gave, and the status that the verdict stands for.

use crate::daemon;
use crate::daemon::KeyView;
use crate::enrich;
use crate::entry;
use crate::entry::{EntryView, SessionState};
use crate::laws;
use crate::listing;
use crate::order;
use crate::reconcile;
use crate::reconcile::{Discovery, Gathered, HostOutcome, OutcomeView};
use crate::registry;
use crate::registry::RowView;
use crate::replay;
use crate::service::{Exchange, ServiceView};
use crate::session_backend::RecordView;
use crate::session_laws;
use crate::sessions;
use crate::snapshot;
use crate::workspace;
use crate::workspace::{AdeWorkspace, WorkspaceStatus, WorkspaceView};
use vstd::prelude::*;

verus! {

/// Whether one workspace is another as a listing may leave it: with another
/// project or another route, and otherwise the same.
pub open spec fn is_same_elsewhere(a: WorkspaceView, b: WorkspaceView) -> bool {
    b == (WorkspaceView {
        project_id: b.project_id,
        project_identity: b.project_identity,
        repository_path: b.repository_path,
        project_scope_rev: b.project_scope_rev,
        remote_host: b.remote_host,
        daemon_id: b.daemon_id,
        ..a
    })
}

/// That all asked between two states is of one host, and about projects.
pub open spec fn looks_into(before: ServiceView, after: ServiceView, host: Option<Seq<char>>) -> bool {
    &&& before.log.is_prefix_of(after.log)
    &&& forall|n: int|
        before.log.len() <= n < after.log.len() ==> (#[trigger] after.log[n]).host() == host && (
        after.log[n] is Resolve || after.log[n] is UpdateScope)
}

proof fn lemma_looks_into(
    a: ServiceView,
    b: ServiceView,
    c: ServiceView,
    host: Option<Seq<char>>,
)
    requires
        looks_into(a, b, host),
        looks_into(b, c, host),
    ensures
        looks_into(a, c, host),
{
    assert forall|n: int| a.log.len() <= n < c.log.len() implies (#[trigger] c.log[n]).host()
        == host && (c.log[n] is Resolve || c.log[n] is UpdateScope) by {
        if n < b.log.len() {
            assert(c.log[n] == b.log[n]);
        }
    }
}

proof fn lemma_enriching_looks(
    state: ServiceView,
    later: ServiceView,
    host: Option<Seq<char>>,
    key: KeyView,
    instance: Option<Seq<char>>,
    known: Seq<WorkspaceView>,
    cached: Seq<RecordView>,
    records: Seq<RecordView>,
)
    ensures
        ({
            let after = enrich::enriching(
                state,
                later,
                host,
                key,
                instance,
                known,
                cached,
                records,
            ).0;
            looks_into(state, after, host) && after.rows == state.rows
        }),
    decreases records.len(),
{
    if records.len() > 0 {
        let rest = records.drop_last();
        lemma_enriching_looks(state, later, host, key, instance, known, cached, rest);
        let (before, result) = enrich::enriching(
            state,
            later,
            host,
            key,
            instance,
            known,
            cached,
            rest,
        );
        let one = enrich::enriching_one(
            before,
            later,
            host,
            key,
            instance,
            known,
            cached,
            records.last(),
        ).0;
        enrich::lemma_enriching_one_frame(
            before,
            later,
            host,
            key,
            instance,
            known,
            cached,
            records.last(),
        );
        assert(looks_into(before, one, host));
        lemma_looks_into(state, before, one, host);
    }
}

/// That every row of a table is another's as a listing of a host may leave it,
/// with the route it had or that of the host.
pub open spec fn rows_derive(
    before: Seq<RowView>,
    after: Seq<RowView>,
    host: Option<Seq<char>>,
) -> bool {
    &&& after.len() == before.len()
    &&& registry::is_table(before) ==> registry::is_table(after)
    &&& forall|j: int|
        #![trigger after[j]]
        0 <= j < before.len() ==> derives(before[j].workspace, after[j].workspace, host)
            && after[j].used_by_client_at == before[j].used_by_client_at
}

pub open spec fn derives(a: WorkspaceView, b: WorkspaceView, host: Option<Seq<char>>) -> bool {
    is_same_elsewhere(a, b) && (b.remote_host == a.remote_host || b.remote_host == host)
}

proof fn lemma_rows_derive(
    a: Seq<RowView>,
    b: Seq<RowView>,
    c: Seq<RowView>,
    host: Option<Seq<char>>,
)
    requires
        rows_derive(a, b, host),
        rows_derive(b, c, host),
    ensures
        rows_derive(a, c, host),
{
    assert forall|j: int|
        #![trigger c[j]]
        0 <= j < a.len() implies derives(a[j].workspace, c[j].workspace, host)
        && c[j].used_by_client_at == a[j].used_by_client_at by {
        assert(derives(a[j].workspace, b[j].workspace, host));
    }
}

/// A write of project columns keeps the rules of the table, and every row's
/// record.
proof fn lemma_writing_scope(
    state: ServiceView,
    id: Seq<char>,
    root: Seq<char>,
    rev: u64,
    project_id: Seq<char>,
    project_identity: Seq<char>,
    host: Option<Seq<char>>,
)
    ensures
        rows_derive(
            state.rows,
            listing::writing_scope(state, id, root, rev, project_id, project_identity).rows,
            host,
        ),
{
    registry::lemma_position(state.rows, id);
    if registry::row_of(state.rows, id) is Some && registry::is_table(state.rows) {
        let at = registry::position(state.rows, id);
        let next = listing::writing_scope(state, id, root, rev, project_id, project_identity).rows;
        session_laws::lemma_record_is_free(state.rows, at, next[at]);
        registry::lemma_update_keeps_the_rules(state.rows, at, next[at]);
        assert(next =~= state.rows.update(at, next[at]));
    }
}

proof fn lemma_resolving_one(
    state: ServiceView,
    later: ServiceView,
    host: Option<Seq<char>>,
    instance: Option<Seq<char>>,
    held: Seq<RecordView>,
    row: WorkspaceView,
)
    ensures
        ({
            let run = listing::resolving_one(state, later, host, instance, held, row);
            &&& looks_into(state, run.state, host)
            &&& rows_derive(state.rows, run.state.rows, host)
            &&& run.result matches Ok((left, false)) ==> run.state.rows == state.rows && (left == row
                || session_laws::stores(state.rows, left))
        }),
{
    registry::lemma_position(state.rows, row.id);
    let run = listing::resolving_one(state, later, host, instance, held, row);
    let (asked, resolved) = replay::resolve(state, later, host, row.repository_path);
    if let Some(current) = registry::workspace_of(asked.rows, row.id) {
        if let Ok((_, identity)) = resolved {
            if let Ok(rev) = entry::next_rev(row.project_scope_rev) {
                lemma_writing_scope(
                    asked,
                    row.id,
                    current.repository_path,
                    rev,
                    workspace::path_project_id(identity),
                    identity,
                    host,
                );
            }
        }
    }
    if let Ok((left, false)) = run.result {
        if let Some(current) = registry::workspace_of(state.rows, row.id) {
            let at = registry::position(state.rows, row.id);
            assert(state.rows[at].workspace == current);
        }
        assert(run.state.rows =~= state.rows);
    }
}

proof fn lemma_resolving(
    state: ServiceView,
    later: ServiceView,
    host: Option<Seq<char>>,
    instance: Option<Seq<char>>,
    held: Seq<RecordView>,
    known: Seq<WorkspaceView>,
)
    requires
        forall|k: int|
            0 <= k < known.len() ==> session_laws::stores(state.rows, #[trigger] known[k]),
    ensures
        ({
            let run = listing::resolving(state, later, host, instance, held, known);
            &&& looks_into(state, run.state, host)
            &&& rows_derive(state.rows, run.state.rows, host)
            &&& run.result matches Ok((rows, false)) ==> run.state.rows == state.rows
                && forall|k: int|
                0 <= k < rows.len() ==> session_laws::stores(state.rows, #[trigger] rows[k])
        }),
    decreases known.len(),
{
    if known.len() > 0 {
        let rest = known.drop_last();
        assert forall|k: int| 0 <= k < rest.len() implies session_laws::stores(
            state.rows,
            #[trigger] rest[k],
        ) by {
            assert(rest[k] == known[k]);
        }
        lemma_resolving(state, later, host, instance, held, rest);
        let run = listing::resolving(state, later, host, instance, held, rest);
        if let Ok((done, changed)) = run.result {
            let last = known.last();
            lemma_resolving_one(run.state, later, host, instance, held, last);
            let one = listing::resolving_one(run.state, later, host, instance, held, last);
            lemma_looks_into(state, run.state, one.state, host);
            lemma_rows_derive(state.rows, run.state.rows, one.state.rows, host);
            if let Ok((left, applied)) = one.result {
                if !changed && !applied {
                    assert(session_laws::stores(state.rows, known[known.len() - 1]));
                    assert forall|k: int| 0 <= k < done.push(left).len() implies session_laws::stores(
                        state.rows,
                        #[trigger] done.push(left)[k],
                    ) by {
                        if k < done.len() {
                            assert(done.push(left)[k] == done[k]);
                        }
                    }
                }
            }
        }
    }
}

proof fn lemma_sharing_scope(
    state: ServiceView,
    later: ServiceView,
    host: Option<Seq<char>>,
    instance: Option<Seq<char>>,
    row: WorkspaceView,
    record: RecordView,
)
    ensures
        rows_derive(
            state.rows,
            listing::sharing_scope(state, later, host, instance, row, record).0.rows,
            host,
        ),
{
    match record.project_identity {
        Some(identity) => {
            lemma_writing_scope(
                state,
                row.id,
                record.project_root,
                record.project_scope_rev,
                match record.project_id {
                    Some(project_id) => project_id,
                    None => workspace::path_project_id(identity),
                },
                identity,
                host,
            );
        },
        None => {
            if let Some(identity) = row.project_identity {
                let (asked, reply) = replay::update_scope(
                    state,
                    later,
                    host,
                    record.id,
                    row.project_id,
                    identity,
                    Some(row.repository_path),
                    Some(row.project_scope_rev),
                    instance,
                );
                if let Ok(Some(rev)) = reply {
                    lemma_writing_scope(
                        asked,
                        row.id,
                        row.repository_path,
                        rev,
                        row.project_id,
                        identity,
                        host,
                    );
                }
            }
        },
    }
}

proof fn lemma_mirroring(
    state: ServiceView,
    later: ServiceView,
    host: Option<Seq<char>>,
    instance: Option<Seq<char>>,
    known: Seq<WorkspaceView>,
    held: Seq<RecordView>,
)
    ensures
        ({
            let run = listing::mirroring(state, later, host, instance, known, held);
            &&& looks_into(state, run.state, host)
            &&& rows_derive(state.rows, run.state.rows, host)
            &&& run.result matches Ok(false) ==> run.state.rows == state.rows
        }),
    decreases held.len(),
{
    if held.len() > 0 {
        let rest = held.drop_last();
        let record = held.last();
        lemma_mirroring(state, later, host, instance, known, rest);
        let before = listing::mirroring(state, later, host, instance, known, rest);
        if before.result is Ok {
            let one = listing::mirroring_one(
                before.state,
                later,
                host,
                instance,
                known,
                record,
            );
            if let Some(row) = enrich::preferred(known, enrich::mirror(instance, host, record)) {
                registry::lemma_position(before.state.rows, row.id);
                let (shared, changed) = listing::sharing_scope(
                    before.state,
                    later,
                    host,
                    instance,
                    row,
                    record,
                );
                lemma_sharing_scope(before.state, later, host, instance, row, record);
                registry::lemma_position(shared.rows, row.id);
                let bound = listing::rebinding(shared, host, instance, row, record);
                if registry::is_table(shared.rows) && bound.state.rows != shared.rows {
                    let at = registry::position(shared.rows, row.id);
                    let moved = registry::route_change(host, instance)(shared.rows[at]);
                    registry::lemma_update_keeps_the_rules(shared.rows, at, moved);
                }
                assert(rows_derive(shared.rows, bound.state.rows, host));
                lemma_rows_derive(before.state.rows, shared.rows, bound.state.rows, host);
                assert(looks_into(before.state, shared, host));
                assert(looks_into(shared, bound.state, host));
                lemma_looks_into(before.state, shared, bound.state, host);
            }
            lemma_looks_into(state, before.state, one.state, host);
            lemma_rows_derive(state.rows, before.state.rows, one.state.rows, host);
        }
    }
}

/// That the last listing of what a host holds, before a place of the record and
/// since an earlier time, came from a daemon under this name.
pub open spec fn was_listed_as(
    log: Seq<Exchange>,
    from: int,
    upto: int,
    host: Option<Seq<char>>,
    instance: Option<Seq<char>>,
) -> bool {
    exists|m: int|
        {
            &&& from <= m < upto
            &&& #[trigger] log[m] matches Exchange::ListWorkspaces {
                host: asked,
                reply: Ok((named, _)),
            }
            &&& asked == host
            &&& named == instance
            &&& forall|x: int| m < x < upto ==> !(#[trigger] log[x] is ListWorkspaces)
        }
}

/// That all asked between two states is of one host, and neither what is alive
/// nor who it is.
pub open spec fn only_lists(before: ServiceView, after: ServiceView, host: Option<Seq<char>>) -> bool {
    &&& before.log.is_prefix_of(after.log)
    &&& forall|n: int|
        before.log.len() <= n < after.log.len() ==> (#[trigger] after.log[n]).host() == host && !(
        after.log[n] is ListSessions) && !(after.log[n] is Instance)
}

proof fn lemma_listing_twice(
    state: ServiceView,
    later: ServiceView,
    host: Option<Seq<char>>,
    tries: nat,
)
    ensures
        ({
            let run = listing::listing_twice(state, later, host, tries);
            &&& run.state.rows == state.rows
            &&& only_lists(state, run.state, host)
            &&& run.result matches Ok((instance, items)) ==> {
                &&& run.state.log.len() > state.log.len()
                &&& run.state.log.last() == (Exchange::ListWorkspaces {
                    host,
                    reply: Ok((instance, items)),
                })
            }
        }),
    decreases tries,
{
    if tries > 0 {
        let (first, initial) = replay::list_workspaces(state, later, host);
        let (second, refreshed) = replay::list_workspaces(first, later, host);
        lemma_listing_twice(second, later, host, (tries - 1) as nat);
        let again = listing::listing_twice(second, later, host, (tries - 1) as nat);
        assert forall|n: int| state.log.len() <= n < again.state.log.len() implies (
        #[trigger] again.state.log[n]).host() == host && !(again.state.log[n] is ListSessions) && !(
        again.state.log[n] is Instance) by {
            if n < second.log.len() {
                assert(again.state.log[n] == second.log[n]);
            }
        }
    }
}

pub proof fn lemma_listing_host(state: ServiceView, later: ServiceView, host: Option<Seq<char>>)
    ensures
        ({
            let run = listing::listing_host(state, later, host);
            &&& only_lists(state, run.state, host)
            &&& rows_derive(state.rows, run.state.rows, host)
            &&& run.result matches Ok(listed) ==> {
                &&& exists|instance: Option<Seq<char>>|
                    listed.key == daemon::key_of(instance, host) && #[trigger] was_listed_as(
                        run.state.log,
                        state.log.len() as int,
                        run.state.log.len() as int,
                        host,
                        instance,
                    )
                &&& forall|k: int|
                    0 <= k < listed.rows.len() ==> session_laws::stores(
                        run.state.rows,
                        #[trigger] listed.rows[k],
                    )
            }
        }),
{
    let twice = listing::listing_twice(state, later, host, 3);
    lemma_listing_twice(state, later, host, 3);
    if let Ok((instance, items)) = twice.result {
        let m = twice.state.log.len() - 1;
        let key = daemon::key_of(instance, host);
        let known = registry::listing(state.rows, registry::used_rows());
        let cached = snapshot::remembered(twice.state.discoveries, key);
        lemma_enriching_looks(twice.state, later, host, key, instance, known, cached, items);
        let (enriched, records) = enrich::enriching(
            twice.state,
            later,
            host,
            key,
            instance,
            known,
            cached,
            items,
        );
        session_laws::lemma_listing(state.rows, registry::used_rows());
        assert forall|k: int| 0 <= k < known.len() implies session_laws::stores(
            state.rows,
            #[trigger] known[k],
        ) by {
            assert(session_laws::stores_where(state.rows, registry::used_rows(), known[k]));
        }
        let run = listing::listing_host(state, later, host);
        assert(looks_into(twice.state, run.state, host)
            && rows_derive(state.rows, run.state.rows, host)) by {
            if let Ok(held) = records {
                lemma_resolving(enriched, later, host, instance, held, known);
                let resolved = listing::resolving(enriched, later, host, instance, held, known);
                lemma_looks_into(twice.state, enriched, resolved.state, host);
                if let Ok((rows, changed)) = resolved.result {
                    lemma_mirroring(resolved.state, later, host, instance, rows, held);
                    let mirrored = listing::mirroring(
                        resolved.state,
                        later,
                        host,
                        instance,
                        rows,
                        held,
                    );
                    lemma_looks_into(twice.state, resolved.state, mirrored.state, host);
                    lemma_rows_derive(
                        state.rows,
                        resolved.state.rows,
                        mirrored.state.rows,
                        host,
                    );
                }
            }
        }
        assert forall|n: int| state.log.len() <= n < run.state.log.len() implies (
        #[trigger] run.state.log[n]).host() == host && !(run.state.log[n] is ListSessions) && !(
        run.state.log[n] is Instance) by {
            if n < twice.state.log.len() {
                assert(run.state.log[n] == twice.state.log[n]);
            }
        }
        if let Ok(listed) = run.result {
            assert(run.state.log[m] == twice.state.log[m]);
            assert(was_listed_as(
                run.state.log,
                state.log.len() as int,
                run.state.log.len() as int,
                host,
                instance,
            ));
            let held = records->Ok_0;
            lemma_resolving(enriched, later, host, instance, held, known);
            session_laws::lemma_listing(run.state.rows, registry::used_rows());
            let resolved = listing::resolving(enriched, later, host, instance, held, known);
            let (rows, changed) = resolved.result->Ok_0;
            lemma_mirroring(resolved.state, later, host, instance, rows, held);
            assert forall|k: int| 0 <= k < listed.rows.len() implies session_laws::stores(
                run.state.rows,
                #[trigger] listed.rows[k],
            ) by {
                let fresh = registry::listing(run.state.rows, registry::used_rows());
                if listed.rows == fresh {
                    assert(session_laws::stores_where(
                        run.state.rows,
                        registry::used_rows(),
                        fresh[k],
                    ));
                }
            }
        }
    }
}

/// Whether a host was asked who it is, since an earlier time.
pub open spec fn was_named(log: Seq<Exchange>, from: int, host: Option<Seq<char>>) -> bool {
    exists|n: int|
        from <= n < log.len() && #[trigger] log[n] is Instance && log[n].host() == host
}

/// Whether a host answered, at a place of the record since an earlier time, what
/// is alive on it, and under which name.
pub open spec fn says_alive(
    log: Seq<Exchange>,
    from: int,
    n: int,
    host: Option<Seq<char>>,
    instance: Option<Seq<char>>,
    ids: Seq<Seq<char>>,
) -> bool {
    from <= n < log.len() && log[n] == (Exchange::ListSessions {
        host,
        reply: Ok((instance, ids)),
    })
}

/// Whether an answer of what is alive counts: in a pass that also lists what a
/// host holds, it comes from the daemon that the last listing came from.
pub open spec fn counts(
    log: Seq<Exchange>,
    from: int,
    n: int,
    discover: bool,
    host: Option<Seq<char>>,
    instance: Option<Seq<char>>,
) -> bool {
    discover ==> was_listed_as(log, from, n, host, instance)
}

/// Whether a pass has a line about a host, beyond those it began with.
pub open spec fn has_line(
    errors: Seq<(Seq<char>, Seq<char>)>,
    from: int,
    host: Option<Seq<char>>,
) -> bool {
    exists|e: int|
        from <= e < errors.len() && (#[trigger] errors[e]).0 == daemon::host_name(host)
}

/// That a host was asked what is alive at one place of the record at most.
pub open spec fn is_asked_once(
    log: Seq<Exchange>,
    from: int,
    n: int,
    host: Option<Seq<char>>,
) -> bool {
    forall|x: int|
        from <= x < log.len() && #[trigger] log[x] is ListSessions && log[x].host() == host
            ==> x == n
}

/// Whether a host answered, once, what is alive on it, and the answer counts.
pub open spec fn was_answered(
    log: Seq<Exchange>,
    from: int,
    discover: bool,
    host: Option<Seq<char>>,
    key: KeyView,
    ids: Seq<Seq<char>>,
) -> bool {
    exists|n: int, instance: Option<Seq<char>>|
        {
            &&& #[trigger] says_alive(log, from, n, host, instance, ids)
            &&& key == daemon::key_of(instance, host)
            &&& counts(log, from, n, discover, host, instance)
            &&& is_asked_once(log, from, n, host)
        }
}

/// Whether an outcome is what its host said. One with live sessions has them from
/// the one answer that counts, unless the host was never asked; one without has a
/// line that says why, or an answer that does not count.
spec fn is_told(
    log: Seq<Exchange>,
    from: int,
    errors: Seq<(Seq<char>, Seq<char>)>,
    first: int,
    discover: bool,
    outcome: OutcomeView,
) -> bool {
    let host = outcome.host;
    match outcome.live {
        Some(ids) => was_named(log, from, host) ==> was_answered(
            log,
            from,
            discover,
            host,
            outcome.daemon,
            ids,
        ),
        None => {
            &&& forall|n: int, instance: Option<Seq<char>>, ids: Seq<Seq<char>>| #[trigger]
                says_alive(log, from, n, host, instance, ids) ==> !counts(
                    log,
                    from,
                    n,
                    discover,
                    host,
                    instance,
                )
            &&& has_line(errors, first, host) || exists|
                n: int,
                instance: Option<Seq<char>>,
                ids: Seq<Seq<char>>,
            | #[trigger] says_alive(log, from, n, host, instance, ids)
        },
    }
}

proof fn lemma_told_stays(
    log: Seq<Exchange>,
    later: Seq<Exchange>,
    from: int,
    errors: Seq<(Seq<char>, Seq<char>)>,
    later_errors: Seq<(Seq<char>, Seq<char>)>,
    first: int,
    discover: bool,
    outcome: OutcomeView,
)
    requires
        is_told(log, from, errors, first, discover, outcome),
        0 <= from <= log.len(),
        0 <= first,
        log.is_prefix_of(later),
        errors.is_prefix_of(later_errors),
        forall|n: int|
            log.len() <= n < later.len() && (#[trigger] later[n] is ListSessions
                || later[n] is Instance) ==> later[n].host() != outcome.host,
    ensures
        is_told(later, from, later_errors, first, discover, outcome),
        was_named(log, from, outcome.host) <==> was_named(later, from, outcome.host),
{
    let host = outcome.host;
    assert forall|n: int, instance: Option<Seq<char>>| 0 <= n <= log.len() implies (
    #[trigger] was_listed_as(later, from, n, host, instance) <==> was_listed_as(
        log,
        from,
        n,
        host,
        instance,
    )) by {
        if was_listed_as(log, from, n, host, instance) {
            let m = choose|m: int|
                {
                    &&& from <= m < n
                    &&& #[trigger] log[m] matches Exchange::ListWorkspaces {
                        host: asked,
                        reply: Ok((named, _)),
                    }
                    &&& asked == host
                    &&& named == instance
                    &&& forall|x: int| m < x < n ==> !(#[trigger] log[x] is ListWorkspaces)
                };
            assert(later[m] == log[m]);
            assert forall|x: int| m < x < n implies !(#[trigger] later[x] is ListWorkspaces) by {
                assert(later[x] == log[x]);
            }
        }
        if was_listed_as(later, from, n, host, instance) {
            let m = choose|m: int|
                {
                    &&& from <= m < n
                    &&& #[trigger] later[m] matches Exchange::ListWorkspaces {
                        host: asked,
                        reply: Ok((named, _)),
                    }
                    &&& asked == host
                    &&& named == instance
                    &&& forall|x: int| m < x < n ==> !(#[trigger] later[x] is ListWorkspaces)
                };
            assert(later[m] == log[m]);
            assert forall|x: int| m < x < n implies !(#[trigger] log[x] is ListWorkspaces) by {
                assert(later[x] == log[x]);
            }
        }
    }
    if was_named(log, from, host) {
        let n = choose|n: int|
            from <= n < log.len() && #[trigger] log[n] is Instance && log[n].host() == host;
        assert(later[n] == log[n]);
    }
    if was_named(later, from, host) {
        let n = choose|n: int|
            from <= n < later.len() && #[trigger] later[n] is Instance && later[n].host() == host;
        assert(n < log.len());
        assert(later[n] == log[n]);
    }
    assert forall|n: int, instance: Option<Seq<char>>, ids: Seq<Seq<char>>| #[trigger]
        says_alive(later, from, n, host, instance, ids) implies says_alive(
        log,
        from,
        n,
        host,
        instance,
        ids,
    ) && n < log.len() by {
        assert(later[n] is ListSessions && later[n].host() == host);
        assert(n < log.len());
        assert(later[n] == log[n]);
    }
    match outcome.live {
        Some(ids) => {
            if was_named(later, from, host) {
                let (n, instance) = choose|n: int, instance: Option<Seq<char>>|
                    {
                        &&& #[trigger] says_alive(log, from, n, host, instance, ids)
                        &&& outcome.daemon == daemon::key_of(instance, host)
                        &&& counts(log, from, n, discover, host, instance)
                        &&& is_asked_once(log, from, n, host)
                    };
                assert(later[n] == log[n]);
                assert(says_alive(later, from, n, host, instance, ids));
                assert(counts(later, from, n, discover, host, instance));
                assert(is_asked_once(later, from, n, host)) by {
                    assert(is_asked_once(log, from, n, host));
                    assert forall|x: int|
                        from <= x < later.len() && #[trigger] later[x] is ListSessions
                            && later[x].host() == host implies x == n by {
                        assert(x < log.len());
                        assert(later[x] == log[x]);
                    }
                }
                assert(was_answered(later, from, discover, host, outcome.daemon, ids));
                assert forall|x: int|
                    from <= x < later.len() && #[trigger] later[x] is ListSessions
                        && later[x].host() == host implies x == n by {
                    assert(x < log.len());
                    assert(later[x] == log[x]);
                }
            }
        },
        None => {
            if has_line(errors, first, host) {
                let e = choose|e: int|
                    first <= e < errors.len() && (#[trigger] errors[e]).0 == daemon::host_name(
                        host,
                    );
                assert(later_errors[e] == errors[e]);
            } else {
                let (n, instance, ids) = choose|
                    n: int,
                    instance: Option<Seq<char>>,
                    ids: Seq<Seq<char>>,
                | #[trigger] says_alive(log, from, n, host, instance, ids);
                assert(later[n] == log[n]);
                assert(says_alive(later, from, n, host, instance, ids));
            }
            assert forall|n: int, instance: Option<Seq<char>>, ids: Seq<Seq<char>>| #[trigger]
                says_alive(later, from, n, host, instance, ids) implies !counts(
                later,
                from,
                n,
                discover,
                host,
                instance,
            ) by {
                assert(says_alive(log, from, n, host, instance, ids));
                assert(!counts(log, from, n, discover, host, instance));
            }
        },
    }
}

/// What always holds of a pass that has asked some hosts.
spec fn pass_holds(
    start: Gathered,
    pass: Gathered,
    done: Seq<Option<Seq<char>>>,
    discover: bool,
) -> bool {
    let from = start.state.log.len() as int;
    let log = pass.state.log;
    &&& start.state.log.is_prefix_of(log)
    &&& start.errors.is_prefix_of(pass.errors)
    &&& pass.rows.len() == start.rows.len()
    &&& forall|k: int|
        0 <= k < start.rows.len() ==> is_same_elsewhere(start.rows[k], #[trigger] pass.rows[k])
    &&& pass.state.rows.len() == start.state.rows.len()
    &&& registry::is_table(pass.state.rows)
    &&& forall|j: int|
        #![trigger pass.state.rows[j]]
        0 <= j < start.state.rows.len() ==> is_same_elsewhere(
            start.state.rows[j].workspace,
            pass.state.rows[j].workspace,
        ) && pass.state.rows[j].used_by_client_at == start.state.rows[j].used_by_client_at
    &&& forall|k: int|
        #![trigger pass.rows[k]]
        0 <= k < pass.rows.len() ==> pass.rows[k].remote_host == start.rows[k].remote_host
            || was_named(log, from, pass.rows[k].remote_host)
    &&& forall|k: int, j: int|
        #![trigger pass.rows[k], pass.state.rows[j]]
        0 <= k < pass.rows.len() && 0 <= j < pass.state.rows.len()
            && pass.state.rows[j].workspace.id == pass.rows[k].id
            ==> pass.state.rows[j].workspace.remote_host == pass.rows[k].remote_host || was_named(
            log,
            from,
            pass.state.rows[j].workspace.remote_host,
        )
    &&& pass.outcomes.len() == done.len()
    &&& forall|j: int| 0 <= j < done.len() ==> (#[trigger] pass.outcomes[j]).host == done[j]
    &&& forall|n: int|
        from <= n < log.len() && (#[trigger] log[n] is ListSessions || log[n] is Instance)
            ==> done.contains(log[n].host())
    &&& forall|j: int|
        0 <= j < done.len() ==> is_told(
            log,
            from,
            pass.errors,
            start.errors.len() as int,
            discover,
            #[trigger] pass.outcomes[j],
        )
    &&& forall|k: int, j: int|
        #![trigger pass.rows[k], pass.outcomes[j]]
        0 <= k < pass.rows.len() && 0 <= j < done.len() && pass.rows[k].terminal_session_id is Some
            && pass.outcomes[j].host == pass.rows[k].remote_host && pass.outcomes[j].live is Some
            ==> was_named(log, from, pass.rows[k].remote_host)
}

proof fn lemma_named_stays(log: Seq<Exchange>, later: Seq<Exchange>, from: int)
    requires
        0 <= from,
        log.is_prefix_of(later),
    ensures
        forall|host: Option<Seq<char>>| #[trigger]
            was_named(log, from, host) ==> was_named(later, from, host),
{
    assert forall|host: Option<Seq<char>>| #[trigger] was_named(log, from, host) implies was_named(
        later,
        from,
        host,
    ) by {
        let n = choose|n: int|
            from <= n < log.len() && #[trigger] log[n] is Instance && log[n].host() == host;
        assert(later[n] == log[n]);
    }
}

/// What one host's share adds to a pass without touching its rows.
proof fn lemma_share_added(
    start: Gathered,
    pass: Gathered,
    after: Gathered,
    done: Seq<Option<Seq<char>>>,
    discover: bool,
    host: Option<Seq<char>>,
    outcome: OutcomeView,
)
    requires
        pass_holds(start, pass, done, discover),
        !done.contains(host),
        pass.state.log.is_prefix_of(after.state.log),
        pass.errors.is_prefix_of(after.errors),
        forall|n: int|
            pass.state.log.len() <= n < after.state.log.len() ==> (
            #[trigger] after.state.log[n]).host() == host,
        after.outcomes == pass.outcomes.push(outcome),
        outcome.host == host,
        is_told(
            after.state.log,
            start.state.log.len() as int,
            after.errors,
            start.errors.len() as int,
            discover,
            outcome,
        ),
        after.rows.len() == start.rows.len(),
        forall|k: int|
            0 <= k < start.rows.len() ==> is_same_elsewhere(
                start.rows[k],
                #[trigger] after.rows[k],
            ),
        after.state.rows.len() == start.state.rows.len(),
        registry::is_table(after.state.rows),
        forall|j: int|
            #![trigger after.state.rows[j]]
            0 <= j < start.state.rows.len() ==> is_same_elsewhere(
                start.state.rows[j].workspace,
                after.state.rows[j].workspace,
            ) && after.state.rows[j].used_by_client_at
                == start.state.rows[j].used_by_client_at,
        // Each row is where it was, or where a host that was asked has put it.
        forall|k: int|
            #![trigger after.rows[k]]
            0 <= k < after.rows.len() ==> after.rows[k].remote_host == pass.rows[k].remote_host
                || was_named(
                after.state.log,
                start.state.log.len() as int,
                after.rows[k].remote_host,
            ),
        forall|k: int, j: int|
            #![trigger after.rows[k], after.state.rows[j]]
            0 <= k < after.rows.len() && 0 <= j < after.state.rows.len()
                && after.state.rows[j].workspace.id == after.rows[k].id
                ==> after.state.rows[j].workspace.remote_host == after.rows[k].remote_host
                || was_named(
                after.state.log,
                start.state.log.len() as int,
                after.state.rows[j].workspace.remote_host,
            ),
        outcome.live is Some && !was_named(
            after.state.log,
            start.state.log.len() as int,
            host,
        ) ==> forall|k: int|
            0 <= k < after.rows.len() ==> !reconcile::has_session_on(
                #[trigger] after.rows[k],
                host,
            ),
    ensures
        pass_holds(start, after, done.push(host), discover),
{
    let from = start.state.log.len() as int;
    let first = start.errors.len() as int;
    let (log, later) = (pass.state.log, after.state.log);
    let all = done.push(host);
    lemma_named_stays(log, later, from);
    assert forall|j: int| 0 <= j < all.len() implies (#[trigger] after.outcomes[j]).host
        == all[j] by {
        if j < done.len() {
            assert(after.outcomes[j] == pass.outcomes[j]);
        }
    }
    assert forall|n: int|
        from <= n < later.len() && (#[trigger] later[n] is ListSessions
            || later[n] is Instance) implies all.contains(later[n].host()) by {
        if n < log.len() {
            assert(later[n] == log[n]);
            let i = choose|i: int| 0 <= i < done.len() && done[i] == log[n].host();
            assert(all[i] == done[i]);
        } else {
            assert(all[done.len() as int] == host);
        }
    }
    assert forall|j: int| 0 <= j < done.len() implies #[trigger] pass.outcomes[j].host != host by {
        assert(done[j] == pass.outcomes[j].host);
    }
    assert forall|j: int| 0 <= j < all.len() implies is_told(
        later,
        from,
        after.errors,
        first,
        discover,
        #[trigger] after.outcomes[j],
    ) by {
        if j < done.len() {
            assert(after.outcomes[j] == pass.outcomes[j]);
            lemma_told_stays(
                log,
                later,
                from,
                pass.errors,
                after.errors,
                first,
                discover,
                pass.outcomes[j],
            );
        }
    }
    assert forall|k: int, j: int|
        #![trigger after.rows[k], after.outcomes[j]]
        0 <= k < after.rows.len() && 0 <= j < all.len() && after.rows[k].terminal_session_id is Some
            && after.outcomes[j].host == after.rows[k].remote_host && after.outcomes[j].live
            is Some implies was_named(later, from, after.rows[k].remote_host) by {
        if j < done.len() {
            assert(after.outcomes[j] == pass.outcomes[j]);
            if after.rows[k].remote_host == pass.rows[k].remote_host {
                assert(is_same_elsewhere(start.rows[k], pass.rows[k]));
                assert(pass.rows[k].terminal_session_id is Some);
            }
        } else if !was_named(later, from, host) {
            assert(!reconcile::has_session_on(after.rows[k], host));
        }
    }
    assert forall|k: int|
        #![trigger after.rows[k]]
        0 <= k < after.rows.len() implies after.rows[k].remote_host == start.rows[k].remote_host
        || was_named(later, from, after.rows[k].remote_host) by {
        assert(pass.rows[k].remote_host == start.rows[k].remote_host || was_named(
            log,
            from,
            pass.rows[k].remote_host,
        ));
    }
}

/// The last listing before a place came under one name.
proof fn lemma_listed_once(
    log: Seq<Exchange>,
    from: int,
    since: int,
    upto: int,
    host: Option<Seq<char>>,
    named: Option<Seq<char>>,
    other: Option<Seq<char>>,
)
    requires
        0 <= from <= since,
        was_listed_as(log, since, upto, host, named),
    ensures
        was_listed_as(log, from, upto, host, named),
        was_listed_as(log, from, upto, host, other) ==> other == named,
{
    let m = choose|m: int|
        {
            &&& since <= m < upto
            &&& #[trigger] log[m] matches Exchange::ListWorkspaces {
                host: asked,
                reply: Ok((name, _)),
            }
            &&& asked == host
            &&& name == named
            &&& forall|x: int| m < x < upto ==> !(#[trigger] log[x] is ListWorkspaces)
        };
    assert(from <= m);
    if was_listed_as(log, from, upto, host, other) {
        let k = choose|k: int|
            {
                &&& from <= k < upto
                &&& #[trigger] log[k] matches Exchange::ListWorkspaces {
                    host: asked,
                    reply: Ok((name, _)),
                }
                &&& asked == host
                &&& name == other
                &&& forall|x: int| k < x < upto ==> !(#[trigger] log[x] is ListWorkspaces)
            };
        assert(log[m] is ListWorkspaces);
        assert(log[k] is ListWorkspaces);
        assert(k == m);
    }
}

/// What asking a host what is alive comes to.
proof fn lemma_asking_live(
    start: Gathered,
    pass: Gathered,
    before: Gathered,
    later: ServiceView,
    done: Seq<Option<Seq<char>>>,
    discover: bool,
    host: Option<Seq<char>>,
    key: KeyView,
    held: Option<Seq<RecordView>>,
    named: Option<Seq<char>>,
)
    requires
        pass_holds(start, pass, done, discover),
        !done.contains(host),
        pass.state.log.is_prefix_of(before.state.log),
        pass.errors == before.errors,
        forall|n: int|
            pass.state.log.len() <= n < before.state.log.len() ==> (
            #[trigger] before.state.log[n]).host() == host && !(before.state.log[n] is ListSessions),
        was_named(before.state.log, start.state.log.len() as int, host),
        key == daemon::key_of(named, host),
        discover ==> was_listed_as(
            before.state.log,
            pass.state.log.len() as int,
            before.state.log.len() as int,
            host,
            named,
        ),
    ensures
        ({
            let after = reconcile::asking_live(before, later, discover, host, key, held);
            &&& after.rows == before.rows
            &&& after.state.rows == before.state.rows
            &&& before.state.log.is_prefix_of(after.state.log)
            &&& after.state.log.len() == before.state.log.len() + 1
            &&& after.state.log.last() is ListSessions && after.state.log.last().host() == host
            &&& before.errors.is_prefix_of(after.errors)
            &&& after.outcomes.len() == before.outcomes.len() + 1
            &&& after.outcomes == before.outcomes.push(after.outcomes.last())
            &&& after.outcomes.last().host == host
            &&& is_told(
                after.state.log,
                start.state.log.len() as int,
                after.errors,
                start.errors.len() as int,
                discover,
                after.outcomes.last(),
            )
        }),
{
    let from = start.state.log.len() as int;
    let first = start.errors.len() as int;
    let after = reconcile::asking_live(before, later, discover, host, key, held);
    let n = before.state.log.len() as int;
    let log = after.state.log;
    let outcome = after.outcomes.last();
    let reply = log[n]->ListSessions_reply;
    assert(log =~= before.state.log.push(Exchange::ListSessions { host, reply }));
    assert forall|x: int|
        from <= x < log.len() && #[trigger] log[x] is ListSessions && log[x].host()
            == host implies x == n by {
        if x < pass.state.log.len() {
            assert(log[x] == pass.state.log[x]);
            assert(done.contains(pass.state.log[x].host()));
        } else if x < n {
            assert(log[x] == before.state.log[x]);
        }
    }
    assert forall|x: int, instance: Option<Seq<char>>, ids: Seq<Seq<char>>| #[trigger]
        says_alive(log, from, x, host, instance, ids) implies x == n && reply == Ok::<
        (Option<Seq<char>>, Seq<Seq<char>>),
        Seq<char>,
    >((instance, ids)) by {
        assert(log[x] is ListSessions && log[x].host() == host);
    }
    assert(after.outcomes =~= before.outcomes.push(outcome));
    assert(before.errors.is_prefix_of(after.errors));
    lemma_named_stays(before.state.log, log, from);
    match reply {
        Err(cause) => {
            assert(after.errors[before.errors.len() as int].0 == daemon::host_name(host));
            assert(has_line(after.errors, first, host));
            assert(outcome.live is None);
        },
        Ok((instance, ids)) => {
            assert(says_alive(log, from, n, host, instance, ids));
            if discover {
                let since = pass.state.log.len() as int;
                assert(was_listed_as(log, since, n, host, named)) by {
                    let m = choose|m: int|
                        {
                            &&& since <= m < n
                            &&& #[trigger] before.state.log[m] matches Exchange::ListWorkspaces {
                                host: asked,
                                reply: Ok((name, _)),
                            }
                            &&& asked == host
                            &&& name == named
                            &&& forall|x: int| m < x < n ==> !(
                            #[trigger] before.state.log[x] is ListWorkspaces)
                        };
                    assert(log[m] == before.state.log[m]);
                    assert forall|x: int| m < x < n implies !(
                    #[trigger] log[x] is ListWorkspaces) by {
                        assert(log[x] == before.state.log[x]);
                    }
                }
                lemma_listed_once(log, from, since, n, host, named, instance);
                if instance == named {
                    assert(counts(log, from, n, discover, host, instance));
                } else {
                    assert(!counts(log, from, n, discover, host, instance));
                }
            } else {
                assert(counts(log, from, n, discover, host, instance));
            }
            if instance == named || !discover {
                assert(outcome.host == host);
                assert(outcome.live == Some(ids));
                assert(outcome.daemon == daemon::key_of(instance, host));
                assert(says_alive(log, from, n, host, instance, ids));
                assert(counts(log, from, n, discover, host, instance));
                assert(is_asked_once(log, from, n, host));
                assert(was_answered(log, from, discover, host, outcome.daemon, ids));
                assert(is_told(log, from, after.errors, first, discover, outcome));
            } else {
                assert(daemon::key_of(instance, host) != key);
                assert(outcome.live is None);
                assert(outcome.host == host);
                assert forall|x: int, other: Option<Seq<char>>, found: Seq<Seq<char>>| #[trigger]
                    says_alive(log, from, x, host, other, found) implies !counts(
                    log,
                    from,
                    x,
                    discover,
                    host,
                    other,
                ) by {
                    assert(x == n && other == instance);
                }
                assert(is_told(log, from, after.errors, first, discover, outcome));
            }
        },
    }
    assert(is_told(log, from, after.errors, first, discover, outcome));
    assert(before.state.log.is_prefix_of(log));
    assert(after.outcomes == before.outcomes.push(after.outcomes.last()));
    assert(log.last() is ListSessions && log.last().host() == host);
}

/// What a listing of a host makes of the rows of a pass.
proof fn lemma_refreshed(
    start: Gathered,
    pass: Gathered,
    done: Seq<Option<Seq<char>>>,
    discover: bool,
    table: Seq<RowView>,
    listed: Seq<WorkspaceView>,
    host: Option<Seq<char>>,
    log: Seq<Exchange>,
)
    requires
        registry::is_table(start.state.rows),
        forall|k: int|
            0 <= k < start.rows.len() ==> session_laws::stores(
                start.state.rows,
                #[trigger] start.rows[k],
            ),
        pass_holds(start, pass, done, discover),
        rows_derive(pass.state.rows, table, host),
        forall|k: int|
            0 <= k < listed.len() ==> session_laws::stores(table, #[trigger] listed[k]),
        pass.state.log.is_prefix_of(log),
        was_named(log, start.state.log.len() as int, host),
    ensures
        table.len() == start.state.rows.len(),
        registry::is_table(table),
        forall|j: int|
            #![trigger table[j]]
            0 <= j < start.state.rows.len() ==> is_same_elsewhere(
                start.state.rows[j].workspace,
                table[j].workspace,
            ) && table[j].used_by_client_at == start.state.rows[j].used_by_client_at,
        ({
            let rows = reconcile::refreshed(pass.rows, listed);
            let from = start.state.log.len() as int;
            &&& rows.len() == start.rows.len()
            &&& forall|k: int|
                0 <= k < start.rows.len() ==> is_same_elsewhere(start.rows[k], #[trigger] rows[k])
            &&& forall|k: int|
                #![trigger rows[k]]
                0 <= k < rows.len() ==> rows[k].remote_host == pass.rows[k].remote_host
                    || was_named(log, from, rows[k].remote_host)
            &&& forall|k: int, j: int|
                #![trigger rows[k], table[j]]
                0 <= k < rows.len() && 0 <= j < table.len() && table[j].workspace.id == rows[k].id
                    ==> table[j].workspace.remote_host == rows[k].remote_host || was_named(
                    log,
                    from,
                    table[j].workspace.remote_host,
                )
        }),
        // The rows as they were go with the table too.
        forall|k: int, j: int|
            #![trigger pass.rows[k], table[j]]
            0 <= k < pass.rows.len() && 0 <= j < table.len() && table[j].workspace.id
                == pass.rows[k].id ==> table[j].workspace.remote_host == pass.rows[k].remote_host
                || was_named(
                log,
                start.state.log.len() as int,
                table[j].workspace.remote_host,
            ),
{
    let from = start.state.log.len() as int;
    let rows = reconcile::refreshed(pass.rows, listed);
    lemma_named_stays(pass.state.log, log, from);
    assert forall|j: int|
        #![trigger table[j]]
        0 <= j < start.state.rows.len() implies is_same_elsewhere(
        start.state.rows[j].workspace,
        table[j].workspace,
    ) && table[j].used_by_client_at == start.state.rows[j].used_by_client_at by {
        assert(is_same_elsewhere(
            start.state.rows[j].workspace,
            pass.state.rows[j].workspace,
        ));
        assert(derives(pass.state.rows[j].workspace, table[j].workspace, host));
    }
    assert forall|k: int, j: int|
        #![trigger pass.rows[k], table[j]]
        0 <= k < pass.rows.len() && 0 <= j < table.len() && table[j].workspace.id
            == pass.rows[k].id implies table[j].workspace.remote_host == pass.rows[k].remote_host
        || was_named(log, from, table[j].workspace.remote_host) by {
        assert(derives(pass.state.rows[j].workspace, table[j].workspace, host));
        assert(pass.state.rows[j].workspace.id == pass.rows[k].id);
    }
    assert forall|k: int| 0 <= k < rows.len() implies is_same_elsewhere(
        start.rows[k],
        #[trigger] rows[k],
    ) && (rows[k] == pass.rows[k] || (rows[k].id == pass.rows[k].id && session_laws::stores(
        table,
        rows[k],
    ))) by {
        let old_row = pass.rows[k];
        assert(is_same_elsewhere(start.rows[k], old_row));
        lemma_row_with_id(listed, old_row.id);
        if reconcile::row_with_id(listed, old_row.id) is Some {
            let at = choose|at: int| 0 <= at < listed.len() && listed[at] == rows[k];
            assert(session_laws::stores(table, listed[at]));
            let j = choose|j: int|
                0 <= j < table.len() && (#[trigger] table[j]).workspace == rows[k];
            assert(is_same_elsewhere(start.state.rows[j].workspace, table[j].workspace));
            let i = choose|i: int|
                0 <= i < start.state.rows.len() && (#[trigger] start.state.rows[i]).workspace
                    == start.rows[k];
            if i < j {
                assert(start.state.rows[i].workspace.id != start.state.rows[j].workspace.id);
            } else if j < i {
                assert(start.state.rows[j].workspace.id != start.state.rows[i].workspace.id);
            }
        }
    }
    assert forall|k: int|
        #![trigger rows[k]]
        0 <= k < rows.len() implies rows[k].remote_host == pass.rows[k].remote_host || was_named(
        log,
        from,
        rows[k].remote_host,
    ) by {
        if rows[k] != pass.rows[k] {
            let j = choose|j: int|
                0 <= j < table.len() && (#[trigger] table[j]).workspace == rows[k];
            assert(table[j].workspace.id == pass.rows[k].id);
        }
    }
    assert forall|k: int, j: int|
        #![trigger rows[k], table[j]]
        0 <= k < rows.len() && 0 <= j < table.len() && table[j].workspace.id
            == rows[k].id implies table[j].workspace.remote_host == rows[k].remote_host
        || was_named(log, from, table[j].workspace.remote_host) by {
        assert(is_same_elsewhere(start.rows[k], rows[k]));
        if rows[k] == pass.rows[k] {
            assert(table[j].workspace.id == pass.rows[k].id);
        } else {
            let i = choose|i: int|
                0 <= i < table.len() && (#[trigger] table[i]).workspace == rows[k];
            assert(is_same_elsewhere(start.state.rows[i].workspace, table[i].workspace));
            assert(is_same_elsewhere(start.state.rows[j].workspace, table[j].workspace));
            if i < j {
                assert(start.state.rows[i].workspace.id != start.state.rows[j].workspace.id);
            } else if j < i {
                assert(start.state.rows[j].workspace.id != start.state.rows[i].workspace.id);
            }
        }
    }
}

proof fn lemma_row_with_id(rows: Seq<WorkspaceView>, id: Seq<char>)
    ensures
        reconcile::row_with_id(rows, id) matches Some(row) ==> row.id == id && rows.contains(row),
    decreases rows.len(),
{
    if rows.len() > 0 && rows[0].id != id {
        lemma_row_with_id(rows.drop_first(), id);
        if let Some(row) = reconcile::row_with_id(rows.drop_first(), id) {
            let k = choose|k: int|
                0 <= k < rows.drop_first().len() && rows.drop_first()[k] == row;
            assert(rows[k + 1] == row);
        }
    } else if rows.len() > 0 {
        assert(rows[0].id == id);
    }
}

proof fn lemma_gathering_one(
    start: Gathered,
    pass: Gathered,
    later: ServiceView,
    discovering: Seq<Option<Seq<char>>>,
    discover: bool,
    done: Seq<Option<Seq<char>>>,
    host: Option<Seq<char>>,
)
    requires
        registry::is_table(start.state.rows),
        forall|k: int|
            0 <= k < start.rows.len() ==> session_laws::stores(
                start.state.rows,
                #[trigger] start.rows[k],
            ),
        pass_holds(start, pass, done, discover),
        !done.contains(host),
    ensures
        pass_holds(
            start,
            reconcile::gathering_one(pass, later, discovering, discover, host),
            done.push(host),
            discover,
        ),
{
    let from = start.state.log.len() as int;
    let first = start.errors.len() as int;
    let after = reconcile::gathering_one(pass, later, discovering, discover, host);
    let outcome = after.outcomes.last();
    assert(!was_named(pass.state.log, from, host)) by {
        if was_named(pass.state.log, from, host) {
            let n = choose|n: int|
                from <= n < pass.state.log.len() && #[trigger] pass.state.log[n] is Instance
                    && pass.state.log[n].host() == host;
            assert(done.contains(pass.state.log[n].host()));
        }
    }
    assert forall|n: int, instance: Option<Seq<char>>, ids: Seq<Seq<char>>| !(#[trigger] says_alive(
        pass.state.log,
        from,
        n,
        host,
        instance,
        ids,
    )) by {
        if says_alive(pass.state.log, from, n, host, instance, ids) {
            assert(pass.state.log[n] is ListSessions);
            assert(done.contains(pass.state.log[n].host()));
        }
    }
    if !reconcile::anything_to_probe(pass.rows, host) && !discovering.contains(host) {
        assert(after.outcomes == pass.outcomes.push(outcome));
        lemma_share_added(start, pass, after, done, discover, host, outcome);
    } else {
        session_laws::lemma_reached(pass.state, later, host);
        let (reached, connected) = replay::connect(pass.state, later, host);
        if connected is Err {
            assert(after.outcomes == pass.outcomes.push(outcome));
            assert(after.errors[pass.errors.len() as int].0 == daemon::host_name(host));
            assert(has_line(after.errors, first, host));
            lemma_share_added(start, pass, after, done, discover, host, outcome);
        } else {
            let (named, instance) = replay::instance(reached, later, host);
            let asked_at = pass.state.log.len() as int;
            assert(named.log[asked_at] is Instance && named.log[asked_at].host() == host);
            assert(was_named(named.log, from, host));
            let known = Gathered { state: named, ..pass };
            let key = daemon::key_of(instance, host);
            assert(rows_derive(pass.state.rows, pass.state.rows, host));
            if !discover {
                lemma_asking_live(
                    start,
                    pass,
                    known,
                    later,
                    done,
                    discover,
                    host,
                    key,
                    None,
                    instance,
                );
                lemma_named_stays(named.log, after.state.log, from);
                lemma_refreshed(
                    start,
                    pass,
                    done,
                    discover,
                    pass.state.rows,
                    Seq::empty(),
                    host,
                    after.state.log,
                );
                lemma_share_added(start, pass, after, done, discover, host, outcome);
            } else {
                lemma_gathering_discovering(start, pass, named, later, done, host);
            }
        }
    }
}

proof fn lemma_prefix(a: Seq<Exchange>, b: Seq<Exchange>, c: Seq<Exchange>)
    requires
        a.is_prefix_of(b),
        b.is_prefix_of(c),
    ensures
        a.is_prefix_of(c),
        forall|n: int| 0 <= n < a.len() ==> c[n] == #[trigger] a[n],
        forall|n: int| 0 <= n < b.len() ==> #[trigger] c[n] == b[n],
{
    assert forall|n: int| 0 <= n < b.len() implies #[trigger] c[n] == b[n] by {
        assert(c.subrange(0, b.len() as int)[n] == c[n]);
    }
    assert forall|n: int| 0 <= n < a.len() implies c[n] == #[trigger] a[n] by {
        assert(b.subrange(0, a.len() as int)[n] == b[n]);
    }
    assert(a =~= c.subrange(0, a.len() as int));
}

/// The share of a host that was reached, in a pass that discovers.
proof fn lemma_gathering_discovering(
    start: Gathered,
    pass: Gathered,
    named: ServiceView,
    later: ServiceView,
    done: Seq<Option<Seq<char>>>,
    host: Option<Seq<char>>,
)
    requires
        registry::is_table(start.state.rows),
        forall|k: int|
            0 <= k < start.rows.len() ==> session_laws::stores(
                start.state.rows,
                #[trigger] start.rows[k],
            ),
        pass_holds(start, pass, done, true),
        !done.contains(host),
        ({
            let (reached, connected) = replay::connect(pass.state, later, host);
            connected is Ok && named == replay::instance(reached, later, host).0
        }),
    ensures
        ({
            let (reached, connected) = replay::connect(pass.state, later, host);
            pass_holds(
                start,
                reconcile::asking_host(Gathered { state: reached, ..pass }, later, true, host),
                done.push(host),
                true,
            )
        }),
{
    let discover = true;
    let from = start.state.log.len() as int;
    let first = start.errors.len() as int;
    let (reached, connected) = replay::connect(pass.state, later, host);
    let (_, instance) = replay::instance(reached, later, host);
    let after = reconcile::asking_host(Gathered { state: reached, ..pass }, later, true, host);
    let outcome = after.outcomes.last();
    let asked_at = pass.state.log.len() as int;
    assert(named.log =~= pass.state.log.push(Exchange::Instance { host, reply: instance }));
    assert(pass.state.log.is_prefix_of(named.log));
    assert(named.log[asked_at] is Instance && named.log[asked_at].host() == host);
    assert(was_named(named.log, from, host));
    assert(named.rows == pass.state.rows);
    lemma_listing_host(named, later, host);
    let run = listing::listing_host(named, later, host);
    lemma_prefix(pass.state.log, named.log, run.state.log);
    lemma_named_stays(named.log, run.state.log, from);
    assert forall|n: int| pass.state.log.len() <= n < run.state.log.len() implies (
    #[trigger] run.state.log[n]).host() == host && !(run.state.log[n] is ListSessions) by {
        if n < named.log.len() {
            assert(run.state.log[n] == named.log[n]);
        }
    }
    match run.result {
        Err(failure) => {
            lemma_refreshed(
                start,
                pass,
                done,
                discover,
                run.state.rows,
                Seq::empty(),
                host,
                run.state.log,
            );
            assert(after.errors[pass.errors.len() as int].0 == daemon::host_name(host));
            assert(has_line(after.errors, first, host));
            assert(after.outcomes =~= pass.outcomes.push(outcome));
            assert forall|n: int, instance: Option<Seq<char>>, ids: Seq<Seq<char>>| !(
            #[trigger] says_alive(run.state.log, from, n, host, instance, ids)) by {
                if says_alive(run.state.log, from, n, host, instance, ids) {
                    assert(run.state.log[n] is ListSessions);
                    assert(n < pass.state.log.len());
                    assert(run.state.log[n] == pass.state.log[n]);
                    assert(done.contains(pass.state.log[n].host()));
                }
            }
            lemma_share_added(start, pass, after, done, discover, host, outcome);
        },
        Ok(listed) => {
            let between = Gathered {
                state: run.state,
                rows: reconcile::refreshed(pass.rows, listed.rows),
                ..pass
            };
            let name = choose|name: Option<Seq<char>>|
                listed.key == daemon::key_of(name, host) && #[trigger] was_listed_as(
                    run.state.log,
                    named.log.len() as int,
                    run.state.log.len() as int,
                    host,
                    name,
                );
            lemma_listed_once(
                run.state.log,
                pass.state.log.len() as int,
                named.log.len() as int,
                run.state.log.len() as int,
                host,
                name,
                name,
            );
            lemma_asking_live(
                start,
                pass,
                between,
                later,
                done,
                discover,
                host,
                listed.key,
                Some(listed.held),
                name,
            );
            lemma_prefix(pass.state.log, run.state.log, after.state.log);
            lemma_named_stays(run.state.log, after.state.log, from);
            lemma_refreshed(
                start,
                pass,
                done,
                discover,
                run.state.rows,
                listed.rows,
                host,
                after.state.log,
            );
            assert forall|n: int| pass.state.log.len() <= n < after.state.log.len() implies (
            #[trigger] after.state.log[n]).host() == host by {
                if n < run.state.log.len() {
                    assert(after.state.log[n] == run.state.log[n]);
                }
            }
            lemma_share_added(start, pass, after, done, discover, host, outcome);
        },
    }
}

proof fn lemma_gathering(
    start: Gathered,
    later: ServiceView,
    discovering: Seq<Option<Seq<char>>>,
    discover: bool,
    hosts: Seq<Option<Seq<char>>>,
)
    requires
        registry::is_table(start.state.rows),
        forall|k: int|
            0 <= k < start.rows.len() ==> session_laws::stores(
                start.state.rows,
                #[trigger] start.rows[k],
            ),
        start.outcomes.len() == 0,
        hosts.no_duplicates(),
    ensures
        pass_holds(
            start,
            reconcile::gathering(start, later, discovering, discover, hosts),
            hosts,
            discover,
        ),
    decreases hosts.len(),
{
    if hosts.len() == 0 {
        let from = start.state.log.len() as int;
        assert forall|k: int, j: int|
            #![trigger start.rows[k], start.state.rows[j]]
            0 <= k < start.rows.len() && 0 <= j < start.state.rows.len()
                && start.state.rows[j].workspace.id
                == start.rows[k].id implies start.state.rows[j].workspace.remote_host
            == start.rows[k].remote_host by {
            let i = choose|i: int|
                0 <= i < start.state.rows.len() && (#[trigger] start.state.rows[i]).workspace
                    == start.rows[k];
            if i < j {
                assert(start.state.rows[i].workspace.id != start.state.rows[j].workspace.id);
            } else if j < i {
                assert(start.state.rows[j].workspace.id != start.state.rows[i].workspace.id);
            }
        }
    } else {
        let rest = hosts.drop_last();
        assert(!rest.contains(hosts.last())) by {
            if rest.contains(hosts.last()) {
                let k = choose|k: int| 0 <= k < rest.len() && rest[k] == hosts.last();
                assert(hosts[k] == hosts[hosts.len() - 1]);
            }
        }
        lemma_gathering(start, later, discovering, discover, rest);
        let pass = reconcile::gathering(start, later, discovering, discover, rest);
        lemma_gathering_one(start, pass, later, discovering, discover, rest, hosts.last());
        assert(rest.push(hosts.last()) =~= hosts);
    }
}

/// What a verdict on a row says of its status and of what its host said, since an
/// earlier time.
///
/// A session that its daemon listed as alive is running, one that it listed
/// without is disconnected. Where the host gave no answer that counts, or gave
/// one from another daemon than the row's, the row keeps the status it had.
pub open spec fn is_justified(
    before: ServiceView,
    after: ServiceView,
    discover: bool,
    errors: Seq<(Seq<char>, Seq<char>)>,
    had: WorkspaceStatus,
    workspace: WorkspaceView,
    verdict: SessionState,
) -> bool {
    let host = workspace.remote_host;
    let from = before.log.len() as int;
    match (workspace.terminal_session_id, verdict) {
        (None, SessionState::NeverCreated) => workspace.status == had,
        (Some(session), SessionState::Alive) => {
            &&& workspace.status == WorkspaceStatus::Running
            &&& lists_session(after.log, from, discover, workspace, session, true)
        },
        (Some(session), SessionState::Dead) => {
            &&& workspace.status == WorkspaceStatus::Disconnected
            &&& lists_session(after.log, from, discover, workspace, session, false)
        },
        (Some(_), SessionState::Unknown) => {
            &&& workspace.status == had
            &&& forall|n: int, instance: Option<Seq<char>>, ids: Seq<Seq<char>>| #[trigger]
                says_alive(after.log, from, n, host, instance, ids) ==> !(counts(
                    after.log,
                    from,
                    n,
                    discover,
                    host,
                    instance,
                ) && daemon::on_daemon(workspace, daemon::key_of(instance, host), host))
            &&& has_line(errors, before.status_errors.len() as int, host) || exists|
                n: int,
                instance: Option<Seq<char>>,
                ids: Seq<Seq<char>>,
            | #[trigger] says_alive(after.log, from, n, host, instance, ids)
        },
        _ => false,
    }
}

/// Whether the daemon of a workspace answered what is alive, in an answer that
/// counts, with the session among it or without.
pub open spec fn lists_session(
    log: Seq<Exchange>,
    from: int,
    discover: bool,
    workspace: WorkspaceView,
    session: Seq<char>,
    alive: bool,
) -> bool {
    exists|key: KeyView, ids: Seq<Seq<char>>|
        {
            &&& #[trigger] was_answered(log, from, discover, workspace.remote_host, key, ids)
            &&& daemon::on_daemon(workspace, key, workspace.remote_host)
            &&& ids.contains(session) == alive
        }
}

/// Whether a pass reports a row of the table: the entry is that row, with the
/// status that is stored after the pass, and its verdict is justified.
pub open spec fn is_reported(
    before: ServiceView,
    after: ServiceView,
    discover: bool,
    errors: Seq<(Seq<char>, Seq<char>)>,
    entry: EntryView,
    j: int,
) -> bool {
    &&& entry matches EntryView::Persisted(workspace, verdict)
    &&& is_same_elsewhere(
        WorkspaceView { status: workspace.status, ..before.rows[j].workspace },
        workspace,
    )
    &&& is_same_elsewhere(after.rows[j].workspace, workspace)
    &&& after.rows[j].used_by_client_at == before.rows[j].used_by_client_at
    &&& is_justified(
        before,
        after,
        discover,
        errors,
        before.rows[j].workspace.status,
        workspace,
        verdict,
    )
}

proof fn lemma_with_row_hosts(hosts: Seq<Option<Seq<char>>>, rows: Seq<WorkspaceView>)
    requires
        hosts.no_duplicates(),
    ensures
        reconcile::with_row_hosts(hosts, rows).no_duplicates(),
        forall|k: int|
            0 <= k < rows.len() ==> reconcile::with_row_hosts(hosts, rows).contains(
                (#[trigger] rows[k]).remote_host,
            ),
    decreases rows.len(),
{
    if rows.len() > 0 {
        let rest = rows.drop_last();
        lemma_with_row_hosts(hosts, rest);
        let known = reconcile::with_row_hosts(hosts, rest);
        let all = reconcile::with_row_hosts(hosts, rows);
        let last = rows.last().remote_host;
        if !known.contains(last) {
            assert(all[known.len() as int] == last);
        }
        assert forall|k: int| 0 <= k < rows.len() implies all.contains(
            (#[trigger] rows[k]).remote_host,
        ) by {
            if k < rest.len() {
                assert(rest[k] == rows[k]);
                let i = choose|i: int| 0 <= i < known.len() && known[i] == rest[k].remote_host;
                assert(all[i] == known[i]);
            }
        }
    }
}

/// The live sessions a row is held against are those of its own host's outcome,
/// where that is about its daemon.
proof fn lemma_live_for(outcomes: Seq<OutcomeView>, row: WorkspaceView, at: int)
    requires
        0 <= at < outcomes.len(),
        outcomes[at].host == row.remote_host,
        forall|i: int, j: int|
            0 <= i < j < outcomes.len() ==> (#[trigger] outcomes[i]).host != (
            #[trigger] outcomes[j]).host,
    ensures
        reconcile::live_for(outcomes, row) == (if daemon::on_daemon(
            row,
            outcomes[at].daemon,
            row.remote_host,
        ) {
            outcomes[at].live
        } else {
            None
        }),
    decreases outcomes.len(),
{
    let rest = outcomes.drop_first();
    assert forall|i: int, j: int| 0 <= i < j < rest.len() implies (#[trigger] rest[i]).host != (
    #[trigger] rest[j]).host by {
        assert(outcomes[i + 1].host != outcomes[j + 1].host);
    }
    if at == 0 {
        if !reconcile::is_about(outcomes[0], row) {
            lemma_live_for_none(rest, row);
        }
    } else {
        assert(outcomes[0].host != outcomes[at].host);
        assert(rest[at - 1] == outcomes[at]);
        lemma_live_for(rest, row, at - 1);
    }
}

proof fn lemma_live_for_none(outcomes: Seq<OutcomeView>, row: WorkspaceView)
    ensures
        (forall|i: int| 0 <= i < outcomes.len() ==> (#[trigger] outcomes[i]).host
            != row.remote_host) ==> reconcile::live_for(outcomes, row) is None,
    decreases outcomes.len(),
{
    if outcomes.len() > 0 && (forall|i: int|
        0 <= i < outcomes.len() ==> (#[trigger] outcomes[i]).host != row.remote_host) {
        let rest = outcomes.drop_first();
        assert forall|i: int| 0 <= i < rest.len() implies (#[trigger] rest[i]).host
            != row.remote_host by {
            assert(rest[i] == outcomes[i + 1]);
        }
        assert(outcomes[0].host != row.remote_host);
        lemma_live_for_none(rest, row);
    }
}

/// Whether a table has this workspace at a place, but for what a listing may
/// change of it.
spec fn is_kept_at(rows: Seq<RowView>, at: int, workspace: WorkspaceView) -> bool {
    0 <= at < rows.len() && is_same_elsewhere(rows[at].workspace, workspace)
}

/// Each row is judged by itself, and what is recorded of it is what is answered.
proof fn lemma_judging(
    state: ServiceView,
    outcomes: Seq<OutcomeView>,
    rows: Seq<WorkspaceView>,
    at: Seq<int>,
)
    requires
        registry::is_table(state.rows),
        at.len() == rows.len(),
        forall|k: int|
            #![trigger rows[k]]
            0 <= k < rows.len() ==> is_kept_at(state.rows, at[k], rows[k]),
        forall|i: int, k: int|
            0 <= i < k < rows.len() ==> (#[trigger] rows[i]).id != (#[trigger] rows[k]).id,
    ensures
        ({
            let (after, judged) = reconcile::judging(state, outcomes, rows);
            &&& judged.len() == rows.len()
            &&& registry::is_table(after.rows)
            &&& after.rows.len() == state.rows.len()
            &&& forall|j: int|
                #![trigger after.rows[j]]
                0 <= j < state.rows.len() ==> {
                    &&& after.rows[j].used_by_client_at == state.rows[j].used_by_client_at
                    &&& after.rows[j].workspace == (WorkspaceView {
                        status: after.rows[j].workspace.status,
                        ..state.rows[j].workspace
                    })
                    &&& (forall|k: int|
                        0 <= k < rows.len() ==> (#[trigger] rows[k]).id
                            != state.rows[j].workspace.id) ==> after.rows[j] == state.rows[j]
                }
            &&& forall|k: int|
                #![trigger judged[k]]
                0 <= k < rows.len() ==> {
                    &&& judged[k].0 == (WorkspaceView { status: judged[k].0.status, ..rows[k] })
                    &&& is_same_elsewhere(after.rows[at[k]].workspace, judged[k].0)
                    &&& match rows[k].terminal_session_id {
                        None => judged[k] == (rows[k], SessionState::NeverCreated),
                        Some(session) => match reconcile::live_for(outcomes, rows[k]) {
                            None => judged[k] == (rows[k], SessionState::Unknown),
                            Some(live) => if live.contains(session) {
                                judged[k].1 == SessionState::Alive && judged[k].0.status
                                    == WorkspaceStatus::Running
                            } else {
                                judged[k].1 == SessionState::Dead && judged[k].0.status
                                    == WorkspaceStatus::Disconnected
                            },
                        },
                    }
                }
        }),
    decreases rows.len(),
{
    if rows.len() > 0 {
        let rest = rows.drop_last();
        let row = rows.last();
        let last = rows.len() - 1;
        let fewer = at.drop_last();
        assert forall|k: int|
            #![trigger rest[k]]
            0 <= k < rest.len() implies is_kept_at(state.rows, fewer[k], rest[k]) by {
            assert(rest[k] == rows[k] && fewer[k] == at[k]);
        }
        assert forall|i: int, k: int| 0 <= i < k < rest.len() implies (#[trigger] rest[i]).id != (
        #[trigger] rest[k]).id by {
            assert(rows[i].id != rows[k].id);
        }
        lemma_judging(state, outcomes, rest, fewer);
        let (before, judged) = reconcile::judging(state, outcomes, rest);
        let (after, one) = reconcile::judging_one(before, outcomes, row);
        let j = at[last];
        assert(is_kept_at(state.rows, j, rows[last]));
        assert(before.rows[j] == state.rows[j]) by {
            assert forall|k: int| 0 <= k < rest.len() implies (#[trigger] rest[k]).id
                != state.rows[j].workspace.id by {
                assert(rest[k] == rows[k]);
                assert(rows[k].id != rows[last].id);
            }
        }
        registry::lemma_position_is(before.rows, row.id, j);
        let status = one.0.status;
        let change = registry::status_change(status);
        session_laws::lemma_record_is_free(before.rows, j, change(before.rows[j]));
        registry::lemma_update_keeps_the_rules(before.rows, j, change(before.rows[j]));
        assert(after.rows == before.rows || after.rows == before.rows.update(
            j,
            change(before.rows[j]),
        ));
        assert(is_same_elsewhere(after.rows[j].workspace, one.0));
        assert forall|i: int|
            #![trigger after.rows[i]]
            0 <= i < state.rows.len() implies {
            &&& after.rows[i].used_by_client_at == state.rows[i].used_by_client_at
            &&& after.rows[i].workspace == (WorkspaceView {
                status: after.rows[i].workspace.status,
                ..state.rows[i].workspace
            })
            &&& (forall|k: int|
                0 <= k < rows.len() ==> (#[trigger] rows[k]).id != state.rows[i].workspace.id)
                ==> after.rows[i] == state.rows[i]
        } by {
            assert(before.rows[i].used_by_client_at == state.rows[i].used_by_client_at);
            if forall|k: int|
                0 <= k < rows.len() ==> (#[trigger] rows[k]).id != state.rows[i].workspace.id {
                assert(rows[last].id != state.rows[i].workspace.id);
                assert forall|k: int| 0 <= k < rest.len() implies (#[trigger] rest[k]).id
                    != state.rows[i].workspace.id by {
                    assert(rest[k] == rows[k]);
                }
            }
        }
        let all = judged.push(one);
        assert forall|k: int|
            #![trigger all[k]]
            0 <= k < rows.len() implies {
            &&& all[k].0 == (WorkspaceView { status: all[k].0.status, ..rows[k] })
            &&& is_same_elsewhere(after.rows[at[k]].workspace, all[k].0)
            &&& match rows[k].terminal_session_id {
                None => all[k] == (rows[k], SessionState::NeverCreated),
                Some(session) => match reconcile::live_for(outcomes, rows[k]) {
                    None => all[k] == (rows[k], SessionState::Unknown),
                    Some(live) => if live.contains(session) {
                        all[k].1 == SessionState::Alive && all[k].0.status
                            == WorkspaceStatus::Running
                    } else {
                        all[k].1 == SessionState::Dead && all[k].0.status
                            == WorkspaceStatus::Disconnected
                    },
                },
            }
        } by {
            if k < last {
                assert(all[k] == judged[k]);
                assert(rest[k] == rows[k]);
                assert(fewer[k] == at[k]);
                assert(rows[k].id != rows[last].id);
                assert(is_kept_at(state.rows, at[k], rows[k]));
                assert(at[k] != j);
                assert(after.rows[at[k]] == before.rows[at[k]]);
            }
        }
    }
}

/// Sorting outcomes, rows or hosts keeps what is true of any two of them.
proof fn lemma_sorted<T: order::Ranked>(items: Seq<T::V>) -> (by: Seq<int>)
    ensures
        order::ranked::<T>(items).len() == items.len(),
        by.len() == items.len(),
        forall|k: int|
            #![trigger by[k]]
            0 <= k < items.len() ==> 0 <= by[k] < items.len() && order::ranked::<T>(items)[k]
                == items[by[k]],
        forall|i: int, k: int|
            0 <= i < k < by.len() ==> #[trigger] by[i] != #[trigger] by[k],
{
    order::lemma_ranked_is_sorted::<T>(items);
    let sorted = order::ranked::<T>(items);
    let by = choose|by: Seq<int>| order::sorts(items, sorted, by, order::rank_of::<T>());
    assert forall|k: int|
        #![trigger by[k]]
        0 <= k < items.len() implies 0 <= by[k] < items.len() && sorted[k] == items[by[k]] by {
        assert(sorted[k] == items[by[k]]);
    }
    by
}

/// The rows a listing has are rows of the table, each at a place of its own.
pub proof fn lemma_listed_places(rows: Seq<RowView>, keep: spec_fn(RowView) -> bool) -> (at: Seq<int>)
    requires
        registry::is_table(rows),
    ensures
        at.len() == registry::listing(rows, keep).len(),
        forall|k: int|
            #![trigger at[k]]
            0 <= k < at.len() ==> 0 <= at[k] < rows.len() && rows[at[k]].workspace
                == registry::listing(rows, keep)[k] && keep(rows[at[k]]),
        forall|i: int, k: int| 0 <= i < k < at.len() ==> #[trigger] at[i] != #[trigger] at[k],
{
    let kept = rows.filter(keep);
    let plain = registry::workspaces_where(rows, keep);
    let places = lemma_kept_places(rows, keep);
    let by = lemma_sorted::<AdeWorkspace>(plain);
    let at = Seq::new(by.len(), |k: int| places[by[k]]);
    assert forall|k: int|
        #![trigger at[k]]
        0 <= k < at.len() implies 0 <= at[k] < rows.len() && rows[at[k]].workspace
        == registry::listing(rows, keep)[k] && keep(rows[at[k]]) by {
        assert(0 <= by[k] < plain.len());
        assert(0 <= places[by[k]] < rows.len());
    }
    assert forall|i: int, k: int| 0 <= i < k < at.len() implies #[trigger] at[i]
        != #[trigger] at[k] by {
        assert(by[i] != by[k]);
        assert(0 <= by[i] < plain.len() && 0 <= by[k] < plain.len());
        if by[i] < by[k] {
            assert(places[by[i]] < places[by[k]]);
        } else {
            assert(places[by[k]] < places[by[i]]);
        }
    }
    at
}

proof fn lemma_kept_places(rows: Seq<RowView>, keep: spec_fn(RowView) -> bool) -> (at: Seq<int>)
    ensures
        at.len() == rows.filter(keep).len(),
        forall|k: int|
            #![trigger at[k]]
            0 <= k < at.len() ==> 0 <= at[k] < rows.len() && rows[at[k]] == rows.filter(keep)[k]
                && keep(rows[at[k]]),
        forall|i: int, k: int| 0 <= i < k < at.len() ==> #[trigger] at[i] < #[trigger] at[k],
    decreases rows.len(),
{
    reveal(Seq::filter);
    if rows.len() == 0 {
        Seq::empty()
    } else {
        let rest = rows.drop_last();
        let fewer = lemma_kept_places(rest, keep);
        if keep(rows.last()) {
            fewer.push(rows.len() - 1)
        } else {
            fewer
        }
    }
}

/// A pass over the workspaces writes back what it found.
///
/// Every row in scope has one entry, and no other row has. The entry's status is
/// the one that is stored after the pass: running where the row's own daemon
/// listed its session as alive, disconnected where it listed without, and what it
/// was where there was no such answer. Of all else the pass changes at most a
/// row's project and route.
#[verifier::rlimit(40)]
pub proof fn law_a_pass_writes_back_what_each_host_said(
    state: ServiceView,
    later: ServiceView,
    keep: spec_fn(RowView) -> bool,
    discover: bool,
)
    requires
        registry::is_table(state.rows),
        state.hosts.no_duplicates(),
    ensures
        ({
            let rows = registry::listing(state.rows, keep);
            let (after, found) = reconcile::reconciling(state, later, rows, discover);
            &&& state.log.is_prefix_of(after.log)
            &&& registry::is_table(after.rows)
            &&& after.rows.len() == state.rows.len()
            &&& forall|j: int|
                #![trigger after.rows[j]]
                0 <= j < state.rows.len() ==> {
                    &&& after.rows[j].used_by_client_at == state.rows[j].used_by_client_at
                    &&& is_same_elsewhere(
                        WorkspaceView {
                            status: after.rows[j].workspace.status,
                            ..state.rows[j].workspace
                        },
                        after.rows[j].workspace,
                    )
                }
            &&& found.entries.len() >= rows.len()
            &&& !discover ==> found.entries.len() == rows.len()
            &&& forall|k: int|
                #![trigger found.entries[k]]
                0 <= k < found.entries.len() ==> if k < rows.len() {
                    exists|j: int|
                        0 <= j < state.rows.len() && keep(#[trigger] state.rows[j]) && is_reported(
                            state,
                            after,
                            discover,
                            found.host_errors,
                            found.entries[k],
                            j,
                        )
                } else {
                    found.entries[k] is Discovered
                }
            &&& forall|j: int|
                #![trigger state.rows[j]]
                0 <= j < state.rows.len() && keep(state.rows[j]) ==> exists|k: int|
                    0 <= k < rows.len() && is_reported(
                        state,
                        after,
                        discover,
                        found.host_errors,
                        #[trigger] found.entries[k],
                        j,
                    )
            &&& forall|j: int|
                #![trigger after.rows[j]]
                0 <= j < state.rows.len() && !keep(state.rows[j])
                    ==> after.rows[j].workspace.status == state.rows[j].workspace.status
        }),
{
    let rows = registry::listing(state.rows, keep);
    let discovering = reconcile::discovered_hosts(state, discover);
    let hosts = reconcile::with_row_hosts(discovering, rows);
    let start = Gathered { state, rows, errors: state.status_errors, outcomes: Seq::empty() };
    let (after, found) = reconcile::reconciling(state, later, rows, discover);
    lemma_whole_pass(state, later, keep, discover);
    let places = lemma_listed_places(state.rows, keep);
    let pass = reconcile::gathering_all(state, later, rows, discover);
    assert(pass_holds(start, pass, hosts, discover));
    let outcomes = order::ranked::<HostOutcome>(pass.outcomes);
    let ranked = order::ranked::<AdeWorkspace>(pass.rows);
    let by = lemma_sorted::<AdeWorkspace>(pass.rows);
    let at = Seq::new(by.len(), |k: int| places[by[k]]);
    assert forall|k: int|
        #![trigger ranked[k]]
        0 <= k < ranked.len() implies is_kept_at(pass.state.rows, at[k], ranked[k]) by {
        assert(0 <= by[k] < pass.rows.len() && ranked[k] == pass.rows[by[k]]);
        assert(0 <= places[by[k]] < state.rows.len());
        assert(is_same_elsewhere(rows[by[k]], pass.rows[by[k]]));
        assert(is_same_elsewhere(
            state.rows[places[by[k]]].workspace,
            pass.state.rows[places[by[k]]].workspace,
        ));
    }
    assert forall|i: int, k: int| 0 <= i < k < ranked.len() implies (#[trigger] ranked[i]).id != (
    #[trigger] ranked[k]).id by {
        assert(by[i] != by[k]);
        assert(0 <= by[i] < rows.len() && 0 <= by[k] < rows.len());
        let (a, b) = (places[by[i]], places[by[k]]);
        assert(a != b) by {
            if by[i] < by[k] {
                assert(places[by[i]] != places[by[k]]);
            } else {
                assert(places[by[k]] != places[by[i]]);
            }
        }
        assert(is_same_elsewhere(rows[by[i]], pass.rows[by[i]]));
        assert(is_same_elsewhere(rows[by[k]], pass.rows[by[k]]));
        if a < b {
            assert(state.rows[a].workspace.id != state.rows[b].workspace.id);
        } else {
            assert(state.rows[b].workspace.id != state.rows[a].workspace.id);
        }
    }
    lemma_judging(pass.state, outcomes, ranked, at);
    let (judged_state, judged) = reconcile::judging(pass.state, outcomes, ranked);
    reconcile::lemma_judging_asks_nothing(pass.state, outcomes, ranked);
    assert(after == judged_state);
    assert forall|j: int|
        #![trigger after.rows[j]]
        0 <= j < state.rows.len() implies after.rows[j].used_by_client_at
        == state.rows[j].used_by_client_at && is_same_elsewhere(
        WorkspaceView { status: after.rows[j].workspace.status, ..state.rows[j].workspace },
        after.rows[j].workspace,
    ) by {
        assert(is_same_elsewhere(state.rows[j].workspace, pass.state.rows[j].workspace));
    }
    assert forall|k: int| 0 <= k < rows.len() implies is_reported(
        state,
        after,
        discover,
        found.host_errors,
        #[trigger] found.entries[k],
        at[k],
    ) && keep(state.rows[at[k]]) by {
        let (w, verdict) = judged[k];
        assert(found.entries[k] == EntryView::Persisted(w, verdict));
        assert(0 <= by[k] < rows.len() && ranked[k] == pass.rows[by[k]]);
        let row = pass.rows[by[k]];
        assert(is_same_elsewhere(rows[by[k]], row));
        assert(rows[by[k]] == state.rows[at[k]].workspace) by {
            assert(state.rows[places[by[k]]].workspace == rows[by[k]]);
        }
        assert(after.rows[at[k]].used_by_client_at
            == pass.state.rows[at[k]].used_by_client_at);
        assert(pass.state.rows[at[k]].used_by_client_at
            == state.rows[at[k]].used_by_client_at);
        assert(hosts.contains(rows[by[k]].remote_host));
        lemma_row_is_justified(start, pass, hosts, discover, after, by[k], w, verdict);
    }
    assert forall|k: int|
        #![trigger found.entries[k]]
        0 <= k < found.entries.len() implies if k < rows.len() {
        exists|j: int|
            0 <= j < state.rows.len() && keep(#[trigger] state.rows[j]) && is_reported(
                state,
                after,
                discover,
                found.host_errors,
                found.entries[k],
                j,
            )
    } else {
        found.entries[k] is Discovered
    } by {
        if k < rows.len() {
            assert(0 <= by[k] < rows.len());
            assert(0 <= places[by[k]] < state.rows.len());
            assert(keep(state.rows[at[k]]));
        }
    }
    session_laws::lemma_listing(state.rows, keep);
    assert forall|j: int|
        #![trigger state.rows[j]]
        0 <= j < state.rows.len() && keep(state.rows[j]) implies exists|k: int|
        0 <= k < rows.len() && is_reported(
            state,
            after,
            discover,
            found.host_errors,
            #[trigger] found.entries[k],
            j,
        ) by {
        assert(rows.contains(state.rows[j].workspace));
        let i = choose|i: int| 0 <= i < rows.len() && rows[i] == state.rows[j].workspace;
        assert(state.rows[places[i]].workspace == rows[i]);
        assert(places[i] == j) by {
            if places[i] < j {
                assert(state.rows[places[i]].workspace.id != state.rows[j].workspace.id);
            } else if j < places[i] {
                assert(state.rows[j].workspace.id != state.rows[places[i]].workspace.id);
            }
        }
        let k = lemma_place_of(by, rows.len() as int, i);
        assert(at[k] == j);
        assert(is_reported(state, after, discover, found.host_errors, found.entries[k], at[k]));
    }
    assert forall|j: int|
        #![trigger after.rows[j]]
        0 <= j < state.rows.len() && !keep(state.rows[j]) implies after.rows[j].workspace.status
        == state.rows[j].workspace.status by {
        assert(is_same_elsewhere(state.rows[j].workspace, pass.state.rows[j].workspace));
        assert forall|k: int| 0 <= k < ranked.len() implies (#[trigger] ranked[k]).id
            != pass.state.rows[j].workspace.id by {
            assert(is_kept_at(pass.state.rows, at[k], ranked[k]));
            assert(0 <= by[k] < rows.len());
            assert(keep(state.rows[places[by[k]]]));
            assert(at[k] != j);
            if at[k] < j {
                assert(pass.state.rows[at[k]].workspace.id != pass.state.rows[j].workspace.id);
            } else {
                assert(pass.state.rows[j].workspace.id != pass.state.rows[at[k]].workspace.id);
            }
        }
    }
}

/// What a pass says of one row is justified by what the row's host said.
proof fn lemma_row_is_justified(
    start: Gathered,
    pass: Gathered,
    hosts: Seq<Option<Seq<char>>>,
    discover: bool,
    after: ServiceView,
    k: int,
    w: WorkspaceView,
    verdict: SessionState,
)
    requires
        pass_holds(start, pass, hosts, discover),
        hosts.no_duplicates(),
        0 <= k < pass.rows.len(),
        hosts.contains(start.rows[k].remote_host),
        start.errors == start.state.status_errors,
        after.log == pass.state.log,
        w == (WorkspaceView { status: w.status, ..pass.rows[k] }),
        match pass.rows[k].terminal_session_id {
            None => (w, verdict) == (pass.rows[k], SessionState::NeverCreated),
            Some(session) => match reconcile::live_for(
                order::ranked::<HostOutcome>(pass.outcomes),
                pass.rows[k],
            ) {
                None => (w, verdict) == (pass.rows[k], SessionState::Unknown),
                Some(live) => if live.contains(session) {
                    verdict == SessionState::Alive && w.status == WorkspaceStatus::Running
                } else {
                    verdict == SessionState::Dead && w.status == WorkspaceStatus::Disconnected
                },
            },
        },
    ensures
        is_justified(start.state, after, discover, pass.errors, pass.rows[k].status, w, verdict),
{
    let row = pass.rows[k];
    let log = pass.state.log;
    let from = start.state.log.len() as int;
    let first = start.errors.len() as int;
    if let Some(session) = row.terminal_session_id {
        assert(hosts.contains(row.remote_host)) by {
            if row.remote_host != start.rows[k].remote_host {
                assert(was_named(log, from, row.remote_host));
                let n = choose|n: int|
                    from <= n < log.len() && #[trigger] log[n] is Instance && log[n].host()
                        == row.remote_host;
                assert(hosts.contains(log[n].host()));
            }
        }
        let i = choose|i: int| 0 <= i < hosts.len() && hosts[i] == row.remote_host;
        let outcome = pass.outcomes[i];
        assert(outcome.host == row.remote_host);
        lemma_live_of(pass.outcomes, hosts, row, i);
        assert(is_told(log, from, pass.errors, first, discover, outcome));
        if outcome.live is Some {
            assert(pass.rows[k].terminal_session_id is Some);
            assert(was_named(log, from, row.remote_host));
        }
        lemma_verdict(log, from, pass.errors, first, discover, outcome, row, session);
        if let Some(ids) = outcome.live {
            if daemon::on_daemon(row, outcome.daemon, row.remote_host) {
                lemma_same_lists(log, from, discover, row, w, session, ids.contains(session));
            }
        }
    }
}

/// A row is held against the outcome of its own host, wherever that is sorted.
proof fn lemma_live_of(
    outcomes: Seq<OutcomeView>,
    hosts: Seq<Option<Seq<char>>>,
    row: WorkspaceView,
    i: int,
)
    requires
        hosts.no_duplicates(),
        outcomes.len() == hosts.len(),
        forall|j: int| 0 <= j < hosts.len() ==> (#[trigger] outcomes[j]).host == hosts[j],
        0 <= i < hosts.len(),
        hosts[i] == row.remote_host,
    ensures
        reconcile::live_for(order::ranked::<HostOutcome>(outcomes), row) == (
        if daemon::on_daemon(row, outcomes[i].daemon, row.remote_host) {
            outcomes[i].live
        } else {
            None
        }),
{
    let sorted = order::ranked::<HostOutcome>(outcomes);
    let order_of = lemma_sorted::<HostOutcome>(outcomes);
    assert forall|a: int, b: int| 0 <= a < b < sorted.len() implies (#[trigger] sorted[a]).host
        != (#[trigger] sorted[b]).host by {
        assert(order_of[a] != order_of[b]);
        assert(outcomes[order_of[a]].host == hosts[order_of[a]]);
        assert(outcomes[order_of[b]].host == hosts[order_of[b]]);
    }
    let place = lemma_place_of(order_of, outcomes.len() as int, i);
    assert(sorted[place] == outcomes[order_of[place]]);
    lemma_live_for(sorted, row, place);
}

proof fn lemma_same_lists(
    log: Seq<Exchange>,
    from: int,
    discover: bool,
    row: WorkspaceView,
    other: WorkspaceView,
    session: Seq<char>,
    alive: bool,
)
    requires
        lists_session(log, from, discover, row, session, alive),
        other == (WorkspaceView { status: other.status, ..row }),
    ensures
        lists_session(log, from, discover, other, session, alive),
{
    let (key, ids) = choose|key: KeyView, ids: Seq<Seq<char>>|
        {
            &&& #[trigger] was_answered(log, from, discover, row.remote_host, key, ids)
            &&& daemon::on_daemon(row, key, row.remote_host)
            &&& ids.contains(session) == alive
        };
    assert(was_answered(log, from, discover, other.remote_host, key, ids));
}

/// What an outcome says of a row on its host.
proof fn lemma_verdict(
    log: Seq<Exchange>,
    from: int,
    errors: Seq<(Seq<char>, Seq<char>)>,
    first: int,
    discover: bool,
    outcome: OutcomeView,
    row: WorkspaceView,
    session: Seq<char>,
)
    requires
        is_told(log, from, errors, first, discover, outcome),
        outcome.host == row.remote_host,
        outcome.live is Some ==> was_named(log, from, row.remote_host),
    ensures
        match outcome.live {
            Some(ids) => if daemon::on_daemon(row, outcome.daemon, row.remote_host) {
                lists_session(log, from, discover, row, session, ids.contains(session))
            } else {
                &&& forall|n: int, instance: Option<Seq<char>>, found: Seq<Seq<char>>| #[trigger]
                    says_alive(log, from, n, row.remote_host, instance, found)
                        ==> !daemon::on_daemon(
                        row,
                        daemon::key_of(instance, row.remote_host),
                        row.remote_host,
                    )
                &&& exists|n: int, instance: Option<Seq<char>>, found: Seq<Seq<char>>| #[trigger]
                    says_alive(log, from, n, row.remote_host, instance, found)
            },
            None => {
                &&& forall|n: int, instance: Option<Seq<char>>, found: Seq<Seq<char>>| #[trigger]
                    says_alive(log, from, n, row.remote_host, instance, found) ==> !counts(
                        log,
                        from,
                        n,
                        discover,
                        row.remote_host,
                        instance,
                    )
                &&& has_line(errors, first, row.remote_host) || exists|
                    n: int,
                    instance: Option<Seq<char>>,
                    found: Seq<Seq<char>>,
                | #[trigger] says_alive(log, from, n, row.remote_host, instance, found)
            },
        },
{
    let host = row.remote_host;
    if let Some(ids) = outcome.live {
        assert(was_answered(log, from, discover, host, outcome.daemon, ids));
        let (n, instance) = choose|n: int, instance: Option<Seq<char>>|
            {
                &&& #[trigger] says_alive(log, from, n, host, instance, ids)
                &&& outcome.daemon == daemon::key_of(instance, host)
                &&& counts(log, from, n, discover, host, instance)
                &&& is_asked_once(log, from, n, host)
            };
        assert forall|x: int, other: Option<Seq<char>>, found: Seq<Seq<char>>| #[trigger]
            says_alive(log, from, x, host, other, found) implies other == instance by {
            assert(log[x] is ListSessions && log[x].host() == host);
            assert(x == n);
        }
    }
}

/// Every place is the place of something.
proof fn lemma_place_of(by: Seq<int>, len: int, i: int) -> (k: int)
    requires
        by.len() == len,
        0 <= i < len,
        forall|k: int| #![trigger by[k]] 0 <= k < len ==> 0 <= by[k] < len,
        forall|a: int, b: int| 0 <= a < b < len ==> #[trigger] by[a] != #[trigger] by[b],
    ensures
        0 <= k < len,
        by[k] == i,
{
    order::lemma_arrangement_reaches(by, len, i)
}

/// What holds of a pass once every host has been asked.
proof fn lemma_whole_pass(
    state: ServiceView,
    later: ServiceView,
    keep: spec_fn(RowView) -> bool,
    discover: bool,
)
    requires
        registry::is_table(state.rows),
        state.hosts.no_duplicates(),
    ensures
        ({
            let rows = registry::listing(state.rows, keep);
            let discovering = reconcile::discovered_hosts(state, discover);
            let hosts = reconcile::with_row_hosts(discovering, rows);
            let start = Gathered {
                state,
                rows,
                errors: state.status_errors,
                outcomes: Seq::empty(),
            };
            &&& hosts.no_duplicates()
            &&& forall|k: int|
                0 <= k < rows.len() ==> hosts.contains((#[trigger] rows[k]).remote_host)
            &&& pass_holds(
                start,
                reconcile::gathering_all(state, later, rows, discover),
                hosts,
                discover,
            )
        }),
{
    let rows = registry::listing(state.rows, keep);
    let discovering = reconcile::discovered_hosts(state, discover);
    let hosts = reconcile::with_row_hosts(discovering, rows);
    let start = Gathered { state, rows, errors: state.status_errors, outcomes: Seq::empty() };
    assert(discovering.no_duplicates()) by {
        if discover {
            let by = lemma_sorted::<Option<String>>(state.hosts);
            assert forall|i: int, k: int|
                0 <= i < k < discovering.len() implies #[trigger] discovering[i]
                != #[trigger] discovering[k] by {
                assert(by[i] != by[k]);
                assert(state.hosts[by[i]] != state.hosts[by[k]]);
            }
        }
    }
    lemma_with_row_hosts(discovering, rows);
    let places = lemma_listed_places(state.rows, keep);
    assert forall|k: int| 0 <= k < rows.len() implies session_laws::stores(
        state.rows,
        #[trigger] rows[k],
    ) by {
        assert(state.rows[places[k]].workspace == rows[k]);
    }
    lemma_gathering(start, later, discovering, discover, hosts);
}

/// What one host's share adds, whatever the pass is: a line, or the question who
/// the host is, where the host is one to ask.
proof fn lemma_asked(
    pass: Gathered,
    later: ServiceView,
    discovering: Seq<Option<Seq<char>>>,
    discover: bool,
    host: Option<Seq<char>>,
    from: int,
    first: int,
)
    requires
        0 <= from <= pass.state.log.len(),
        0 <= first <= pass.errors.len(),
    ensures
        ({
            let after = reconcile::gathering_one(pass, later, discovering, discover, host);
            &&& pass.state.log.is_prefix_of(after.state.log)
            &&& pass.errors.is_prefix_of(after.errors)
            &&& after.outcomes == pass.outcomes.push(after.outcomes.last())
            &&& after.outcomes.last().host == host
            &&& after.outcomes.last().held is Some ==> was_named(after.state.log, from, host)
            &&& discovering.contains(host) ==> was_named(after.state.log, from, host) || has_line(
                after.errors,
                first,
                host,
            )
        }),
{
    let after = reconcile::gathering_one(pass, later, discovering, discover, host);
    let (reached, connected) = replay::connect(pass.state, later, host);
    let at = pass.state.log.len() as int;
    if !reconcile::anything_to_probe(pass.rows, host) && !discovering.contains(host) {
    } else if connected is Err {
        assert(after.errors[pass.errors.len() as int].0 == daemon::host_name(host));
    } else {
        let (named, instance) = replay::instance(reached, later, host);
        assert(named.log[at] is Instance && named.log[at].host() == host);
        lemma_listing_host(named, later, host);
        let listed = listing::listing_host(named, later, host);
        assert(listed.state.log[at] == named.log[at]);
        assert(after.state.log[at] == named.log[at]);
        assert(was_named(after.state.log, from, host));
        lemma_prefix(pass.state.log, named.log, listed.state.log);
        if !discover || listed.result is Ok {
            let before = if discover {
                listed.state
            } else {
                named
            };
            assert(before.log.is_prefix_of(after.state.log));
            lemma_prefix(pass.state.log, before.log, after.state.log);
        }
        assert(pass.state.log.is_prefix_of(after.state.log));
        assert(pass.errors.is_prefix_of(after.errors));
        assert(after.outcomes == pass.outcomes.push(after.outcomes.last()));
    }
}

proof fn lemma_all_asked(
    start: Gathered,
    later: ServiceView,
    discovering: Seq<Option<Seq<char>>>,
    discover: bool,
    hosts: Seq<Option<Seq<char>>>,
)
    requires
        start.outcomes.len() == 0,
    ensures
        ({
            let pass = reconcile::gathering(start, later, discovering, discover, hosts);
            let from = start.state.log.len() as int;
            let first = start.errors.len() as int;
            &&& start.state.log.is_prefix_of(pass.state.log)
            &&& start.errors.is_prefix_of(pass.errors)
            &&& pass.outcomes.len() == hosts.len()
            &&& forall|j: int|
                #![trigger pass.outcomes[j]]
                0 <= j < hosts.len() ==> {
                    &&& pass.outcomes[j].host == hosts[j]
                    &&& pass.outcomes[j].held is Some ==> was_named(pass.state.log, from, hosts[j])
                    &&& discovering.contains(hosts[j]) ==> was_named(
                        pass.state.log,
                        from,
                        hosts[j],
                    ) || has_line(pass.errors, first, hosts[j])
                }
        }),
    decreases hosts.len(),
{
    if hosts.len() > 0 {
        let rest = hosts.drop_last();
        let from = start.state.log.len() as int;
        let first = start.errors.len() as int;
        lemma_all_asked(start, later, discovering, discover, rest);
        let pass = reconcile::gathering(start, later, discovering, discover, rest);
        let after = reconcile::gathering(start, later, discovering, discover, hosts);
        lemma_asked(pass, later, discovering, discover, hosts.last(), from, first);
        lemma_prefix(start.state.log, pass.state.log, after.state.log);
        lemma_named_stays(pass.state.log, after.state.log, from);
        assert forall|j: int|
            #![trigger after.outcomes[j]]
            0 <= j < hosts.len() implies {
            &&& after.outcomes[j].host == hosts[j]
            &&& after.outcomes[j].held is Some ==> was_named(after.state.log, from, hosts[j])
            &&& discovering.contains(hosts[j]) ==> was_named(after.state.log, from, hosts[j])
                || has_line(after.errors, first, hosts[j])
        } by {
            if j < rest.len() {
                assert(after.outcomes[j] == pass.outcomes[j]);
                assert(rest[j] == hosts[j]);
                if has_line(pass.errors, first, hosts[j]) {
                    let e = choose|e: int|
                        first <= e < pass.errors.len() && (#[trigger] pass.errors[e]).0
                            == daemon::host_name(hosts[j]);
                    assert(after.errors[e] == pass.errors[e]);
                }
            }
        }
    }
}

/// A pass over everything asks every host there is a way to, whether a row names it
/// or not: each was asked who it is, or has a line that says why not.
pub proof fn law_every_known_host_is_asked(
    state: ServiceView,
    later: ServiceView,
    rows: Seq<WorkspaceView>,
    h: int,
)
    requires
        0 <= h < state.hosts.len(),
    ensures
        ({
            let (after, found) = reconcile::reconciling(state, later, rows, true);
            was_named(after.log, state.log.len() as int, state.hosts[h]) || has_line(
                found.host_errors,
                state.status_errors.len() as int,
                state.hosts[h],
            )
        }),
{
    let discovering = reconcile::discovered_hosts(state, true);
    let hosts = reconcile::with_row_hosts(discovering, rows);
    let start = Gathered { state, rows, errors: state.status_errors, outcomes: Seq::empty() };
    lemma_all_asked(start, later, discovering, true, hosts);
    let pass = reconcile::gathering_all(state, later, rows, true);
    reconcile::lemma_judging_asks_nothing(
        pass.state,
        order::ranked::<HostOutcome>(pass.outcomes),
        order::ranked::<AdeWorkspace>(pass.rows),
    );
    let by = lemma_sorted::<Option<String>>(state.hosts);
    let i = lemma_place_of(by, state.hosts.len() as int, h);
    assert(discovering[i] == state.hosts[h]);
    lemma_with_row_hosts_keeps(discovering, rows);
    assert(hosts[i] == discovering[i]);
    assert(discovering.contains(hosts[i]));
    assert(pass.outcomes[i].host == hosts[i]);
}

proof fn lemma_with_row_hosts_keeps(hosts: Seq<Option<Seq<char>>>, rows: Seq<WorkspaceView>)
    ensures
        hosts.is_prefix_of(reconcile::with_row_hosts(hosts, rows)),
    decreases rows.len(),
{
    if rows.len() > 0 {
        lemma_with_row_hosts_keeps(hosts, rows.drop_last());
    }
}

/// A discovery is shown as alive or dead exactly by what its own daemon said in an
/// answer that counts, and no row that is shown stands for it. What nobody could be
/// asked about is shown as unknown.
pub proof fn law_a_discovery_is_what_its_daemon_said(
    state: ServiceView,
    later: ServiceView,
    keep: spec_fn(RowView) -> bool,
    k: int,
)
    requires
        registry::is_table(state.rows),
        state.hosts.no_duplicates(),
        ({
            let rows = registry::listing(state.rows, keep);
            let found = reconcile::reconciling(state, later, rows, true).1;
            rows.len() <= k < found.entries.len()
        }),
    ensures
        ({
            let rows = registry::listing(state.rows, keep);
            let (after, found) = reconcile::reconciling(state, later, rows, true);
            &&& found.entries[k] matches EntryView::Discovered { remote_host, workspace, state: verdict }
            &&& is_said(
                state,
                after,
                remote_host,
                workspace.id,
                verdict,
                found.entries.take(rows.len() as int),
            )
        }),
{
    let rows = registry::listing(state.rows, keep);
    let from = state.log.len() as int;
    let discovering = reconcile::discovered_hosts(state, true);
    let hosts = reconcile::with_row_hosts(discovering, rows);
    let start = Gathered { state, rows, errors: state.status_errors, outcomes: Seq::empty() };
    lemma_whole_pass(state, later, keep, true);
    lemma_all_asked(start, later, discovering, true, hosts);
    let pass = reconcile::gathering_all(state, later, rows, true);
    let outcomes = order::ranked::<HostOutcome>(pass.outcomes);
    let ranked = order::ranked::<AdeWorkspace>(pass.rows);
    let by_row = lemma_sorted::<AdeWorkspace>(pass.rows);
    let (judged_state, judged) = reconcile::judging(pass.state, outcomes, ranked);
    reconcile::lemma_judging_asks_nothing(pass.state, outcomes, ranked);
    lemma_judging_len(pass.state, outcomes, ranked);
    let rendered = reconcile::rendering(outcomes, judged_state.discoveries, judged);
    let shown = order::ranked::<Discovery>(rendered);
    let by = lemma_sorted::<Discovery>(rendered);
    let (after, found) = reconcile::reconciling(state, later, rows, true);
    let i = k - rows.len();
    assert(found.entries[k] == (EntryView::Discovered {
        remote_host: shown[i].remote_host,
        workspace: shown[i].workspace,
        state: shown[i].state,
    }));
    assert(0 <= by[i] < rendered.len() && shown[i] == rendered[by[i]]);
    let at = laws::law_a_used_record_is_no_discovery(
        outcomes,
        judged_state.discoveries,
        judged,
        by[i],
    );
    let outcome = outcomes[at];
    let order_of = lemma_sorted::<HostOutcome>(pass.outcomes);
    assert(0 <= order_of[at] < pass.outcomes.len() && outcome == pass.outcomes[order_of[at]]);
    let j = order_of[at];
    assert(is_told(
        pass.state.log,
        from,
        pass.errors,
        start.errors.len() as int,
        true,
        pass.outcomes[j],
    ));
    let wire_id = shown[i].workspace.id;
    let entries = found.entries.take(rows.len() as int);
    assert forall|m: int|
        0 <= m < entries.len() && (#[trigger] entries[m] matches EntryView::Persisted(row, _)
            && daemon::on_daemon(row, outcome.daemon, outcome.host)) implies (
    entries[m] matches EntryView::Persisted(row, _) && session_laws::wire_id(row) != wire_id) by {
        assert(entries[m] == EntryView::Persisted(judged[m].0, judged[m].1));
        if judged[m].0.daemon_workspace_id() == wire_id {
            assert(reconcile::is_used_by(judged, outcome, wire_id));
        }
    }
    if outcome.held is Some {
        if let Some(ids) = outcome.live {
            assert(was_named(pass.state.log, from, outcome.host));
            assert(was_answered(after.log, from, true, outcome.host, outcome.daemon, ids));
        }
    }
    assert(is_said_by(
        state,
        after,
        outcome.host,
        outcome.daemon,
        wire_id,
        shown[i].state,
        entries,
    ));
}

proof fn lemma_judging_len(
    state: ServiceView,
    outcomes: Seq<OutcomeView>,
    rows: Seq<WorkspaceView>,
)
    ensures
        reconcile::judging(state, outcomes, rows).1.len() == rows.len(),
    decreases rows.len(),
{
    if rows.len() > 0 {
        lemma_judging_len(state, outcomes, rows.drop_last());
    }
}

/// Whether what is shown of a record is what a daemon of its host said, and none of
/// some entries stands for it there.
pub open spec fn is_said_by(
    before: ServiceView,
    after: ServiceView,
    host: Option<Seq<char>>,
    key: KeyView,
    wire_id: Seq<char>,
    verdict: SessionState,
    entries: Seq<EntryView>,
) -> bool {
    let from = before.log.len() as int;
    &&& verdict != SessionState::NeverCreated
    &&& verdict == SessionState::Alive ==> exists|ids: Seq<Seq<char>>| #[trigger]
        was_answered(after.log, from, true, host, key, ids) && ids.contains(wire_id)
    &&& verdict == SessionState::Dead ==> exists|ids: Seq<Seq<char>>| #[trigger]
        was_answered(after.log, from, true, host, key, ids) && !ids.contains(wire_id)
    &&& forall|m: int|
        0 <= m < entries.len() && (#[trigger] entries[m] matches EntryView::Persisted(row, _)
            && daemon::on_daemon(row, key, host)) ==> (entries[m] matches EntryView::Persisted(
            row,
            _,
        ) && session_laws::wire_id(row) != wire_id)
}

/// [`is_said_by`] some daemon of the host.
pub open spec fn is_said(
    before: ServiceView,
    after: ServiceView,
    host: Option<Seq<char>>,
    wire_id: Seq<char>,
    verdict: SessionState,
    entries: Seq<EntryView>,
) -> bool {
    exists|key: KeyView| #[trigger]
        is_said_by(before, after, host, key, wire_id, verdict, entries)
}

/// What a discovery's state reads follows from the two answers about it: it is known
/// only where both were given, and then by the session's being among the live ones.
pub proof fn law_a_discovery_is_known_by_both_answers(outcome: OutcomeView, wire_id: Seq<char>)
    ensures
        ({
            let verdict = reconcile::discovery_state(outcome, wire_id);
            let is_known = outcome.live is Some && outcome.held is Some;
            &&& verdict == SessionState::Alive <==> is_known && outcome.live->0.contains(wire_id)
            &&& verdict == SessionState::Dead <==> is_known && !outcome.live->0.contains(wire_id)
            &&& verdict == SessionState::Unknown <==> !is_known
        }),
{
}

} // verus!
