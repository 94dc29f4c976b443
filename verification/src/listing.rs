//! Listing what one host's daemon holds, and bringing the rows that mirror its
//! records in step with it.
//!
//! A listing creates no row and removes none: it only gives rows a project or a
//! route, and remembers what was listed.

use crate::daemon;
use crate::daemon::{daemon_key, DaemonKey, KeyView};
use crate::enrich;
use crate::entry;
use crate::entry::{next_project_scope_rev, Failure, FailureView};
use crate::registry;
use crate::registry::RowView;
use crate::replay;
use crate::scope;
use crate::service;
use crate::service::{ServiceView, WorkspaceLifecycleService};
use crate::session_backend::{BackendWorkspace, RecordView, SessionBackend};
use crate::sessions;
use crate::sessions::Run;
use crate::snapshot;
use crate::text;
use crate::workspace;
use crate::workspace::{AdeWorkspace, WorkspaceView};
use vstd::prelude::*;
use vstd::string::*;

verus! {

/// A host is listed until two listings in a row come from one daemon, a number
/// of times at most.
pub open spec fn listing_twice(
    state: ServiceView,
    later: ServiceView,
    host: Option<Seq<char>>,
    tries: nat,
) -> Run<(Option<Seq<char>>, Seq<RecordView>)>
    decreases tries,
{
    if tries == 0 {
        Run {
            state,
            result: Err(
                FailureView::Message(
                    "the daemon identity on "@ + daemon::host_name(host)
                        + " kept changing while listing workspaces"@,
                ),
            ),
        }
    } else {
        let (first, initial) = replay::list_workspaces(state, later, host);
        match initial {
            Err(cause) => Run {
                state: first,
                result: Err(
                    sessions::while_doing(
                        "listing the workspaces on "@,
                        daemon::host_name(host),
                        cause,
                    ),
                ),
            },
            Ok((named, _)) => {
                let (second, refreshed) = replay::list_workspaces(first, later, host);
                match refreshed {
                    Err(cause) => Run {
                        state: second,
                        result: Err(
                            sessions::while_doing(
                                "refreshing the workspaces on "@,
                                daemon::host_name(host),
                                cause,
                            ),
                        ),
                    },
                    Ok((instance, held)) => if instance == named {
                        Run { state: second, result: Ok((instance, held)) }
                    } else {
                        listing_twice(second, later, host, (tries - 1) as nat)
                    },
                }
            },
        }
    }
}

/// Whether a listing has a record that a row stands for.
pub open spec fn is_mirrored(
    row: WorkspaceView,
    instance: Option<Seq<char>>,
    host: Option<Seq<char>>,
    held: Seq<RecordView>,
) -> bool {
    exists|k: int|
        0 <= k < held.len() && daemon::mirrors(row, instance, host, #[trigger] held[k])
}

/// The state with a row's project columns written.
pub open spec fn writing_scope(
    state: ServiceView,
    id: Seq<char>,
    root: Seq<char>,
    rev: u64,
    project_id: Seq<char>,
    project_identity: Seq<char>,
) -> ServiceView {
    if registry::row_of(state.rows, id) is Some {
        ServiceView {
            rows: scope::scoped_rows(state.rows, id, root, rev, project_id, project_identity),
            ..state
        }
    } else {
        state
    }
}

/// A row of the host that has no project, and no record to take one from, is
/// looked up by its own checkout.
pub open spec fn resolving_one(
    state: ServiceView,
    later: ServiceView,
    host: Option<Seq<char>>,
    instance: Option<Seq<char>>,
    held: Seq<RecordView>,
    row: WorkspaceView,
) -> Run<(WorkspaceView, bool)> {
    if row.project_identity is Some || row.remote_host != host || is_mirrored(
        row,
        instance,
        host,
        held,
    ) {
        Run { state, result: Ok((row, false)) }
    } else {
        let (asked, resolved) = replay::resolve(state, later, host, row.repository_path);
        match resolved {
            Ok((_, identity)) if identity.len() > 0 => match entry::next_rev(
                row.project_scope_rev,
            ) {
                Err(failure) => Run { state: asked, result: Err(failure) },
                Ok(rev) => match registry::workspace_of(asked.rows, row.id) {
                    None => Run { state: asked, result: Err(sessions::no_workspace(row.id)) },
                    Some(current) => {
                        let project_id = workspace::path_project_id(identity);
                        Run {
                            state: writing_scope(
                                asked,
                                row.id,
                                current.repository_path,
                                rev,
                                project_id,
                                identity,
                            ),
                            result: Ok(
                                (
                                    registry::with_scope(
                                        current,
                                        current.repository_path,
                                        rev,
                                        project_id,
                                        identity,
                                    ),
                                    registry::scope_applies(current, rev),
                                ),
                            ),
                        }
                    },
                },
            },
            _ => Run { state: asked, result: Ok((row, false)) },
        }
    }
}

/// The rows are looked up in turn, up to the first failure: the rows as they
/// then stand, and whether any changed.
pub open spec fn resolving(
    state: ServiceView,
    later: ServiceView,
    host: Option<Seq<char>>,
    instance: Option<Seq<char>>,
    held: Seq<RecordView>,
    known: Seq<WorkspaceView>,
) -> Run<(Seq<WorkspaceView>, bool)>
    decreases known.len(),
{
    if known.len() == 0 {
        Run { state, result: Ok((Seq::empty(), false)) }
    } else {
        let run = resolving(state, later, host, instance, held, known.drop_last());
        match run.result {
            Err(_) => run,
            Ok((done, changed)) => {
                let one = resolving_one(run.state, later, host, instance, held, known.last());
                Run {
                    state: one.state,
                    result: match one.result {
                        Ok((row, applied)) => Ok((done.push(row), changed || applied)),
                        Err(failure) => Err(failure),
                    },
                }
            },
        }
    }
}

/// The part of a mirroring that is about the project: the record's where it is
/// later, and otherwise the row's where the record has none.
pub open spec fn sharing_scope(
    state: ServiceView,
    later: ServiceView,
    host: Option<Seq<char>>,
    instance: Option<Seq<char>>,
    row: WorkspaceView,
    record: RecordView,
) -> (ServiceView, bool) {
    match record.project_identity {
        Some(identity) => if row.project_identity is None || record.project_scope_rev
            > row.project_scope_rev {
            (
                writing_scope(
                    state,
                    row.id,
                    record.project_root,
                    record.project_scope_rev,
                    match record.project_id {
                        Some(project_id) => project_id,
                        None => workspace::path_project_id(identity),
                    },
                    identity,
                ),
                true,
            )
        } else {
            (state, false)
        },
        None => match row.project_identity {
            None => (state, false),
            Some(identity) => {
                let (asked, reply) = replay::update_scope(
                    state,
                    later,
                    host,
                    record.id,
                    row.project_id,
                    identity,
                    Some(row.repository_path),
                    Some(row.project_scope_rev),
                    instance,
                );
                match reply {
                    Ok(Some(rev)) => (
                        writing_scope(
                            asked,
                            row.id,
                            row.repository_path,
                            rev,
                            row.project_id,
                            identity,
                        ),
                        true,
                    ),
                    _ => (asked, false),
                }
            },
        },
    }
}

/// The part of a mirroring that is about the route: a row reached under another
/// spelling, or before the daemon named itself, moves to the one that answered.
pub open spec fn rebinding(
    state: ServiceView,
    host: Option<Seq<char>>,
    instance: Option<Seq<char>>,
    row: WorkspaceView,
    record: RecordView,
) -> Run<bool> {
    if row.remote_host == host && row.daemon_id == instance {
        Run { state, result: Ok(false) }
    } else {
        match registry::row_of(state.rows, row.id) {
            Some(current) if current.workspace.remote_host == row.remote_host
                && current.workspace.daemon_id == row.daemon_id => match registry::changed(
                state.rows,
                row.id,
                registry::route_change(host, instance),
            ) {
                Some(rows) => Run { state: ServiceView { rows, ..state }, result: Ok(true) },
                None => Run {
                    state,
                    result: Err(
                        sessions::while_doing(
                            "rebinding workspace "@ + record.id + " to "@,
                            daemon::host_name(host),
                            sessions::record_conflict().message(),
                        ),
                    ),
                },
            },
            _ => Run { state, result: Ok(true) },
        }
    }
}

/// The row that stands for a record is brought in step with it.
pub open spec fn mirroring_one(
    state: ServiceView,
    later: ServiceView,
    host: Option<Seq<char>>,
    instance: Option<Seq<char>>,
    known: Seq<WorkspaceView>,
    record: RecordView,
) -> Run<bool> {
    match enrich::preferred(known, enrich::mirror(instance, host, record)) {
        None => Run { state, result: Ok(false) },
        Some(row) => {
            let (shared, changed) = sharing_scope(state, later, host, instance, row, record);
            let bound = rebinding(shared, host, instance, row, record);
            Run {
                state: bound.state,
                result: match bound.result {
                    Ok(moved) => Ok(changed || moved),
                    Err(failure) => Err(failure),
                },
            }
        },
    }
}

/// The rows that stand for records are brought in step in turn, up to the first
/// failure: whether any changed.
pub open spec fn mirroring(
    state: ServiceView,
    later: ServiceView,
    host: Option<Seq<char>>,
    instance: Option<Seq<char>>,
    known: Seq<WorkspaceView>,
    held: Seq<RecordView>,
) -> Run<bool>
    decreases held.len(),
{
    if held.len() == 0 {
        Run { state, result: Ok(false) }
    } else {
        let run = mirroring(state, later, host, instance, known, held.drop_last());
        match run.result {
            Err(_) => run,
            Ok(changed) => {
                let one = mirroring_one(run.state, later, host, instance, known, held.last());
                Run {
                    state: one.state,
                    result: match one.result {
                        Ok(moved) => Ok(changed || moved),
                        Err(failure) => Err(failure),
                    },
                }
            },
        }
    }
}

/// What a listing of a host comes to: the daemon that answered, what it holds,
/// and the rows in use.
pub struct Listed {
    pub key: KeyView,
    pub held: Seq<RecordView>,
    pub rows: Seq<WorkspaceView>,
}

/// A listing is taken in.
pub open spec fn taking_in(
    state: ServiceView,
    later: ServiceView,
    host: Option<Seq<char>>,
    instance: Option<Seq<char>>,
    items: Seq<RecordView>,
) -> Run<Listed> {
    let key = daemon::key_of(instance, host);
    let known = registry::listing(state.rows, registry::used_rows());
    let (enriched, records) = enrich::enriching(
        state,
        later,
        host,
        key,
        instance,
        known,
        snapshot::remembered(state.discoveries, key),
        items,
    );
    match records {
        Err(failure) => Run { state: enriched, result: Err(failure) },
        Ok(held) => {
            let resolved = resolving(enriched, later, host, instance, held, known);
            match resolved.result {
                Err(failure) => Run { state: resolved.state, result: Err(failure) },
                Ok((rows, changed)) => {
                    let mirrored = mirroring(
                        resolved.state,
                        later,
                        host,
                        instance,
                        rows,
                        held,
                    );
                    match mirrored.result {
                        Err(failure) => Run { state: mirrored.state, result: Err(failure) },
                        Ok(moved) => {
                            let after = ServiceView {
                                discoveries: mirrored.state.discoveries.insert(key, held),
                                ..mirrored.state
                            };
                            Run {
                                state: after,
                                result: Ok(
                                    Listed {
                                        key,
                                        held,
                                        rows: if changed || moved {
                                            registry::listing(after.rows, registry::used_rows())
                                        } else {
                                            rows
                                        },
                                    },
                                ),
                            }
                        },
                    }
                },
            }
        },
    }
}

/// A host is listed and the listing taken in.
pub open spec fn listing_host(
    state: ServiceView,
    later: ServiceView,
    host: Option<Seq<char>>,
) -> Run<Listed> {
    let run = listing_twice(state, later, host, 3);
    match run.result {
        Err(failure) => Run { state: run.state, result: Err(failure) },
        Ok((instance, items)) => taking_in(run.state, later, host, instance, items),
    }
}

/// That rows differ at most in their project and their route: the same rows, in
/// use or not as before, with their sessions, names and times.
pub open spec fn same_rows_elsewhere(before: Seq<RowView>, after: Seq<RowView>) -> bool {
    &&& after.len() == before.len()
    &&& forall|k: int|
        #![trigger after[k]]
        0 <= k < before.len() ==> {
            let (old_row, new_row) = (before[k], after[k]);
            &&& new_row.used_by_client_at == old_row.used_by_client_at
            &&& new_row.workspace == (WorkspaceView {
                project_id: new_row.workspace.project_id,
                project_identity: new_row.workspace.project_identity,
                repository_path: new_row.workspace.repository_path,
                project_scope_rev: new_row.workspace.project_scope_rev,
                remote_host: new_row.workspace.remote_host,
                daemon_id: new_row.workspace.daemon_id,
                ..old_row.workspace
            })
        }
}

pub proof fn lemma_same_rows_reflexive(rows: Seq<RowView>)
    ensures
        same_rows_elsewhere(rows, rows),
{
}

pub proof fn lemma_same_rows_transitive(a: Seq<RowView>, b: Seq<RowView>, c: Seq<RowView>)
    requires
        same_rows_elsewhere(a, b),
        same_rows_elsewhere(b, c),
    ensures
        same_rows_elsewhere(a, c),
{
    assert forall|k: int|
        #![trigger c[k]]
        0 <= k < a.len() implies {
        let (old_row, new_row) = (a[k], c[k]);
        &&& new_row.used_by_client_at == old_row.used_by_client_at
        &&& new_row.workspace == (WorkspaceView {
            project_id: new_row.workspace.project_id,
            project_identity: new_row.workspace.project_identity,
            repository_path: new_row.workspace.repository_path,
            project_scope_rev: new_row.workspace.project_scope_rev,
            remote_host: new_row.workspace.remote_host,
            daemon_id: new_row.workspace.daemon_id,
            ..old_row.workspace
        })
    } by {
        assert(b[k].used_by_client_at == a[k].used_by_client_at);
    }
}

/// What every step of a listing leaves alone.
pub open spec fn steady(before: ServiceView, after: ServiceView) -> bool {
    &&& same_rows_elsewhere(before.rows, after.rows)
    &&& after.hosts == before.hosts
    &&& after.connects == before.connects
    &&& after.status_errors == before.status_errors
    &&& before.log.is_prefix_of(after.log)
}

pub proof fn lemma_steady_transitive(a: ServiceView, b: ServiceView, c: ServiceView)
    requires
        steady(a, b),
        steady(b, c),
    ensures
        steady(a, c),
{
    lemma_same_rows_transitive(a.rows, b.rows, c.rows);
}

proof fn lemma_resolving_one_steady(
    state: ServiceView,
    later: ServiceView,
    host: Option<Seq<char>>,
    instance: Option<Seq<char>>,
    held: Seq<RecordView>,
    row: WorkspaceView,
)
    ensures
        steady(state, resolving_one(state, later, host, instance, held, row).state),
        resolving_one(state, later, host, instance, held, row).state.log.len() <= state.log.len()
            + 1,
{
    registry::lemma_position(state.rows, row.id);
}

proof fn lemma_mirroring_one_steady(
    state: ServiceView,
    later: ServiceView,
    host: Option<Seq<char>>,
    instance: Option<Seq<char>>,
    known: Seq<WorkspaceView>,
    record: RecordView,
)
    ensures
        steady(state, mirroring_one(state, later, host, instance, known, record).state),
        mirroring_one(state, later, host, instance, known, record).state.log.len()
            <= state.log.len() + 1,
{
    if let Some(row) = enrich::preferred(known, enrich::mirror(instance, host, record)) {
        registry::lemma_position(state.rows, row.id);
        let (shared, changed) = sharing_scope(state, later, host, instance, row, record);
        assert(steady(state, shared));
        registry::lemma_position(shared.rows, row.id);
        assert(steady(shared, rebinding(shared, host, instance, row, record).state));
        lemma_steady_transitive(
            state,
            shared,
            rebinding(shared, host, instance, row, record).state,
        );
    }
}

proof fn lemma_resolving_settled(
    state: ServiceView,
    now: ServiceView,
    later: ServiceView,
    host: Option<Seq<char>>,
    instance: Option<Seq<char>>,
    held: Seq<RecordView>,
    known: Seq<WorkspaceView>,
)
    requires
        resolving(state, now, host, instance, held, known).state.log.is_prefix_of(now.log),
        now.log.is_prefix_of(later.log),
    ensures
        resolving(state, now, host, instance, held, known) == resolving(
            state,
            later,
            host,
            instance,
            held,
            known,
        ),
        steady(state, resolving(state, now, host, instance, held, known).state),
    decreases known.len(),
{
    if known.len() > 0 {
        let rest = known.drop_last();
        let run = resolving(state, now, host, instance, held, rest);
        let whole = resolving(state, now, host, instance, held, known);
        if run.result is Ok {
            lemma_resolving_one_steady(run.state, now, host, instance, held, known.last());
            assert(run.state.log.is_prefix_of(whole.state.log));
            assert(run.state.log.is_prefix_of(now.log));
        }
        lemma_resolving_settled(state, now, later, host, instance, held, rest);
        if run.result is Ok {
            let n = run.state.log.len() as int;
            if whole.state.log.len() > n {
                assert(now.log[n] == later.log[n]);
            }
            lemma_steady_transitive(state, run.state, whole.state);
        }
    }
}

proof fn lemma_resolving_stops(
    state: ServiceView,
    later: ServiceView,
    host: Option<Seq<char>>,
    instance: Option<Seq<char>>,
    held: Seq<RecordView>,
    known: Seq<WorkspaceView>,
    upto: int,
)
    requires
        0 <= upto <= known.len(),
        resolving(state, later, host, instance, held, known.take(upto)).result is Err,
    ensures
        resolving(state, later, host, instance, held, known) == resolving(
            state,
            later,
            host,
            instance,
            held,
            known.take(upto),
        ),
    decreases known.len(),
{
    if upto == known.len() {
        assert(known.take(upto) =~= known);
    } else {
        assert(known.drop_last().take(upto) =~= known.take(upto));
        lemma_resolving_stops(state, later, host, instance, held, known.drop_last(), upto);
    }
}

proof fn lemma_mirroring_settled(
    state: ServiceView,
    now: ServiceView,
    later: ServiceView,
    host: Option<Seq<char>>,
    instance: Option<Seq<char>>,
    known: Seq<WorkspaceView>,
    held: Seq<RecordView>,
)
    requires
        mirroring(state, now, host, instance, known, held).state.log.is_prefix_of(now.log),
        now.log.is_prefix_of(later.log),
    ensures
        mirroring(state, now, host, instance, known, held) == mirroring(
            state,
            later,
            host,
            instance,
            known,
            held,
        ),
        steady(state, mirroring(state, now, host, instance, known, held).state),
    decreases held.len(),
{
    if held.len() > 0 {
        let rest = held.drop_last();
        let run = mirroring(state, now, host, instance, known, rest);
        let whole = mirroring(state, now, host, instance, known, held);
        if run.result is Ok {
            lemma_mirroring_one_steady(run.state, now, host, instance, known, held.last());
            assert(run.state.log.is_prefix_of(whole.state.log));
            assert(run.state.log.is_prefix_of(now.log));
        }
        lemma_mirroring_settled(state, now, later, host, instance, known, rest);
        if run.result is Ok {
            let n = run.state.log.len() as int;
            if whole.state.log.len() > n {
                assert(now.log[n] == later.log[n]);
            }
            lemma_steady_transitive(state, run.state, whole.state);
        }
    }
}

proof fn lemma_mirroring_stops(
    state: ServiceView,
    later: ServiceView,
    host: Option<Seq<char>>,
    instance: Option<Seq<char>>,
    known: Seq<WorkspaceView>,
    held: Seq<RecordView>,
    upto: int,
)
    requires
        0 <= upto <= held.len(),
        mirroring(state, later, host, instance, known, held.take(upto)).result is Err,
    ensures
        mirroring(state, later, host, instance, known, held) == mirroring(
            state,
            later,
            host,
            instance,
            known,
            held.take(upto),
        ),
    decreases held.len(),
{
    if upto == held.len() {
        assert(held.take(upto) =~= held);
    } else {
        assert(held.drop_last().take(upto) =~= held.take(upto));
        lemma_mirroring_stops(state, later, host, instance, known, held.drop_last(), upto);
    }
}

proof fn lemma_listing_twice_steady(
    state: ServiceView,
    later: ServiceView,
    host: Option<Seq<char>>,
    tries: nat,
)
    ensures
        ({
            let after = listing_twice(state, later, host, tries).state;
            &&& after == (ServiceView { log: after.log, ..state })
            &&& state.log.is_prefix_of(after.log)
        }),
    decreases tries,
{
    if tries > 0 {
        let (first, initial) = replay::list_workspaces(state, later, host);
        let (second, refreshed) = replay::list_workspaces(first, later, host);
        lemma_listing_twice_steady(second, later, host, (tries - 1) as nat);
    }
}

proof fn lemma_listing_twice_settled(
    state: ServiceView,
    now: ServiceView,
    later: ServiceView,
    host: Option<Seq<char>>,
    tries: nat,
)
    requires
        listing_twice(state, now, host, tries).state.log.is_prefix_of(now.log),
        now.log.is_prefix_of(later.log),
    ensures
        listing_twice(state, now, host, tries) == listing_twice(state, later, host, tries),
    decreases tries,
{
    if tries > 0 {
        let n = state.log.len() as int;
        let (first, initial) = replay::list_workspaces(state, now, host);
        let (second, refreshed) = replay::list_workspaces(first, now, host);
        let whole = listing_twice(state, now, host, tries).state;
        lemma_listing_twice_steady(second, now, host, (tries - 1) as nat);
        assert(whole.log.len() > n);
        assert(now.log[n] == later.log[n]);
        if initial is Ok {
            assert(whole.log.len() > n + 1);
            assert(now.log[n + 1] == later.log[n + 1]);
            if let Ok((instance, _)) = refreshed {
                if Some(instance) != (match initial {
                    Ok((named, _)) => Some(named),
                    Err(_) => None,
                }) {
                    lemma_listing_twice_settled(second, now, later, host, (tries - 1) as nat);
                }
            }
        }
    }
}

/// Taking in a listing leaves the rows themselves alone.
pub proof fn lemma_taking_in_steady(
    state: ServiceView,
    now: ServiceView,
    later: ServiceView,
    host: Option<Seq<char>>,
    instance: Option<Seq<char>>,
    items: Seq<RecordView>,
)
    requires
        taking_in(state, now, host, instance, items).state.log.is_prefix_of(now.log),
        now.log.is_prefix_of(later.log),
    ensures
        steady(state, taking_in(state, now, host, instance, items).state),
        taking_in(state, now, host, instance, items) == taking_in(
            state,
            later,
            host,
            instance,
            items,
        ),
{
    let key = daemon::key_of(instance, host);
    let known = registry::listing(state.rows, registry::used_rows());
    let cached = snapshot::remembered(state.discoveries, key);
    let (enriched, records) = enrich::enriching(
        state,
        now,
        host,
        key,
        instance,
        known,
        cached,
        items,
    );
    match records {
        Err(_) => {
            enrich::lemma_enriching_settled(
                state,
                now,
                later,
                host,
                key,
                instance,
                known,
                cached,
                items,
            );
            assert(same_rows_elsewhere(state.rows, enriched.rows));
        },
        Ok(held) => {
            let resolved = resolving(enriched, now, host, instance, held, known);
            lemma_resolving_grows(enriched, now, host, instance, held, known);
            match resolved.result {
                Err(_) => {},
                Ok((rows, changed)) => {
                    lemma_mirroring_grows(resolved.state, now, host, instance, rows, held);
                },
            }
            assert(resolved.state.log.is_prefix_of(now.log));
            assert(enriched.log.is_prefix_of(now.log));
            enrich::lemma_enriching_settled(
                state,
                now,
                later,
                host,
                key,
                instance,
                known,
                cached,
                items,
            );
            assert(same_rows_elsewhere(state.rows, enriched.rows));
            assert(steady(state, enriched));
            lemma_resolving_settled(enriched, now, later, host, instance, held, known);
            lemma_steady_transitive(state, enriched, resolved.state);
            match resolved.result {
                Err(_) => {},
                Ok((rows, changed)) => {
                    let mirrored = mirroring(resolved.state, now, host, instance, rows, held);
                    lemma_mirroring_settled(
                        resolved.state,
                        now,
                        later,
                        host,
                        instance,
                        rows,
                        held,
                    );
                    lemma_steady_transitive(state, resolved.state, mirrored.state);
                },
            }
        },
    }
}

proof fn lemma_resolving_grows(
    state: ServiceView,
    later: ServiceView,
    host: Option<Seq<char>>,
    instance: Option<Seq<char>>,
    held: Seq<RecordView>,
    known: Seq<WorkspaceView>,
)
    ensures
        state.log.is_prefix_of(resolving(state, later, host, instance, held, known).state.log),
    decreases known.len(),
{
    if known.len() > 0 {
        lemma_resolving_grows(state, later, host, instance, held, known.drop_last());
        let run = resolving(state, later, host, instance, held, known.drop_last());
        lemma_resolving_one_steady(run.state, later, host, instance, held, known.last());
    }
}

proof fn lemma_mirroring_grows(
    state: ServiceView,
    later: ServiceView,
    host: Option<Seq<char>>,
    instance: Option<Seq<char>>,
    known: Seq<WorkspaceView>,
    held: Seq<RecordView>,
)
    ensures
        state.log.is_prefix_of(mirroring(state, later, host, instance, known, held).state.log),
    decreases held.len(),
{
    if held.len() > 0 {
        lemma_mirroring_grows(state, later, host, instance, known, held.drop_last());
        let run = mirroring(state, later, host, instance, known, held.drop_last());
        lemma_mirroring_one_steady(run.state, later, host, instance, known, held.last());
    }
}

/// Listing a host leaves the rows themselves alone, and its answers stay the
/// answers as the history goes on.
pub proof fn lemma_listing_host_steady(
    state: ServiceView,
    now: ServiceView,
    later: ServiceView,
    host: Option<Seq<char>>,
)
    requires
        listing_host(state, now, host).state.log.is_prefix_of(now.log),
        now.log.is_prefix_of(later.log),
    ensures
        steady(state, listing_host(state, now, host).state),
        listing_host(state, now, host) == listing_host(state, later, host),
{
    let run = listing_twice(state, now, host, 3);
    lemma_listing_twice_steady(state, now, host, 3);
    assert(same_rows_elsewhere(state.rows, run.state.rows));
    match run.result {
        Err(_) => {
            lemma_listing_twice_settled(state, now, later, host, 3);
        },
        Ok((instance, items)) => {
            lemma_taking_in_grows(run.state, now, host, instance, items);
            assert(run.state.log.is_prefix_of(now.log));
            lemma_listing_twice_settled(state, now, later, host, 3);
            lemma_taking_in_steady(run.state, now, later, host, instance, items);
            lemma_steady_transitive(
                state,
                run.state,
                taking_in(run.state, now, host, instance, items).state,
            );
        },
    }
}

/// Listing a host only adds to the history.
pub proof fn lemma_listing_host_grows(
    state: ServiceView,
    later: ServiceView,
    host: Option<Seq<char>>,
)
    ensures
        state.log.is_prefix_of(listing_host(state, later, host).state.log),
{
    lemma_listing_twice_steady(state, later, host, 3);
    let run = listing_twice(state, later, host, 3);
    if let Ok((instance, items)) = run.result {
        lemma_taking_in_grows(run.state, later, host, instance, items);
    }
}

proof fn lemma_taking_in_grows(
    state: ServiceView,
    later: ServiceView,
    host: Option<Seq<char>>,
    instance: Option<Seq<char>>,
    items: Seq<RecordView>,
)
    ensures
        state.log.is_prefix_of(taking_in(state, later, host, instance, items).state.log),
{
    let key = daemon::key_of(instance, host);
    let known = registry::listing(state.rows, registry::used_rows());
    let cached = snapshot::remembered(state.discoveries, key);
    enrich::lemma_enriching_grows(state, later, host, key, instance, known, cached, items);
    let (enriched, records) = enrich::enriching(
        state,
        later,
        host,
        key,
        instance,
        known,
        cached,
        items,
    );
    if let Ok(held) = records {
        lemma_resolving_grows(enriched, later, host, instance, held, known);
        let resolved = resolving(enriched, later, host, instance, held, known);
        if let Ok((rows, changed)) = resolved.result {
            lemma_mirroring_grows(resolved.state, later, host, instance, rows, held);
        }
    }
}

fn is_row_mirrored(
    row: &AdeWorkspace,
    instance: Option<&str>,
    host: Option<&str>,
    held: &Vec<BackendWorkspace>,
) -> (mirrored: bool)
    ensures
        mirrored == is_mirrored(row@, instance.deep_view(), host.deep_view(), held.deep_view()),
{
    let mut k: usize = 0;
    while k < held.len()
        invariant
            k <= held.len(),
            forall|m: int|
                0 <= m < k ==> !daemon::mirrors(
                    row@,
                    instance.deep_view(),
                    host.deep_view(),
                    #[trigger] held.deep_view()[m],
                ),
        decreases held.len() - k,
    {
        assert(held.deep_view()[k as int] == held[k as int]@);
        if daemon::is_the_same_daemons_row(row, instance, host, &held[k]) {
            return true;
        }
        k = k + 1;
    }
    false
}

impl<B: SessionBackend> WorkspaceLifecycleService<B> {
    fn list_twice(
        &mut self,
        at: usize,
        host: Option<&str>,
        tries: u8,
    ) -> (listed: Result<(Option<String>, Vec<BackendWorkspace>), Failure>)
        requires
            old(self).wf(),
            at < old(self)@.hosts.len(),
            old(self)@.hosts[at as int] == host.deep_view(),
        ensures
            final(self).wf(),
            final(self).continues(old(self)),
            final(self)@.hosts == old(self)@.hosts,
            old(self)@.log.is_prefix_of(final(self)@.log),
            listing_twice(old(self)@, final(self)@, host.deep_view(), tries as nat) == (Run {
                state: final(self)@,
                result: service::told(listed),
            }),
        decreases tries,
    {
        if tries == 0 {
            let label = daemon::host_label(host);
            return Err(
                Failure::Message(
                    text::joined3(
                        "the daemon identity on ",
                        label.as_str(),
                        " kept changing while listing workspaces",
                    ),
                ),
            );
        }
        let named = match self.ask_workspaces(at) {
            Ok(listing) => listing.daemon_id,
            Err(cause) => {
                return Err(
                    Failure::while_doing(
                        "listing the workspaces on ",
                        daemon::host_label(host).as_str(),
                        cause.as_str(),
                    ),
                );
            },
        };
        let listing = match self.ask_workspaces(at) {
            Ok(listing) => listing,
            Err(cause) => {
                return Err(
                    Failure::while_doing(
                        "refreshing the workspaces on ",
                        daemon::host_label(host).as_str(),
                        cause.as_str(),
                    ),
                );
            },
        };
        if text::same_opt_text(text::borrowed(&listing.daemon_id), text::borrowed(&named)) {
            Ok((listing.daemon_id, listing.items))
        } else {
            self.list_twice(at, host, tries - 1)
        }
    }

    fn resolve_one(
        &mut self,
        at: usize,
        host: Option<&str>,
        instance: Option<&str>,
        held: &Vec<BackendWorkspace>,
        row: &AdeWorkspace,
    ) -> (resolved: Result<(AdeWorkspace, bool), Failure>)
        requires
            old(self).wf(),
            at < old(self)@.hosts.len(),
            old(self)@.hosts[at as int] == host.deep_view(),
        ensures
            final(self).wf(),
            final(self).continues(old(self)),
            resolving_one(
                old(self)@,
                final(self)@,
                host.deep_view(),
                instance.deep_view(),
                held.deep_view(),
                row@,
            ) == (Run { state: final(self)@, result: service::told(resolved) }),
    {
        if row.project_identity.is_some() || !text::same_opt_text(
            text::borrowed(&row.remote_host),
            host,
        ) || is_row_mirrored(row, instance, host, held) {
            return Ok((row.clone(), false));
        }
        let identity = match self.ask_repository(at, row.repository_path.as_str()) {
            Ok((_, identity)) => identity,
            Err(_) => {
                return Ok((row.clone(), false));
            },
        };
        if identity.as_str().is_empty() {
            return Ok((row.clone(), false));
        }
        let project_id = workspace::project_id_from_identity(identity.as_str());
        let rev = match next_project_scope_rev(row.project_scope_rev) {
            Ok(rev) => rev,
            Err(failure) => {
                return Err(failure);
            },
        };
        proof {
            registry::lemma_position(self@.rows, row@.id);
        }
        match self.table().update_project_scope(
            &row.id,
            rev,
            project_id.as_str(),
            identity.as_str(),
        ) {
            Some((applied, stored)) => Ok((stored, applied)),
            None => Err(Failure::about("no workspace with id ", row.id.as_str())),
        }
    }

    fn resolve_rows(
        &mut self,
        at: usize,
        host: Option<&str>,
        instance: Option<&str>,
        held: &Vec<BackendWorkspace>,
        known: &Vec<AdeWorkspace>,
    ) -> (resolved: Result<(Vec<AdeWorkspace>, bool), Failure>)
        requires
            old(self).wf(),
            at < old(self)@.hosts.len(),
            old(self)@.hosts[at as int] == host.deep_view(),
        ensures
            final(self).wf(),
            final(self).continues(old(self)),
            steady(old(self)@, final(self)@),
            resolving(
                old(self)@,
                final(self)@,
                host.deep_view(),
                instance.deep_view(),
                held.deep_view(),
                known.deep_view(),
            ) == (Run { state: final(self)@, result: service::told(resolved) }),
    {
        let ghost all = known.deep_view();
        let mut done: Vec<AdeWorkspace> = Vec::new();
        let mut changed = false;
        let mut i: usize = 0;
        assert(done.deep_view() =~= Seq::<WorkspaceView>::empty());
        assert(all.take(0).len() == 0);
        while i < known.len()
            invariant
                i <= known.len(),
                all == known.deep_view(),
                self.wf(),
                self.continues(old(self)),
                steady(old(self)@, self@),
                at < self@.hosts.len(),
                old(self)@.hosts[at as int] == host.deep_view(),
                resolving(
                    old(self)@,
                    self@,
                    host.deep_view(),
                    instance.deep_view(),
                    held.deep_view(),
                    all.take(i as int),
                ) == (Run { state: self@, result: Ok((done.deep_view(), changed)) }),
            decreases known.len() - i,
        {
            let ghost before = self@;
            let ghost done_before = done.deep_view();
            proof {
                assert(all.take(i + 1).drop_last() =~= all.take(i as int));
                assert(all.take(i + 1).last() == known[i as int]@);
            }
            let one = self.resolve_one(at, host, instance, held, &known[i]);
            proof {
                lemma_resolving_one_steady(
                    before,
                    self@,
                    host.deep_view(),
                    instance.deep_view(),
                    held.deep_view(),
                    known[i as int]@,
                );
                lemma_steady_transitive(old(self)@, before, self@);
                lemma_resolving_settled(
                    old(self)@,
                    before,
                    self@,
                    host.deep_view(),
                    instance.deep_view(),
                    held.deep_view(),
                    all.take(i as int),
                );
            }
            match one {
                Ok((row, applied)) => {
                    done.push(row);
                    changed = changed || applied;
                    assert(done.deep_view() =~= done_before.push(row@));
                },
                Err(failure) => {
                    proof {
                        lemma_resolving_stops(
                            old(self)@,
                            self@,
                            host.deep_view(),
                            instance.deep_view(),
                            held.deep_view(),
                            all,
                            i + 1,
                        );
                    }
                    return Err(failure);
                },
            }
            i = i + 1;
        }
        assert(all.take(all.len() as int) =~= all);
        Ok((done, changed))
    }

    fn write_scope(
        &mut self,
        id: &crate::workspace::WorkspaceId,
        root: &str,
        rev: u64,
        project_id: &str,
        project_identity: &str,
    )
        requires
            old(self).wf(),
        ensures
            final(self).wf(),
            final(self).continues(old(self)),
            final(self)@ == writing_scope(
                old(self)@,
                id@,
                root@,
                rev,
                project_id@,
                project_identity@,
            ),
    {
        proof {
            registry::lemma_position(self@.rows, id@);
        }
        let _ = self.table().update_repository_scope(id, root, rev, project_id, project_identity);
    }

    fn share_scope(
        &mut self,
        at: usize,
        instance: Option<&str>,
        row: &AdeWorkspace,
        record: &BackendWorkspace,
    ) -> (changed: bool)
        requires
            old(self).wf(),
            at < old(self)@.hosts.len(),
        ensures
            final(self).wf(),
            final(self).continues(old(self)),
            sharing_scope(
                old(self)@,
                final(self)@,
                old(self)@.hosts[at as int],
                instance.deep_view(),
                row@,
                record@,
            ) == (final(self)@, changed),
    {
        match &record.project_identity {
            Some(identity) => {
                if row.project_identity.is_none() || record.project_scope_rev
                    > row.project_scope_rev {
                    let project_id = match &record.project_id {
                        Some(project_id) => project_id.clone(),
                        None => workspace::project_id_from_identity(identity.as_str()),
                    };
                    self.write_scope(
                        &row.id,
                        record.project_root.as_str(),
                        record.project_scope_rev,
                        project_id.as_str(),
                        identity.as_str(),
                    );
                    true
                } else {
                    false
                }
            },
            None => match &row.project_identity {
                None => false,
                Some(identity) => match self.ask_scope(
                    at,
                    record.id.as_str(),
                    row.project_id.as_str(),
                    identity.as_str(),
                    Some(row.repository_path.as_str()),
                    Some(row.project_scope_rev),
                    instance,
                ) {
                    Ok(Some(rev)) => {
                        self.write_scope(
                            &row.id,
                            row.repository_path.as_str(),
                            rev,
                            row.project_id.as_str(),
                            identity.as_str(),
                        );
                        true
                    },
                    _ => false,
                },
            },
        }
    }

    fn rebind(
        &mut self,
        host: Option<&str>,
        instance: Option<&str>,
        row: &AdeWorkspace,
        record: &BackendWorkspace,
    ) -> (moved: Result<bool, Failure>)
        requires
            old(self).wf(),
        ensures
            final(self).wf(),
            final(self).continues(old(self)),
            rebinding(
                old(self)@,
                host.deep_view(),
                instance.deep_view(),
                row@,
                record@,
            ) == (Run { state: final(self)@, result: service::told(moved) }),
    {
        if text::same_opt_text(text::borrowed(&row.remote_host), host) && text::same_opt_text(
            text::borrowed(&row.daemon_id),
            instance,
        ) {
            return Ok(false);
        }
        match self.table().rebind_workspace_route(
            &row.id,
            text::borrowed(&row.remote_host),
            text::borrowed(&row.daemon_id),
            host,
            instance,
        ) {
            Ok(_) => Ok(true),
            Err(_) => Err(
                Failure::while_doing(
                    text::joined3("rebinding workspace ", record.id.as_str(), " to ").as_str(),
                    daemon::host_label(host).as_str(),
                    "another row already stands for this daemon record",
                ),
            ),
        }
    }

    fn mirror_one(
        &mut self,
        at: usize,
        host: Option<&str>,
        instance: Option<&str>,
        known: &Vec<AdeWorkspace>,
        record: &BackendWorkspace,
    ) -> (changed: Result<bool, Failure>)
        requires
            old(self).wf(),
            at < old(self)@.hosts.len(),
            old(self)@.hosts[at as int] == host.deep_view(),
        ensures
            final(self).wf(),
            final(self).continues(old(self)),
            mirroring_one(
                old(self)@,
                final(self)@,
                host.deep_view(),
                instance.deep_view(),
                known.deep_view(),
                record@,
            ) == (Run { state: final(self)@, result: service::told(changed) }),
    {
        let row = match enrich::preferred_row(known, instance, host, record, false) {
            Some(row) => row,
            None => {
                return Ok(false);
            },
        };
        let changed = self.share_scope(at, instance, row, record);
        match self.rebind(host, instance, row, record) {
            Ok(moved) => Ok(changed || moved),
            Err(failure) => Err(failure),
        }
    }

    fn mirror_rows(
        &mut self,
        at: usize,
        host: Option<&str>,
        instance: Option<&str>,
        known: &Vec<AdeWorkspace>,
        held: &Vec<BackendWorkspace>,
    ) -> (mirrored: Result<bool, Failure>)
        requires
            old(self).wf(),
            at < old(self)@.hosts.len(),
            old(self)@.hosts[at as int] == host.deep_view(),
        ensures
            final(self).wf(),
            final(self).continues(old(self)),
            steady(old(self)@, final(self)@),
            mirroring(
                old(self)@,
                final(self)@,
                host.deep_view(),
                instance.deep_view(),
                known.deep_view(),
                held.deep_view(),
            ) == (Run { state: final(self)@, result: service::told(mirrored) }),
    {
        let ghost all = held.deep_view();
        let mut changed = false;
        let mut i: usize = 0;
        assert(all.take(0).len() == 0);
        while i < held.len()
            invariant
                i <= held.len(),
                all == held.deep_view(),
                self.wf(),
                self.continues(old(self)),
                steady(old(self)@, self@),
                at < self@.hosts.len(),
                old(self)@.hosts[at as int] == host.deep_view(),
                mirroring(
                    old(self)@,
                    self@,
                    host.deep_view(),
                    instance.deep_view(),
                    known.deep_view(),
                    all.take(i as int),
                ) == (Run { state: self@, result: Ok(changed) }),
            decreases held.len() - i,
        {
            let ghost before = self@;
            proof {
                assert(all.take(i + 1).drop_last() =~= all.take(i as int));
                assert(all.take(i + 1).last() == held[i as int]@);
            }
            let one = self.mirror_one(at, host, instance, known, &held[i]);
            proof {
                lemma_mirroring_one_steady(
                    before,
                    self@,
                    host.deep_view(),
                    instance.deep_view(),
                    known.deep_view(),
                    held[i as int]@,
                );
                lemma_steady_transitive(old(self)@, before, self@);
                lemma_mirroring_settled(
                    old(self)@,
                    before,
                    self@,
                    host.deep_view(),
                    instance.deep_view(),
                    known.deep_view(),
                    all.take(i as int),
                );
            }
            match one {
                Ok(moved) => {
                    changed = changed || moved;
                },
                Err(failure) => {
                    proof {
                        lemma_mirroring_stops(
                            old(self)@,
                            self@,
                            host.deep_view(),
                            instance.deep_view(),
                            known.deep_view(),
                            all,
                            i + 1,
                        );
                    }
                    return Err(failure);
                },
            }
            i = i + 1;
        }
        assert(all.take(all.len() as int) =~= all);
        Ok(changed)
    }

    fn take_in(
        &mut self,
        at: usize,
        host: Option<&str>,
        instance: Option<String>,
        items: &Vec<BackendWorkspace>,
    ) -> (listed: Result<HostListing, Failure>)
        requires
            old(self).wf(),
            at < old(self)@.hosts.len(),
            old(self)@.hosts[at as int] == host.deep_view(),
        ensures
            final(self).wf(),
            final(self).continues(old(self)),
            old(self)@.log.is_prefix_of(final(self)@.log),
            taking_in(
                old(self)@,
                final(self)@,
                host.deep_view(),
                text::opt(instance),
                items.deep_view(),
            ) == (Run { state: final(self)@, result: service::told(listed) }),
    {
        let key = daemon_key(text::borrowed(&instance), host);
        let known = self.registry().confirmed_workspaces();
        let enriched = self.enrich_workspace_project_scopes(
            at,
            &key,
            text::borrowed(&instance),
            host,
            &known,
            items,
        );
        let ghost one = self@;
        proof {
            enrich::lemma_enriching_settled(
                old(self)@,
                one,
                one,
                host.deep_view(),
                key@,
                text::opt(instance),
                known.deep_view(),
                snapshot::remembered(old(self)@.discoveries, key@),
                items.deep_view(),
            );
        }
        let held = match enriched {
            Ok(held) => held,
            Err(failure) => {
                return Err(failure);
            },
        };
        let resolved = self.resolve_rows(at, host, text::borrowed(&instance), &held, &known);
        let ghost two = self@;
        proof {
            enrich::lemma_enriching_settled(
                old(self)@,
                one,
                two,
                host.deep_view(),
                key@,
                text::opt(instance),
                known.deep_view(),
                snapshot::remembered(old(self)@.discoveries, key@),
                items.deep_view(),
            );
        }
        let (rows, changed) = match resolved {
            Ok(resolved) => resolved,
            Err(failure) => {
                return Err(failure);
            },
        };
        let mirrored = self.mirror_rows(at, host, text::borrowed(&instance), &rows, &held);
        let ghost three = self@;
        proof {
            enrich::lemma_enriching_settled(
                old(self)@,
                one,
                three,
                host.deep_view(),
                key@,
                text::opt(instance),
                known.deep_view(),
                snapshot::remembered(old(self)@.discoveries, key@),
                items.deep_view(),
            );
            lemma_resolving_settled(
                one,
                two,
                three,
                host.deep_view(),
                text::opt(instance),
                held.deep_view(),
                known.deep_view(),
            );
        }
        let moved = match mirrored {
            Ok(moved) => moved,
            Err(failure) => {
                return Err(failure);
            },
        };
        self.snapshots().remember(&key, &held);
        proof {
            enrich::lemma_enriching_settled(
                old(self)@,
                one,
                self@,
                host.deep_view(),
                key@,
                text::opt(instance),
                known.deep_view(),
                snapshot::remembered(old(self)@.discoveries, key@),
                items.deep_view(),
            );
            lemma_resolving_settled(
                one,
                two,
                self@,
                host.deep_view(),
                text::opt(instance),
                held.deep_view(),
                known.deep_view(),
            );
            lemma_mirroring_settled(
                two,
                three,
                self@,
                host.deep_view(),
                text::opt(instance),
                rows.deep_view(),
                held.deep_view(),
            );
        }
        let rows = if changed || moved {
            self.registry().confirmed_workspaces()
        } else {
            rows
        };
        Ok(HostListing { key, held, rows })
    }

    /// Lists what one host's daemon holds, remembers it, and records that
    /// daemon's identity on the rows that already mirror its records. Answers
    /// with the listing and the rows in use as they then stand.
    pub(crate) fn list_host_workspaces(
        &mut self,
        at: usize,
        host: Option<&str>,
    ) -> (listed: Result<HostListing, Failure>)
        requires
            old(self).wf(),
            at < old(self)@.hosts.len(),
            old(self)@.hosts[at as int] == host.deep_view(),
        ensures
            final(self).wf(),
            final(self).continues(old(self)),
            steady(old(self)@, final(self)@),
            listing_host(old(self)@, final(self)@, host.deep_view()) == (Run {
                state: final(self)@,
                result: service::told(listed),
            }),
    {
        let named = self.list_twice(at, host, 3);
        let ghost twice = self@;
        proof {
            lemma_listing_twice_steady(old(self)@, twice, host.deep_view(), 3);
        }
        let (instance, items) = match named {
            Ok(pair) => pair,
            Err(failure) => {
                return Err(failure);
            },
        };
        let listed = self.take_in(at, host, instance, &items);
        proof {
            lemma_listing_twice_settled(old(self)@, twice, self@, host.deep_view(), 3);
            lemma_listing_host_steady(old(self)@, self@, self@, host.deep_view());
        }
        listed
    }
}

/// What a listing of a host comes to.
pub struct HostListing {
    pub key: DaemonKey,
    pub held: Vec<BackendWorkspace>,
    pub rows: Vec<AdeWorkspace>,
}

impl DeepView for HostListing {
    type V = Listed;

    open spec fn deep_view(&self) -> Listed {
        Listed { key: self.key@, held: self.held.deep_view(), rows: self.rows.deep_view() }
    }
}

} // verus!
