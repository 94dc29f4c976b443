//! What holds of the service whatever its backends answer.
//!
//! Each law is about the replays that the operations' own contracts are stated
//! by, so it holds of every run of those operations.

use crate::bulk;
use crate::cleanup;
use crate::confirm;
use crate::daemon;
use crate::daemon::KeyView;
use crate::enrich;
use crate::entry;
use crate::entry::{EntryView, FailureView, SessionState};
use crate::listing;
use crate::order;
use crate::reconcile;
use crate::reconcile::{DiscoveryView, Gathered, OutcomeView};
use crate::registry;
use crate::registry::RowView;
use crate::replay;
use crate::reset;
use crate::service;
use crate::service::{Exchange, ServiceView, Step, WorkspaceLifecycleService};
use crate::session_backend::{RecordView, SessionBackend};
use crate::sessions;
use crate::snapshot;
use crate::workspace::{WorkspaceStatus, WorkspaceView};
use vstd::prelude::*;

verus! {

/// That nothing asked between two states could end a process, remove a record
/// or bring a session into existence.
pub open spec fn quiet(before: ServiceView, after: ServiceView) -> bool {
    &&& before.log.is_prefix_of(after.log)
    &&& forall|n: int|
        before.log.len() <= n < after.log.len() ==> !(#[trigger] after.log[n]).destroys()
            && !after.log[n].creates()
}

proof fn lemma_quiet_transitive(a: ServiceView, b: ServiceView, c: ServiceView)
    requires
        quiet(a, b),
        quiet(b, c),
    ensures
        quiet(a, c),
{
    assert forall|n: int| a.log.len() <= n < c.log.len() implies !(
    #[trigger] c.log[n]).destroys() && !c.log[n].creates() by {
        if n < b.log.len() {
            assert(c.log[n] == b.log[n]);
        }
    }
}

/// A table whose rows differ from another's in their status at most.
pub open spec fn same_rows_but_status(before: Seq<RowView>, after: Seq<RowView>) -> bool {
    &&& after.len() == before.len()
    &&& forall|k: int|
        #![trigger after[k]]
        0 <= k < before.len() ==> after[k] == (RowView {
            workspace: WorkspaceView {
                status: after[k].workspace.status,
                ..before[k].workspace
            },
            ..before[k]
        })
}

/// Recording a status is never refused, and changes nothing else.
proof fn lemma_status_is_recorded(
    state: ServiceView,
    workspace: WorkspaceView,
    status: WorkspaceStatus,
)
    requires
        registry::is_table(state.rows),
    ensures
        ({
            let (after, touched) = sessions::setting_status(state, workspace, status);
            &&& after == (ServiceView { rows: after.rows, ..state })
            &&& same_rows_but_status(state.rows, after.rows)
            &&& registry::is_table(after.rows)
            &&& touched == (WorkspaceView { status: touched.status, ..workspace })
        }),
{
    let rows = state.rows;
    let change = registry::status_change(status);
    let at = registry::position(rows, workspace.id);
    registry::lemma_position(rows, workspace.id);
    if workspace.status != status && at < rows.len() {
        assert(!registry::collides(rows, at, change(rows[at]))) by {
            if registry::collides(rows, at, change(rows[at])) {
                let k = choose|k: int|
                    0 <= k < rows.len() && k != at && change(rows[at]).same_record(
                        #[trigger] rows[k],
                    );
                assert(rows[at].same_record(rows[k]));
                assert(rows[k].same_record(rows[at]));
                if k < at {
                    assert(!rows[k].same_record(rows[at]));
                } else {
                    assert(!rows[at].same_record(rows[k]));
                }
            }
        }
        registry::lemma_update_keeps_the_rules(rows, at, change(rows[at]));
    }
}

proof fn lemma_same_status_transitive(a: Seq<RowView>, b: Seq<RowView>, c: Seq<RowView>)
    requires
        same_rows_but_status(a, b),
        same_rows_but_status(b, c),
    ensures
        same_rows_but_status(a, c),
{
    assert forall|k: int|
        #![trigger c[k]]
        0 <= k < a.len() implies c[k] == (RowView {
        workspace: WorkspaceView { status: c[k].workspace.status, ..a[k].workspace },
        ..a[k]
    }) by {
        assert(b[k] == (RowView {
            workspace: WorkspaceView { status: b[k].workspace.status, ..a[k].workspace },
            ..a[k]
        }));
    }
}

/// Closing detaches and never kills: stopping a workspace asks nothing that
/// could end its session, and its row keeps everything but its status.
pub proof fn law_closing_never_kills(state: ServiceView, later: ServiceView, id: Seq<char>)
    requires
        registry::is_table(state.rows),
    ensures
        quiet(state, sessions::stopping(state, later, id).state),
        same_rows_but_status(state.rows, sessions::stopping(state, later, id).state.rows),
{
    if let Some(workspace) = registry::workspace_of(state.rows, id) {
        let (reached, connected) = replay::connect(state, later, workspace.remote_host);
        if let Some(session) = workspace.terminal_session_id {
            let (asked, reply) = replay::session_exists(
                reached,
                later,
                workspace.remote_host,
                session,
                workspace.daemon_id,
            );
            let (detached, dropped) = replay::detach(
                asked,
                later,
                workspace.remote_host,
                session,
            );
            lemma_status_is_recorded(asked, workspace, WorkspaceStatus::Stopped);
            lemma_status_is_recorded(detached, workspace, WorkspaceStatus::Stopped);
        }
        lemma_status_is_recorded(state, workspace, WorkspaceStatus::Stopped);
    }
}

/// That no backend was called, between two times of a service, in a way that
/// could end a process, remove a record or bring a session into existence.
pub open spec fn quiet_on_every_backend<B: SessionBackend>(
    before: WorkspaceLifecycleService<B>,
    after: WorkspaceLifecycleService<B>,
) -> bool {
    forall|k: int|
        before.history().len() <= k < after.history().len() ==> (
        #[trigger] after.history()[k] matches Step::Asked { exchange, .. } ==> !exchange.destroys()
            && !exchange.creates())
}

/// What is quiet in the record is quiet on every backend.
pub proof fn law_a_quiet_record_is_a_quiet_backend<B: SessionBackend>(
    before: WorkspaceLifecycleService<B>,
    after: WorkspaceLifecycleService<B>,
)
    requires
        after.continues(&before),
        quiet(before@, after@),
    ensures
        quiet_on_every_backend(before, after),
{
    assert forall|k: int| before.history().len() <= k < after.history().len() implies (
    #[trigger] after.history()[k] matches Step::Asked { exchange, .. } ==> !exchange.destroys()
        && !exchange.creates()) by {
        if after.history()[k] is Asked {
            after.law_every_call_is_recorded(&before, k);
        }
    }
}

/// Stopping a workspace kills on no backend: no call is made that could end a
/// process or remove a record.
pub proof fn law_stopping_kills_on_no_backend<B: SessionBackend>(
    before: WorkspaceLifecycleService<B>,
    after: WorkspaceLifecycleService<B>,
    id: Seq<char>,
)
    requires
        before.wf(),
        after.continues(&before),
        after@ == sessions::stopping(before@, after@, id).state,
    ensures
        quiet_on_every_backend(before, after),
{
    before.rows_keep_the_rules();
    law_closing_never_kills(before@, after@, id);
    law_a_quiet_record_is_a_quiet_backend(before, after);
}

/// That all that is asked between two states and could end something is that
/// one record be killed on one host.
pub open spec fn ends_only(
    before: ServiceView,
    after: ServiceView,
    host: Option<Seq<char>>,
    record: Seq<char>,
) -> bool {
    forall|n: int|
        before.log.len() <= n < after.log.len() && (#[trigger] after.log[n]).destroys() ==> (
        after.log[n] matches Exchange::KillWorkspace { host: asked, workspace_id, .. } && asked
            == host && workspace_id == record)
}

/// A refused workspace kill never becomes a session kill: killing a workspace
/// ends nothing but its own record on its own host, and one that is refused
/// leaves every row as it was.
pub proof fn law_a_workspace_kill_is_no_session_kill(
    state: ServiceView,
    later: ServiceView,
    id: Seq<char>,
)
    ensures
        ({
            let run = sessions::killing_workspace(state, later, id);
            &&& registry::workspace_of(state.rows, id) matches Some(workspace) ==> ends_only(
                state,
                run.state,
                workspace.remote_host,
                workspace.daemon_workspace_id(),
            )
            &&& run.state.log.len() > state.log.len() && (run.state.log.last()
                matches Exchange::KillWorkspace { reply: Err(_), .. }) ==> run.result is Err
                && run.state.rows == state.rows
        }),
{
}

/// What ends only one record does so on every backend.
pub proof fn law_a_workspace_kill_kills_no_session_on_any_backend<B: SessionBackend>(
    before: WorkspaceLifecycleService<B>,
    after: WorkspaceLifecycleService<B>,
    id: Seq<char>,
    k: int,
)
    requires
        after.continues(&before),
        after@ == sessions::killing_workspace(before@, after@, id).state,
        before.history().len() <= k < after.history().len(),
    ensures
        after.history()[k] matches Step::Asked { exchange, .. } ==> (exchange.destroys() ==> (
        exchange matches Exchange::KillWorkspace { host, workspace_id, .. }
            && registry::workspace_of(before@.rows, id) matches Some(workspace) && host
            == workspace.remote_host && workspace_id == workspace.daemon_workspace_id())),
{
    law_a_workspace_kill_is_no_session_kill(before@, after@, id);
    if after.history()[k] is Asked {
        after.law_every_call_is_recorded(&before, k);
    }
}

/// A probe creates nothing and ends nothing, and the row keeps everything but
/// its status: a dead session keeps its name.
pub proof fn law_a_probe_only_looks(
    state: ServiceView,
    later: ServiceView,
    workspace: WorkspaceView,
)
    requires
        registry::is_table(state.rows),
    ensures
        quiet(state, sessions::probing(state, later, workspace).state),
        same_rows_but_status(state.rows, sessions::probing(state, later, workspace).state.rows),
        registry::is_table(sessions::probing(state, later, workspace).state.rows),
        sessions::probing(state, later, workspace).workspace.terminal_session_id
            == workspace.terminal_session_id,
        sessions::probing(state, later, workspace).workspace.id == workspace.id,
{
    if let Some(session) = workspace.terminal_session_id {
        let (reached, connected) = replay::connect(state, later, workspace.remote_host);
        let (asked, reply) = replay::session_exists(
            reached,
            later,
            workspace.remote_host,
            session,
            workspace.daemon_id,
        );
        if let Ok(alive) = reply {
            lemma_status_is_recorded(
                asked,
                workspace,
                sessions::probe_verdict(alive).1,
            );
        }
    }
}

/// A dead session is surfaced and never silently recreated: opening a workspace
/// creates nothing and ends nothing, and the row keeps its session.
pub proof fn law_opening_recreates_nothing(
    state: ServiceView,
    later: ServiceView,
    id: Seq<char>,
    now: i64,
)
    requires
        registry::is_table(state.rows),
    ensures
        quiet(state, sessions::opening(state, later, id, now).state),
        sessions::opening(state, later, id, now).result matches Ok((opened, _)) ==> (
        registry::workspace_of(state.rows, id) matches Some(before)
            && opened.terminal_session_id == before.terminal_session_id),
{
    if let Some(workspace) = registry::workspace_of(state.rows, id) {
        let change = registry::opening_change(now);
        let at = registry::position(state.rows, id);
        registry::lemma_position(state.rows, id);
        let rows = state.rows;
        assert(!registry::collides(rows, at, change(rows[at]))) by {
            if registry::collides(rows, at, change(rows[at])) {
                let k = choose|k: int|
                    0 <= k < rows.len() && k != at && change(rows[at]).same_record(
                        #[trigger] rows[k],
                    );
                assert(rows[at].same_record(rows[k]));
                assert(rows[k].same_record(rows[at]));
                if k < at {
                    assert(!rows[k].same_record(rows[at]));
                } else {
                    assert(!rows[at].same_record(rows[k]));
                }
            }
        }
        registry::lemma_update_keeps_the_rules(rows, at, change(rows[at]));
        let opened = ServiceView { rows: registry::changed(rows, id, change)->0, ..state };
        law_a_probe_only_looks(
            opened,
            later,
            WorkspaceView { last_opened_at: now, ..workspace },
        );
    }
}

/// A rename that the daemon refuses, or that never reaches it, leaves every row
/// as it was.
pub proof fn law_a_refused_rename_changes_nothing(
    state: ServiceView,
    later: ServiceView,
    id: Seq<char>,
    name: Seq<char>,
)
    ensures
        sessions::renaming(state, later, id, name).result is Err ==> sessions::renaming(
            state,
            later,
            id,
            name,
        ).state.rows == state.rows,
{
}

/// A row is deleted only behind a kill that succeeded: where the kill is refused
/// the row stays, and where the row goes its record went last.
pub proof fn law_a_refused_kill_keeps_the_row(
    state: ServiceView,
    later: ServiceView,
    workspace: WorkspaceView,
)
    ensures
        ({
            let run = sessions::killing_and_deleting(state, later, workspace);
            match run.result {
                Err(_) => run.state.rows == state.rows,
                Ok(()) => {
                    &&& run.state.rows == registry::without(state.rows, workspace.id)
                    &&& run.state.log.len() > state.log.len()
                    &&& run.state.log.last() matches Exchange::KillWorkspace {
                        host,
                        workspace_id,
                        reply,
                        ..
                    } && host == workspace.remote_host && workspace_id
                        == workspace.daemon_workspace_id() && reply is Ok
                },
            }
        }),
{
}

/// A session the backend refuses leaves its workspace recorded, as an error:
/// the row lands before the session is asked for.
pub proof fn law_a_refused_session_leaves_the_row(
    state: ServiceView,
    later: ServiceView,
    workspace: WorkspaceView,
)
    requires
        registry::is_table(state.rows),
    ensures
        ({
            let run = sessions::starting(state, later, workspace);
            let asked = replay::connect(state, later, workspace.remote_host);
            run.result is Err && (asked.1 is Err || run.state.log.last() matches Exchange::Create {
                reply: Err(_),
                ..
            }) ==> run.workspace.status == WorkspaceStatus::Error && same_rows_but_status(
                state.rows,
                run.state.rows,
            )
        }),
{
    let (reached, connected) = replay::connect(state, later, workspace.remote_host);
    lemma_status_is_recorded(reached, workspace, WorkspaceStatus::Error);
    let (asked, reply) = replay::create(
        reached,
        later,
        workspace.remote_host,
        sessions::spec_of(workspace),
        workspace.daemon_id,
    );
    lemma_status_is_recorded(asked, workspace, WorkspaceStatus::Error);
    if reply is Ok && connected is Ok {
        let run = sessions::starting(state, later, workspace);
        assert(run.state.log == asked.log);
    }
}

proof fn lemma_enriching_one_quiet(
    state: ServiceView,
    later: ServiceView,
    host: Option<Seq<char>>,
    key: KeyView,
    instance: Option<Seq<char>>,
    known: Seq<WorkspaceView>,
    cached: Seq<RecordView>,
    record: RecordView,
)
    ensures
        quiet(
            state,
            enrich::enriching_one(state, later, host, key, instance, known, cached, record).0,
        ),
{
}

proof fn lemma_enriching_quiet(
    state: ServiceView,
    later: ServiceView,
    host: Option<Seq<char>>,
    key: KeyView,
    instance: Option<Seq<char>>,
    known: Seq<WorkspaceView>,
    cached: Seq<RecordView>,
    records: Seq<RecordView>,
)
    ensures
        quiet(
            state,
            enrich::enriching(state, later, host, key, instance, known, cached, records).0,
        ),
    decreases records.len(),
{
    if records.len() > 0 {
        let rest = records.drop_last();
        lemma_enriching_quiet(state, later, host, key, instance, known, cached, rest);
        let (before, result) = enrich::enriching(
            state,
            later,
            host,
            key,
            instance,
            known,
            cached,
            rest,
        );
        lemma_enriching_one_quiet(
            before,
            later,
            host,
            key,
            instance,
            known,
            cached,
            records.last(),
        );
        lemma_quiet_transitive(
            state,
            before,
            enrich::enriching_one(
                before,
                later,
                host,
                key,
                instance,
                known,
                cached,
                records.last(),
            ).0,
        );
    }
}

proof fn lemma_resolving_quiet(
    state: ServiceView,
    later: ServiceView,
    host: Option<Seq<char>>,
    instance: Option<Seq<char>>,
    held: Seq<RecordView>,
    known: Seq<WorkspaceView>,
)
    ensures
        quiet(state, listing::resolving(state, later, host, instance, held, known).state),
    decreases known.len(),
{
    if known.len() > 0 {
        let rest = known.drop_last();
        lemma_resolving_quiet(state, later, host, instance, held, rest);
        let before = listing::resolving(state, later, host, instance, held, rest).state;
        let after = listing::resolving_one(
            before,
            later,
            host,
            instance,
            held,
            known.last(),
        ).state;
        assert(quiet(before, after));
        lemma_quiet_transitive(state, before, after);
    }
}

proof fn lemma_mirroring_quiet(
    state: ServiceView,
    later: ServiceView,
    host: Option<Seq<char>>,
    instance: Option<Seq<char>>,
    known: Seq<WorkspaceView>,
    held: Seq<RecordView>,
)
    ensures
        quiet(state, listing::mirroring(state, later, host, instance, known, held).state),
    decreases held.len(),
{
    if held.len() > 0 {
        let rest = held.drop_last();
        lemma_mirroring_quiet(state, later, host, instance, known, rest);
        let before = listing::mirroring(state, later, host, instance, known, rest).state;
        let after = listing::mirroring_one(
            before,
            later,
            host,
            instance,
            known,
            held.last(),
        ).state;
        assert(quiet(before, after));
        lemma_quiet_transitive(state, before, after);
    }
}

proof fn lemma_listing_twice_quiet(
    state: ServiceView,
    later: ServiceView,
    host: Option<Seq<char>>,
    tries: nat,
)
    ensures
        quiet(state, listing::listing_twice(state, later, host, tries).state),
    decreases tries,
{
    if tries > 0 {
        let (first, initial) = replay::list_workspaces(state, later, host);
        let (second, refreshed) = replay::list_workspaces(first, later, host);
        lemma_listing_twice_quiet(second, later, host, (tries - 1) as nat);
        assert(quiet(state, second));
        lemma_quiet_transitive(
            state,
            second,
            listing::listing_twice(second, later, host, (tries - 1) as nat).state,
        );
    }
}

/// Listing what a host holds creates nothing and ends nothing.
pub proof fn law_a_listing_only_looks(
    state: ServiceView,
    later: ServiceView,
    host: Option<Seq<char>>,
)
    ensures
        quiet(state, listing::listing_host(state, later, host).state),
{
    let run = listing::listing_twice(state, later, host, 3);
    lemma_listing_twice_quiet(state, later, host, 3);
    if let Ok((instance, items)) = run.result {
        let key = daemon::key_of(instance, host);
        let known = registry::listing(run.state.rows, registry::used_rows());
        let cached = snapshot::remembered(run.state.discoveries, key);
        lemma_enriching_quiet(run.state, later, host, key, instance, known, cached, items);
        let (enriched, records) = enrich::enriching(
            run.state,
            later,
            host,
            key,
            instance,
            known,
            cached,
            items,
        );
        lemma_quiet_transitive(state, run.state, enriched);
        if let Ok(held) = records {
            lemma_resolving_quiet(enriched, later, host, instance, held, known);
            let resolved = listing::resolving(enriched, later, host, instance, held, known);
            lemma_quiet_transitive(state, enriched, resolved.state);
            if let Ok((rows, changed)) = resolved.result {
                lemma_mirroring_quiet(resolved.state, later, host, instance, rows, held);
                lemma_quiet_transitive(
                    state,
                    resolved.state,
                    listing::mirroring(resolved.state, later, host, instance, rows, held).state,
                );
            }
        }
    }
}

proof fn lemma_gathering_quiet(
    pass: Gathered,
    later: ServiceView,
    discovering: Seq<Option<Seq<char>>>,
    discover: bool,
    hosts: Seq<Option<Seq<char>>>,
)
    ensures
        quiet(
            pass.state,
            reconcile::gathering(pass, later, discovering, discover, hosts).state,
        ),
    decreases hosts.len(),
{
    if hosts.len() > 0 {
        let rest = hosts.drop_last();
        let host = hosts.last();
        lemma_gathering_quiet(pass, later, discovering, discover, rest);
        let before = reconcile::gathering(pass, later, discovering, discover, rest);
        let after = reconcile::gathering_one(before, later, discovering, discover, host);
        let (reached, connected) = replay::connect(before.state, later, host);
        let (named, instance) = replay::instance(reached, later, host);
        let run = listing::listing_host(named, later, host);
        law_a_listing_only_looks(named, later, host);
        assert(quiet(before.state, named));
        lemma_quiet_transitive(before.state, named, run.state);
        let (asked, _) = replay::list_sessions(run.state, later, host);
        let (plain, _) = replay::list_sessions(named, later, host);
        assert(quiet(run.state, asked) && quiet(named, plain));
        lemma_quiet_transitive(before.state, run.state, asked);
        lemma_quiet_transitive(before.state, named, plain);
        assert(quiet(before.state, after.state));
        lemma_quiet_transitive(pass.state, before.state, after.state);
    }
}

/// A pass over every workspace creates nothing and ends nothing.
pub proof fn law_a_pass_only_looks(
    state: ServiceView,
    later: ServiceView,
    rows: Seq<WorkspaceView>,
    discover: bool,
)
    ensures
        quiet(state, reconcile::reconciling(state, later, rows, discover).0),
{
    let discovering = reconcile::discovered_hosts(state, discover);
    let start = Gathered { state, rows, errors: state.status_errors, outcomes: Seq::empty() };
    lemma_gathering_quiet(
        start,
        later,
        discovering,
        discover,
        reconcile::with_row_hosts(discovering, rows),
    );
    let pass = reconcile::gathering_all(state, later, rows, discover);
    reconcile::lemma_judging_asks_nothing(
        pass.state,
        order::ranked::<reconcile::HostOutcome>(pass.outcomes),
        order::ranked::<crate::workspace::AdeWorkspace>(pass.rows),
    );
}

/// A row whose host could not say what is alive reads unknown, or never
/// created, and keeps the status it had.
pub proof fn law_an_unanswered_row_is_untouched(
    state: ServiceView,
    outcomes: Seq<OutcomeView>,
    row: WorkspaceView,
)
    requires
        reconcile::live_for(outcomes, row) is None,
    ensures
        reconcile::judging_one(state, outcomes, row) == (
            state,
            (
                row,
                if row.terminal_session_id is Some {
                    SessionState::Unknown
                } else {
                    SessionState::NeverCreated
                },
            ),
        ),
{
}

/// A host that cannot be reached fails alone: it adds one line to the errors and
/// an outcome that knows nothing, and the rows and the other hosts' shares stay
/// what they were.
pub proof fn law_an_unreachable_host_fails_alone(
    pass: Gathered,
    later: ServiceView,
    discovering: Seq<Option<Seq<char>>>,
    discover: bool,
    host: Option<Seq<char>>,
)
    requires
        reconcile::anything_to_probe(pass.rows, host) || discovering.contains(host),
        replay::connect(pass.state, later, host).1 is Err,
    ensures
        ({
            let after = reconcile::gathering_one(pass, later, discovering, discover, host);
            &&& after.rows == pass.rows
            &&& after.state.rows == pass.state.rows
            &&& after.errors.len() == pass.errors.len() + 1
            &&& after.errors.last().0 == daemon::host_name(host)
            &&& after.outcomes == pass.outcomes.push(
                OutcomeView { host, daemon: KeyView::Host(host), live: None, held: None },
            )
        }),
{
}

/// A host with nothing to probe and nothing to discover is never asked, and
/// never connected to.
pub proof fn law_an_idle_host_is_left_alone(
    pass: Gathered,
    later: ServiceView,
    discovering: Seq<Option<Seq<char>>>,
    discover: bool,
    host: Option<Seq<char>>,
)
    requires
        !reconcile::anything_to_probe(pass.rows, host),
        !discovering.contains(host),
    ensures
        reconcile::gathering_one(pass, later, discovering, discover, host).state == pass.state,
{
}

proof fn lemma_discoveries_of(
    records: Seq<RecordView>,
    rows: Seq<(WorkspaceView, SessionState)>,
    outcome: OutcomeView,
)
    ensures
        forall|d: int|
            0 <= d < reconcile::discoveries_of(records, rows, outcome).len() ==> {
                let found = #[trigger] reconcile::discoveries_of(records, rows, outcome)[d];
                &&& found.remote_host == outcome.host
                &&& records.contains(found.workspace)
                &&& !reconcile::is_used_by(rows, outcome, found.workspace.id)
                &&& found.state == reconcile::discovery_state(outcome, found.workspace.id)
            },
        forall|r: int|
            0 <= r < records.len() && !reconcile::is_used_by(
                rows,
                outcome,
                (#[trigger] records[r]).id,
            ) ==> reconcile::discoveries_of(records, rows, outcome).contains(
                DiscoveryView {
                    remote_host: outcome.host,
                    workspace: records[r],
                    state: reconcile::discovery_state(outcome, records[r].id),
                },
            ),
    decreases records.len(),
{
    if records.len() > 0 {
        let rest = records.drop_last();
        lemma_discoveries_of(rest, rows, outcome);
        let before = reconcile::discoveries_of(rest, rows, outcome);
        let all = reconcile::discoveries_of(records, rows, outcome);
        assert forall|d: int| 0 <= d < all.len() implies {
            let found = #[trigger] all[d];
            &&& found.remote_host == outcome.host
            &&& records.contains(found.workspace)
            &&& !reconcile::is_used_by(rows, outcome, found.workspace.id)
            &&& found.state == reconcile::discovery_state(outcome, found.workspace.id)
        } by {
            if d < before.len() {
                assert(all[d] == before[d]);
                let k = choose|k: int| 0 <= k < rest.len() && rest[k] == before[d].workspace;
                assert(records[k] == before[d].workspace);
            } else {
                assert(records[records.len() - 1] == all[d].workspace);
            }
        }
        assert forall|r: int|
            0 <= r < records.len() && !reconcile::is_used_by(
                rows,
                outcome,
                (#[trigger] records[r]).id,
            ) implies all.contains(
            DiscoveryView {
                remote_host: outcome.host,
                workspace: records[r],
                state: reconcile::discovery_state(outcome, records[r].id),
            },
        ) by {
            let wanted = DiscoveryView {
                remote_host: outcome.host,
                workspace: records[r],
                state: reconcile::discovery_state(outcome, records[r].id),
            };
            if r < rest.len() {
                assert(rest[r] == records[r]);
                let k = choose|k: int| 0 <= k < before.len() && before[k] == wanted;
                assert(all[k] == wanted);
            } else {
                assert(all[all.len() - 1] == wanted);
            }
        }
    }
}

/// A discovery is a record that some host holds and no row uses, with the state
/// that host's answers give it; and the host is the first spelling of its
/// daemon. A wire id a row already uses is never one, however the row's host is
/// spelled.
pub proof fn law_a_used_record_is_no_discovery(
    outcomes: Seq<OutcomeView>,
    discoveries: Map<KeyView, Seq<RecordView>>,
    rows: Seq<(WorkspaceView, SessionState)>,
    d: int,
) -> (at: int)
    requires
        0 <= d < reconcile::rendering(outcomes, discoveries, rows).len(),
    ensures
        0 <= at < outcomes.len(),
        !reconcile::is_rendered(outcomes, at),
        ({
            let found = reconcile::rendering(outcomes, discoveries, rows)[d];
            let outcome = outcomes[at];
            &&& found.remote_host == outcome.host
            &&& reconcile::held_by(outcome, discoveries).contains(found.workspace)
            &&& !reconcile::is_used_by(rows, outcome, found.workspace.id)
            &&& found.state == reconcile::discovery_state(outcome, found.workspace.id)
        }),
    decreases outcomes.len(),
{
    let rest = outcomes.drop_last();
    let before = reconcile::rendering(rest, discoveries, rows);
    let last = outcomes.len() - 1;
    if d < before.len() {
        let at = law_a_used_record_is_no_discovery(rest, discoveries, rows, d);
        assert(rest[at] == outcomes[at]);
        assert(reconcile::rendering(outcomes, discoveries, rows)[d] == before[d]);
        if reconcile::is_rendered(outcomes, at) {
            let k = choose|k: int|
                0 <= k < at && (#[trigger] outcomes[k]).daemon == outcomes[at].daemon;
            assert(rest[k].daemon == rest[at].daemon);
        }
        at
    } else {
        let outcome = outcomes.last();
        let held = reconcile::held_by(outcome, discoveries);
        lemma_discoveries_of(held, rows, outcome);
        assert(reconcile::rendering(outcomes, discoveries, rows)[d] == reconcile::discoveries_of(
            held,
            rows,
            outcome,
        )[d - before.len()]);
        last
    }
}

/// Nothing a daemon holds is left out: every record of its first spelling that
/// no row uses is shown.
pub proof fn law_every_unused_record_is_a_discovery(
    outcomes: Seq<OutcomeView>,
    discoveries: Map<KeyView, Seq<RecordView>>,
    rows: Seq<(WorkspaceView, SessionState)>,
    at: int,
    record: RecordView,
)
    requires
        0 <= at < outcomes.len(),
        !reconcile::is_rendered(outcomes, at),
        reconcile::held_by(outcomes[at], discoveries).contains(record),
        !reconcile::is_used_by(rows, outcomes[at], record.id),
    ensures
        reconcile::rendering(outcomes, discoveries, rows).contains(
            DiscoveryView {
                remote_host: outcomes[at].host,
                workspace: record,
                state: reconcile::discovery_state(outcomes[at], record.id),
            },
        ),
    decreases outcomes.len(),
{
    let wanted = DiscoveryView {
        remote_host: outcomes[at].host,
        workspace: record,
        state: reconcile::discovery_state(outcomes[at], record.id),
    };
    let rest = outcomes.drop_last();
    let before = reconcile::rendering(rest, discoveries, rows);
    let all = reconcile::rendering(outcomes, discoveries, rows);
    if at < rest.len() {
        assert(rest[at] == outcomes[at]);
        if reconcile::is_rendered(rest, at) {
            let k = choose|k: int|
                0 <= k < at && (#[trigger] rest[k]).daemon == rest[at].daemon;
            assert(outcomes[k].daemon == outcomes[at].daemon);
        }
        law_every_unused_record_is_a_discovery(rest, discoveries, rows, at, record);
        let k = choose|k: int| 0 <= k < before.len() && before[k] == wanted;
        assert(all[k] == wanted);
    } else {
        let held = reconcile::held_by(outcomes[at], discoveries);
        lemma_discoveries_of(held, rows, outcomes[at]);
        let r = choose|r: int| 0 <= r < held.len() && held[r] == record;
        assert(held[r].id == record.id);
        let found = reconcile::discoveries_of(held, rows, outcomes[at]);
        let k = choose|k: int| 0 <= k < found.len() && found[k] == wanted;
        assert(all[before.len() + k] == wanted);
    }
}

/// One daemon renders once: another spelling of a daemon already rendered adds
/// nothing.
pub proof fn law_a_second_spelling_adds_nothing(
    outcomes: Seq<OutcomeView>,
    discoveries: Map<KeyView, Seq<RecordView>>,
    rows: Seq<(WorkspaceView, SessionState)>,
    first: int,
    again: OutcomeView,
)
    requires
        0 <= first < outcomes.len(),
        outcomes[first].daemon == again.daemon,
    ensures
        reconcile::rendering(outcomes.push(again), discoveries, rows) == reconcile::rendering(
            outcomes,
            discoveries,
            rows,
        ),
{
    let more = outcomes.push(again);
    assert(more.drop_last() =~= outcomes);
    assert(more[first].daemon == more[outcomes.len() as int].daemon);
}

/// A spelling that answered wins over one that failed: among the outcomes of a
/// pass in the order they are rendered, none that could be asked what it holds
/// stands behind one that could not.
pub proof fn law_a_healthy_alias_wins(outcomes: Seq<OutcomeView>, i: int, j: int)
    requires
        0 <= i < j < order::ranked::<reconcile::HostOutcome>(outcomes).len(),
    ensures
        ({
            let sorted = order::ranked::<reconcile::HostOutcome>(outcomes);
            &&& sorted[j].held is Some ==> sorted[i].held is Some
            &&& sorted[j].live is Some && (sorted[i].held is Some <==> sorted[j].held is Some)
                ==> sorted[i].live is Some
        }),
{
    let sorted = order::ranked::<reconcile::HostOutcome>(outcomes);
    let before = order::rank_of::<reconcile::HostOutcome>();
    order::lemma_ranked_is_sorted::<reconcile::HostOutcome>(outcomes);
    let by = choose|by: Seq<int>| order::sorts(outcomes, sorted, by, before);
    assert(before(sorted[i], sorted[j]) || !before(sorted[j], sorted[i]));
}

/// Judging rows changes their status at most.
pub proof fn lemma_judging_keeps_the_rows(
    state: ServiceView,
    outcomes: Seq<OutcomeView>,
    rows: Seq<WorkspaceView>,
)
    requires
        registry::is_table(state.rows),
    ensures
        same_rows_but_status(state.rows, reconcile::judging(state, outcomes, rows).0.rows),
        registry::is_table(reconcile::judging(state, outcomes, rows).0.rows),
    decreases rows.len(),
{
    if rows.len() > 0 {
        lemma_judging_keeps_the_rows(state, outcomes, rows.drop_last());
        let (before, judged) = reconcile::judging(state, outcomes, rows.drop_last());
        let row = rows.last();
        if let Some(session) = row.terminal_session_id {
            if let Some(live) = reconcile::live_for(outcomes, row) {
                lemma_status_is_recorded(
                    before,
                    row,
                    sessions::probe_verdict(live.contains(session)).1,
                );
                lemma_same_status_transitive(
                    state.rows,
                    before.rows,
                    reconcile::judging_one(before, outcomes, row).0.rows,
                );
            }
        }
    }
}

/// What one run of the second of the two steps of a removal leaves of another
/// row: everything.
proof fn lemma_cleaning_one_spares(
    state: ServiceView,
    later: ServiceView,
    candidates: Seq<Seq<char>>,
    found: EntryView,
    other: Seq<char>,
)
    requires
        registry::is_table(state.rows),
        !candidates.contains(other),
    ensures
        ({
            let after = cleanup::cleaning_one(state, later, candidates, found).state;
            &&& registry::is_table(after.rows)
            &&& registry::row_of(after.rows, other) == registry::row_of(state.rows, other)
        }),
{
    if let EntryView::Persisted(row, SessionState::Dead) = found {
        if candidates.contains(row.id) {
            let id = row.id;
            assert(id != other);
            registry::lemma_position(state.rows, id);
            if let Some(current) = registry::workspace_of(state.rows, id) {
                let probe = sessions::probing(state, later, current);
                law_a_probe_only_looks(state, later, current);
                assert(registry::row_of(probe.state.rows, other) == registry::row_of(
                    state.rows,
                    other,
                )) by {
                    lemma_probe_is_local(state, later, current, other);
                }
                let kill = sessions::killing_and_deleting(probe.state, later, probe.workspace);
                law_a_refused_kill_keeps_the_row(probe.state, later, probe.workspace);
                registry::law_a_deletion_is_local(probe.state.rows, id, other);
                registry::lemma_without_keeps_the_rules(probe.state.rows, id);
            }
        }
    }
}

proof fn lemma_probe_is_local(
    state: ServiceView,
    later: ServiceView,
    workspace: WorkspaceView,
    other: Seq<char>,
)
    requires
        registry::is_table(state.rows),
        workspace.id != other,
    ensures
        registry::row_of(sessions::probing(state, later, workspace).state.rows, other)
            == registry::row_of(state.rows, other),
{
    if let Some(session) = workspace.terminal_session_id {
        let (reached, connected) = replay::connect(state, later, workspace.remote_host);
        let (asked, reply) = replay::session_exists(
            reached,
            later,
            workspace.remote_host,
            session,
            workspace.daemon_id,
        );
        if let Ok(alive) = reply {
            let status = sessions::probe_verdict(alive).1;
            let change = registry::status_change(status);
            lemma_status_change_fits(asked.rows, workspace.id, status);
            registry::law_a_change_is_local(asked.rows, workspace.id, change, other);
        }
    }
}

proof fn lemma_status_change_fits(rows: Seq<RowView>, id: Seq<char>, status: WorkspaceStatus)
    requires
        registry::is_table(rows),
    ensures
        registry::changed(rows, id, registry::status_change(status)) is Some,
{
    let change = registry::status_change(status);
    let at = registry::position(rows, id);
    registry::lemma_position(rows, id);
    if at < rows.len() && registry::collides(rows, at, change(rows[at])) {
        let k = choose|k: int|
            0 <= k < rows.len() && k != at && change(rows[at]).same_record(#[trigger] rows[k]);
        assert(rows[at].same_record(rows[k]));
        assert(rows[k].same_record(rows[at]));
        if k < at {
            assert(!rows[k].same_record(rows[at]));
        } else {
            assert(!rows[at].same_record(rows[k]));
        }
    }
}

/// Cleaning up removes nothing but candidates: whatever the pass found and the
/// backends answer, the row of any other workspace stays as the pass left it.
pub proof fn law_cleanup_spares_the_others(
    state: ServiceView,
    later: ServiceView,
    candidates: Seq<Seq<char>>,
    found: Seq<EntryView>,
    other: Seq<char>,
)
    requires
        registry::is_table(state.rows),
        !candidates.contains(other),
    ensures
        registry::is_table(cleanup::cleaning(state, later, candidates, found).state.rows),
        registry::row_of(
            cleanup::cleaning(state, later, candidates, found).state.rows,
            other,
        ) == registry::row_of(state.rows, other),
    decreases found.len(),
{
    if found.len() > 0 {
        let before = cleanup::cleaning(state, later, candidates, found.drop_last());
        law_cleanup_spares_the_others(state, later, candidates, found.drop_last(), other);
        if before.result is Ok {
            lemma_cleaning_one_spares(before.state, later, candidates, found.last(), other);
        }
    }
}

/// A row is removed only behind a second probe that found its session gone: a
/// row that answers alive, has no session, or cannot be asked stays.
pub proof fn law_cleanup_asks_again(state: ServiceView, later: ServiceView, id: Seq<char>)
    ensures
        cleanup::cleaning_row(state, later, id).result == Ok::<bool, FailureView>(true) ==> {
            &&& registry::workspace_of(state.rows, id) matches Some(current)
            &&& sessions::probing(state, later, current).result == Ok::<
                SessionState,
                FailureView,
            >(SessionState::Dead)
            &&& current.terminal_session_id is Some
        },
{
}

/// What is asked between two states and could end something: only the sessions
/// of the workspace itself, and the records of its duplicates under another
/// name.
pub open spec fn spares_the_record(
    before: ServiceView,
    after: ServiceView,
    workspace: WorkspaceView,
) -> bool {
    &&& before.log.is_prefix_of(after.log)
    &&& forall|n: int|
        before.log.len() <= n < after.log.len() && (#[trigger] after.log[n]).destroys()
            ==> spares_in(after.log[n], workspace)
}

/// Whether what a question ends, on the workspace's own host, is its sessions or
/// the record of another.
pub open spec fn spares_in(exchange: Exchange, workspace: WorkspaceView) -> bool {
    exchange.host() == workspace.remote_host && match exchange {
        Exchange::KillWorkspace { workspace_id, .. } => workspace_id
            != workspace.daemon_workspace_id(),
        Exchange::Reset { session, .. } => session == workspace.daemon_workspace_id(),
        _ => false,
    }
}

proof fn lemma_spares_transitive(
    a: ServiceView,
    b: ServiceView,
    c: ServiceView,
    workspace: WorkspaceView,
)
    requires
        spares_the_record(a, b, workspace),
        spares_the_record(b, c, workspace),
    ensures
        spares_the_record(a, c, workspace),
{
    assert forall|n: int|
        a.log.len() <= n < c.log.len() && (#[trigger] c.log[n]).destroys() implies c.log[n].host()
        == workspace.remote_host && match c.log[n] {
        Exchange::KillWorkspace { workspace_id, .. } => workspace_id
            != workspace.daemon_workspace_id(),
        Exchange::Reset { session, .. } => session == workspace.daemon_workspace_id(),
        _ => false,
    } by {
        if n < b.log.len() {
            assert(c.log[n] == b.log[n]);
        }
    }
}

proof fn lemma_dropping_spares(
    state: ServiceView,
    later: ServiceView,
    workspace: WorkspaceView,
    daemon: Option<Seq<char>>,
    duplicates: Seq<WorkspaceView>,
)
    ensures
        spares_the_record(
            state,
            reset::dropping(state, later, workspace, daemon, duplicates).state,
            workspace,
        ),
    decreases duplicates.len(),
{
    if duplicates.len() > 0 {
        let rest = duplicates.drop_last();
        let run = reset::dropping(state, later, workspace, daemon, rest);
        lemma_dropping_spares(state, later, workspace, daemon, rest);
        if run.result is Ok {
            let after = reset::dropping_one(
                run.state,
                later,
                workspace,
                daemon,
                duplicates.last(),
            ).state;
            assert(spares_the_record(run.state, after, workspace));
            lemma_spares_transitive(state, run.state, after, workspace);
        }
    }
}

/// A reset keeps the selected record: all it ends is on the workspace's own
/// host, and is either the sessions of that record or the record of a duplicate
/// that goes by another name.
pub proof fn law_a_reset_keeps_its_record(state: ServiceView, later: ServiceView, id: Seq<char>)
    ensures
        registry::workspace_of(state.rows, id) matches Some(workspace) ==> spares_the_record(
            state,
            reset::resetting(state, later, id).state,
            workspace,
        ),
{
    if let Some(workspace) = registry::workspace_of(state.rows, id) {
        let (reached, connected) = replay::connect(state, later, workspace.remote_host);
        if connected is Ok {
            let fence = sessions::fencing(
                reached,
                later,
                workspace,
                "the daemon changed while preparing to reset workspace "@,
            );
            assert(spares_the_record(state, fence.state, workspace));
            if let Ok(daemon) = fence.result {
                let duplicates = reset::duplicates_of(fence.state.rows, workspace);
                let cleared = reset::dropping(fence.state, later, workspace, daemon, duplicates);
                lemma_dropping_spares(fence.state, later, workspace, daemon, duplicates);
                lemma_spares_transitive(state, fence.state, cleared.state, workspace);
                if cleared.result is Ok {
                    lemma_restarting_spares(cleared.state, later, workspace, daemon);
                    lemma_spares_transitive(
                        state,
                        cleared.state,
                        reset::restarting(cleared.state, later, workspace, daemon).state,
                        workspace,
                    );
                }
            }
        }
    }
}

proof fn lemma_restarting_spares(
    state: ServiceView,
    later: ServiceView,
    workspace: WorkspaceView,
    daemon: Option<Seq<char>>,
)
    ensures
        spares_the_record(
            state,
            reset::restarting(state, later, workspace, daemon).state,
            workspace,
        ),
{
    let (killed, reply) = replay::reset(
        state,
        later,
        workspace.remote_host,
        workspace.daemon_workspace_id(),
        workspace.repository_path,
        daemon,
    );
    assert(spares_the_record(state, killed, workspace));
    if reply is Ok {
        let owned = WorkspaceView {
            daemon_id: sessions::or_else(workspace.daemon_id, daemon),
            ..workspace
        };
        let started = sessions::starting(killed, later, owned);
        assert(spares_the_record(killed, started.state, workspace)) by {
            lemma_starting_creates_at_most(killed, later, owned);
        }
        lemma_spares_transitive(state, killed, started.state, workspace);
        if started.result is Ok {
            let attached = crate::opening::attaching(started.state, later, started.workspace);
            assert(spares_the_record(started.state, attached.state, workspace));
            lemma_spares_transitive(state, started.state, attached.state, workspace);
        }
    }
}

proof fn lemma_starting_creates_at_most(
    state: ServiceView,
    later: ServiceView,
    workspace: WorkspaceView,
)
    ensures
        ({
            let after = sessions::starting(state, later, workspace).state;
            &&& state.log.is_prefix_of(after.log)
            &&& forall|n: int|
                state.log.len() <= n < after.log.len() ==> !(#[trigger] after.log[n]).destroys()
        }),
{
}

proof fn lemma_opening_discovery_quiet(
    state: ServiceView,
    later: ServiceView,
    host: Option<Seq<char>>,
    wire_id: Seq<char>,
    id: Seq<char>,
    time: i64,
    tries: nat,
)
    ensures
        quiet(
            state,
            confirm::opening_discovery(state, later, host, wire_id, id, time, tries).state,
        ),
    decreases tries,
{
    if tries > 0 {
        let expected = confirm::expecting(state, later, host);
        assert(quiet(state, expected.state));
        let (listed, reply) = replay::list_workspaces(expected.state, later, host);
        assert(quiet(expected.state, listed));
        lemma_quiet_transitive(state, expected.state, listed);
        lemma_opening_discovery_quiet(
            listed,
            later,
            host,
            wire_id,
            id,
            time,
            (tries - 1) as nat,
        );
        lemma_quiet_transitive(
            state,
            listed,
            confirm::opening_discovery(
                listed,
                later,
                host,
                wire_id,
                id,
                time,
                (tries - 1) as nat,
            ).state,
        );
        if let Ok((instance, items)) = reply {
            let key = daemon::key_of(instance, host);
            let known = registry::listing(listed.rows, registry::used_rows());
            let cached = snapshot::remembered(listed.discoveries, key);
            lemma_enriching_quiet(listed, later, host, key, instance, known, cached, items);
            let (enriched, records) = enrich::enriching(
                listed,
                later,
                host,
                key,
                instance,
                known,
                cached,
                items,
            );
            lemma_quiet_transitive(state, listed, enriched);
            if let Ok(held) = records {
                if let Some(record) = confirm::record_of(held, wire_id) {
                    confirm::lemma_confirming_asks_nothing(
                        ServiceView {
                            discoveries: enriched.discoveries.insert(key, held),
                            ..enriched
                        },
                        key,
                        host,
                        record,
                        id,
                        time,
                    );
                }
            }
        }
    }
}

/// Opening a discovery creates nothing and ends nothing: taking a workspace into
/// use is writing down that it is used.
pub proof fn law_confirming_only_looks(
    state: ServiceView,
    later: ServiceView,
    host: Option<Seq<char>>,
    wire_id: Seq<char>,
    id: Seq<char>,
    time: i64,
)
    ensures
        quiet(
            state,
            confirm::confirming_discovery(state, later, host, wire_id, id, time).state,
        ),
{
    let (reached, connected) = replay::connect(state, later, host);
    lemma_opening_discovery_quiet(reached, later, host, wire_id, id, time, 3);
}

/// That everything asked between two states that could end something asks for
/// the sessions of a workspace alone: no record is removed.
pub open spec fn only_kills_sessions(before: ServiceView, after: ServiceView) -> bool {
    &&& before.log.is_prefix_of(after.log)
    &&& forall|n: int|
        before.log.len() <= n < after.log.len() && (#[trigger] after.log[n]).destroys()
            ==> after.log[n] is Kill
}

proof fn lemma_only_kills_transitive(a: ServiceView, b: ServiceView, c: ServiceView)
    requires
        only_kills_sessions(a, b),
        only_kills_sessions(b, c),
    ensures
        only_kills_sessions(a, c),
{
    assert forall|n: int|
        a.log.len() <= n < c.log.len() && (#[trigger] c.log[n]).destroys() implies c.log[n]
        is Kill by {
        if n < b.log.len() {
            assert(c.log[n] == b.log[n]);
        }
    }
}

/// Killing every session shown keeps the workspaces: whatever the targets are
/// and the backends answer, nothing that is asked could remove a record.
pub proof fn law_killing_sessions_keeps_the_records(
    state: ServiceView,
    later: ServiceView,
    targets: Seq<(EntryView, Seq<char>)>,
    now: i64,
)
    ensures
        only_kills_sessions(state, bulk::killing_targets(state, later, targets, now).0),
    decreases targets.len(),
{
    if targets.len() > 0 {
        let rest = targets.drop_last();
        law_killing_sessions_keeps_the_records(state, later, rest, now);
        let before = bulk::killing_targets(state, later, rest, now).0;
        let target = targets.last();
        let after = bulk::killing_target(before, later, target, now).state;
        match target.0 {
            EntryView::Persisted(row, _) => {
                lemma_killing_a_session(before, later, row.id);
            },
            EntryView::Discovered { remote_host, workspace, .. } => {
                let confirmed = confirm::confirming_discovery(
                    before,
                    later,
                    remote_host,
                    workspace.id,
                    target.1,
                    now,
                );
                law_confirming_only_looks(
                    before,
                    later,
                    remote_host,
                    workspace.id,
                    target.1,
                    now,
                );
                assert(only_kills_sessions(before, confirmed.state));
                if let Ok(row) = confirmed.result {
                    lemma_killing_a_session(confirmed.state, later, row.id);
                    lemma_only_kills_transitive(before, confirmed.state, after);
                }
            },
        }
        lemma_only_kills_transitive(state, before, after);
    }
}

proof fn lemma_killing_a_session(state: ServiceView, later: ServiceView, id: Seq<char>)
    ensures
        only_kills_sessions(state, sessions::killing_session_of(state, later, id).state),
{
}

/// Whether a question asks for the record of one of the workspaces to be killed,
/// on its own host.
pub open spec fn kills_a_record_of(
    exchange: Exchange,
    rows: Seq<RowView>,
    candidates: Seq<Seq<char>>,
) -> bool {
    exists|id: Seq<char>|
        candidates.contains(id) && kills_the_record_of(
            exchange,
            #[trigger] registry::workspace_of(rows, id),
        )
}

/// Whether a question asks for the record of a workspace to be killed, on its
/// own host.
pub open spec fn kills_the_record_of(
    exchange: Exchange,
    workspace: Option<WorkspaceView>,
) -> bool {
    &&& exchange matches Exchange::KillWorkspace { host, workspace_id, .. }
    &&& workspace matches Some(workspace)
    &&& host == workspace.remote_host
    &&& workspace_id == workspace.daemon_workspace_id()
}

/// That every workspace of the later rows is one of the earlier, with the same
/// record on the same host.
spec fn records_stay(before: Seq<RowView>, after: Seq<RowView>) -> bool {
    forall|id: Seq<char>|
        #![trigger registry::workspace_of(after, id)]
        registry::workspace_of(after, id) matches Some(now) ==> (registry::workspace_of(
            before,
            id,
        ) matches Some(then) && now.remote_host == then.remote_host && now.daemon_workspace_id()
            == then.daemon_workspace_id())
}

/// That all that is asked between two states and could end something is that
/// records of the candidates be killed.
spec fn ends_candidates(
    before: ServiceView,
    after: ServiceView,
    candidates: Seq<Seq<char>>,
) -> bool {
    &&& before.log.is_prefix_of(after.log)
    &&& forall|n: int|
        before.log.len() <= n < after.log.len() && (#[trigger] after.log[n]).destroys()
            ==> kills_a_record_of(after.log[n], before.rows, candidates)
}

proof fn lemma_probe_keeps_records(before: Seq<RowView>, after: Seq<RowView>)
    requires
        registry::is_table(before),
        registry::is_table(after),
        same_rows_but_status(before, after),
    ensures
        records_stay(before, after),
{
    assert forall|id: Seq<char>|
        #![trigger registry::workspace_of(after, id)]
        registry::workspace_of(after, id) is Some implies (registry::workspace_of(before, id)
        matches Some(then) && registry::workspace_of(after, id)->0.remote_host == then.remote_host
        && registry::workspace_of(after, id)->0.daemon_workspace_id()
        == then.daemon_workspace_id()) by {
        let at = registry::position(after, id);
        registry::lemma_position(after, id);
        assert(before[at].workspace.id == after[at].workspace.id);
        registry::lemma_position_is(before, id, at);
    }
}

proof fn lemma_deletion_keeps_records(rows: Seq<RowView>, id: Seq<char>)
    requires
        registry::is_table(rows),
    ensures
        records_stay(rows, registry::without(rows, id)),
{
    let after = registry::without(rows, id);
    assert forall|other: Seq<char>|
        #![trigger registry::workspace_of(after, other)]
        registry::workspace_of(after, other) is Some implies registry::workspace_of(after, other)
        == registry::workspace_of(rows, other) by {
        registry::law_a_deletion_is_local(rows, id, other);
    }
}

proof fn lemma_cleaning_one_ends(
    state: ServiceView,
    later: ServiceView,
    candidates: Seq<Seq<char>>,
    found: EntryView,
)
    requires
        registry::is_table(state.rows),
    ensures
        ({
            let after = cleanup::cleaning_one(state, later, candidates, found).state;
            &&& registry::is_table(after.rows)
            &&& records_stay(state.rows, after.rows)
            &&& ends_candidates(state, after, candidates)
        }),
{
    if let EntryView::Persisted(row, SessionState::Dead) = found {
        if candidates.contains(row.id) {
            let id = row.id;
            registry::lemma_position(state.rows, id);
            if let Some(current) = registry::workspace_of(state.rows, id) {
                let probe = sessions::probing(state, later, current);
                law_a_probe_only_looks(state, later, current);
                lemma_probe_keeps_records(state.rows, probe.state.rows);
                let kill = sessions::killing_and_deleting(probe.state, later, probe.workspace);
                law_a_refused_kill_keeps_the_row(probe.state, later, probe.workspace);
                lemma_deletion_keeps_records(probe.state.rows, id);
                registry::lemma_without_keeps_the_rules(probe.state.rows, id);
                assert(probe.workspace.remote_host == current.remote_host);
                assert(probe.workspace.daemon_workspace_id() == current.daemon_workspace_id());
                if probe.result == Ok::<SessionState, FailureView>(SessionState::Dead) {
                    assert(probe.state.log.is_prefix_of(kill.state.log));
                    assert forall|n: int|
                        state.log.len() <= n < kill.state.log.len()
                            && (#[trigger] kill.state.log[n]).destroys() implies kills_a_record_of(
                        kill.state.log[n],
                        state.rows,
                        candidates,
                    ) by {
                        if n < probe.state.log.len() {
                            assert(kill.state.log[n] == probe.state.log[n]);
                        } else {
                            assert(kills_the_record_of(
                                kill.state.log[n],
                                registry::workspace_of(state.rows, id),
                            ));
                        }
                    }
                }
            }
        }
    }
}

/// Cleaning up kills the records of candidates and no other: whatever the pass
/// found and the backends answer, nothing else is asked that could end anything.
pub proof fn law_cleanup_kills_only_candidates(
    state: ServiceView,
    later: ServiceView,
    candidates: Seq<Seq<char>>,
    found: Seq<EntryView>,
    n: int,
)
    requires
        registry::is_table(state.rows),
        state.log.len() <= n < cleanup::cleaning(state, later, candidates, found).state.log.len(),
        cleanup::cleaning(state, later, candidates, found).state.log[n].destroys(),
    ensures
        kills_a_record_of(
            cleanup::cleaning(state, later, candidates, found).state.log[n],
            state.rows,
            candidates,
        ),
{
    lemma_cleaning_ends(state, later, candidates, found);
}

proof fn lemma_cleaning_ends(
    state: ServiceView,
    later: ServiceView,
    candidates: Seq<Seq<char>>,
    found: Seq<EntryView>,
)
    requires
        registry::is_table(state.rows),
    ensures
        ({
            let after = cleanup::cleaning(state, later, candidates, found).state;
            &&& registry::is_table(after.rows)
            &&& records_stay(state.rows, after.rows)
            &&& ends_candidates(state, after, candidates)
        }),
    decreases found.len(),
{
    if found.len() > 0 {
        let before = cleanup::cleaning(state, later, candidates, found.drop_last());
        lemma_cleaning_ends(state, later, candidates, found.drop_last());
        if before.result is Ok {
            lemma_cleaning_one_ends(before.state, later, candidates, found.last());
            let after = cleanup::cleaning_one(before.state, later, candidates, found.last()).state;
            assert forall|n: int|
                state.log.len() <= n < after.log.len() && (#[trigger] after.log[n]).destroys()
                implies kills_a_record_of(after.log[n], state.rows, candidates) by {
                if n < before.state.log.len() {
                    assert(after.log[n] == before.state.log[n]);
                } else {
                    assert(kills_a_record_of(after.log[n], before.state.rows, candidates));
                    let id = choose|id: Seq<char>|
                        candidates.contains(id) && kills_the_record_of(
                            after.log[n],
                            #[trigger] registry::workspace_of(before.state.rows, id),
                        );
                    assert(kills_the_record_of(
                        after.log[n],
                        registry::workspace_of(state.rows, id),
                    ));
                }
            }
        }
    }
}

/// What a reset spares in the record it spares on every backend: no call is made
/// that could end anything but the sessions of the workspace's own record and the
/// records of its duplicates.
pub proof fn law_a_reset_keeps_its_record_on_every_backend<B: SessionBackend>(
    before: WorkspaceLifecycleService<B>,
    after: WorkspaceLifecycleService<B>,
    id: Seq<char>,
    k: int,
)
    requires
        after.continues(&before),
        after@ == reset::resetting(before@, after@, id).state,
        before.history().len() <= k < after.history().len(),
    ensures
        after.history()[k] matches Step::Asked { exchange, .. } ==> (registry::workspace_of(
            before@.rows,
            id,
        ) matches Some(workspace) ==> (exchange.destroys() ==> spares_in(exchange, workspace))),
{
    law_a_reset_keeps_its_record(before@, after@, id);
    if after.history()[k] is Asked {
        after.law_every_call_is_recorded(&before, k);
    }
}

} // verus!
