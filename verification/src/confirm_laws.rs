//! Clicking twice is not two workspaces: a record that was confirmed has its
//! row, and is that row from then on.

use crate::confirm;
use crate::daemon;
use crate::daemon::KeyView;
use crate::enrich;
use crate::entry::FailureView;
use crate::order;
use crate::registry;
use crate::registry::RowView;
use crate::replay;
use crate::service::ServiceView;
use crate::session_laws;
use crate::session_backend::RecordView;
use crate::snapshot;
use crate::workspace;
use crate::workspace::{AdeWorkspace, WorkspaceStatus, WorkspaceView};
use vstd::prelude::*;

verus! {

/// Whether a row is in use and stands for a daemon's record.
pub open spec fn owns(
    row: RowView,
    key: KeyView,
    host: Option<Seq<char>>,
    wire_id: Seq<char>,
) -> bool {
    &&& row.used_by_client_at is Some
    &&& daemon::on_daemon(row.workspace, key, host)
    &&& row.workspace.terminal_session_id == Some(wire_id)
}

proof fn lemma_first_owner(
    list: Seq<WorkspaceView>,
    key: KeyView,
    host: Option<Seq<char>>,
    wire_id: Seq<char>,
)
    ensures
        match confirm::first_owner(list, key, host, wire_id) {
            Some(row) => list.contains(row) && daemon::on_daemon(row, key, host)
                && row.terminal_session_id == Some(wire_id),
            None => forall|k: int|
                0 <= k < list.len() ==> !(daemon::on_daemon(#[trigger] list[k], key, host)
                    && list[k].terminal_session_id == Some(wire_id)),
        },
    decreases list.len(),
{
    if list.len() > 0 {
        let rest = list.drop_first();
        lemma_first_owner(rest, key, host, wire_id);
        match confirm::first_owner(rest, key, host, wire_id) {
            Some(row) => {
                let k = choose|k: int| 0 <= k < rest.len() && rest[k] == row;
                assert(list[k + 1] == row);
                assert(list.contains(list[0]));
            },
            None => {
                assert(list.contains(list[0]));
                assert forall|k: int| 1 <= k < list.len() implies !(daemon::on_daemon(
                    #[trigger] list[k],
                    key,
                    host,
                ) && list[k].terminal_session_id == Some(wire_id)) by {
                    assert(rest[k - 1] == list[k]);
                }
            },
        }
    }
}

proof fn lemma_listed(
    rows: Seq<RowView>,
    keep: spec_fn(RowView) -> bool,
    workspace: WorkspaceView,
)
    ensures
        registry::listing(rows, keep).contains(workspace) <==> exists|k: int|
            0 <= k < rows.len() && keep(#[trigger] rows[k]) && rows[k].workspace == workspace,
{
    let items = registry::workspaces_where(rows, keep);
    order::lemma_ranked_is_sorted::<AdeWorkspace>(items);
    order::law_a_sort_keeps_its_elements::<AdeWorkspace>(
        items,
        registry::listing(rows, keep),
        workspace,
    );
    if items.contains(workspace) {
        let n = choose|n: int| 0 <= n < items.len() && items[n] == workspace;
        let row = rows.filter(keep)[n];
        rows.lemma_filter_pred(keep, n);
        rows.lemma_filter_contains_rev(keep, row);
        let k = choose|k: int| 0 <= k < rows.len() && rows[k] == row;
        assert(keep(rows[k]) && rows[k].workspace == workspace);
    }
    if exists|k: int|
        0 <= k < rows.len() && keep(#[trigger] rows[k]) && rows[k].workspace == workspace {
        let k = choose|k: int|
            0 <= k < rows.len() && keep(#[trigger] rows[k]) && rows[k].workspace == workspace;
        rows.lemma_filter_contains(keep, k);
        let n = choose|n: int| 0 <= n < rows.filter(keep).len() && rows.filter(keep)[n] == rows[k];
        assert(items[n] == workspace);
    }
}

/// The owner of a record is one of the rows that own it, and there is one where
/// there is such a row.
proof fn lemma_owner(
    rows: Seq<RowView>,
    key: KeyView,
    host: Option<Seq<char>>,
    wire_id: Seq<char>,
)
    ensures
        match confirm::owner_in(rows, key, host, wire_id) {
            Some(owner) => exists|k: int|
                0 <= k < rows.len() && owns(#[trigger] rows[k], key, host, wire_id)
                    && rows[k].workspace == owner,
            None => forall|k: int|
                0 <= k < rows.len() ==> !owns(#[trigger] rows[k], key, host, wire_id),
        },
{
    let used = registry::used_rows();
    let list = registry::listing(rows, used);
    lemma_first_owner(list, key, host, wire_id);
    match confirm::owner_in(rows, key, host, wire_id) {
        Some(owner) => {
            lemma_listed(rows, used, owner);
            let k = choose|k: int|
                0 <= k < rows.len() && used(#[trigger] rows[k]) && rows[k].workspace == owner;
            assert(owns(rows[k], key, host, wire_id));
        },
        None => {
            assert forall|k: int| 0 <= k < rows.len() implies !owns(
                #[trigger] rows[k],
                key,
                host,
                wire_id,
            ) by {
                if owns(rows[k], key, host, wire_id) {
                    lemma_listed(rows, used, rows[k].workspace);
                    assert(used(rows[k]) && rows[k].workspace == rows[k].workspace);
                    let n = choose|n: int| 0 <= n < list.len() && list[n] == rows[k].workspace;
                    assert(daemon::on_daemon(list[n], key, host));
                }
            }
        },
    }
}

/// Whether a quarantined row of the table is a candidate for a record.
spec fn is_candidate(
    rows: Seq<RowView>,
    candidate: WorkspaceView,
    instance: Option<Seq<char>>,
    host: Option<Seq<char>>,
    record: RecordView,
) -> bool {
    &&& exists|k: int|
        0 <= k < rows.len() && #[trigger] rows[k].workspace == candidate
            && rows[k].used_by_client_at is None
    &&& daemon::mirrors(candidate, instance, host, record)
}

proof fn lemma_candidates(
    rows: Seq<RowView>,
    instance: Option<Seq<char>>,
    host: Option<Seq<char>>,
    record: RecordView,
    n: int,
)
    requires
        0 <= n < confirm::candidates_for(rows, instance, host, record).len(),
    ensures
        is_candidate(
            rows,
            confirm::candidates_for(rows, instance, host, record)[n],
            instance,
            host,
            record,
        ),
{
    let keep = registry::promotable_rows(instance);
    let list = registry::listing(rows, keep);
    let meets = enrich::mirror(instance, host, record);
    let candidate = list.filter(meets)[n];
    list.lemma_filter_pred(meets, n);
    list.lemma_filter_contains_rev(meets, candidate);
    lemma_listed(rows, keep, candidate);
    let k = choose|k: int|
        0 <= k < rows.len() && keep(#[trigger] rows[k]) && rows[k].workspace == candidate;
    assert(rows[k].workspace == candidate && rows[k].used_by_client_at is None);
}

/// What holds behind a confirmation that went well: the table keeps its rules,
/// and the record has an owner, which is the row that was answered with.
pub open spec fn is_confirmed(
    rows: Seq<RowView>,
    key: KeyView,
    host: Option<Seq<char>>,
    wire_id: Seq<char>,
    answer: WorkspaceView,
) -> bool {
    &&& registry::is_table(rows)
    &&& confirm::owner_in(rows, key, host, wire_id) matches Some(owner)
    &&& owner.id == answer.id
    &&& owner.terminal_session_id == Some(wire_id)
    &&& answer.terminal_session_id == Some(wire_id)
    &&& owner.daemon_id == answer.daemon_id
}

proof fn lemma_promoting_confirms(
    state: ServiceView,
    key: KeyView,
    host: Option<Seq<char>>,
    record: RecordView,
    now: i64,
    candidates: Seq<WorkspaceView>,
)
    requires
        registry::is_table(state.rows),
        confirm::owner_in(state.rows, key, host, record.id) is None,
        key matches KeyView::Host(route) ==> route == host,
        forall|n: int|
            0 <= n < candidates.len() ==> is_candidate(
                state.rows,
                #[trigger] candidates[n],
                daemon::key_instance(key),
                host,
                record,
            ),
    ensures
        ({
            let run = confirm::promoting(state, key, host, record, now, candidates);
            match run.result {
                Ok(Some(row)) => is_confirmed(run.state.rows, key, host, record.id, row),
                _ => run.state.rows == state.rows,
            }
        }),
    decreases candidates.len(),
{
    if candidates.len() > 0 {
        let row = candidates[0];
        let rest = candidates.drop_first();
        assert forall|n: int| 0 <= n < rest.len() implies is_candidate(
            state.rows,
            #[trigger] rest[n],
            daemon::key_instance(key),
            host,
            record,
        ) by {
            assert(rest[n] == candidates[n + 1]);
        }
        lemma_promoting_confirms(state, key, host, record, now, rest);
        let rows = state.rows;
        let at = choose|k: int|
            0 <= k < rows.len() && #[trigger] rows[k].workspace == row
                && rows[k].used_by_client_at is None;
        registry::lemma_position_is(rows, row.id, at);
        let change = registry::confirmation(host, daemon::key_instance(key), now);
        if !registry::collides(rows, at, change(rows[at])) {
            let after = rows.update(at, change(rows[at]));
            registry::lemma_update_keeps_the_rules(rows, at, change(rows[at]));
            lemma_owner(rows, key, host, record.id);
            lemma_owner(after, key, host, record.id);
            assert(owns(after[at], key, host, record.id));
            let owner = confirm::owner_in(after, key, host, record.id)->0;
            let k = choose|k: int|
                0 <= k < after.len() && owns(#[trigger] after[k], key, host, record.id)
                    && after[k].workspace == owner;
            if k != at {
                assert(after[k] == rows[k]);
            }
        }
    }
}

/// A confirmation that goes well leaves the record an owner: the row that it
/// answered with.
pub proof fn law_a_confirmation_leaves_an_owner(
    state: ServiceView,
    key: KeyView,
    host: Option<Seq<char>>,
    record: RecordView,
    id: Seq<char>,
    now: i64,
)
    requires
        registry::is_table(state.rows),
        key matches KeyView::Host(route) ==> route == host,
    ensures
        ({
            let run = confirm::confirming(state, key, host, record, id, now);
            run.result matches Ok(answer) ==> is_confirmed(
                run.state.rows,
                key,
                host,
                record.id,
                answer,
            )
        }),
{
    let rows = state.rows;
    let instance = daemon::key_instance(key);
    lemma_owner(rows, key, host, record.id);
    if confirm::owner_in(rows, key, host, record.id) is None {
        let candidates = confirm::candidates_for(rows, instance, host, record);
        assert forall|n: int| 0 <= n < candidates.len() implies is_candidate(
            rows,
            #[trigger] candidates[n],
            instance,
            host,
            record,
        ) by {
            lemma_candidates(rows, instance, host, record, n);
        }
        lemma_promoting_confirms(state, key, host, record, now, candidates);
        let promoted = confirm::promoting(state, key, host, record, now, candidates);
        if promoted.result matches Ok(None) {
            let row = RowView {
                workspace: confirm::row_for(record, host, instance, id, now),
                used_by_client_at: Some(now),
            };
            let at = registry::position(rows, id);
            registry::lemma_position(rows, id);
            if let Some(after) = registry::with_workspace(rows, row) {
                if at < rows.len() {
                    registry::lemma_update_keeps_the_rules(rows, at, row);
                } else if !registry::collides(rows, at, row) {
                    registry::lemma_push_keeps_the_rules(rows, row);
                }
                lemma_owner(after, key, host, record.id);
            }
        }
    }
}

/// That no row in use stands for a record by a route alone.
pub open spec fn no_route_owner(
    rows: Seq<RowView>,
    host: Option<Seq<char>>,
    wire_id: Seq<char>,
) -> bool {
    forall|k: int|
        0 <= k < rows.len() && (#[trigger] rows[k]).used_by_client_at is Some
            && rows[k].workspace.daemon_id is None && rows[k].workspace.remote_host == host
            ==> rows[k].workspace.terminal_session_id != Some(wire_id)
}

/// A confirmed record has the same owner under another spelling of its host, if
/// the row carries the daemon's identity, and no other row stands for the record
/// by that spelling alone.
pub proof fn law_another_spelling_finds_the_owner(
    rows: Seq<RowView>,
    instance: Seq<char>,
    host: Option<Seq<char>>,
    other: Option<Seq<char>>,
    wire_id: Seq<char>,
    answer: WorkspaceView,
)
    requires
        is_confirmed(rows, KeyView::Instance(instance), host, wire_id, answer),
        answer.daemon_id == Some(instance),
        no_route_owner(rows, other, wire_id),
    ensures
        is_confirmed(rows, KeyView::Instance(instance), other, wire_id, answer),
{
    let key = KeyView::Instance(instance);
    lemma_owner(rows, key, host, wire_id);
    lemma_owner(rows, key, other, wire_id);
    let first = confirm::owner_in(rows, key, host, wire_id)->0;
    let i = choose|i: int|
        0 <= i < rows.len() && owns(#[trigger] rows[i], key, host, wire_id) && rows[i].workspace
            == first;
    assert(owns(rows[i], key, other, wire_id));
    let second = confirm::owner_in(rows, key, other, wire_id)->0;
    let j = choose|j: int|
        0 <= j < rows.len() && owns(#[trigger] rows[j], key, other, wire_id) && rows[j].workspace
            == second;
    assert(rows[j].workspace.daemon_id == Some(instance));
    assert(rows[i].same_record(rows[j]) && rows[j].same_record(rows[i]));
    if i < j {
        assert(!rows[i].same_record(rows[j]));
    } else if j < i {
        assert(!rows[j].same_record(rows[i]));
    }
}

/// A listing that two questions in a row gave of one daemon.
pub struct Settled {
    pub state: ServiceView,
    pub instance: Option<Seq<char>>,
    pub items: Seq<RecordView>,
}

/// The listing that opening a discovery acts on, where it gets one.
pub open spec fn settled_listing(
    state: ServiceView,
    later: ServiceView,
    host: Option<Seq<char>>,
    tries: nat,
) -> Option<Settled>
    decreases tries,
{
    if tries == 0 {
        None
    } else {
        let expected = confirm::expecting(state, later, host);
        match expected.result {
            Err(_) => None,
            Ok(named) => {
                let (listed, reply) = replay::list_workspaces(expected.state, later, host);
                match reply {
                    Err(_) => None,
                    Ok((instance, items)) => if instance == named {
                        Some(Settled { state: listed, instance, items })
                    } else {
                        settled_listing(listed, later, host, (tries - 1) as nat)
                    },
                }
            },
        }
    }
}

proof fn lemma_opening_acts_on_a_listing(
    state: ServiceView,
    later: ServiceView,
    host: Option<Seq<char>>,
    wire_id: Seq<char>,
    id: Seq<char>,
    now: i64,
    tries: nat,
)
    ensures
        match settled_listing(state, later, host, tries) {
            Some(found) => found.state.rows == state.rows && confirm::opening_discovery(
                state,
                later,
                host,
                wire_id,
                id,
                now,
                tries,
            ) == confirm::confirming_listed(
                found.state,
                later,
                host,
                found.instance,
                found.items,
                wire_id,
                id,
                now,
            ),
            None => confirm::opening_discovery(
                state,
                later,
                host,
                wire_id,
                id,
                now,
                tries,
            ).result is Err,
        },
    decreases tries,
{
    if tries > 0 {
        let expected = confirm::expecting(state, later, host);
        let (listed, reply) = replay::list_workspaces(expected.state, later, host);
        lemma_opening_acts_on_a_listing(
            listed,
            later,
            host,
            wire_id,
            id,
            now,
            (tries - 1) as nat,
        );
    }
}

proof fn lemma_enriching_keeps_the_rows(
    state: ServiceView,
    later: ServiceView,
    host: Option<Seq<char>>,
    key: KeyView,
    instance: Option<Seq<char>>,
    known: Seq<WorkspaceView>,
    cached: Seq<RecordView>,
    records: Seq<RecordView>,
)
    ensures
        enrich::enriching(state, later, host, key, instance, known, cached, records).0.rows
            == state.rows,
    decreases records.len(),
{
    if records.len() > 0 {
        let rest = records.drop_last();
        lemma_enriching_keeps_the_rows(state, later, host, key, instance, known, cached, rest);
        enrich::lemma_enriching_one_frame(
            enrich::enriching(state, later, host, key, instance, known, cached, rest).0,
            later,
            host,
            key,
            instance,
            known,
            cached,
            records.last(),
        );
    }
}

proof fn lemma_record_of(held: Seq<RecordView>, wire_id: Seq<char>)
    ensures
        confirm::record_of(held, wire_id) matches Some(record) ==> record.id == wire_id,
    decreases held.len(),
{
    if held.len() > 0 && held[0].id != wire_id {
        lemma_record_of(held.drop_first(), wire_id);
    }
}

/// The records of a listing as opening a discovery takes them in.
pub open spec fn taken_in(
    found: Settled,
    later: ServiceView,
    host: Option<Seq<char>>,
) -> Result<Seq<RecordView>, FailureView> {
    let key = daemon::key_of(found.instance, host);
    enrich::enriching(
        found.state,
        later,
        host,
        key,
        found.instance,
        registry::listing(found.state.rows, registry::used_rows()),
        snapshot::remembered(found.state.discoveries, key),
        found.items,
    ).1
}

/// Clicking twice is not two workspaces. Once a discovery was opened, opening it
/// again, under the same spelling of the host or another that reaches the same
/// identified daemon, answers with the same row and writes no other, as long as
/// the daemon holds the record.
///
/// For another spelling the row must carry the daemon's identity, and no other
/// row may stand for the record by that spelling alone.
pub proof fn law_a_discovery_is_one_row(
    state: ServiceView,
    later: ServiceView,
    host: Option<Seq<char>>,
    wire_id: Seq<char>,
    id: Seq<char>,
    now: i64,
    tries: nat,
    again: ServiceView,
    later_still: ServiceView,
    other: Option<Seq<char>>,
    next_id: Seq<char>,
    next_now: i64,
    next_tries: nat,
)
    requires
        registry::is_table(state.rows),
        ({
            let run = confirm::opening_discovery(state, later, host, wire_id, id, now, tries);
            let found = settled_listing(state, later, host, tries);
            let refound = settled_listing(again, later_still, other, next_tries);
            &&& run.result is Ok
            &&& again.rows == run.state.rows
            &&& refound is Some
            &&& refound->0.instance == found->0.instance
            &&& other == host || (found->0.instance is Some && run.result->Ok_0.daemon_id
                == found->0.instance && no_route_owner(run.state.rows, other, wire_id))
            &&& taken_in(refound->0, later_still, other) matches Ok(held)
            &&& confirm::record_of(held, wire_id) is Some
        }),
    ensures
        ({
            let run = confirm::opening_discovery(state, later, host, wire_id, id, now, tries);
            let rerun = confirm::opening_discovery(
                again,
                later_still,
                other,
                wire_id,
                next_id,
                next_now,
                next_tries,
            );
            &&& rerun.result matches Ok(row)
            &&& row.id == run.result->Ok_0.id
            &&& row.terminal_session_id == Some(wire_id)
            &&& rerun.state.rows == run.state.rows
        }),
{
    let run = confirm::opening_discovery(state, later, host, wire_id, id, now, tries);
    lemma_opening_acts_on_a_listing(state, later, host, wire_id, id, now, tries);
    lemma_opening_acts_on_a_listing(
        again,
        later_still,
        other,
        wire_id,
        next_id,
        next_now,
        next_tries,
    );
    let found = settled_listing(state, later, host, tries)->0;
    let refound = settled_listing(again, later_still, other, next_tries)->0;
    let answer = run.result->Ok_0;
    lemma_listed_confirmation(found, later, host, wire_id, id, now);
    let key = daemon::key_of(found.instance, host);
    assert(is_confirmed(run.state.rows, key, host, wire_id, answer));
    if other != host {
        law_another_spelling_finds_the_owner(
            run.state.rows,
            found.instance->0,
            host,
            other,
            wire_id,
            answer,
        );
    }
    let next_key = daemon::key_of(refound.instance, other);
    assert(is_confirmed(run.state.rows, next_key, other, wire_id, answer));
    lemma_enriching_keeps_the_rows(
        refound.state,
        later_still,
        other,
        next_key,
        refound.instance,
        registry::listing(refound.state.rows, registry::used_rows()),
        snapshot::remembered(refound.state.discoveries, next_key),
        refound.items,
    );
    let held = taken_in(refound, later_still, other)->Ok_0;
    lemma_record_of(held, wire_id);
}

proof fn lemma_listed_confirmation(
    found: Settled,
    later: ServiceView,
    host: Option<Seq<char>>,
    wire_id: Seq<char>,
    id: Seq<char>,
    now: i64,
)
    requires
        registry::is_table(found.state.rows),
    ensures
        ({
            let run = confirm::confirming_listed(
                found.state,
                later,
                host,
                found.instance,
                found.items,
                wire_id,
                id,
                now,
            );
            run.result matches Ok(answer) ==> is_confirmed(
                run.state.rows,
                daemon::key_of(found.instance, host),
                host,
                wire_id,
                answer,
            )
        }),
{
    let key = daemon::key_of(found.instance, host);
    let known = registry::listing(found.state.rows, registry::used_rows());
    let cached = snapshot::remembered(found.state.discoveries, key);
    let (enriched, records) = enrich::enriching(
        found.state,
        later,
        host,
        key,
        found.instance,
        known,
        cached,
        found.items,
    );
    lemma_enriching_keeps_the_rows(
        found.state,
        later,
        host,
        key,
        found.instance,
        known,
        cached,
        found.items,
    );
    if let Ok(held) = records {
        lemma_record_of(held, wire_id);
        if let Some(record) = confirm::record_of(held, wire_id) {
            law_a_confirmation_leaves_an_owner(
                ServiceView { discoveries: enriched.discoveries.insert(key, held), ..enriched },
                key,
                host,
                record,
                id,
                now,
            );
        }
    }
}

/// A quarantined row taken into use, by the route and the identity of the daemon
/// that answered: everything else of it is what it was, and no other row changed.
pub open spec fn is_promoted(
    before: Seq<RowView>,
    after: Seq<RowView>,
    answer: WorkspaceView,
    host: Option<Seq<char>>,
    instance: Option<Seq<char>>,
    now: i64,
) -> bool {
    exists|k: int|
        {
            &&& 0 <= k < before.len()
            &&& (#[trigger] before[k]).used_by_client_at is None
            &&& match before[k].workspace.daemon_id {
                Some(own) => instance == Some(own),
                None => before[k].workspace.remote_host == host,
            }
            &&& answer == (WorkspaceView {
                remote_host: host,
                daemon_id: instance,
                last_opened_at: now,
                ..before[k].workspace
            })
            &&& after == before.update(
                k,
                RowView { workspace: answer, used_by_client_at: Some(now) },
            )
        }
}

/// A row made for a record: of its root, its project and its id, on the host and
/// the daemon that it came from, opened now and not probed yet.
pub open spec fn is_new_row_of(
    row: WorkspaceView,
    record: RecordView,
    host: Option<Seq<char>>,
    instance: Option<Seq<char>>,
    id: Seq<char>,
    now: i64,
) -> bool {
    &&& row.id == id
    &&& row.repository_path == record.project_root
    &&& row.project_identity == record.project_identity
    &&& row.project_id == (match record.project_id {
        Some(project_id) => project_id,
        None => workspace::path_project_id(record.project_root),
    })
    &&& row.project_scope_rev == record.project_scope_rev
    &&& row.terminal_session_id == Some(record.id)
    &&& row.remote_host == host
    &&& row.daemon_id == instance
    &&& row.status == WorkspaceStatus::Disconnected
    &&& row.last_opened_at == now
}

proof fn lemma_promoting(
    state: ServiceView,
    key: KeyView,
    host: Option<Seq<char>>,
    record: RecordView,
    now: i64,
    candidates: Seq<WorkspaceView>,
)
    requires
        registry::is_table(state.rows),
        confirm::owner_in(state.rows, key, host, record.id) is None,
        forall|n: int|
            0 <= n < candidates.len() ==> is_candidate(
                state.rows,
                #[trigger] candidates[n],
                daemon::key_instance(key),
                host,
                record,
            ),
    ensures
        ({
            let run = confirm::promoting(state, key, host, record, now, candidates);
            &&& run.state == (ServiceView { rows: run.state.rows, ..state })
            &&& match run.result {
                Ok(Some(row)) => is_promoted(
                    state.rows,
                    run.state.rows,
                    row,
                    host,
                    daemon::key_instance(key),
                    now,
                ) && row.terminal_session_id == Some(record.id),
                Ok(None) => run.state == state && candidates.len() == 0,
                Err(_) => run.state == state,
            }
        }),
    decreases candidates.len(),
{
    if candidates.len() > 0 {
        let row = candidates[0];
        let rows = state.rows;
        let at = choose|k: int|
            0 <= k < rows.len() && #[trigger] rows[k].workspace == row
                && rows[k].used_by_client_at is None;
        registry::lemma_position_is(rows, row.id, at);
        let change = registry::confirmation(host, daemon::key_instance(key), now);
        if !registry::collides(rows, at, change(rows[at])) {
            let run = confirm::promoting(state, key, host, record, now, candidates);
            assert(run.state.rows == rows.update(at, change(rows[at])));
            assert(is_promoted(
                rows,
                run.state.rows,
                run.result->Ok_0->0,
                host,
                daemon::key_instance(key),
                now,
            ));
        }
    }
}

/// Taking a record into use comes to one of three things: the row in use that
/// already stands for it, with nothing written; a quarantined row that stands for
/// it, put into use; or one new row of the record. The answer is stored, in use,
/// and stands for the record.
pub proof fn law_a_confirmed_record_is_owned_promoted_or_new(
    state: ServiceView,
    key: KeyView,
    host: Option<Seq<char>>,
    record: RecordView,
    id: Seq<char>,
    now: i64,
)
    requires
        registry::is_table(state.rows),
        key matches KeyView::Host(route) ==> route == host,
    ensures
        ({
            let run = confirm::confirming(state, key, host, record, id, now);
            let instance = daemon::key_instance(key);
            let owned = exists|k: int|
                0 <= k < state.rows.len() && owns(#[trigger] state.rows[k], key, host, record.id);
            &&& run.state == (ServiceView { rows: run.state.rows, ..state })
            &&& run.result matches Ok(answer) ==> {
                &&& registry::is_table(run.state.rows)
                &&& session_laws::stores_as_used(run.state.rows, answer)
                &&& answer.terminal_session_id == Some(record.id)
                &&& if owned {
                    run.state == state && exists|k: int|
                        0 <= k < state.rows.len() && owns(
                            #[trigger] state.rows[k],
                            key,
                            host,
                            record.id,
                        ) && state.rows[k].workspace == answer
                } else {
                    ||| is_promoted(state.rows, run.state.rows, answer, host, instance, now)
                    ||| {
                        &&& is_new_row_of(answer, record, host, instance, id, now)
                        &&& session_laws::came(state.rows, run.state.rows, answer)
                    }
                }
            }
            &&& owned ==> run.result is Ok
        }),
{
    let rows = state.rows;
    let instance = daemon::key_instance(key);
    let run = confirm::confirming(state, key, host, record, id, now);
    lemma_owner(rows, key, host, record.id);
    law_a_confirmation_leaves_an_owner(state, key, host, record, id, now);
    if let Some(owner) = confirm::owner_in(rows, key, host, record.id) {
        let k = choose|k: int|
            0 <= k < rows.len() && owns(#[trigger] rows[k], key, host, record.id)
                && rows[k].workspace == owner;
        assert(session_laws::stores_as_used(rows, owner));
    } else {
        let candidates = confirm::candidates_for(rows, instance, host, record);
        assert forall|n: int| 0 <= n < candidates.len() implies is_candidate(
            rows,
            #[trigger] candidates[n],
            instance,
            host,
            record,
        ) by {
            lemma_candidates(rows, instance, host, record, n);
        }
        lemma_promoting(state, key, host, record, now, candidates);
        let promoted = confirm::promoting(state, key, host, record, now, candidates);
        match promoted.result {
            Ok(Some(row)) => {
                let k = choose|k: int|
                    {
                        &&& 0 <= k < rows.len()
                        &&& (#[trigger] rows[k]).used_by_client_at is None
                        &&& row == (WorkspaceView {
                            remote_host: host,
                            daemon_id: instance,
                            last_opened_at: now,
                            ..rows[k].workspace
                        })
                        &&& promoted.state.rows == rows.update(
                            k,
                            RowView { workspace: row, used_by_client_at: Some(now) },
                        )
                    };
                assert(promoted.state.rows[k].workspace == row);
                assert(session_laws::stores_as_used(promoted.state.rows, row));
            },
            Ok(None) => {
                let new_row = RowView {
                    workspace: confirm::row_for(record, host, instance, id, now),
                    used_by_client_at: Some(now),
                };
                if let Some(after) = registry::with_workspace(rows, new_row) {
                    lemma_owner(after, key, host, record.id);
                    let at = registry::position(rows, id);
                    registry::lemma_position(rows, id);
                    if let Ok(answer) = run.result {
                        let k = choose|k: int|
                            0 <= k < after.len() && owns(#[trigger] after[k], key, host, record.id)
                                && after[k].workspace == answer;
                        if k < rows.len() && k != at {
                            assert(after[k] == rows[k]);
                            assert(owns(rows[k], key, host, record.id));
                        }
                        assert(after != rows || k == at);
                        assert(k == at);
                        assert(after[at] == new_row) by {
                            if at == rows.len() {
                                assert(after == rows.push(new_row));
                            }
                        }
                        assert(session_laws::stores_as_used(after, answer));
                        assert forall|j: int| 0 <= j < rows.len() && (
                        #[trigger] rows[j]).workspace.id != id implies after.contains(rows[j]) by {
                            assert(after[j] == rows[j]);
                        }
                        assert forall|j: int| 0 <= j < after.len() && (
                        #[trigger] after[j]).workspace.id != id implies rows.contains(after[j]) by {
                            assert(j != at);
                            assert(rows[j] == after[j]);
                        }
                        assert(session_laws::came(rows, after, answer));
                    }
                }
            },
            Err(_) => {},
        }
    }
}

} // verus!
