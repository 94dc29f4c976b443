//! What becomes of a record that a host's daemon holds and this client has not
//! used: how it is shown, opened, and given a project.

use crate::adopt;
use crate::adopt_laws;
use crate::confirm;
use crate::confirm_laws;
use crate::daemon;
use crate::daemon::KeyView;
use crate::enrich;
use crate::entry::{EntryView, FailureView, SessionState};
use crate::listing::Listed;
use crate::registry;
use crate::replay;
use crate::scope;
use crate::service::{Exchange, ServiceView};
use crate::session_backend::RecordView;
use crate::session_laws;
use crate::snapshot;
use crate::workspace::WorkspaceView;
use vstd::prelude::*;

verus! {

/// A connected window may choose from the rows of the daemon that answered and
/// from the records that no such row uses, and from nothing else. Nothing is said
/// of their sessions: nobody asked.
pub proof fn law_a_host_offers_its_rows_and_its_unused_records(
    listed: Listed,
    host: Option<Seq<char>>,
    entry: EntryView,
)
    ensures
        adopt::host_entries_of(listed, host).contains(entry) <==> match entry {
            EntryView::Persisted(row, state) => {
                &&& state == SessionState::Unknown
                &&& listed.rows.contains(row) && daemon::on_daemon(row, listed.key, host)
            },
            EntryView::Discovered { remote_host, workspace, state } => {
                &&& state == SessionState::Unknown && remote_host == host
                &&& listed.held.contains(workspace)
                &&& forall|k: int|
                    0 <= k < listed.rows.len() && daemon::on_daemon(
                        #[trigger] listed.rows[k],
                        listed.key,
                        host,
                    ) ==> session_laws::wire_id(listed.rows[k]) != workspace.id
            },
        },
{
    let on = |row: WorkspaceView| daemon::on_daemon(row, listed.key, host);
    let free = |record: RecordView| !adopt::is_used(listed.rows, listed.key, host, record.id);
    let rows = listed.rows.filter(on);
    let held = listed.held.filter(free);
    let all = adopt::host_entries_of(listed, host);
    let n = rows.len() as int;
    assert forall|k: int| 0 <= k < n implies #[trigger] all[k] == EntryView::Persisted(
        rows[k],
        SessionState::Unknown,
    ) by {}
    assert forall|k: int| n <= k < all.len() implies #[trigger] all[k] == (EntryView::Discovered {
        remote_host: host,
        workspace: held[k - n],
        state: SessionState::Unknown,
    }) by {}
    if all.contains(entry) {
        let k = choose|k: int| 0 <= k < all.len() && all[k] == entry;
        if k < n {
            listed.rows.lemma_filter_pred(on, k);
            assert(rows.contains(rows[k]));
            listed.rows.lemma_filter_contains_rev(on, rows[k]);
        } else {
            let record = held[k - n];
            listed.held.lemma_filter_pred(free, k - n);
            assert(held.contains(record));
            listed.held.lemma_filter_contains_rev(free, record);
            assert(!adopt::is_used(listed.rows, listed.key, host, record.id));
        }
    }
    match entry {
        EntryView::Persisted(row, state) => {
            if state == SessionState::Unknown && listed.rows.contains(row) && on(row) {
                let i = choose|i: int| 0 <= i < listed.rows.len() && listed.rows[i] == row;
                listed.rows.lemma_filter_contains(on, i);
                let k = choose|k: int| 0 <= k < rows.len() && rows[k] == row;
                assert(all[k] == entry);
            }
        },
        EntryView::Discovered { remote_host, workspace, state } => {
            if state == SessionState::Unknown && remote_host == host && listed.held.contains(
                workspace,
            ) && !adopt::is_used(listed.rows, listed.key, host, workspace.id) {
                let i = choose|i: int| 0 <= i < listed.held.len() && listed.held[i] == workspace;
                listed.held.lemma_filter_contains(free, i);
                let k = choose|k: int| 0 <= k < held.len() && held[k] == workspace;
                assert(all[n + k] == entry);
            }
        },
    }
}

/// Whether the last listing of a host, since an earlier time, has a record under
/// an id, or has not.
pub open spec fn was_last_listed(
    log: Seq<Exchange>,
    from: int,
    host: Option<Seq<char>>,
    wire_id: Seq<char>,
    there: bool,
) -> bool {
    exists|n: int|
        {
            &&& from <= n < log.len()
            &&& #[trigger] log[n] matches Exchange::ListWorkspaces {
                host: asked,
                reply: Ok((_, items)),
            }
            &&& asked == host
            &&& there <==> exists|k: int| 0 <= k < items.len() && (#[trigger] items[k]).id == wire_id
            &&& forall|m: int| n < m < log.len() ==> !(#[trigger] log[m] is ListWorkspaces)
        }
}

proof fn lemma_enriching_ids(
    state: ServiceView,
    later: ServiceView,
    host: Option<Seq<char>>,
    key: KeyView,
    instance: Option<Seq<char>>,
    known: Seq<WorkspaceView>,
    cached: Seq<RecordView>,
    records: Seq<RecordView>,
)
    ensures
        ({
            let (after, result) = enrich::enriching(
                state,
                later,
                host,
                key,
                instance,
                known,
                cached,
                records,
            );
            &&& after.rows == state.rows
            &&& after.connects == state.connects
            &&& state.log.is_prefix_of(after.log)
            &&& forall|n: int|
                state.log.len() <= n < after.log.len() ==> !(
                #[trigger] after.log[n] is ListWorkspaces)
            &&& result matches Err(failure) ==> !(failure is Gone)
            &&& result matches Ok(held) ==> held.len() == records.len() && forall|k: int|
                0 <= k < held.len() ==> (#[trigger] held[k]).id == records[k].id
        }),
    decreases records.len(),
{
    if records.len() > 0 {
        let rest = records.drop_last();
        lemma_enriching_ids(state, later, host, key, instance, known, cached, rest);
        let (before, done) = enrich::enriching(
            state,
            later,
            host,
            key,
            instance,
            known,
            cached,
            rest,
        );
        if let Ok(done) = done {
            let last = records.last();
            let (after, one) = enrich::enriching_one(
                before,
                later,
                host,
                key,
                instance,
                known,
                cached,
                last,
            );
            enrich::lemma_enriching_one_frame(
                before,
                later,
                host,
                key,
                instance,
                known,
                cached,
                last,
            );
            assert forall|n: int| state.log.len() <= n < after.log.len() implies !(
            #[trigger] after.log[n] is ListWorkspaces) by {
                if n < before.log.len() {
                    assert(after.log[n] == before.log[n]);
                }
            }
            if let Ok(record) = one {
                let held = done.push(record);
                assert forall|k: int| 0 <= k < held.len() implies (#[trigger] held[k]).id
                    == records[k].id by {
                    if k < done.len() {
                        assert(held[k] == done[k]);
                        assert(rest[k] == records[k]);
                    }
                }
            }
        }
    }
}

proof fn lemma_record_of(held: Seq<RecordView>, wire_id: Seq<char>)
    ensures
        match confirm::record_of(held, wire_id) {
            Some(record) => record.id == wire_id && held.contains(record),
            None => forall|k: int| 0 <= k < held.len() ==> (#[trigger] held[k]).id != wire_id,
        },
    decreases held.len(),
{
    let meets = |record: RecordView| record.id == wire_id;
    if held.len() > 0 {
        let rest = held.drop_first();
        lemma_record_of(rest, wire_id);
        if held[0].id == wire_id {
            assert(meets(held[0]));
        } else {
            assert(!meets(held[0]));
            assert(confirm::record_of(held, wire_id) == confirm::record_of(rest, wire_id));
            if let Some(record) = confirm::record_of(rest, wire_id) {
                let k = choose|k: int| 0 <= k < rest.len() && rest[k] == record;
                assert(held[k + 1] == record);
            } else {
                assert forall|k: int| 0 <= k < held.len() implies (
                #[trigger] held[k]).id != wire_id by {
                    if k > 0 {
                        assert(rest[k - 1] == held[k]);
                    }
                }
            }
        }
    }
}

proof fn lemma_confirming_listed(
    state: ServiceView,
    later: ServiceView,
    from: int,
    host: Option<Seq<char>>,
    instance: Option<Seq<char>>,
    items: Seq<RecordView>,
    wire_id: Seq<char>,
    id: Seq<char>,
    now: i64,
)
    requires
        registry::is_table(state.rows),
        0 <= from < state.log.len(),
        state.log.last() == (Exchange::ListWorkspaces { host, reply: Ok((instance, items)) }),
    ensures
        ({
            let run = confirm::confirming_listed(
                state,
                later,
                host,
                instance,
                items,
                wire_id,
                id,
                now,
            );
            &&& state.log.is_prefix_of(run.state.log)
            &&& run.state.connects == state.connects
            &&& run.result matches Ok(answer) ==> {
                &&& answer.terminal_session_id == Some(wire_id)
                &&& registry::is_table(run.state.rows)
                &&& session_laws::stores_as_used(run.state.rows, answer)
                &&& was_last_listed(run.state.log, from, host, wire_id, true)
            }
            &&& run.result matches Err(FailureView::Gone { remote_host, wire_id: named }) ==> {
                &&& run.state.rows == state.rows
                &&& remote_host == host && named == wire_id
                &&& was_last_listed(run.state.log, from, host, wire_id, false)
            }
        }),
{
    let key = daemon::key_of(instance, host);
    let known = registry::listing(state.rows, registry::used_rows());
    let cached = snapshot::remembered(state.discoveries, key);
    lemma_enriching_ids(state, later, host, key, instance, known, cached, items);
    let (enriched, records) = enrich::enriching(
        state,
        later,
        host,
        key,
        instance,
        known,
        cached,
        items,
    );
    let run = confirm::confirming_listed(state, later, host, instance, items, wire_id, id, now);
    if let Ok(held) = records {
        lemma_record_of(held, wire_id);
        let n = state.log.len() - 1;
        assert(enriched.log[n] == state.log[n]);
        if let Some(record) = confirm::record_of(held, wire_id) {
            let k = choose|k: int| 0 <= k < held.len() && held[k] == record;
            assert(items[k].id == wire_id);
            let noted = ServiceView {
                discoveries: enriched.discoveries.insert(key, held),
                ..enriched
            };
            confirm_laws::law_a_confirmed_record_is_owned_promoted_or_new(
                noted,
                key,
                host,
                record,
                id,
                now,
            );
            lemma_confirming_never_gone(noted, key, host, record, id, now);
            assert(run.state.log == enriched.log);
            assert(was_last_listed(run.state.log, from, host, wire_id, true)) by {
                assert(run.state.log[n] is ListWorkspaces);
            }
        } else {
            assert forall|k: int| 0 <= k < items.len() implies (
            #[trigger] items[k]).id != wire_id by {
                assert(held[k].id == items[k].id);
            }
            assert(was_last_listed(run.state.log, from, host, wire_id, false)) by {
                assert(run.state.log[n] is ListWorkspaces);
            }
        }
    }
}

proof fn lemma_confirming_never_gone(
    state: ServiceView,
    key: KeyView,
    host: Option<Seq<char>>,
    record: RecordView,
    id: Seq<char>,
    now: i64,
)
    ensures
        confirm::confirming(state, key, host, record, id, now).result matches Err(failure)
            ==> !(failure is Gone),
{
    let candidates = confirm::candidates_for(
        state.rows,
        daemon::key_instance(key),
        host,
        record,
    );
    lemma_promoting_never_gone(state, key, host, record, now, candidates);
}

proof fn lemma_promoting_never_gone(
    state: ServiceView,
    key: KeyView,
    host: Option<Seq<char>>,
    record: RecordView,
    now: i64,
    candidates: Seq<WorkspaceView>,
)
    ensures
        confirm::promoting(state, key, host, record, now, candidates).result matches Err(failure)
            ==> !(failure is Gone),
    decreases candidates.len(),
{
    if candidates.len() > 0 {
        lemma_promoting_never_gone(state, key, host, record, now, candidates.drop_first());
    }
}

proof fn lemma_opening(
    state: ServiceView,
    later: ServiceView,
    from: int,
    host: Option<Seq<char>>,
    wire_id: Seq<char>,
    id: Seq<char>,
    now: i64,
    tries: nat,
)
    requires
        registry::is_table(state.rows),
        0 <= from <= state.log.len(),
    ensures
        ({
            let run = confirm::opening_discovery(state, later, host, wire_id, id, now, tries);
            &&& state.log.is_prefix_of(run.state.log)
            &&& run.state.connects == state.connects
            &&& run.result matches Ok(answer) ==> {
                &&& answer.terminal_session_id == Some(wire_id)
                &&& registry::is_table(run.state.rows)
                &&& session_laws::stores_as_used(run.state.rows, answer)
                &&& was_last_listed(run.state.log, from, host, wire_id, true)
            }
            &&& run.result matches Err(FailureView::Gone { remote_host, wire_id: named }) ==> {
                &&& run.state.rows == state.rows
                &&& remote_host == host && named == wire_id
                &&& was_last_listed(run.state.log, from, host, wire_id, false)
            }
        }),
    decreases tries,
{
    if tries > 0 {
        let expected = confirm::expecting(state, later, host);
        if let Ok(named) = expected.result {
            let (listed, reply) = replay::list_workspaces(expected.state, later, host);
            assert(listed.rows == state.rows);
            assert(state.log.is_prefix_of(listed.log));
            if let Ok((instance, items)) = reply {
                if instance == named {
                    lemma_confirming_listed(
                        listed,
                        later,
                        from,
                        host,
                        instance,
                        items,
                        wire_id,
                        id,
                        now,
                    );
                } else {
                    lemma_opening(
                        listed,
                        later,
                        from,
                        host,
                        wire_id,
                        id,
                        now,
                        (tries - 1) as nat,
                    );
                }
            }
        }
    }
}

/// Opening a discovery answers with a row in use for the record that was picked,
/// which the host's last listing still had. A record that the last listing had no
/// longer is said to be gone, by its host and its id, and no row changes for it.
pub proof fn law_an_opened_discovery_is_the_record_picked(
    state: ServiceView,
    later: ServiceView,
    host: Option<Seq<char>>,
    wire_id: Seq<char>,
    id: Seq<char>,
    now: i64,
)
    requires
        registry::is_table(state.rows),
    ensures
        ({
            let run = confirm::confirming_discovery(state, later, host, wire_id, id, now);
            let from = state.log.len() as int;
            &&& state.log.is_prefix_of(run.state.log)
            &&& state.connects.is_prefix_of(run.state.connects)
            &&& session_laws::is_unreached(state, run.state, host) ==> run.result is Err
                && run.state.rows == state.rows
            &&& run.result matches Ok(answer) ==> {
                &&& answer.terminal_session_id == Some(wire_id)
                &&& registry::is_table(run.state.rows)
                &&& session_laws::stores_as_used(run.state.rows, answer)
                &&& was_last_listed(run.state.log, from, host, wire_id, true)
            }
            &&& run.result matches Err(FailureView::Gone { remote_host, wire_id: named }) ==> {
                &&& run.state.rows == state.rows
                &&& remote_host == host && named == wire_id
                &&& was_last_listed(run.state.log, from, host, wire_id, false)
            }
        }),
{
    let (reached, connected) = replay::connect(state, later, host);
    session_laws::lemma_reached(state, later, host);
    if connected is Ok {
        lemma_opening(reached, later, state.log.len() as int, host, wire_id, id, now, 3);
    }
}

/// Moving a discovery to a project tells the daemon that holds it, with the
/// record's own checkout and the next revision. A daemon that keeps projects is
/// all that it takes; for one that keeps none, a row in use holds the project. A
/// record that is gone moves nowhere, and one that is there already is left alone.
pub proof fn law_a_moved_discovery_is_told_or_stored(
    state: ServiceView,
    later: ServiceView,
    host: Option<Seq<char>>,
    wire_id: Seq<char>,
    to: Seq<char>,
    identity: Seq<char>,
    id: Seq<char>,
    now: i64,
)
    requires
        registry::is_table(state.rows),
    ensures
        ({
            let run = adopt::moving_discovery(
                state,
                later,
                host,
                wire_id,
                to,
                identity,
                id,
                now,
            );
            let n = state.log.len() as int;
            if session_laws::is_unreached(state, run.state, host) {
                run.state.log == state.log && run.result is Err && run.state.rows == state.rows
            } else {
                &&& run.state.log.len() > n
                &&& run.state.log[n] matches Exchange::ListWorkspaces { host: asked, reply }
                &&& asked == host
                &&& reply is Err ==> run.result is Err && run.state.rows == state.rows
                &&& reply matches Ok((instance, held)) ==> if forall|k: int|
                    0 <= k < held.len() ==> (#[trigger] held[k]).id != wire_id {
                    &&& run.result == Ok::<Option<bool>, FailureView>(None)
                    &&& run.state.rows == state.rows && run.state.log.len() == n + 1
                } else {
                    exists|k: int|
                        {
                            &&& 0 <= k < held.len() && (#[trigger] held[k]).id == wire_id
                            &&& is_moved_record(
                                state,
                                run.state,
                                run.result,
                                host,
                                instance,
                                held[k],
                                to,
                                identity,
                            )
                        }
                }
            }
        }),
{
    let n = state.log.len() as int;
    session_laws::lemma_reached(state, later, host);
    let run = adopt::moving_discovery(state, later, host, wire_id, to, identity, id, now);
    let (reached, connected) = replay::connect(state, later, host);
    if connected is Ok {
        let (listed, reply) = replay::list_workspaces(reached, later, host);
        if let Ok((instance, held)) = reply {
            lemma_record_of(held, wire_id);
            if let Some(record) = confirm::record_of(held, wire_id) {
                let k = choose|k: int| 0 <= k < held.len() && held[k] == record;
                let is_there = record.project_id == Some(to) && record.project_identity == Some(
                    identity,
                );
                if !is_there && record.project_scope_rev != u64::MAX {
                    let (asked, updated) = replay::update_scope(
                        listed,
                        later,
                        host,
                        wire_id,
                        to,
                        identity,
                        Some(record.project_root),
                        Some((record.project_scope_rev + 1) as u64),
                        instance,
                    );
                    assert(asked.log[n] == listed.log[n]);
                    if updated == Ok::<Option<u64>, Seq<char>>(None) {
                        lemma_recording(asked, later, host, wire_id, to, identity, id, now);
                        assert(run.state.log[n] == asked.log[n]);
                        assert(run.state.log[n + 1] == asked.log[n + 1]);
                        assert(state.hosts.contains(host) || !session_laws::is_unreached(
                            state,
                            run.state,
                            host,
                        )) by {
                            assert(asked.connects.is_prefix_of(run.state.connects));
                            if !state.hosts.contains(host) && host is Some {
                                let c = state.connects.len() as int;
                                assert(run.state.connects[c] == asked.connects[c]);
                            }
                        }
                    }
                }
                assert(is_moved_record(
                    state,
                    run.state,
                    run.result,
                    host,
                    instance,
                    held[k],
                    to,
                    identity,
                ));
            }
        }
    }
}

/// Whether a record was moved to a project: nothing was to do, or the daemon was
/// told, and a row stored where the daemon keeps no projects.
pub open spec fn is_moved_record(
    before: ServiceView,
    after: ServiceView,
    result: Result<Option<bool>, FailureView>,
    host: Option<Seq<char>>,
    instance: Option<Seq<char>>,
    record: RecordView,
    to: Seq<char>,
    identity: Seq<char>,
) -> bool {
    let n = before.log.len() as int;
    if record.project_id == Some(to) && record.project_identity == Some(identity) {
        &&& result == Ok::<Option<bool>, FailureView>(Some(true))
        &&& after.rows == before.rows && after.log.len() == n + 1
    } else if record.project_scope_rev == u64::MAX {
        result is Err && after.rows == before.rows && after.log.len() == n + 1
    } else {
        &&& after.log.len() > n + 1
        &&& after.log[n + 1] matches Exchange::UpdateScope {
            host: asked,
            workspace_id,
            project_id,
            project_identity,
            project_root,
            minimum,
            expected,
            reply,
        }
        &&& asked == host && workspace_id == record.id && expected == instance
        &&& project_id == to && project_identity == identity && project_root == Some(
            record.project_root,
        )
        &&& minimum == Some((record.project_scope_rev + 1) as u64)
        &&& match reply {
            Err(_) => result is Err && after.rows == before.rows,
            Ok(Some(_)) => result == Ok::<Option<bool>, FailureView>(Some(true)) && after.rows
                == before.rows,
            Ok(None) => result matches Ok(told) ==> told == Some(false) && holds_the_project(
                after,
                record.id,
                to,
                identity,
            ),
        }
    }
}

/// Whether a row in use stands for a record and is in a project.
pub open spec fn holds_the_project(
    state: ServiceView,
    wire_id: Seq<char>,
    project_id: Seq<char>,
    identity: Seq<char>,
) -> bool {
    exists|k: int|
        {
            &&& 0 <= k < state.rows.len()
            &&& (#[trigger] state.rows[k]).used_by_client_at is Some
            &&& state.rows[k].workspace.terminal_session_id == Some(wire_id)
            &&& state.rows[k].workspace.project_id == project_id
            &&& state.rows[k].workspace.project_identity == Some(identity)
        }
}

proof fn lemma_recording(
    state: ServiceView,
    later: ServiceView,
    host: Option<Seq<char>>,
    wire_id: Seq<char>,
    to: Seq<char>,
    identity: Seq<char>,
    id: Seq<char>,
    now: i64,
)
    requires
        registry::is_table(state.rows),
    ensures
        ({
            let run = adopt::recording_discovery(
                state,
                later,
                host,
                wire_id,
                to,
                identity,
                id,
                now,
            );
            &&& state.log.is_prefix_of(run.state.log)
            &&& state.connects.is_prefix_of(run.state.connects)
            &&& run.result matches Ok(told) ==> told == Some(false) && holds_the_project(
                run.state,
                wire_id,
                to,
                identity,
            )
        }),
{
    let confirmed = confirm::confirming_discovery(state, later, host, wire_id, id, now);
    law_an_opened_discovery_is_the_record_picked(state, later, host, wire_id, id, now);
    if let Ok(row) = confirmed.result {
        let k = choose|k: int|
            0 <= k < confirmed.state.rows.len() && (
            #[trigger] confirmed.state.rows[k]).workspace == row
                && confirmed.state.rows[k].used_by_client_at is Some;
        assert(session_laws::stores(confirmed.state.rows, row));
        adopt_laws::law_a_moved_workspace_is_in_the_project(
            confirmed.state,
            later,
            row,
            to,
            identity,
        );
        let moved = scope::moving_project(confirmed.state, later, row.id, to, identity);
        if let Ok(left) = moved.result {
            let j = choose|j: int|
                0 <= j < moved.state.rows.len() && (#[trigger] moved.state.rows[j]).workspace == left;
            assert(moved.state.rows[j].used_by_client_at
                == confirmed.state.rows[j].used_by_client_at);
            if j < k {
                assert(confirmed.state.rows[j].workspace.id != confirmed.state.rows[k].workspace.id);
            } else if k < j {
                assert(confirmed.state.rows[k].workspace.id != confirmed.state.rows[j].workspace.id);
            }
        }
    }
}

} // verus!
