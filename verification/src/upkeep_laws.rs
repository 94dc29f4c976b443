//! What an upgrade of the table keeps, and what a listing stands on.

use crate::bulk;
use crate::confirm;
use crate::entry::{EntryView, FailureView};
use crate::listing;
use crate::registry;
use crate::registry::RowView;
use crate::replay;
use crate::service::{Exchange, ServiceView};
use crate::session_backend::RecordView;
use crate::text;
use crate::workspace::WorkspaceView;
use vstd::prelude::*;

verus! {

/// A listing that is believed is the second of two in a row in which the host's
/// daemon went by one name: what it holds is what it said then.
pub proof fn law_a_listing_is_said_twice_by_one_daemon(
    state: ServiceView,
    later: ServiceView,
    host: Option<Seq<char>>,
    tries: nat,
)
    ensures
        ({
            let run = listing::listing_twice(state, later, host, tries);
            let n = run.state.log.len() as int;
            &&& run.state.rows == state.rows
            &&& state.log.len() <= n <= state.log.len() + 2 * tries
            &&& run.result matches Ok((instance, held)) ==> {
                &&& n >= state.log.len() + 2
                &&& run.state.log[n - 1] == (Exchange::ListWorkspaces {
                    host,
                    reply: Ok((instance, held)),
                })
                &&& run.state.log[n - 2] matches Exchange::ListWorkspaces {
                    host: asked,
                    reply: Ok((named, _)),
                }
                &&& asked == host && named == instance
            }
        }),
    decreases tries,
{
    if tries > 0 {
        let n = state.log.len() as int;
        let (first, initial) = replay::list_workspaces(state, later, host);
        if initial is Ok {
            let (second, _) = replay::list_workspaces(first, later, host);
            assert(second.log[n] == first.log[n]);
            law_a_listing_is_said_twice_by_one_daemon(second, later, host, (tries - 1) as nat);
        }
    }
}

/// A row comes to the route its daemon was found by, where nobody moved it since it
/// was read. One that was moved meanwhile is left as it is.
pub proof fn law_a_row_moved_meanwhile_keeps_its_route(
    state: ServiceView,
    host: Option<Seq<char>>,
    instance: Option<Seq<char>>,
    row: WorkspaceView,
    record: RecordView,
    k: int,
)
    requires
        registry::is_table(state.rows),
        0 <= k < state.rows.len(),
        state.rows[k].workspace.id == row.id,
    ensures
        ({
            let run = listing::rebinding(state, host, instance, row, record);
            let stored = state.rows[k].workspace;
            let moved = stored.remote_host != row.remote_host || stored.daemon_id != row.daemon_id;
            &&& moved ==> run.state == state && run.result is Ok
            &&& row.remote_host == host && row.daemon_id == instance ==> run.state == state
                && run.result == Ok::<bool, FailureView>(false)
            &&& !moved && run.result == Ok::<bool, FailureView>(true) ==> run.state.rows
                == state.rows.update(
                k,
                RowView {
                    workspace: WorkspaceView { remote_host: host, daemon_id: instance, ..stored },
                    ..state.rows[k]
                },
            )
            &&& run.result is Err ==> run.state == state
        }),
{
    let at = registry::position(state.rows, row.id);
    registry::lemma_position(state.rows, row.id);
    assert(at == k) by {
        if at < k && at < state.rows.len() {
            assert(state.rows[at].workspace.id != state.rows[k].workspace.id);
        } else if k < at {
            assert(state.rows[k].workspace.id != row.id);
        }
    }
}

/// A row for a record is as old as the record, where the record's time is one that a
/// calendar tells, and otherwise new.
pub proof fn law_a_row_is_as_old_as_its_record(created_at: u64, now: i64)
    ensures
        created_at <= 253402300799 ==> confirm::record_time(created_at, now) == created_at,
        created_at > 253402300799 ==> confirm::record_time(created_at, now) == now,
{
}

/// A workspace that its daemon no longer has counts as stopped: to kill it is no
/// failure, and nothing is killed for it.
pub proof fn law_a_workspace_that_is_gone_needs_no_killing(
    state: ServiceView,
    later: ServiceView,
    target: (EntryView, Seq<char>),
    now: i64,
)
    requires
        target.0 is Discovered,
    ensures
        target.0 matches EntryView::Discovered { remote_host, workspace, .. } ==> {
            let looked = confirm::confirming_discovery(
                state,
                later,
                remote_host,
                workspace.id,
                target.1,
                now,
            );
            let run = bulk::killing_target(state, later, target, now);
            &&& looked.result matches Err(failure) ==> {
                &&& run.state == looked.state
                &&& failure is Gone ==> run.failure is None
                &&& !(failure is Gone) ==> run.failure == Some(failure)
            }
        },
{
}

/// Whether two rows are in use for one session of one host.
pub open spec fn is_rival(a: RowView, b: RowView) -> bool {
    &&& a.workspace.id != b.workspace.id
    &&& a.used_by_client_at is Some && b.used_by_client_at is Some
    &&& a.workspace.terminal_session_id is Some
    &&& a.workspace.terminal_session_id == b.workspace.terminal_session_id
    &&& a.workspace.remote_host == b.workspace.remote_host
}

/// An upgrade drops a row only for another that is in use for the same session of the
/// same host. Of two such rows the one that knows its branch stays, and of two that
/// know as much the one that was opened last.
pub proof fn law_an_upgrade_keeps_the_row_that_knows_more(
    rows: Seq<RowView>,
    a: RowView,
    b: RowView,
)
    requires
        rows.contains(a),
        rows.contains(b),
    ensures
        ({
            let kept = registry::without_duplicates(rows);
            let (x, y) = (a.workspace, b.workspace);
            &&& (forall|k: int| 0 <= k < rows.len() ==> !is_rival(#[trigger] rows[k], a))
                ==> kept.contains(a)
            &&& is_rival(a, b) && x.branch is Some && y.branch is None ==> !kept.contains(b)
            &&& is_rival(a, b) && (x.branch is Some <==> y.branch is Some) && x.last_opened_at
                > y.last_opened_at ==> !kept.contains(b)
            &&& is_rival(a, b) && (x.branch is Some <==> y.branch is Some) && x.last_opened_at
                == y.last_opened_at && text::text_before(x.id, y.id) ==> !kept.contains(b)
        }),
{
    let keep = |row: RowView| !registry::superseded(rows, row);
    lemma_kept(rows, keep, a);
    lemma_kept(rows, keep, b);
    if is_rival(a, b) {
        let k = choose|k: int| 0 <= k < rows.len() && rows[k] == a;
        assert(registry::duplicates(rows[k], b));
    }
    if forall|k: int| 0 <= k < rows.len() ==> !is_rival(#[trigger] rows[k], a) {
        assert forall|k: int| 0 <= k < rows.len() implies !registry::duplicates(
            #[trigger] rows[k],
            a,
        ) by {
            assert(!is_rival(rows[k], a));
        }
    }
}

proof fn lemma_kept(rows: Seq<RowView>, keep: spec_fn(RowView) -> bool, row: RowView)
    requires
        rows.contains(row),
    ensures
        rows.filter(keep).contains(row) == keep(row),
    decreases rows.len(),
{
    reveal(Seq::filter);
    let (rest, last) = (rows.drop_last(), rows.last());
    assert(rows =~= rest.push(last));
    vstd::seq_lib::lemma_seq_contains_after_push(rest, last, row);
    let kept = rest.filter(keep);
    vstd::seq_lib::lemma_seq_contains_after_push(kept, last, row);
    if rest.contains(row) {
        lemma_kept(rest, keep, row);
    } else if kept.contains(row) {
        lemma_kept_were_there(rest, keep, row);
    }
}

proof fn lemma_kept_were_there(rows: Seq<RowView>, keep: spec_fn(RowView) -> bool, row: RowView)
    requires
        rows.filter(keep).contains(row),
    ensures
        rows.contains(row),
    decreases rows.len(),
{
    reveal(Seq::filter);
    if rows.len() > 0 {
        let (rest, last) = (rows.drop_last(), rows.last());
        assert(rows =~= rest.push(last));
        vstd::seq_lib::lemma_seq_contains_after_push(rest, last, row);
        let kept = rest.filter(keep);
        vstd::seq_lib::lemma_seq_contains_after_push(kept, last, row);
        if kept.contains(row) {
            lemma_kept_were_there(rest, keep, row);
        }
    }
}

} // verus!
