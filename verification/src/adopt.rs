//! The connect decision: reattach to a workspace a host already has, or make
//! the first one.
//!
//! The daemon is asked what it holds; the registry alone never decides that a
//! host has nothing. A failed listing may reuse a compatible row, but never
//! authorises creation.

use crate::confirm;
use crate::confirm::find_record;
use crate::daemon;
use crate::daemon::{daemon_key, most_recently_opened, DaemonKey, KeyView};
use crate::entry;
use crate::entry::{
    next_project_scope_rev, EntryView, Failure, FailureView, SessionState, WorkspaceEntry,
};
use crate::listing;
use crate::listing::{HostListing, Listed};
use crate::opening;
use crate::opening::NewWorkspace;
use crate::paths;
use crate::registry;
use crate::replay;
use crate::scope;
use crate::scope::is_held;
use crate::service;
use crate::service::{ServiceView, WorkspaceLifecycleService};
use crate::session_backend::{BackendWorkspace, RecordView, SessionBackend};
use crate::sessions;
use crate::sessions::Run;
use crate::text;
use crate::workspace;
use crate::workspace::{AdeWorkspace, WorkspaceId, WorkspaceView};
use vstd::prelude::*;
use vstd::string::*;

verus! {

/// Whether a row on a daemon already uses a wire id.
pub open spec fn is_used(
    rows: Seq<WorkspaceView>,
    key: KeyView,
    host: Option<Seq<char>>,
    wire_id: Seq<char>,
) -> bool {
    exists|k: int|
        0 <= k < rows.len() && daemon::on_daemon(#[trigger] rows[k], key, host)
            && rows[k].daemon_workspace_id() == wire_id
}

/// Whether a row on a daemon already uses a wire id.
pub fn is_wire_id_used(
    rows: &Vec<AdeWorkspace>,
    key: &DaemonKey,
    host: Option<&str>,
    wire_id: &str,
) -> (used: bool)
    ensures
        used == is_used(rows.deep_view(), key@, host.deep_view(), wire_id@),
{
    let mut k: usize = 0;
    while k < rows.len()
        invariant
            k <= rows.len(),
            forall|m: int|
                0 <= m < k ==> !(daemon::on_daemon(
                    #[trigger] rows.deep_view()[m],
                    key@,
                    host.deep_view(),
                ) && rows.deep_view()[m].daemon_workspace_id() == wire_id@),
        decreases rows.len() - k,
    {
        assert(rows.deep_view()[k as int] == rows[k as int]@);
        if daemon::row_is_on(&rows[k], key, host) && text::same_text(
            rows[k].daemon_workspace_id().as_str(),
            wire_id,
        ) {
            return true;
        }
        k = k + 1;
    }
    false
}

/// The entries a connected window may choose from: the rows of the daemon that
/// answered, then the records it holds that no such row uses. Nothing is probed.
pub open spec fn host_entries_of(listed: Listed, host: Option<Seq<char>>) -> Seq<EntryView> {
    listed.rows.filter(
        |row: WorkspaceView| daemon::on_daemon(row, listed.key, host),
    ).map_values(|row: WorkspaceView| EntryView::Persisted(row, SessionState::Unknown))
        + listed.held.filter(
        |record: RecordView| !is_used(listed.rows, listed.key, host, record.id),
    ).map_values(
        |record: RecordView|
            EntryView::Discovered {
                remote_host: host,
                workspace: record,
                state: SessionState::Unknown,
            },
    )
}

/// The entries a connected window may choose from.
pub fn host_entries(listed: &HostListing, host: Option<&str>) -> (entries: Vec<WorkspaceEntry>)
    ensures
        entries.deep_view() == host_entries_of(listed.deep_view(), host.deep_view()),
{
    let ghost view = listed.deep_view();
    let ghost on = |row: WorkspaceView| daemon::on_daemon(row, view.key, host.deep_view());
    let ghost unused = |record: RecordView|
        !is_used(view.rows, view.key, host.deep_view(), record.id);
    let ghost as_row = |row: WorkspaceView| EntryView::Persisted(row, SessionState::Unknown);
    let ghost as_discovery = |record: RecordView|
        EntryView::Discovered {
            remote_host: host.deep_view(),
            workspace: record,
            state: SessionState::Unknown,
        };
    let mut entries: Vec<WorkspaceEntry> = Vec::new();
    let mut i: usize = 0;
    assert(view.rows.take(0).filter(on) =~= Seq::<WorkspaceView>::empty()) by {
        reveal(Seq::filter);
    }
    assert(entries.deep_view() =~= view.rows.take(0).filter(on).map_values(as_row));
    while i < listed.rows.len()
        invariant
            i <= listed.rows.len(),
            view == listed.deep_view(),
            on == (|row: WorkspaceView| daemon::on_daemon(row, view.key, host.deep_view())),
            as_row == (|row: WorkspaceView| EntryView::Persisted(row, SessionState::Unknown)),
            entries.deep_view() == view.rows.take(i as int).filter(on).map_values(as_row),
        decreases listed.rows.len() - i,
    {
        let ghost before = entries.deep_view();
        let row = &listed.rows[i];
        proof {
            reveal(Seq::filter);
            assert(view.rows.take(i + 1).drop_last() =~= view.rows.take(i as int));
            assert(view.rows.take(i + 1).last() == row@);
        }
        if daemon::row_is_on(row, &listed.key, host) {
            let entry = WorkspaceEntry::Persisted(row.clone(), SessionState::Unknown);
            entries.push(entry);
            assert(entries.deep_view() =~= before.push(entry@));
        }
        i = i + 1;
        assert(entries.deep_view() =~= view.rows.take(i as int).filter(on).map_values(as_row));
    }
    assert(view.rows.take(view.rows.len() as int) =~= view.rows);
    let ghost rows_part = view.rows.filter(on).map_values(as_row);
    let mut j: usize = 0;
    assert(view.held.take(0).filter(unused) =~= Seq::<RecordView>::empty()) by {
        reveal(Seq::filter);
    }
    assert(entries.deep_view() =~= rows_part + view.held.take(0).filter(unused).map_values(
        as_discovery,
    ));
    while j < listed.held.len()
        invariant
            j <= listed.held.len(),
            view == listed.deep_view(),
            unused == (|record: RecordView|
                !is_used(view.rows, view.key, host.deep_view(), record.id)),
            as_discovery == (|record: RecordView|
                EntryView::Discovered {
                    remote_host: host.deep_view(),
                    workspace: record,
                    state: SessionState::Unknown,
                }),
            entries.deep_view() == rows_part + view.held.take(j as int).filter(
                unused,
            ).map_values(as_discovery),
        decreases listed.held.len() - j,
    {
        let ghost before = entries.deep_view();
        let record = &listed.held[j];
        proof {
            reveal(Seq::filter);
            assert(view.held.take(j + 1).drop_last() =~= view.held.take(j as int));
            assert(view.held.take(j + 1).last() == record@);
        }
        if !is_wire_id_used(&listed.rows, &listed.key, host, record.id.as_str()) {
            let entry = WorkspaceEntry::Discovered {
                remote_host: text::owned(host),
                workspace: record.clone(),
                state: SessionState::Unknown,
            };
            entries.push(entry);
            assert(entries.deep_view() =~= before.push(entry@));
        }
        j = j + 1;
        assert(entries.deep_view() =~= rows_part + view.held.take(j as int).filter(
            unused,
        ).map_values(as_discovery));
    }
    assert(view.held.take(view.held.len() as int) =~= view.held);
    entries
}

/// A host is brought up and listed for a connect decision.
pub open spec fn ensuring_host(
    state: ServiceView,
    later: ServiceView,
    host: Option<Seq<char>>,
) -> Run<Seq<EntryView>> {
    let (reached, connected) = replay::connect(state, later, host);
    match connected {
        Err(failure) => Run { state: reached, result: Err(failure) },
        Ok(()) => {
            let run = listing::listing_host(reached, later, host);
            Run {
                state: run.state,
                result: match run.result {
                    Ok(listed) => Ok(host_entries_of(listed, host)),
                    Err(failure) => Err(failure),
                },
            }
        },
    }
}

/// What a listing under a daemon's name comes to: the daemon, and what it holds
/// or why it could not be asked.
pub struct Stable {
    pub key: KeyView,
    pub held: Result<Seq<RecordView>, FailureView>,
}

/// A host is listed under the name its daemon is expected to have, a number of
/// times at most.
pub open spec fn listing_stably(
    state: ServiceView,
    later: ServiceView,
    host: Option<Seq<char>>,
    tries: nat,
) -> Run<Stable>
    decreases tries,
{
    if tries == 0 {
        Run {
            state,
            result: Err(
                FailureView::Message(
                    "the daemon identity on "@ + daemon::host_name(host)
                        + " kept changing while resolving a workspace"@,
                ),
            ),
        }
    } else {
        let expected = confirm::expecting(state, later, host);
        match expected.result {
            Err(failure) => Run {
                state: expected.state,
                result: Ok(Stable { key: KeyView::Host(host), held: Err(failure) }),
            },
            Ok(named) => {
                let (listed, reply) = replay::list_workspaces(expected.state, later, host);
                let key = daemon::key_of(named, host);
                match reply {
                    Err(cause) => Run {
                        state: listed,
                        result: Ok(
                            Stable {
                                key,
                                held: Err(
                                    sessions::while_doing(
                                        "refreshing the workspaces on "@,
                                        daemon::host_name(host),
                                        cause,
                                    ),
                                ),
                            },
                        ),
                    },
                    Ok((instance, held)) => if instance == named {
                        Run {
                            state: ServiceView {
                                discoveries: listed.discoveries.insert(key, held),
                                ..listed
                            },
                            result: Ok(Stable { key, held: Ok(held) }),
                        }
                    } else {
                        listing_stably(listed, later, host, (tries - 1) as nat)
                    },
                }
            },
        }
    }
}

/// The row that leads the recency order.
pub open spec fn leading(rows: Seq<WorkspaceView>) -> Option<WorkspaceView> {
    if rows.len() == 0 {
        None
    } else {
        Some(rows[choose|at: int| daemon::leads(rows, at)])
    }
}

/// Whether one record is older than another, the id deciding between records of
/// one age.
pub open spec fn is_older(a: RecordView, b: RecordView) -> bool {
    a.created_at < b.created_at || (a.created_at == b.created_at && text::text_before(a.id, b.id))
}

/// That the record at `at` is the oldest, and none before it is as old.
pub open spec fn is_oldest(records: Seq<RecordView>, at: int) -> bool {
    &&& 0 <= at < records.len()
    &&& forall|k: int| 0 <= k < records.len() ==> !is_older(#[trigger] records[k], records[at])
    &&& forall|k: int| 0 <= k < at ==> is_older(records[at], #[trigger] records[k])
}

/// The oldest record of a list.
pub open spec fn oldest(records: Seq<RecordView>) -> Option<RecordView> {
    if records.len() == 0 {
        None
    } else {
        Some(records[choose|at: int| is_oldest(records, at)])
    }
}

/// What is to be done about a checkout on a host.
pub enum Adoption {
    /// A row this client already has.
    Existing(WorkspaceView),
    /// A record the daemon holds.
    Discovered(RecordView),
    /// Nothing is there: a workspace is created.
    Create,
    /// The host could not be asked, and no row may stand in.
    Refuse(FailureView),
}

/// The rows of a checkout that a condition keeps.
pub open spec fn rows_of_root(
    rows: Seq<WorkspaceView>,
    root: Seq<char>,
    keep: spec_fn(WorkspaceView) -> bool,
) -> Seq<WorkspaceView> {
    rows.filter(|row: WorkspaceView| paths::is_same(row.repository_path, root) && keep(row))
}

/// The condition of being on a daemon with a record there.
pub open spec fn live_on(
    key: KeyView,
    host: Option<Seq<char>>,
    held: Seq<RecordView>,
) -> spec_fn(WorkspaceView) -> bool {
    |row: WorkspaceView|
        daemon::on_daemon(row, key, host) && scope::holds(held, row.daemon_workspace_id())
}

/// The condition of being on a daemon without a session yet.
pub open spec fn unstarted_on(
    key: KeyView,
    host: Option<Seq<char>>,
) -> spec_fn(WorkspaceView) -> bool {
    |row: WorkspaceView| daemon::on_daemon(row, key, host) && row.terminal_session_id is None
}

/// The condition of being, perhaps, on a daemon that could not be asked.
pub open spec fn perhaps_on(
    key: KeyView,
    host: Option<Seq<char>>,
) -> spec_fn(WorkspaceView) -> bool {
    |row: WorkspaceView| daemon::maybe_on_daemon(row, key, host)
}

/// The records of a checkout that no row uses.
pub open spec fn free_records(
    rows: Seq<WorkspaceView>,
    key: KeyView,
    host: Option<Seq<char>>,
    held: Seq<RecordView>,
    root: Seq<char>,
) -> Seq<RecordView> {
    held.filter(
        |record: RecordView|
            !is_used(rows, key, host, record.id) && paths::is_same(record.project_root, root),
    )
}

/// The connect decision: an owned row that the daemon still holds, an owned row
/// that has no session, the oldest record no row uses, or creation. Where the
/// daemon could not be asked, only a compatible row will do.
pub open spec fn adoption(
    rows: Seq<WorkspaceView>,
    stable: Stable,
    host: Option<Seq<char>>,
    root: Seq<char>,
) -> Adoption {
    match stable.held {
        Err(failure) => match leading(rows_of_root(rows, root, perhaps_on(stable.key, host))) {
            Some(row) => Adoption::Existing(row),
            None => Adoption::Refuse(failure),
        },
        Ok(held) => match leading(rows_of_root(rows, root, live_on(stable.key, host, held))) {
            Some(row) => Adoption::Existing(row),
            None => match leading(rows_of_root(rows, root, unstarted_on(stable.key, host))) {
                Some(row) => Adoption::Existing(row),
                None => match oldest(free_records(rows, stable.key, host, held, root)) {
                    Some(record) => Adoption::Discovered(record),
                    None => Adoption::Create,
                },
            },
        },
    }
}

/// A failed listing never authorises creation, and never takes a record.
pub proof fn law_a_failed_listing_creates_nothing(
    rows: Seq<WorkspaceView>,
    stable: Stable,
    host: Option<Seq<char>>,
    root: Seq<char>,
)
    requires
        stable.held is Err,
    ensures
        adoption(rows, stable, host, root) is Existing || adoption(rows, stable, host, root)
            is Refuse,
{
}

/// A workspace the daemon already holds for the checkout is never passed over
/// for creation: if creation is decided, every record of the checkout is used by
/// a row, and no such row is of the checkout itself.
pub proof fn law_creation_means_nothing_was_there(
    rows: Seq<WorkspaceView>,
    stable: Stable,
    host: Option<Seq<char>>,
    root: Seq<char>,
    k: int,
)
    requires
        adoption(rows, stable, host, root) is Create,
        0 <= k < stable.held->Ok_0.len(),
        paths::is_same(stable.held->Ok_0[k].project_root, root),
    ensures
        is_used(rows, stable.key, host, stable.held->Ok_0[k].id),
        forall|m: int|
            0 <= m < rows.len() && daemon::on_daemon(#[trigger] rows[m], stable.key, host)
                && paths::is_same(rows[m].repository_path, root) ==> rows[m].daemon_workspace_id()
                != stable.held->Ok_0[k].id,
{
    let held = stable.held->Ok_0;
    let free = |record: RecordView|
        !is_used(rows, stable.key, host, record.id) && paths::is_same(record.project_root, root);
    assert(free_records(rows, stable.key, host, held, root).len() == 0);
    if !is_used(rows, stable.key, host, held[k].id) {
        held.lemma_filter_contains(free, k);
        assert(free_records(rows, stable.key, host, held, root).contains(held[k]));
    }
    let live = live_on(stable.key, host, held);
    let kept = |row: WorkspaceView| paths::is_same(row.repository_path, root) && live(row);
    assert(rows_of_root(rows, root, live).len() == 0);
    assert forall|m: int|
        0 <= m < rows.len() && daemon::on_daemon(#[trigger] rows[m], stable.key, host)
            && paths::is_same(rows[m].repository_path, root) implies rows[m].daemon_workspace_id()
        != held[k].id by {
        if rows[m].daemon_workspace_id() == held[k].id {
            assert(scope::holds(held, rows[m].daemon_workspace_id()));
            assert(kept(rows[m]));
            rows.lemma_filter_contains(kept, m);
            assert(rows_of_root(rows, root, live).contains(rows[m]));
        }
    }
}

/// The project a workspace made for a checkout is in.
pub open spec fn scope_or_root(
    root: Seq<char>,
    project_scope: Option<(Seq<char>, Seq<char>)>,
) -> (Seq<char>, Seq<char>) {
    match project_scope {
        Some(given) => given,
        None => (workspace::path_project_id(root), root),
    }
}

/// The row a workspace made for a checkout begins as.
pub open spec fn first_row(
    id: Seq<char>,
    root: Seq<char>,
    host: Option<Seq<char>>,
    project_scope: Option<(Seq<char>, Seq<char>)>,
    now: i64,
) -> WorkspaceView {
    let (project_id, identity) = scope_or_root(root, project_scope);
    WorkspaceView {
        project_identity: Some(identity),
        remote_host: host,
        ..workspace::new_workspace(id, project_id, project_id, root, now)
    }
}

/// The connect decision is carried out.
pub open spec fn carrying_out(
    state: ServiceView,
    later: ServiceView,
    key: KeyView,
    decision: Adoption,
    root: Seq<char>,
    host: Option<Seq<char>>,
    project_scope: Option<(Seq<char>, Seq<char>)>,
    id: Seq<char>,
    now: i64,
) -> Run<(WorkspaceView, bool)> {
    match decision {
        Adoption::Refuse(failure) => Run { state, result: Err(failure) },
        Adoption::Existing(row) => Run { state, result: Ok((row, false)) },
        Adoption::Discovered(record) => {
            let confirmed = confirm::confirming(state, key, host, record, id, now);
            match confirmed.result {
                Err(failure) => Run { state: confirmed.state, result: Err(failure) },
                Ok(row) => match project_scope {
                    None => Run { state: confirmed.state, result: Ok((row, false)) },
                    Some((project_id, identity)) => {
                        let moved = scope::moving_project(
                            confirmed.state,
                            later,
                            row.id,
                            project_id,
                            identity,
                        );
                        Run {
                            state: moved.state,
                            result: match moved.result {
                                Ok(row) => Ok((row, false)),
                                Err(failure) => Err(failure),
                            },
                        }
                    },
                },
            }
        },
        Adoption::Create => {
            let made = opening::creating(
                state,
                later,
                first_row(id, root, host, project_scope, now),
                now,
            );
            Run {
                state: made.state,
                result: match made.result {
                    Ok(row) => Ok((row, true)),
                    Err(failure) => Err(failure),
                },
            }
        },
    }
}

/// A fresh connection to a checkout on a host is resolved.
pub open spec fn adopting_or_creating(
    state: ServiceView,
    later: ServiceView,
    root: Seq<char>,
    host: Option<Seq<char>>,
    project_scope: Option<(Seq<char>, Seq<char>)>,
    id: Seq<char>,
    now: i64,
) -> Run<(WorkspaceView, bool)> {
    let (reached, connected) = replay::connect(state, later, host);
    match connected {
        Err(failure) => Run { state: reached, result: Err(failure) },
        Ok(()) => {
            let run = listing_stably(reached, later, host, 3);
            match run.result {
                Err(failure) => Run { state: run.state, result: Err(failure) },
                Ok(stable) => carrying_out(
                    run.state,
                    later,
                    stable.key,
                    adoption(
                        registry::listing(run.state.rows, registry::used_rows()),
                        stable,
                        host,
                        root,
                    ),
                    root,
                    host,
                    project_scope,
                    id,
                    now,
                ),
            }
        },
    }
}

/// A discovery is moved to a project: on the daemon where that keeps projects,
/// and otherwise on a row of its own.
pub open spec fn moving_discovery(
    state: ServiceView,
    later: ServiceView,
    host: Option<Seq<char>>,
    wire_id: Seq<char>,
    project_id: Seq<char>,
    project_identity: Seq<char>,
    id: Seq<char>,
    now: i64,
) -> Run<Option<bool>> {
    let (reached, connected) = replay::connect(state, later, host);
    match connected {
        Err(failure) => Run { state: reached, result: Err(failure) },
        Ok(()) => {
            let (listed, reply) = replay::list_workspaces(reached, later, host);
            match reply {
                Err(cause) => Run { state: listed, result: Err(FailureView::Message(cause)) },
                Ok((instance, held)) => match confirm::record_of(held, wire_id) {
                    None => Run { state: listed, result: Ok(None) },
                    Some(record) => if record.project_id == Some(project_id)
                        && record.project_identity == Some(project_identity) {
                        Run { state: listed, result: Ok(Some(true)) }
                    } else {
                        match entry::next_rev(record.project_scope_rev) {
                            Err(failure) => Run { state: listed, result: Err(failure) },
                            Ok(rev) => {
                                let (asked, updated) = replay::update_scope(
                                    listed,
                                    later,
                                    host,
                                    wire_id,
                                    project_id,
                                    project_identity,
                                    Some(record.project_root),
                                    Some(rev),
                                    instance,
                                );
                                match updated {
                                    Err(cause) => Run {
                                        state: asked,
                                        result: Err(
                                            sessions::while_doing(
                                                "updating a discovered workspace's project identity"@,
                                                ""@,
                                                cause,
                                            ),
                                        ),
                                    },
                                    Ok(Some(_)) => Run { state: asked, result: Ok(Some(true)) },
                                    Ok(None) => recording_discovery(
                                        asked,
                                        later,
                                        host,
                                        wire_id,
                                        project_id,
                                        project_identity,
                                        id,
                                        now,
                                    ),
                                }
                            },
                        }
                    },
                },
            }
        },
    }
}

/// A discovery on a daemon that keeps no projects gets a row that does.
pub open spec fn recording_discovery(
    state: ServiceView,
    later: ServiceView,
    host: Option<Seq<char>>,
    wire_id: Seq<char>,
    project_id: Seq<char>,
    project_identity: Seq<char>,
    id: Seq<char>,
    now: i64,
) -> Run<Option<bool>> {
    let confirmed = confirm::confirming_discovery(state, later, host, wire_id, id, now);
    match confirmed.result {
        Err(failure) => Run { state: confirmed.state, result: Err(failure) },
        Ok(row) => {
            let moved = scope::moving_project(
                confirmed.state,
                later,
                row.id,
                project_id,
                project_identity,
            );
            Run {
                state: moved.state,
                result: match moved.result {
                    Ok(_) => Ok(Some(false)),
                    Err(failure) => Err(
                        sessions::while_doing(
                            "recording a discovered workspace's project identity locally"@,
                            ""@,
                            failure.message(),
                        ),
                    ),
                },
            }
        },
    }
}

/// [`Adoption`], with the values to act on.
pub enum AdoptionPlan {
    Existing(AdeWorkspace),
    Discovered(BackendWorkspace),
    Create,
    Refuse(Failure),
}

impl View for AdoptionPlan {
    type V = Adoption;

    open spec fn view(&self) -> Adoption {
        match *self {
            AdoptionPlan::Existing(row) => Adoption::Existing(row@),
            AdoptionPlan::Discovered(record) => Adoption::Discovered(record@),
            AdoptionPlan::Create => Adoption::Create,
            AdoptionPlan::Refuse(failure) => Adoption::Refuse(failure@),
        }
    }
}

/// Which rows of a checkout may be reattached to.
enum Fit<'a> {
    Live(&'a DaemonKey, Option<&'a str>, &'a Vec<BackendWorkspace>),
    Unstarted(&'a DaemonKey, Option<&'a str>),
    Perhaps(&'a DaemonKey, Option<&'a str>),
}

impl<'a> Fit<'a> {
    spec fn keeps(self) -> spec_fn(WorkspaceView) -> bool {
        match self {
            Fit::Live(key, host, held) => live_on(key@, host.deep_view(), held.deep_view()),
            Fit::Unstarted(key, host) => unstarted_on(key@, host.deep_view()),
            Fit::Perhaps(key, host) => perhaps_on(key@, host.deep_view()),
        }
    }

    fn fits(&self, row: &AdeWorkspace) -> (fits: bool)
        ensures
            fits == (self.keeps())(row@),
    {
        match self {
            Fit::Live(key, host, held) => daemon::row_is_on(row, *key, *host) && is_held(
                *held,
                row.daemon_workspace_id().as_str(),
            ),
            Fit::Unstarted(key, host) => daemon::row_is_on(row, *key, *host)
                && row.terminal_session_id.is_none(),
            Fit::Perhaps(key, host) => daemon::row_could_be_on(row, *key, *host),
        }
    }
}

fn leading_row<'a>(rows: &'a Vec<AdeWorkspace>, root: &str, fit: Fit) -> (row: Option<
    &'a AdeWorkspace,
>)
    ensures
        row.deep_view() == leading(rows_of_root(rows.deep_view(), root@, fit.keeps())),
{
    let ghost all = rows.deep_view();
    let ghost keeps = fit.keeps();
    let ghost kept = |row: WorkspaceView| paths::is_same(row.repository_path, root@) && keeps(row);
    let mut fitting: Vec<&'a AdeWorkspace> = Vec::new();
    let mut i: usize = 0;
    assert(all.take(0).filter(kept) =~= Seq::<WorkspaceView>::empty()) by {
        reveal(Seq::filter);
    }
    while i < rows.len()
        invariant
            i <= rows.len(),
            all == rows.deep_view(),
            keeps == fit.keeps(),
            kept == (|row: WorkspaceView| paths::is_same(row.repository_path, root@) && keeps(row)),
            fitting.deep_view() == all.take(i as int).filter(kept),
        decreases rows.len() - i,
    {
        let ghost before = fitting.deep_view();
        let row = &rows[i];
        proof {
            reveal(Seq::filter);
            assert(all.take(i + 1).drop_last() =~= all.take(i as int));
            assert(all.take(i + 1).last() == row@);
        }
        if paths::same_path(row.repository_path.as_str(), root) && fit.fits(row) {
            fitting.push(row);
            assert(fitting.deep_view() =~= before.push(row@));
        }
        i = i + 1;
    }
    assert(all.take(all.len() as int) =~= all);
    let found = most_recently_opened(&fitting);
    proof {
        let fit_rows = fitting.deep_view();
        assert(fit_rows == rows_of_root(all, root@, keeps));
        if let Some(row) = found {
            let at = choose|at: int|
                daemon::leads(fit_rows, at) && fit_rows[at] == row@;
            let other = choose|at: int| daemon::leads(fit_rows, at);
            daemon::law_the_leading_row_is_one(fit_rows, at, other);
        }
    }
    found
}

fn oldest_record<'a>(records: &Vec<&'a BackendWorkspace>) -> (found: Option<&'a BackendWorkspace>)
    ensures
        found.deep_view() == oldest(records.deep_view()),
{
    if records.len() == 0 {
        return None;
    }
    let ghost all = records.deep_view();
    let mut best: usize = 0;
    let mut i: usize = 1;
    proof {
        text::lemma_text_order(all[0].id, all[0].id, all[0].id);
    }
    while i < records.len()
        invariant
            best < i <= records.len(),
            all == records.deep_view(),
            forall|k: int| 0 <= k < i ==> !is_older(#[trigger] all[k], all[best as int]),
            forall|k: int| 0 <= k < best ==> is_older(all[best as int], #[trigger] all[k]),
        decreases records.len() - i,
    {
        let candidate: &BackendWorkspace = records[i];
        let current: &BackendWorkspace = records[best];
        assert(all[i as int] == candidate@ && all[best as int] == current@);
        if candidate.created_at < current.created_at || (candidate.created_at
            == current.created_at && text::is_before(candidate.id.as_str(), current.id.as_str())) {
            proof {
                assert forall|k: int| 0 <= k < i implies is_older(
                    all[i as int],
                    #[trigger] all[k],
                ) by {
                    text::lemma_text_order(all[i as int].id, all[best as int].id, all[k].id);
                    text::lemma_text_order(all[k].id, all[best as int].id, all[i as int].id);
                }
                assert forall|k: int| 0 <= k <= i implies !is_older(
                    #[trigger] all[k],
                    all[i as int],
                ) by {
                    text::lemma_text_order(all[k].id, all[i as int].id, all[k].id);
                }
            }
            best = i;
        }
        i = i + 1;
    }
    proof {
        assert(is_oldest(all, best as int));
        let other = choose|at: int| is_oldest(all, at);
        if other < best {
            assert(is_older(all[best as int], all[other]));
        } else if best < other {
            assert(is_older(all[other], all[best as int]));
        }
        assert(all[best as int] == records[best as int]@);
    }
    Some(records[best])
}

fn oldest_free_record<'a>(
    rows: &Vec<AdeWorkspace>,
    key: &DaemonKey,
    host: Option<&str>,
    held: &'a Vec<BackendWorkspace>,
    root: &str,
) -> (found: Option<&'a BackendWorkspace>)
    ensures
        found.deep_view() == oldest(
            free_records(rows.deep_view(), key@, host.deep_view(), held.deep_view(), root@),
        ),
{
    let ghost all = held.deep_view();
    let ghost free = |record: RecordView|
        !is_used(rows.deep_view(), key@, host.deep_view(), record.id) && paths::is_same(
            record.project_root,
            root@,
        );
    let mut fitting: Vec<&'a BackendWorkspace> = Vec::new();
    let mut i: usize = 0;
    assert(all.take(0).filter(free) =~= Seq::<RecordView>::empty()) by {
        reveal(Seq::filter);
    }
    while i < held.len()
        invariant
            i <= held.len(),
            all == held.deep_view(),
            free == (|record: RecordView|
                !is_used(rows.deep_view(), key@, host.deep_view(), record.id)
                    && paths::is_same(record.project_root, root@)),
            fitting.deep_view() == all.take(i as int).filter(free),
        decreases held.len() - i,
    {
        let ghost before = fitting.deep_view();
        let record = &held[i];
        proof {
            reveal(Seq::filter);
            assert(all.take(i + 1).drop_last() =~= all.take(i as int));
            assert(all.take(i + 1).last() == record@);
        }
        if !is_wire_id_used(rows, key, host, record.id.as_str()) && paths::same_path(
            record.project_root.as_str(),
            root,
        ) {
            fitting.push(record);
            assert(fitting.deep_view() =~= before.push(record@));
        }
        i = i + 1;
    }
    assert(all.take(all.len() as int) =~= all);
    oldest_record(&fitting)
}

/// The connect decision, from the rows in use and what the daemon said.
pub fn decide_adoption(
    rows: &Vec<AdeWorkspace>,
    key: &DaemonKey,
    held: Result<Vec<BackendWorkspace>, Failure>,
    host: Option<&str>,
    root: &str,
) -> (plan: AdoptionPlan)
    ensures
        plan@ == adoption(
            rows.deep_view(),
            Stable { key: key@, held: service::told(held) },
            host.deep_view(),
            root@,
        ),
{
    match held {
        Err(failure) => match leading_row(rows, root, Fit::Perhaps(key, host)) {
            Some(row) => AdoptionPlan::Existing(row.clone()),
            None => AdoptionPlan::Refuse(failure),
        },
        Ok(held) => {
            match leading_row(rows, root, Fit::Live(key, host, &held)) {
                Some(row) => {
                    return AdoptionPlan::Existing(row.clone());
                },
                None => {},
            }
            match leading_row(rows, root, Fit::Unstarted(key, host)) {
                Some(row) => {
                    return AdoptionPlan::Existing(row.clone());
                },
                None => {},
            }
            match oldest_free_record(rows, key, host, &held, root) {
                Some(record) => AdoptionPlan::Discovered(record.clone()),
                None => AdoptionPlan::Create,
            }
        },
    }
}

proof fn lemma_listing_stably_grows(
    state: ServiceView,
    later: ServiceView,
    host: Option<Seq<char>>,
    tries: nat,
)
    ensures
        state.log.is_prefix_of(listing_stably(state, later, host, tries).state.log),
        listing_stably(state, later, host, tries).state.hosts == state.hosts,
        listing_stably(state, later, host, tries).state.connects == state.connects,
        listing_stably(state, later, host, tries).state.rows == state.rows,
    decreases tries,
{
    if tries > 0 {
        let expected = confirm::expecting(state, later, host);
        let (listed, reply) = replay::list_workspaces(expected.state, later, host);
        lemma_listing_stably_grows(listed, later, host, (tries - 1) as nat);
    }
}

proof fn lemma_listing_stably_settled(
    state: ServiceView,
    now: ServiceView,
    later: ServiceView,
    host: Option<Seq<char>>,
    tries: nat,
)
    requires
        listing_stably(state, now, host, tries).state.log.is_prefix_of(now.log),
        now.log.is_prefix_of(later.log),
    ensures
        listing_stably(state, now, host, tries) == listing_stably(state, later, host, tries),
    decreases tries,
{
    if tries > 0 {
        let n = state.log.len() as int;
        let whole = listing_stably(state, now, host, tries);
        let expected = confirm::expecting(state, now, host);
        let (listed, reply) = replay::list_workspaces(expected.state, now, host);
        lemma_listing_stably_grows(listed, now, host, (tries - 1) as nat);
        assert(expected.state.log.is_prefix_of(whole.state.log));
        assert(now.log[n] == later.log[n]);
        if expected.state.log.len() > n + 1 {
            assert(now.log[n + 1] == later.log[n + 1]);
        }
        assert(confirm::expecting(state, later, host) == expected);
        if let Ok(named) = expected.result {
            let m = expected.state.log.len() as int;
            assert(listed.log.is_prefix_of(whole.state.log));
            assert(now.log[m] == later.log[m]);
            if let Ok((instance, held)) = reply {
                if instance != named {
                    lemma_listing_stably_settled(listed, now, later, host, (tries - 1) as nat);
                }
            }
        }
    }
}

/// A listing taken under the name its daemon was expected to have.
pub struct StableListing {
    pub daemon: DaemonKey,
    pub held: Result<Vec<BackendWorkspace>, Failure>,
}

impl DeepView for StableListing {
    type V = Stable;

    open spec fn deep_view(&self) -> Stable {
        Stable { key: self.daemon@, held: service::told(self.held) }
    }
}

impl<B: SessionBackend> WorkspaceLifecycleService<B> {
    /// Brings one host's session backend up and answers with everything the
    /// connect decision may choose from: the rows this client already has on the
    /// daemon that answered, and the records it holds that no row uses.
    ///
    /// No row is created: a listing is not usage.
    pub fn ensure_host_workspaces(
        &mut self,
        host: Option<&str>,
    ) -> (entries: Result<Vec<WorkspaceEntry>, Failure>)
        requires
            old(self).wf(),
        ensures
            final(self).wf(),
            final(self).continues(old(self)),
            listing::same_rows_elsewhere(old(self)@.rows, final(self)@.rows),
            ensuring_host(old(self)@, final(self)@, host.deep_view()) == (Run {
                state: final(self)@,
                result: service::told(entries),
            }),
    {
        let at = match self.backend_for_host(host) {
            Ok(at) => at,
            Err(failure) => {
                return Err(failure);
            },
        };
        match self.list_host_workspaces(at, host) {
            Ok(listed) => Ok(host_entries(&listed, host)),
            Err(failure) => Err(failure),
        }
    }

    /// Lists after settling which daemon the listing is to come from.
    fn listing_under_daemon_name(
        &mut self,
        at: usize,
        host: Option<&str>,
        tries: u8,
    ) -> (listed: Result<StableListing, Failure>)
        requires
            old(self).wf(),
            at < old(self)@.hosts.len(),
            old(self)@.hosts[at as int] == host.deep_view(),
        ensures
            final(self).wf(),
            final(self).continues(old(self)),
            listing_stably(old(self)@, final(self)@, host.deep_view(), tries as nat) == (Run {
                state: final(self)@,
                result: service::told(listed),
            }),
        decreases tries,
    {
        if tries == 0 {
            let label = daemon::host_label(host);
            return Err(
                Failure::Message(
                    text::joined3(
                        "the daemon identity on ",
                        label.as_str(),
                        " kept changing while resolving a workspace",
                    ),
                ),
            );
        }
        let named = match self.expected_daemon(at, host) {
            Ok(named) => named,
            Err(failure) => {
                return Ok(
                    StableListing {
                        daemon: DaemonKey::Host(text::owned(host)),
                        held: Err(failure),
                    },
                );
            },
        };
        let ghost expected = self@;
        let key = daemon_key(text::borrowed(&named), host);
        let reply = self.ask_workspaces(at);
        let ghost asked = self@;
        proof {
            let n = old(self)@.log.len() as int;
            assert(asked.log[n] == expected.log[n]);
            if expected.log.len() > n + 1 {
                assert(asked.log[n + 1] == expected.log[n + 1]);
            }
            assert(confirm::expecting(old(self)@, asked, host.deep_view()) == confirm::expecting(
                old(self)@,
                expected,
                host.deep_view(),
            ));
        }
        let listing = match reply {
            Ok(listing) => listing,
            Err(cause) => {
                return Ok(
                    StableListing {
                        daemon: key,
                        held: Err(
                            Failure::while_doing(
                                "refreshing the workspaces on ",
                                daemon::host_label(host).as_str(),
                                cause.as_str(),
                            ),
                        ),
                    },
                );
            },
        };
        if text::same_opt_text(text::borrowed(&listing.daemon_id), text::borrowed(&named)) {
            self.snapshots().remember(&key, &listing.items);
            Ok(StableListing { daemon: key, held: Ok(listing.items) })
        } else {
            let listed = self.listing_under_daemon_name(at, host, tries - 1);
            proof {
                lemma_listing_stably_grows(asked, self@, host.deep_view(), (tries - 1) as nat);
                let n = old(self)@.log.len() as int;
                let m = expected.log.len() as int;
                assert(self@.log[n] == asked.log[n]);
                if m > n + 1 {
                    assert(self@.log[n + 1] == asked.log[n + 1]);
                }
                assert(self@.log[m] == asked.log[m]);
                assert(confirm::expecting(old(self)@, self@, host.deep_view())
                    == confirm::expecting(old(self)@, expected, host.deep_view()));
            }
            listed
        }
    }

    fn carry_out(
        &mut self,
        key: &DaemonKey,
        plan: AdoptionPlan,
        root: &str,
        host: Option<&str>,
        project_scope: Option<(String, String)>,
        id: WorkspaceId,
        now: i64,
    ) -> (adopted: Result<(AdeWorkspace, bool), Failure>)
        requires
            old(self).wf(),
        ensures
            final(self).wf(),
            final(self).continues(old(self)),
            carrying_out(
                old(self)@,
                final(self)@,
                key@,
                plan@,
                root@,
                host.deep_view(),
                project_scope.deep_view(),
                id@,
                now,
            ) == (Run { state: final(self)@, result: service::told(adopted) }),
    {
        match plan {
            AdoptionPlan::Refuse(failure) => Err(failure),
            AdoptionPlan::Existing(row) => Ok((row, false)),
            AdoptionPlan::Discovered(record) => {
                let confirmed = self.confirm_record(key, host, &record, id, now);
                let row = match confirmed {
                    Ok(row) => row,
                    Err(failure) => {
                        return Err(failure);
                    },
                };
                match project_scope {
                    None => Ok((row, false)),
                    Some((project_id, identity)) => match self.update_workspace_project_scope(
                        &row.id,
                        project_id.as_str(),
                        identity.as_str(),
                    ) {
                        Ok(moved) => Ok((moved, false)),
                        Err(failure) => Err(failure),
                    },
                }
            },
            AdoptionPlan::Create => {
                let (project_id, identity) = match project_scope {
                    Some(given) => given,
                    None => (workspace::project_id_from_path(root), root.to_owned()),
                };
                let request = NewWorkspace {
                    id,
                    name: project_id.clone(),
                    project_id,
                    project_identity: Some(identity),
                    repository_path: root.to_owned(),
                    branch: None,
                    remote_host: text::owned(host),
                    now,
                };
                match self.create_workspace_scoped(request) {
                    Ok(row) => Ok((row, true)),
                    Err(failure) => Err(failure),
                }
            },
        }
    }

    /// Resolves a fresh connection to a checkout: an owned row, a matching
    /// discovery, or creation. Answers whether a workspace was created.
    pub fn adopt_or_create_workspace(
        &mut self,
        root: &str,
        host: Option<&str>,
        project_scope: Option<(String, String)>,
        id: WorkspaceId,
        now: i64,
    ) -> (adopted: Result<(AdeWorkspace, bool), Failure>)
        requires
            old(self).wf(),
        ensures
            final(self).wf(),
            final(self).continues(old(self)),
            adopting_or_creating(
                old(self)@,
                final(self)@,
                root@,
                host.deep_view(),
                project_scope.deep_view(),
                id@,
                now,
            ) == (Run { state: final(self)@, result: service::told(adopted) }),
    {
        let at = match self.backend_for_host(host) {
            Ok(at) => at,
            Err(failure) => {
                return Err(failure);
            },
        };
        let ghost reached = self@;
        let listed = self.listing_under_daemon_name(at, host, 3);
        let ghost stable = self@;
        proof {
            lemma_listing_stably_grows(reached, stable, host.deep_view(), 3);
        }
        let listing = match listed {
            Ok(listing) => listing,
            Err(failure) => {
                return Err(failure);
            },
        };
        let ghost listing_view = listing.deep_view();
        let rows = self.registry().confirmed_workspaces();
        let plan = decide_adoption(&rows, &listing.daemon, listing.held, host, root);
        let ghost decided = plan@;
        let adopted = self.carry_out(&listing.daemon, plan, root, host, project_scope, id, now);
        proof {
            lemma_carrying_out_grows(
                stable,
                self@,
                listing_view.key,
                decided,
                root@,
                host.deep_view(),
                project_scope.deep_view(),
                id@,
                now,
            );
            lemma_listing_stably_settled(reached, stable, self@, host.deep_view(), 3);
        }
        adopted
    }

    /// Moves a discovery to a project. Answers `None` when it is not there any
    /// more, and otherwise whether its daemon keeps the project; on one that
    /// does not, the discovery gets a row.
    pub fn update_discovered_workspace_project_scope(
        &mut self,
        remote_host: Option<&str>,
        workspace_id: &str,
        project_id: &str,
        project_identity: &str,
        id: WorkspaceId,
        now: i64,
    ) -> (moved: Result<Option<bool>, Failure>)
        requires
            old(self).wf(),
        ensures
            final(self).wf(),
            final(self).continues(old(self)),
            moving_discovery(
                old(self)@,
                final(self)@,
                remote_host.deep_view(),
                workspace_id@,
                project_id@,
                project_identity@,
                id@,
                now,
            ) == (Run { state: final(self)@, result: service::told(moved) }),
    {
        let at = match self.backend_for_host(remote_host) {
            Ok(at) => at,
            Err(failure) => {
                return Err(failure);
            },
        };
        let listing = match self.ask_workspaces(at) {
            Ok(listing) => listing,
            Err(cause) => {
                return Err(Failure::Message(cause));
            },
        };
        let record = match find_record(&listing.items, workspace_id) {
            Some(record) => record,
            None => {
                return Ok(None);
            },
        };
        if text::same_opt_text(text::borrowed(&record.project_id), Some(project_id))
            && text::same_opt_text(
            text::borrowed(&record.project_identity),
            Some(project_identity),
        ) {
            return Ok(Some(true));
        }
        let rev = match next_project_scope_rev(record.project_scope_rev) {
            Ok(rev) => rev,
            Err(failure) => {
                return Err(failure);
            },
        };
        match self.ask_scope(
            at,
            workspace_id,
            project_id,
            project_identity,
            Some(record.project_root.as_str()),
            Some(rev),
            text::borrowed(&listing.daemon_id),
        ) {
            Ok(Some(_)) => {
                return Ok(Some(true));
            },
            Ok(None) => {},
            Err(cause) => {
                return Err(
                    Failure::while_doing(
                        "updating a discovered workspace's project identity",
                        "",
                        cause.as_str(),
                    ),
                );
            },
        }
        let ghost asked = self@;
        assert(asked.hosts.contains(remote_host.deep_view()));
        let confirmed = self.confirm_discovered(remote_host, workspace_id, id, now);
        let ghost known = self@;
        let row = match confirmed {
            Ok(row) => row,
            Err(failure) => {
                return Err(failure);
            },
        };
        let moved = self.update_workspace_project_scope(&row.id, project_id, project_identity);
        proof {
            confirm::lemma_opening_discovery_settled(
                asked,
                known,
                self@,
                remote_host.deep_view(),
                workspace_id@,
                id@,
                now,
                3,
            );
        }
        match moved {
            Ok(_) => Ok(Some(false)),
            Err(failure) => Err(
                failure.behind("recording a discovered workspace's project identity locally", ""),
            ),
        }
    }
}

proof fn lemma_carrying_out_grows(
    state: ServiceView,
    later: ServiceView,
    key: KeyView,
    decision: Adoption,
    root: Seq<char>,
    host: Option<Seq<char>>,
    project_scope: Option<(Seq<char>, Seq<char>)>,
    id: Seq<char>,
    now: i64,
)
    ensures
        state.log.is_prefix_of(
            carrying_out(
                state,
                later,
                key,
                decision,
                root,
                host,
                project_scope,
                id,
                now,
            ).state.log,
        ),
        state.connects.is_prefix_of(
            carrying_out(
                state,
                later,
                key,
                decision,
                root,
                host,
                project_scope,
                id,
                now,
            ).state.connects,
        ),
{
    if let Adoption::Discovered(record) = decision {
        confirm::lemma_confirming_asks_nothing(state, key, host, record, id, now);
    }
}

} // verus!
