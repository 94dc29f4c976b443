//! Taking a daemon's record into use: the row it already has, a quarantined row
//! promoted in place, or one new row.

use crate::daemon;
use crate::daemon::{daemon_key, instance_of, DaemonKey, KeyView};
use crate::enrich;
use crate::entry;
use crate::entry::{Failure, FailureView};
use crate::registry;
use crate::registry::RowView;
use crate::replay;
use crate::service;
use crate::service::{ServiceView, WorkspaceLifecycleService};
use crate::session_backend::{BackendWorkspace, RecordView, SessionBackend};
use crate::sessions;
use crate::sessions::Run;
use crate::snapshot;
use crate::text;
use crate::workspace;
use crate::workspace::{AdeWorkspace, WorkspaceId, WorkspaceStatus, WorkspaceView};
use vstd::prelude::*;
use vstd::string::*;

verus! {

/// The last second of the last year a calendar here has.
pub open spec fn last_calendar_second() -> int {
    253402300799
}

/// `time::OffsetDateTime::from_unix_timestamp`: whether the calendar has this
/// second. It has every second from the epoch to the end of the year 9999, and
/// none after it.
#[verifier::external_body]
fn is_calendar_time(seconds: i64) -> (is_time: bool)
    requires
        seconds >= 0,
    ensures
        is_time == (seconds <= last_calendar_second()),
{
    time::OffsetDateTime::from_unix_timestamp(seconds).is_ok()
}

/// When a record began, as a row stores it: a time no calendar has gives way to
/// this client's clock.
pub open spec fn record_time(created_at: u64, now: i64) -> i64 {
    if created_at <= last_calendar_second() {
        created_at as i64
    } else {
        now
    }
}

pub fn created_at_or_now(created_at: u64, now: i64) -> (time: i64)
    ensures
        time == record_time(created_at, now),
{
    if created_at > 0x7fff_ffff_ffff_ffff {
        return now;
    }
    let seconds: i64 = created_at as i64;
    if is_calendar_time(seconds) {
        seconds
    } else {
        now
    }
}

/// The row for a daemon record this client has just opened. It addresses the
/// record it was made from; nothing has probed its sessions yet.
pub open spec fn row_for(
    record: RecordView,
    host: Option<Seq<char>>,
    instance: Option<Seq<char>>,
    id: Seq<char>,
    now: i64,
) -> WorkspaceView {
    WorkspaceView {
        id,
        name: daemon::shown_name(record.name, entry::record_project_id(record)),
        project_id: entry::record_project_id(record),
        project_identity: record.project_identity,
        repository_path: record.project_root,
        project_scope_rev: record.project_scope_rev,
        branch: None,
        remote_host: host,
        remote_workspace_path: None,
        terminal_session_id: Some(record.id),
        daemon_id: instance,
        status: WorkspaceStatus::Disconnected,
        created_at: record_time(record.created_at, now),
        last_opened_at: now,
    }
}

pub fn row_for_record(
    workspace: &BackendWorkspace,
    host: Option<&str>,
    daemon_id: Option<&str>,
    id: WorkspaceId,
    opened_at: i64,
) -> (row: AdeWorkspace)
    ensures
        row@ == row_for(workspace@, host.deep_view(), daemon_id.deep_view(), id@, opened_at),
{
    let project_id = match &workspace.project_id {
        Some(project_id) => project_id.clone(),
        None => workspace::project_id_from_path(workspace.project_root.as_str()),
    };
    AdeWorkspace {
        id,
        name: daemon::display_name_for(workspace.name.as_str(), project_id.as_str()),
        project_id,
        project_identity: text::owned(text::borrowed(&workspace.project_identity)),
        repository_path: workspace.project_root.clone(),
        project_scope_rev: workspace.project_scope_rev,
        branch: None,
        remote_host: text::owned(host),
        remote_workspace_path: None,
        terminal_session_id: Some(workspace.id.clone()),
        daemon_id: text::owned(daemon_id),
        status: WorkspaceStatus::Disconnected,
        created_at: created_at_or_now(workspace.created_at, opened_at),
        last_opened_at: opened_at,
    }
}

/// A row made for a record addresses that record, on the daemon it came from:
/// the next listing finds the row, and no discovery.
pub proof fn law_a_recorded_row_stands_for_its_record(
    record: RecordView,
    host: Option<Seq<char>>,
    instance: Option<Seq<char>>,
    id: Seq<char>,
    now: i64,
)
    ensures
        daemon::mirrors(row_for(record, host, instance, id, now), instance, host, record),
        row_for(record, host, instance, id, now).daemon_workspace_id() == record.id,
        daemon::on_daemon(
            row_for(record, host, instance, id, now),
            daemon::key_of(instance, host),
            host,
        ),
{
}

/// The first row of a list on a daemon with a session id.
pub open spec fn first_owner(
    rows: Seq<WorkspaceView>,
    key: KeyView,
    host: Option<Seq<char>>,
    wire_id: Seq<char>,
) -> Option<WorkspaceView>
    decreases rows.len(),
{
    if rows.len() == 0 {
        None
    } else if daemon::on_daemon(rows[0], key, host) && rows[0].terminal_session_id == Some(
        wire_id,
    ) {
        Some(rows[0])
    } else {
        first_owner(rows.drop_first(), key, host, wire_id)
    }
}

/// The row in use that stands for a daemon's record.
pub open spec fn owner_in(
    rows: Seq<RowView>,
    key: KeyView,
    host: Option<Seq<char>>,
    wire_id: Seq<char>,
) -> Option<WorkspaceView> {
    first_owner(registry::listing(rows, registry::used_rows()), key, host, wire_id)
}

/// The quarantined rows that stand for a record, last opened first.
pub open spec fn candidates_for(
    rows: Seq<RowView>,
    instance: Option<Seq<char>>,
    host: Option<Seq<char>>,
    record: RecordView,
) -> Seq<WorkspaceView> {
    registry::listing(rows, registry::promotable_rows(instance)).filter(
        enrich::mirror(instance, host, record),
    )
}

/// Quarantined rows are tried in turn: the first that can be taken into use is,
/// with its id, its branch and its history.
pub open spec fn promoting(
    state: ServiceView,
    key: KeyView,
    host: Option<Seq<char>>,
    record: RecordView,
    now: i64,
    candidates: Seq<WorkspaceView>,
) -> Run<Option<WorkspaceView>>
    decreases candidates.len(),
{
    if candidates.len() == 0 {
        Run { state, result: Ok(None) }
    } else {
        let row = candidates[0];
        let instance = daemon::key_instance(key);
        let owner = owner_in(state.rows, key, host, record.id);
        match registry::row_of(state.rows, row.id) {
            Some(stored) if stored.used_by_client_at is None => match registry::changed(
                state.rows,
                row.id,
                registry::confirmation(host, instance, now),
            ) {
                Some(rows) => Run {
                    state: ServiceView { rows, ..state },
                    result: Ok(
                        Some(
                            WorkspaceView {
                                remote_host: host,
                                daemon_id: instance,
                                last_opened_at: now,
                                ..row
                            },
                        ),
                    ),
                },
                None => match owner {
                    Some(owner) => Run { state, result: Ok(Some(owner)) },
                    None => Run {
                        state,
                        result: Err(
                            sessions::while_doing(
                                "confirming workspace "@,
                                row.id,
                                sessions::record_conflict().message(),
                            ),
                        ),
                    },
                },
            },
            _ => match owner {
                Some(owner) => Run { state, result: Ok(Some(owner)) },
                None => promoting(state, key, host, record, now, candidates.drop_first()),
            },
        }
    }
}

/// A daemon's record is taken into use.
pub open spec fn confirming(
    state: ServiceView,
    key: KeyView,
    host: Option<Seq<char>>,
    record: RecordView,
    id: Seq<char>,
    now: i64,
) -> Run<WorkspaceView> {
    let instance = daemon::key_instance(key);
    match owner_in(state.rows, key, host, record.id) {
        Some(row) => Run { state, result: Ok(row) },
        None => {
            let promoted = promoting(
                state,
                key,
                host,
                record,
                now,
                candidates_for(state.rows, instance, host, record),
            );
            match promoted.result {
                Err(failure) => Run { state: promoted.state, result: Err(failure) },
                Ok(Some(row)) => Run { state: promoted.state, result: Ok(row) },
                Ok(None) => match registry::with_workspace(
                    promoted.state.rows,
                    RowView {
                        workspace: row_for(record, host, instance, id, now),
                        used_by_client_at: Some(now),
                    },
                ) {
                    None => Run {
                        state: promoted.state,
                        result: Err(
                            sessions::while_doing(
                                "recording workspace "@,
                                record.id,
                                sessions::record_conflict().message(),
                            ),
                        ),
                    },
                    Some(rows) => Run {
                        state: ServiceView { rows, ..promoted.state },
                        result: match owner_in(rows, key, host, record.id) {
                            Some(row) => Ok(row),
                            None => Err(
                                FailureView::Message(
                                    "re-reading the row recorded for workspace "@ + record.id,
                                ),
                            ),
                        },
                    },
                },
            }
        },
    }
}

/// Clicking twice is not two workspaces: a record that has a row in use is that
/// row, and nothing is written.
pub proof fn law_confirming_again_changes_nothing(
    state: ServiceView,
    key: KeyView,
    host: Option<Seq<char>>,
    record: RecordView,
    id: Seq<char>,
    now: i64,
)
    requires
        owner_in(state.rows, key, host, record.id) is Some,
    ensures
        confirming(state, key, host, record, id, now) == (Run {
            state,
            result: Ok(owner_in(state.rows, key, host, record.id)->0),
        }),
{
}

/// The record of a listing with an id.
pub open spec fn record_of(held: Seq<RecordView>, wire_id: Seq<char>) -> Option<RecordView> {
    enrich::first_where(held, |record: RecordView| record.id == wire_id)
}

/// The daemon a host's backend last reached; one that has not reached any is
/// asked for a listing.
pub open spec fn expecting(
    state: ServiceView,
    later: ServiceView,
    host: Option<Seq<char>>,
) -> Run<Option<Seq<char>>> {
    let (asked, known) = replay::instance(state, later, host);
    match known {
        Some(instance) => Run { state: asked, result: Ok(Some(instance)) },
        None => {
            let (listed, reply) = replay::list_workspaces(asked, later, host);
            Run {
                state: listed,
                result: match reply {
                    Ok((instance, _)) => Ok(instance),
                    Err(cause) => Err(
                        sessions::while_doing(
                            "listing the workspaces on "@,
                            daemon::host_name(host),
                            cause,
                        ),
                    ),
                },
            }
        },
    }
}

/// A record the user picked is looked for in a fresh listing and taken into use.
pub open spec fn confirming_listed(
    state: ServiceView,
    later: ServiceView,
    host: Option<Seq<char>>,
    instance: Option<Seq<char>>,
    items: Seq<RecordView>,
    wire_id: Seq<char>,
    id: Seq<char>,
    now: i64,
) -> Run<WorkspaceView> {
    let key = daemon::key_of(instance, host);
    let known = registry::listing(state.rows, registry::used_rows());
    let (enriched, records) = enrich::enriching(
        state,
        later,
        host,
        key,
        instance,
        known,
        snapshot::remembered(state.discoveries, key),
        items,
    );
    match records {
        Err(failure) => Run { state: enriched, result: Err(failure) },
        Ok(held) => match record_of(held, wire_id) {
            None => Run {
                state: ServiceView {
                    discoveries: enriched.discoveries.insert(
                        key,
                        snapshot::without_record(held, wire_id),
                    ),
                    ..enriched
                },
                result: Err(FailureView::Gone { remote_host: host, wire_id }),
            },
            Some(record) => confirming(
                ServiceView { discoveries: enriched.discoveries.insert(key, held), ..enriched },
                key,
                host,
                record,
                id,
                now,
            ),
        },
    }
}

/// A discovery is opened: listed under a daemon that does not change, a number
/// of times at most.
pub open spec fn opening_discovery(
    state: ServiceView,
    later: ServiceView,
    host: Option<Seq<char>>,
    wire_id: Seq<char>,
    id: Seq<char>,
    now: i64,
    tries: nat,
) -> Run<WorkspaceView>
    decreases tries,
{
    if tries == 0 {
        Run {
            state,
            result: Err(
                FailureView::Message(
                    "the daemon identity on "@ + daemon::host_name(host)
                        + " kept changing while confirming workspace "@ + wire_id,
                ),
            ),
        }
    } else {
        let expected = expecting(state, later, host);
        match expected.result {
            Err(failure) => Run { state: expected.state, result: Err(failure) },
            Ok(named) => {
                let (listed, reply) = replay::list_workspaces(expected.state, later, host);
                match reply {
                    Err(cause) => Run {
                        state: listed,
                        result: Err(
                            sessions::while_doing(
                                "refreshing the workspaces on "@,
                                daemon::host_name(host),
                                cause,
                            ),
                        ),
                    },
                    Ok((instance, items)) => if instance == named {
                        confirming_listed(
                            listed,
                            later,
                            host,
                            instance,
                            items,
                            wire_id,
                            id,
                            now,
                        )
                    } else {
                        opening_discovery(
                            listed,
                            later,
                            host,
                            wire_id,
                            id,
                            now,
                            (tries - 1) as nat,
                        )
                    },
                }
            },
        }
    }
}

/// A discovery on a host is opened.
pub open spec fn confirming_discovery(
    state: ServiceView,
    later: ServiceView,
    host: Option<Seq<char>>,
    wire_id: Seq<char>,
    id: Seq<char>,
    now: i64,
) -> Run<WorkspaceView> {
    let (reached, connected) = replay::connect(state, later, host);
    match connected {
        Err(failure) => Run { state: reached, result: Err(failure) },
        Ok(()) => opening_discovery(reached, later, host, wire_id, id, now, 3),
    }
}

pub fn find_record<'a>(
    held: &'a Vec<BackendWorkspace>,
    wire_id: &str,
) -> (found: Option<&'a BackendWorkspace>)
    ensures
        found.deep_view() == record_of(held.deep_view(), wire_id@),
{
    let ghost all = held.deep_view();
    let ghost meets = |record: RecordView| record.id == wire_id@;
    let mut i: usize = 0;
    assert(all.skip(0) =~= all);
    while i < held.len()
        invariant
            i <= held.len(),
            all == held.deep_view(),
            meets == (|record: RecordView| record.id == wire_id@),
            enrich::first_where(all, meets) == enrich::first_where(all.skip(i as int), meets),
        decreases held.len() - i,
    {
        let record = &held[i];
        proof {
            assert(all.skip(i as int)[0] == record@);
            assert(all.skip(i as int).drop_first() =~= all.skip(i + 1));
        }
        if text::same_text(record.id.as_str(), wire_id) {
            return Some(record);
        }
        i = i + 1;
    }
    assert(all.skip(all.len() as int).len() == 0);
    None
}

impl<B: SessionBackend> WorkspaceLifecycleService<B> {
    fn find_owner(
        &self,
        daemon: &DaemonKey,
        host: Option<&str>,
        wire_id: &str,
    ) -> (owner: Option<AdeWorkspace>)
        requires
            self.wf(),
        ensures
            owner.deep_view() == owner_in(self@.rows, daemon@, host.deep_view(), wire_id@),
    {
        let rows = self.registry().confirmed_workspaces();
        let ghost all = rows.deep_view();
        let mut i: usize = 0;
        assert(all.skip(0) =~= all);
        while i < rows.len()
            invariant
                i <= rows.len(),
                all == rows.deep_view(),
                all == registry::listing(self@.rows, registry::used_rows()),
                first_owner(all, daemon@, host.deep_view(), wire_id@) == first_owner(
                    all.skip(i as int),
                    daemon@,
                    host.deep_view(),
                    wire_id@,
                ),
            decreases rows.len() - i,
        {
            proof {
                assert(all.skip(i as int)[0] == rows[i as int]@);
                assert(all.skip(i as int).drop_first() =~= all.skip(i + 1));
            }
            if daemon::row_is_on(&rows[i], daemon, host) && text::same_opt_text(
                text::borrowed(&rows[i].terminal_session_id),
                Some(wire_id),
            ) {
                return Some(rows[i].clone());
            }
            i = i + 1;
        }
        assert(all.skip(all.len() as int).len() == 0);
        None
    }

    fn list_candidates(
        &self,
        instance: Option<&str>,
        host: Option<&str>,
        record: &BackendWorkspace,
    ) -> (candidates: Vec<AdeWorkspace>)
        requires
            self.wf(),
        ensures
            candidates.deep_view() == candidates_for(
                self@.rows,
                instance.deep_view(),
                host.deep_view(),
                record@,
            ),
    {
        let listed = self.registry().promotion_candidates(instance);
        let ghost all = listed.deep_view();
        let ghost keep = enrich::mirror(instance.deep_view(), host.deep_view(), record@);
        let mut candidates: Vec<AdeWorkspace> = Vec::new();
        let mut i: usize = 0;
        assert(all.take(0).filter(keep) =~= Seq::<WorkspaceView>::empty()) by {
            reveal(Seq::filter);
        }
        while i < listed.len()
            invariant
                i <= listed.len(),
                all == listed.deep_view(),
                keep == enrich::mirror(instance.deep_view(), host.deep_view(), record@),
                candidates.deep_view() == all.take(i as int).filter(keep),
            decreases listed.len() - i,
        {
            let ghost before = candidates.deep_view();
            proof {
                reveal(Seq::filter);
                assert(all.take(i + 1).drop_last() =~= all.take(i as int));
                assert(all.take(i + 1).last() == listed[i as int]@);
            }
            if daemon::is_the_same_daemons_row(&listed[i], instance, host, record) {
                let row = listed[i].clone();
                candidates.push(row);
                assert(candidates.deep_view() =~= before.push(row@));
            }
            i = i + 1;
        }
        assert(all.take(all.len() as int) =~= all);
        candidates
    }

    fn promote(
        &mut self,
        daemon: &DaemonKey,
        host: Option<&str>,
        record: &BackendWorkspace,
        now: i64,
        candidates: &Vec<AdeWorkspace>,
        from: usize,
    ) -> (promoted: Result<Option<AdeWorkspace>, Failure>)
        requires
            old(self).wf(),
            from <= candidates.len(),
        ensures
            final(self).wf(),
            final(self).continues(old(self)),
            promoting(
                old(self)@,
                daemon@,
                host.deep_view(),
                record@,
                now,
                candidates.deep_view().skip(from as int),
            ) == (Run { state: final(self)@, result: service::told(promoted) }),
        decreases candidates.len() - from,
    {
        let ghost rest = candidates.deep_view().skip(from as int);
        if from == candidates.len() {
            return Ok(None);
        }
        let row = &candidates[from];
        proof {
            assert(rest[0] == row@);
            assert(rest.drop_first() =~= candidates.deep_view().skip(from + 1));
        }
        let instance = instance_of(daemon);
        match self.table().confirm_workspace(&row.id, host, instance, now) {
            Ok(true) => {
                let mut promoted = row.clone();
                promoted.remote_host = text::owned(host);
                promoted.daemon_id = text::owned(instance);
                promoted.last_opened_at = now;
                Ok(Some(promoted))
            },
            Ok(false) => match self.find_owner(daemon, host, record.id.as_str()) {
                Some(owner) => Ok(Some(owner)),
                None => self.promote(daemon, host, record, now, candidates, from + 1),
            },
            Err(_) => match self.find_owner(daemon, host, record.id.as_str()) {
                Some(owner) => Ok(Some(owner)),
                None => Err(
                    Failure::while_doing(
                        "confirming workspace ",
                        row.id.as_str(),
                        "another row already stands for this daemon record",
                    ),
                ),
            },
        }
    }

    /// Takes a daemon's record into use, under a fresh id where it needs a row.
    pub(crate) fn confirm_record(
        &mut self,
        daemon: &DaemonKey,
        host: Option<&str>,
        record: &BackendWorkspace,
        id: WorkspaceId,
        now: i64,
    ) -> (confirmed: Result<AdeWorkspace, Failure>)
        requires
            old(self).wf(),
        ensures
            final(self).wf(),
            final(self).continues(old(self)),
            confirming(old(self)@, daemon@, host.deep_view(), record@, id@, now) == (Run {
                state: final(self)@,
                result: service::told(confirmed),
            }),
    {
        match self.find_owner(daemon, host, record.id.as_str()) {
            Some(row) => {
                return Ok(row);
            },
            None => {},
        }
        let candidates = self.list_candidates(instance_of(daemon), host, record);
        assert(candidates.deep_view().skip(0) =~= candidates.deep_view());
        match self.promote(daemon, host, record, now, &candidates, 0) {
            Ok(Some(row)) => {
                return Ok(row);
            },
            Ok(None) => {},
            Err(failure) => {
                return Err(failure);
            },
        }
        let row = row_for_record(record, host, instance_of(daemon), id, now);
        match self.table().create_workspace(row, now) {
            Ok(()) => {},
            Err(_) => {
                return Err(
                    Failure::while_doing(
                        "recording workspace ",
                        record.id.as_str(),
                        "another row already stands for this daemon record",
                    ),
                );
            },
        }
        match self.find_owner(daemon, host, record.id.as_str()) {
            Some(row) => Ok(row),
            None => Err(
                Failure::about("re-reading the row recorded for workspace ", record.id.as_str()),
            ),
        }
    }

    /// The daemon the next listing of a host is expected from.
    pub(crate) fn expected_daemon(
        &mut self,
        at: usize,
        host: Option<&str>,
    ) -> (expected: Result<Option<String>, Failure>)
        requires
            old(self).wf(),
            at < old(self)@.hosts.len(),
            old(self)@.hosts[at as int] == host.deep_view(),
        ensures
            final(self).wf(),
            final(self).continues(old(self)),
            final(self)@ == (ServiceView { log: final(self)@.log, ..old(self)@ }),
            old(self)@.log.is_prefix_of(final(self)@.log),
            expecting(old(self)@, final(self)@, host.deep_view()) == (Run {
                state: final(self)@,
                result: service::told(expected),
            }),
    {
        match self.ask_instance(at) {
            Some(instance) => Ok(Some(instance)),
            None => match self.ask_workspaces(at) {
                Ok(listing) => Ok(listing.daemon_id),
                Err(cause) => Err(
                    Failure::while_doing(
                        "listing the workspaces on ",
                        daemon::host_label(host).as_str(),
                        cause.as_str(),
                    ),
                ),
            },
        }
    }

    fn confirm_listed(
        &mut self,
        at: usize,
        host: Option<&str>,
        instance: Option<String>,
        items: &Vec<BackendWorkspace>,
        wire_id: &str,
        id: WorkspaceId,
        now: i64,
    ) -> (confirmed: Result<AdeWorkspace, Failure>)
        requires
            old(self).wf(),
            at < old(self)@.hosts.len(),
            old(self)@.hosts[at as int] == host.deep_view(),
        ensures
            final(self).wf(),
            final(self).continues(old(self)),
            old(self)@.log.is_prefix_of(final(self)@.log),
            final(self)@.connects == old(self)@.connects,
            confirming_listed(
                old(self)@,
                final(self)@,
                host.deep_view(),
                text::opt(instance),
                items.deep_view(),
                wire_id@,
                id@,
                now,
            ) == (Run { state: final(self)@, result: service::told(confirmed) }),
    {
        let key = daemon_key(text::borrowed(&instance), host);
        let known = self.registry().confirmed_workspaces();
        let enriched = self.enrich_workspace_project_scopes(
            at,
            &key,
            text::borrowed(&instance),
            host,
            &known,
            items,
        );
        let ghost one = self@;
        proof {
            enrich::lemma_enriching_settled(
                old(self)@,
                one,
                one,
                host.deep_view(),
                key@,
                text::opt(instance),
                known.deep_view(),
                snapshot::remembered(old(self)@.discoveries, key@),
                items.deep_view(),
            );
        }
        let held = match enriched {
            Ok(held) => held,
            Err(failure) => {
                return Err(failure);
            },
        };
        self.snapshots().remember(&key, &held);
        match find_record(&held, wire_id) {
            None => {
                self.snapshots().forget(&key, wire_id);
                proof {
                    lemma_same_log_same_enrichment(
                        old(self)@,
                        one,
                        self@,
                        host.deep_view(),
                        key@,
                        text::opt(instance),
                        known.deep_view(),
                        snapshot::remembered(old(self)@.discoveries, key@),
                        items.deep_view(),
                    );
                    assert(one.discoveries.insert(key@, held.deep_view()).insert(
                        key@,
                        snapshot::without_record(held.deep_view(), wire_id@),
                    ) =~= one.discoveries.insert(
                        key@,
                        snapshot::without_record(held.deep_view(), wire_id@),
                    ));
                }
                Err(
                    Failure::Gone(
                        entry::WorkspaceGone {
                            remote_host: text::owned(host),
                            wire_id: wire_id.to_owned(),
                        },
                    ),
                )
            },
            Some(record) => {
                let confirmed = self.confirm_record(&key, host, record, id, now);
                proof {
                    lemma_confirming_asks_nothing(
                        ServiceView {
                            discoveries: one.discoveries.insert(key@, held.deep_view()),
                            ..one
                        },
                        key@,
                        host.deep_view(),
                        record@,
                        id@,
                        now,
                    );
                    lemma_same_log_same_enrichment(
                        old(self)@,
                        one,
                        self@,
                        host.deep_view(),
                        key@,
                        text::opt(instance),
                        known.deep_view(),
                        snapshot::remembered(old(self)@.discoveries, key@),
                        items.deep_view(),
                    );
                }
                confirmed
            },
        }
    }

    fn open_discovery(
        &mut self,
        at: usize,
        host: Option<&str>,
        wire_id: &str,
        id: WorkspaceId,
        now: i64,
        tries: u8,
    ) -> (confirmed: Result<AdeWorkspace, Failure>)
        requires
            old(self).wf(),
            at < old(self)@.hosts.len(),
            old(self)@.hosts[at as int] == host.deep_view(),
        ensures
            final(self).wf(),
            final(self).continues(old(self)),
            old(self)@.log.is_prefix_of(final(self)@.log),
            final(self)@.connects == old(self)@.connects,
            opening_discovery(
                old(self)@,
                final(self)@,
                host.deep_view(),
                wire_id@,
                id@,
                now,
                tries as nat,
            ) == (Run { state: final(self)@, result: service::told(confirmed) }),
        decreases tries,
    {
        if tries == 0 {
            let label = daemon::host_label(host);
            return Err(
                Failure::about(
                    text::joined3(
                        "the daemon identity on ",
                        label.as_str(),
                        " kept changing while confirming workspace ",
                    ).as_str(),
                    wire_id,
                ),
            );
        }
        let named = match self.expected_daemon(at, host) {
            Ok(named) => named,
            Err(failure) => {
                return Err(failure);
            },
        };
        let ghost expected = self@;
        let listing = match self.ask_workspaces(at) {
            Ok(listing) => listing,
            Err(cause) => {
                return Err(
                    Failure::while_doing(
                        "refreshing the workspaces on ",
                        daemon::host_label(host).as_str(),
                        cause.as_str(),
                    ),
                );
            },
        };
        let ghost listed = self@;
        if text::same_opt_text(text::borrowed(&listing.daemon_id), text::borrowed(&named)) {
            let confirmed = self.confirm_listed(
                at,
                host,
                listing.daemon_id,
                &listing.items,
                wire_id,
                id,
                now,
            );
            proof {
                let n = old(self)@.log.len() as int;
                assert(self@.log[n] == expected.log[n]);
                if expected.log.len() > n + 1 {
                    assert(self@.log[n + 1] == expected.log[n + 1]);
                }
                assert(expecting(old(self)@, self@, host.deep_view()) == expecting(
                    old(self)@,
                    expected,
                    host.deep_view(),
                ));
            }
            confirmed
        } else {
            let confirmed = self.open_discovery(at, host, wire_id, id, now, tries - 1);
            proof {
                let n = old(self)@.log.len() as int;
                assert(self@.log[n] == expected.log[n]);
                if expected.log.len() > n + 1 {
                    assert(self@.log[n + 1] == expected.log[n + 1]);
                }
                assert(expecting(old(self)@, self@, host.deep_view()) == expecting(
                    old(self)@,
                    expected,
                    host.deep_view(),
                ));
            }
            confirmed
        }
    }

    /// Opens a discovered workspace: confirms the record the user picked and
    /// answers with the row that now addresses it.
    ///
    /// The record is looked for in a fresh listing, so one removed since comes
    /// back as gone and leaves the snapshot.
    pub fn confirm_discovered(
        &mut self,
        host: Option<&str>,
        wire_id: &str,
        id: WorkspaceId,
        now: i64,
    ) -> (confirmed: Result<AdeWorkspace, Failure>)
        requires
            old(self).wf(),
        ensures
            final(self).wf(),
            final(self).continues(old(self)),
            old(self)@.log.is_prefix_of(final(self)@.log),
            old(self)@.connects.is_prefix_of(final(self)@.connects),
            confirming_discovery(
                old(self)@,
                final(self)@,
                host.deep_view(),
                wire_id@,
                id@,
                now,
            ) == (Run { state: final(self)@, result: service::told(confirmed) }),
    {
        let at = match self.backend_for_host(host) {
            Ok(at) => at,
            Err(failure) => {
                return Err(failure);
            },
        };
        self.open_discovery(at, host, wire_id, id, now, 3)
    }
}

proof fn lemma_same_log_same_enrichment(
    state: ServiceView,
    now: ServiceView,
    later: ServiceView,
    host: Option<Seq<char>>,
    key: KeyView,
    instance: Option<Seq<char>>,
    known: Seq<WorkspaceView>,
    cached: Seq<RecordView>,
    records: Seq<RecordView>,
)
    requires
        enrich::enriching(state, now, host, key, instance, known, cached, records).0 == now,
        now.log == later.log,
    ensures
        enrich::enriching(state, now, host, key, instance, known, cached, records)
            == enrich::enriching(state, later, host, key, instance, known, cached, records),
{
    enrich::lemma_enriching_settled(
        state,
        now,
        later,
        host,
        key,
        instance,
        known,
        cached,
        records,
    );
}

proof fn lemma_promoting_asks_nothing(
    state: ServiceView,
    key: KeyView,
    host: Option<Seq<char>>,
    record: RecordView,
    now: i64,
    candidates: Seq<WorkspaceView>,
)
    ensures
        ({
            let after = promoting(state, key, host, record, now, candidates).state;
            after == (ServiceView { rows: after.rows, ..state })
        }),
    decreases candidates.len(),
{
    if candidates.len() > 0 {
        lemma_promoting_asks_nothing(state, key, host, record, now, candidates.drop_first());
    }
}

/// Taking a record into use asks no backend anything: only rows change.
pub proof fn lemma_confirming_asks_nothing(
    state: ServiceView,
    key: KeyView,
    host: Option<Seq<char>>,
    record: RecordView,
    id: Seq<char>,
    now: i64,
)
    ensures
        ({
            let after = confirming(state, key, host, record, id, now).state;
            after == (ServiceView { rows: after.rows, ..state })
        }),
{
    lemma_promoting_asks_nothing(
        state,
        key,
        host,
        record,
        now,
        candidates_for(state.rows, daemon::key_instance(key), host, record),
    );
}

proof fn lemma_confirming_listed_settled(
    state: ServiceView,
    now: ServiceView,
    later: ServiceView,
    host: Option<Seq<char>>,
    instance: Option<Seq<char>>,
    items: Seq<RecordView>,
    wire_id: Seq<char>,
    id: Seq<char>,
    time: i64,
)
    requires
        confirming_listed(
            state,
            now,
            host,
            instance,
            items,
            wire_id,
            id,
            time,
        ).state.log.is_prefix_of(now.log),
        now.log.is_prefix_of(later.log),
    ensures
        confirming_listed(state, now, host, instance, items, wire_id, id, time)
            == confirming_listed(state, later, host, instance, items, wire_id, id, time),
        state.log.is_prefix_of(
            confirming_listed(
                state,
                now,
                host,
                instance,
                items,
                wire_id,
                id,
                time,
            ).state.log,
        ),
{
    let key = daemon::key_of(instance, host);
    let known = registry::listing(state.rows, registry::used_rows());
    let cached = snapshot::remembered(state.discoveries, key);
    let (enriched, records) = enrich::enriching(
        state,
        now,
        host,
        key,
        instance,
        known,
        cached,
        items,
    );
    if let Ok(held) = records {
        if let Some(record) = record_of(held, wire_id) {
            lemma_confirming_asks_nothing(
                ServiceView { discoveries: enriched.discoveries.insert(key, held), ..enriched },
                key,
                host,
                record,
                id,
                time,
            );
        }
    }
    enrich::lemma_enriching_settled(
        state,
        now,
        later,
        host,
        key,
        instance,
        known,
        cached,
        items,
    );
}

proof fn lemma_confirming_listed_grows(
    state: ServiceView,
    later: ServiceView,
    host: Option<Seq<char>>,
    instance: Option<Seq<char>>,
    items: Seq<RecordView>,
    wire_id: Seq<char>,
    id: Seq<char>,
    time: i64,
)
    ensures
        state.log.is_prefix_of(
            confirming_listed(
                state,
                later,
                host,
                instance,
                items,
                wire_id,
                id,
                time,
            ).state.log,
        ),
        confirming_listed(state, later, host, instance, items, wire_id, id, time).state.connects
            == state.connects,
{
    let key = daemon::key_of(instance, host);
    let known = registry::listing(state.rows, registry::used_rows());
    let cached = snapshot::remembered(state.discoveries, key);
    let (enriched, records) = enrich::enriching(
        state,
        later,
        host,
        key,
        instance,
        known,
        cached,
        items,
    );
    enrich::lemma_enriching_grows(state, later, host, key, instance, known, cached, items);
    if let Ok(held) = records {
        if let Some(record) = record_of(held, wire_id) {
            lemma_confirming_asks_nothing(
                ServiceView { discoveries: enriched.discoveries.insert(key, held), ..enriched },
                key,
                host,
                record,
                id,
                time,
            );
        }
    }
}

/// Opening a discovery only adds to the history, and makes no backend.
pub proof fn lemma_opening_discovery_grows(
    state: ServiceView,
    later: ServiceView,
    host: Option<Seq<char>>,
    wire_id: Seq<char>,
    id: Seq<char>,
    time: i64,
    tries: nat,
)
    ensures
        state.log.is_prefix_of(
            opening_discovery(state, later, host, wire_id, id, time, tries).state.log,
        ),
        opening_discovery(state, later, host, wire_id, id, time, tries).state.connects
            == state.connects,
    decreases tries,
{
    if tries > 0 {
        let expected = expecting(state, later, host);
        let (listed, reply) = replay::list_workspaces(expected.state, later, host);
        if let Ok((instance, items)) = reply {
            lemma_confirming_listed_grows(
                listed,
                later,
                host,
                instance,
                items,
                wire_id,
                id,
                time,
            );
        }
        lemma_opening_discovery_grows(listed, later, host, wire_id, id, time, (tries - 1) as nat);
    }
}

/// Answers that were given stay the answers as the history goes on.
pub proof fn lemma_opening_discovery_settled(
    state: ServiceView,
    now: ServiceView,
    later: ServiceView,
    host: Option<Seq<char>>,
    wire_id: Seq<char>,
    id: Seq<char>,
    time: i64,
    tries: nat,
)
    requires
        opening_discovery(state, now, host, wire_id, id, time, tries).state.log.is_prefix_of(
            now.log,
        ),
        now.log.is_prefix_of(later.log),
    ensures
        opening_discovery(state, now, host, wire_id, id, time, tries) == opening_discovery(
            state,
            later,
            host,
            wire_id,
            id,
            time,
            tries,
        ),
    decreases tries,
{
    if tries > 0 {
        let n = state.log.len() as int;
        let whole = opening_discovery(state, now, host, wire_id, id, time, tries);
        let expected = expecting(state, now, host);
        let (listed, reply) = replay::list_workspaces(expected.state, now, host);
        if let Ok((instance, items)) = reply {
            lemma_confirming_listed_grows(
                listed,
                now,
                host,
                instance,
                items,
                wire_id,
                id,
                time,
            );
        }
        lemma_opening_discovery_grows(listed, now, host, wire_id, id, time, (tries - 1) as nat);
        assert(expected.state.log.is_prefix_of(whole.state.log));
        assert(now.log[n] == later.log[n]);
        if expected.state.log.len() > n + 1 {
            assert(now.log[n + 1] == later.log[n + 1]);
        }
        assert(expecting(state, later, host) == expected);
        if let Ok(named) = expected.result {
            let m = expected.state.log.len() as int;
            assert(listed.log.is_prefix_of(whole.state.log));
            assert(now.log[m] == later.log[m]);
            if let Ok((instance, items)) = reply {
                if instance == named {
                    lemma_confirming_listed_settled(
                        listed,
                        now,
                        later,
                        host,
                        instance,
                        items,
                        wire_id,
                        id,
                        time,
                    );
                } else {
                    lemma_opening_discovery_settled(
                        listed,
                        now,
                        later,
                        host,
                        wire_id,
                        id,
                        time,
                        (tries - 1) as nat,
                    );
                }
            }
        }
    }
}

} // verus!
