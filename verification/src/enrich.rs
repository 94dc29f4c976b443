//! Giving the records of a listing their project.
//!
//! A row of this client, the record itself, the last listing and the host's
//! repository are consulted in that order. Where the daemon's record falls
//! short of what is found, the daemon is told; a write that fails is tried
//! again on the next listing.

use crate::daemon;
use crate::daemon::{DaemonKey, KeyView};
use crate::entry;
use crate::entry::{next_project_scope_rev, Failure, FailureView};
use crate::paths;
use crate::replay;
use crate::service;
use crate::service::{ServiceView, WorkspaceLifecycleService};
use crate::session_backend::{BackendWorkspace, RecordView, SessionBackend};
use crate::snapshot;
use crate::text;
use crate::workspace;
use crate::workspace::{AdeWorkspace, WorkspaceView};
use vstd::prelude::*;
use vstd::string::*;

verus! {

/// The last of some rows that meets a condition.
pub open spec fn last_where(
    rows: Seq<WorkspaceView>,
    meets: spec_fn(WorkspaceView) -> bool,
) -> Option<WorkspaceView>
    decreases rows.len(),
{
    if rows.len() == 0 {
        None
    } else if meets(rows.last()) {
        Some(rows.last())
    } else {
        last_where(rows.drop_last(), meets)
    }
}

/// The row to go by among those that meet a condition: one that names its
/// daemon before one that does not, and a later one before an earlier.
pub open spec fn preferred(
    rows: Seq<WorkspaceView>,
    meets: spec_fn(WorkspaceView) -> bool,
) -> Option<WorkspaceView> {
    match last_where(rows, |row: WorkspaceView| meets(row) && row.daemon_id is Some) {
        Some(row) => Some(row),
        None => last_where(rows, meets),
    }
}

/// The condition of standing for a record with a project of its own.
pub open spec fn scoped_mirror(
    instance: Option<Seq<char>>,
    host: Option<Seq<char>>,
    record: RecordView,
) -> spec_fn(WorkspaceView) -> bool {
    |row: WorkspaceView|
        daemon::mirrors(row, instance, host, record) && row.project_identity is Some
}

/// The condition of standing for a record.
pub open spec fn mirror(
    instance: Option<Seq<char>>,
    host: Option<Seq<char>>,
    record: RecordView,
) -> spec_fn(WorkspaceView) -> bool {
    |row: WorkspaceView| daemon::mirrors(row, instance, host, record)
}

/// Whether a record has the project of a row.
pub open spec fn scope_matches(record: RecordView, row: WorkspaceView) -> bool {
    &&& record.project_id == Some(row.project_id)
    &&& record.project_identity == row.project_identity
    &&& paths::is_same(record.project_root, row.repository_path)
}

/// Whether a row's project prevails over the record's: the record has none, or
/// an older one, or another one of the same age.
pub open spec fn local_scope_wins(record: RecordView, row: WorkspaceView) -> bool {
    ||| record.project_identity is None
    ||| record.project_scope_rev < row.project_scope_rev
    ||| record.project_scope_rev == row.project_scope_rev && !scope_matches(record, row)
}

/// The first record of a listing that meets a condition.
pub open spec fn first_where(
    records: Seq<RecordView>,
    meets: spec_fn(RecordView) -> bool,
) -> Option<RecordView>
    decreases records.len(),
{
    if records.len() == 0 {
        None
    } else if meets(records[0]) {
        Some(records[0])
    } else {
        first_where(records.drop_first(), meets)
    }
}

/// The condition of already carrying a row's project, at its revision or later.
pub open spec fn carries(record: RecordView, row: WorkspaceView) -> spec_fn(RecordView) -> bool {
    |kept: RecordView|
        kept.id == record.id && kept.project_root == row.repository_path && kept.project_id == Some(
            row.project_id,
        ) && kept.project_identity == row.project_identity && kept.project_scope_rev
            >= row.project_scope_rev
}

/// The condition of being the record as it was listed last.
pub open spec fn same_checkout(record: RecordView) -> spec_fn(RecordView) -> bool {
    |kept: RecordView| kept.id == record.id && kept.project_root == record.project_root
}

/// A daemon is told a record's project. A failure is noted for the next
/// listing, and a success takes the note away.
pub open spec fn persisting(
    state: ServiceView,
    later: ServiceView,
    host: Option<Seq<char>>,
    key: KeyView,
    instance: Option<Seq<char>>,
    record: RecordView,
    project_id: Seq<char>,
    project_identity: Seq<char>,
    root: Seq<char>,
    minimum: u64,
) -> (ServiceView, Option<u64>) {
    let (asked, reply) = replay::update_scope(
        state,
        later,
        host,
        record.id,
        project_id,
        project_identity,
        Some(root),
        Some(minimum),
        instance,
    );
    let note = snapshot::retry_key(key, record);
    match reply {
        Ok(updated) => (ServiceView { retries: asked.retries.remove(note), ..asked }, updated),
        Err(_) => (ServiceView { retries: asked.retries.insert(note), ..asked }, None),
    }
}

/// One record is given its project.
pub open spec fn enriching_one(
    state: ServiceView,
    later: ServiceView,
    host: Option<Seq<char>>,
    key: KeyView,
    instance: Option<Seq<char>>,
    known: Seq<WorkspaceView>,
    cached: Seq<RecordView>,
    record: RecordView,
) -> (ServiceView, Result<RecordView, FailureView>) {
    match preferred(known, scoped_mirror(instance, host, record)) {
        Some(row) if local_scope_wins(record, row) => enriching_from_row(
            state,
            later,
            host,
            key,
            instance,
            cached,
            record,
            row,
        ),
        _ => match record.project_identity {
            Some(identity) => if record.project_id is None {
                enriching_at(
                    state,
                    later,
                    host,
                    key,
                    instance,
                    record,
                    identity,
                )
            } else {
                (
                    ServiceView {
                        retries: state.retries.remove(snapshot::retry_key(key, record)),
                        ..state
                    },
                    Ok(record),
                )
            },
            None => match first_where(cached, same_checkout(record)) {
                Some(kept) if kept.project_identity is Some => enriching_from_cache(
                    state,
                    later,
                    host,
                    key,
                    instance,
                    record,
                    kept,
                ),
                _ => {
                    let (asked, resolved) = replay::resolve(
                        state,
                        later,
                        host,
                        record.project_root,
                    );
                    match resolved {
                        Ok((_, identity)) if identity.len() > 0 => enriching_at(
                            asked,
                            later,
                            host,
                            key,
                            instance,
                            record,
                            identity,
                        ),
                        _ => (asked, Ok(record)),
                    }
                },
            },
        },
    }
}

/// A record takes the project of this client's row. The daemon is told, unless
/// the last listing shows that it already was.
pub open spec fn enriching_from_row(
    state: ServiceView,
    later: ServiceView,
    host: Option<Seq<char>>,
    key: KeyView,
    instance: Option<Seq<char>>,
    cached: Seq<RecordView>,
    record: RecordView,
    row: WorkspaceView,
) -> (ServiceView, Result<RecordView, FailureView>) {
    let identity = row.project_identity->0;
    let already = first_where(cached, carries(record, row));
    let (after, rev) = if already is Some && !state.retries.contains(
        snapshot::retry_key(key, record),
    ) {
        (state, already->0.project_scope_rev)
    } else {
        let (told, answer) = persisting(
            state,
            later,
            host,
            key,
            instance,
            record,
            row.project_id,
            identity,
            row.repository_path,
            row.project_scope_rev,
        );
        (
            told,
            match answer {
                Some(rev) => rev,
                None => row.project_scope_rev,
            },
        )
    };
    (
        after,
        Ok(
            RecordView {
                project_id: Some(row.project_id),
                project_identity: Some(identity),
                project_root: row.repository_path,
                project_scope_rev: rev,
                ..record
            },
        ),
    )
}

/// A record takes an identity found for it, with the label that follows from
/// it, one revision on.
pub open spec fn enriching_at(
    state: ServiceView,
    later: ServiceView,
    host: Option<Seq<char>>,
    key: KeyView,
    instance: Option<Seq<char>>,
    record: RecordView,
    identity: Seq<char>,
) -> (ServiceView, Result<RecordView, FailureView>) {
    match entry::next_rev(record.project_scope_rev) {
        Err(failure) => (state, Err(failure)),
        Ok(fallback) => {
            let project_id = workspace::path_project_id(identity);
            let (told, answer) = persisting(
                state,
                later,
                host,
                key,
                instance,
                record,
                project_id,
                identity,
                record.project_root,
                fallback,
            );
            (
                told,
                Ok(
                    RecordView {
                        project_id: Some(project_id),
                        project_identity: Some(identity),
                        project_scope_rev: match answer {
                            Some(rev) => rev,
                            None => fallback,
                        },
                        ..record
                    },
                ),
            )
        },
    }
}

/// A record takes the project it had in the last listing; a write that failed
/// then is tried again.
pub open spec fn enriching_from_cache(
    state: ServiceView,
    later: ServiceView,
    host: Option<Seq<char>>,
    key: KeyView,
    instance: Option<Seq<char>>,
    record: RecordView,
    kept: RecordView,
) -> (ServiceView, Result<RecordView, FailureView>) {
    let identity = kept.project_identity->0;
    let project_id = match kept.project_id {
        Some(project_id) => project_id,
        None => workspace::path_project_id(identity),
    };
    let (after, answer) = if state.retries.contains(snapshot::retry_key(key, record)) {
        persisting(
            state,
            later,
            host,
            key,
            instance,
            record,
            project_id,
            identity,
            record.project_root,
            kept.project_scope_rev,
        )
    } else {
        (state, None)
    };
    (
        after,
        Ok(
            RecordView {
                project_id: Some(project_id),
                project_identity: Some(identity),
                project_scope_rev: match answer {
                    Some(rev) => rev,
                    None => kept.project_scope_rev,
                },
                ..record
            },
        ),
    )
}

/// Records are given their project in turn, up to the first failure.
pub open spec fn enriching(
    state: ServiceView,
    later: ServiceView,
    host: Option<Seq<char>>,
    key: KeyView,
    instance: Option<Seq<char>>,
    known: Seq<WorkspaceView>,
    cached: Seq<RecordView>,
    records: Seq<RecordView>,
) -> (ServiceView, Result<Seq<RecordView>, FailureView>)
    decreases records.len(),
{
    if records.len() == 0 {
        (state, Ok(Seq::empty()))
    } else {
        let (before, result) = enriching(
            state,
            later,
            host,
            key,
            instance,
            known,
            cached,
            records.drop_last(),
        );
        match result {
            Err(failure) => (before, Err(failure)),
            Ok(done) => {
                let (after, one) = enriching_one(
                    before,
                    later,
                    host,
                    key,
                    instance,
                    known,
                    cached,
                    records.last(),
                );
                (
                    after,
                    match one {
                        Ok(record) => Ok(done.push(record)),
                        Err(failure) => Err(failure),
                    },
                )
            },
        }
    }
}

/// Giving a record its project leaves its id, its name and its age alone, and a
/// project once known is not lost.
pub proof fn law_enrichment_keeps_the_record(
    state: ServiceView,
    later: ServiceView,
    host: Option<Seq<char>>,
    key: KeyView,
    instance: Option<Seq<char>>,
    known: Seq<WorkspaceView>,
    cached: Seq<RecordView>,
    record: RecordView,
)
    ensures
        enriching_one(state, later, host, key, instance, known, cached, record).1 matches Ok(after)
            ==> after.id == record.id && after.name == record.name && after.created_at
            == record.created_at && (record.project_identity is Some ==> after.project_identity
            is Some),
{
}

/// An authoritative project is never replaced by a lookup of the repository: a
/// record that this client's row or the daemon itself gives a project is not
/// resolved.
pub proof fn law_a_known_project_is_not_looked_up(
    state: ServiceView,
    later: ServiceView,
    host: Option<Seq<char>>,
    key: KeyView,
    instance: Option<Seq<char>>,
    known: Seq<WorkspaceView>,
    cached: Seq<RecordView>,
    record: RecordView,
    k: int,
)
    requires
        record.project_identity is Some || preferred(
            known,
            scoped_mirror(instance, host, record),
        ) is Some,
        state.log.len() <= k < enriching_one(
            state,
            later,
            host,
            key,
            instance,
            known,
            cached,
            record,
        ).0.log.len(),
    ensures
        enriching_one(state, later, host, key, instance, known, cached, record).0.log[k]
            is UpdateScope,
{
}

/// Listing a host touches no row and makes no backend.
pub proof fn lemma_enriching_one_frame(
    state: ServiceView,
    later: ServiceView,
    host: Option<Seq<char>>,
    key: KeyView,
    instance: Option<Seq<char>>,
    known: Seq<WorkspaceView>,
    cached: Seq<RecordView>,
    record: RecordView,
)
    ensures
        ({
            let after = enriching_one(
                state,
                later,
                host,
                key,
                instance,
                known,
                cached,
                record,
            ).0;
            &&& after.rows == state.rows
            &&& after.hosts == state.hosts
            &&& after.connects == state.connects
            &&& after.discoveries == state.discoveries
            &&& after.status_errors == state.status_errors
            &&& state.log.is_prefix_of(after.log)
            &&& after.log.len() <= state.log.len() + 2
        }),
{
}

proof fn lemma_enriching_one_settled(
    state: ServiceView,
    now: ServiceView,
    later: ServiceView,
    host: Option<Seq<char>>,
    key: KeyView,
    instance: Option<Seq<char>>,
    known: Seq<WorkspaceView>,
    cached: Seq<RecordView>,
    record: RecordView,
)
    requires
        enriching_one(
            state,
            now,
            host,
            key,
            instance,
            known,
            cached,
            record,
        ).0.log.is_prefix_of(now.log),
        now.log.is_prefix_of(later.log),
    ensures
        enriching_one(state, now, host, key, instance, known, cached, record) == enriching_one(
            state,
            later,
            host,
            key,
            instance,
            known,
            cached,
            record,
        ),
{
    let after = enriching_one(state, now, host, key, instance, known, cached, record).0;
    let n = state.log.len() as int;
    if after.log.len() > n {
        assert(now.log[n] == later.log[n]);
    }
    if after.log.len() > n + 1 {
        assert(now.log[n + 1] == later.log[n + 1]);
    }
}

/// Answers that were given stay the answers as the history goes on.
pub proof fn lemma_enriching_settled(
    state: ServiceView,
    now: ServiceView,
    later: ServiceView,
    host: Option<Seq<char>>,
    key: KeyView,
    instance: Option<Seq<char>>,
    known: Seq<WorkspaceView>,
    cached: Seq<RecordView>,
    records: Seq<RecordView>,
)
    requires
        enriching(
            state,
            now,
            host,
            key,
            instance,
            known,
            cached,
            records,
        ).0.log.is_prefix_of(now.log),
        now.log.is_prefix_of(later.log),
    ensures
        enriching(state, now, host, key, instance, known, cached, records) == enriching(
            state,
            later,
            host,
            key,
            instance,
            known,
            cached,
            records,
        ),
        ({
            let after = enriching(state, now, host, key, instance, known, cached, records).0;
            &&& after.rows == state.rows
            &&& after.hosts == state.hosts
            &&& after.connects == state.connects
            &&& after.discoveries == state.discoveries
            &&& after.status_errors == state.status_errors
            &&& state.log.is_prefix_of(after.log)
        }),
    decreases records.len(),
{
    if records.len() > 0 {
        let rest = records.drop_last();
        let (before, result) = enriching(state, now, host, key, instance, known, cached, rest);
        if result is Ok {
            lemma_enriching_one_frame(
                before,
                now,
                host,
                key,
                instance,
                known,
                cached,
                records.last(),
            );
            let whole = enriching(state, now, host, key, instance, known, cached, records).0;
            assert(before.log.is_prefix_of(whole.log));
            assert(before.log.is_prefix_of(now.log));
        }
        lemma_enriching_settled(state, now, later, host, key, instance, known, cached, rest);
        if result is Ok {
            lemma_enriching_one_settled(
                before,
                now,
                later,
                host,
                key,
                instance,
                known,
                cached,
                records.last(),
            );
        }
    }
}

/// A history only grows.
pub proof fn lemma_enriching_grows(
    state: ServiceView,
    later: ServiceView,
    host: Option<Seq<char>>,
    key: KeyView,
    instance: Option<Seq<char>>,
    known: Seq<WorkspaceView>,
    cached: Seq<RecordView>,
    records: Seq<RecordView>,
)
    ensures
        state.log.is_prefix_of(
            enriching(state, later, host, key, instance, known, cached, records).0.log,
        ),
        enriching(state, later, host, key, instance, known, cached, records).0.connects
            == state.connects,
    decreases records.len(),
{
    if records.len() > 0 {
        let rest = records.drop_last();
        lemma_enriching_grows(state, later, host, key, instance, known, cached, rest);
        let before = enriching(state, later, host, key, instance, known, cached, rest).0;
        lemma_enriching_one_frame(
            before,
            later,
            host,
            key,
            instance,
            known,
            cached,
            records.last(),
        );
    }
}

proof fn lemma_enriching_stops(
    state: ServiceView,
    later: ServiceView,
    host: Option<Seq<char>>,
    key: KeyView,
    instance: Option<Seq<char>>,
    known: Seq<WorkspaceView>,
    cached: Seq<RecordView>,
    records: Seq<RecordView>,
    upto: int,
)
    requires
        0 <= upto <= records.len(),
        enriching(
            state,
            later,
            host,
            key,
            instance,
            known,
            cached,
            records.take(upto),
        ).1 is Err,
    ensures
        enriching(state, later, host, key, instance, known, cached, records) == enriching(
            state,
            later,
            host,
            key,
            instance,
            known,
            cached,
            records.take(upto),
        ),
    decreases records.len(),
{
    if upto == records.len() {
        assert(records.take(upto) =~= records);
    } else {
        assert(records.drop_last().take(upto) =~= records.take(upto));
        lemma_enriching_stops(
            state,
            later,
            host,
            key,
            instance,
            known,
            cached,
            records.drop_last(),
            upto,
        );
    }
}

/// The row to go by for a record, among those with a project where `scoped`.
pub fn preferred_row<'a>(
    known: &'a Vec<AdeWorkspace>,
    instance: Option<&str>,
    host: Option<&str>,
    record: &BackendWorkspace,
    scoped: bool,
) -> (row: Option<&'a AdeWorkspace>)
    ensures
        row.deep_view() == preferred(
            known.deep_view(),
            if scoped {
                scoped_mirror(instance.deep_view(), host.deep_view(), record@)
            } else {
                mirror(instance.deep_view(), host.deep_view(), record@)
            },
        ),
{
    let ghost all = known.deep_view();
    let ghost meets = if scoped {
        scoped_mirror(instance.deep_view(), host.deep_view(), record@)
    } else {
        mirror(instance.deep_view(), host.deep_view(), record@)
    };
    let ghost named = |row: WorkspaceView| meets(row) && row.daemon_id is Some;
    let mut fallback: Option<&'a AdeWorkspace> = None;
    let mut i: usize = known.len();
    assert(all.take(all.len() as int) =~= all);
    while i > 0
        invariant
            i <= known.len(),
            all == known.deep_view(),
            meets == (if scoped {
                scoped_mirror(instance.deep_view(), host.deep_view(), record@)
            } else {
                mirror(instance.deep_view(), host.deep_view(), record@)
            }),
            named == (|row: WorkspaceView| meets(row) && row.daemon_id is Some),
            last_where(all, named) == last_where(all.take(i as int), named),
            last_where(all, meets) == (match fallback {
                Some(row) => Some(row@),
                None => last_where(all.take(i as int), meets),
            }),
        decreases i,
    {
        let row = &known[i - 1];
        proof {
            assert(all.take(i as int).last() == row@);
            assert(all.take(i as int).drop_last() =~= all.take(i - 1));
        }
        if daemon::is_the_same_daemons_row(row, instance, host, record) && (!scoped
            || row.project_identity.is_some()) {
            assert(meets(row@));
            if row.daemon_id.is_some() {
                assert(named(row@));
                return Some(row);
            }
            if fallback.is_none() {
                fallback = Some(row);
            }
        }
        i = i - 1;
    }
    fallback
}

fn find_carrier<'a>(
    cached: &'a Vec<BackendWorkspace>,
    record: &BackendWorkspace,
    row: &AdeWorkspace,
) -> (found: Option<&'a BackendWorkspace>)
    ensures
        found.deep_view() == first_where(cached.deep_view(), carries(record@, row@)),
{
    let ghost all = cached.deep_view();
    let ghost meets = carries(record@, row@);
    let mut i: usize = 0;
    assert(all.skip(0) =~= all);
    while i < cached.len()
        invariant
            i <= cached.len(),
            all == cached.deep_view(),
            meets == carries(record@, row@),
            first_where(all, meets) == first_where(all.skip(i as int), meets),
        decreases cached.len() - i,
    {
        let kept = &cached[i];
        proof {
            assert(all.skip(i as int)[0] == kept@);
            assert(all.skip(i as int).drop_first() =~= all.skip(i + 1));
        }
        if text::same_text(kept.id.as_str(), record.id.as_str()) && text::same_text(
            kept.project_root.as_str(),
            row.repository_path.as_str(),
        ) && text::same_opt_text(
            text::borrowed(&kept.project_id),
            Some(row.project_id.as_str()),
        ) && text::same_opt_text(
            text::borrowed(&kept.project_identity),
            text::borrowed(&row.project_identity),
        ) && kept.project_scope_rev >= row.project_scope_rev {
            return Some(kept);
        }
        i = i + 1;
    }
    assert(all.skip(all.len() as int).len() == 0);
    None
}

fn find_checkout<'a>(
    cached: &'a Vec<BackendWorkspace>,
    record: &BackendWorkspace,
) -> (found: Option<&'a BackendWorkspace>)
    ensures
        found.deep_view() == first_where(cached.deep_view(), same_checkout(record@)),
{
    let ghost all = cached.deep_view();
    let ghost meets = same_checkout(record@);
    let mut i: usize = 0;
    assert(all.skip(0) =~= all);
    while i < cached.len()
        invariant
            i <= cached.len(),
            all == cached.deep_view(),
            meets == same_checkout(record@),
            first_where(all, meets) == first_where(all.skip(i as int), meets),
        decreases cached.len() - i,
    {
        let kept = &cached[i];
        proof {
            assert(all.skip(i as int)[0] == kept@);
            assert(all.skip(i as int).drop_first() =~= all.skip(i + 1));
        }
        if text::same_text(kept.id.as_str(), record.id.as_str()) && text::same_text(
            kept.project_root.as_str(),
            record.project_root.as_str(),
        ) {
            return Some(kept);
        }
        i = i + 1;
    }
    assert(all.skip(all.len() as int).len() == 0);
    None
}

fn does_local_scope_win(record: &BackendWorkspace, row: &AdeWorkspace) -> (wins: bool)
    ensures
        wins == local_scope_wins(record@, row@),
{
    let matches = text::same_opt_text(
        text::borrowed(&record.project_id),
        Some(row.project_id.as_str()),
    ) && text::same_opt_text(
        text::borrowed(&record.project_identity),
        text::borrowed(&row.project_identity),
    ) && paths::same_path(record.project_root.as_str(), row.repository_path.as_str());
    record.project_identity.is_none() || record.project_scope_rev < row.project_scope_rev || (
    record.project_scope_rev == row.project_scope_rev && !matches)
}

impl<B: SessionBackend> WorkspaceLifecycleService<B> {
    pub(crate) fn scope_update_needs_retry(
        &self,
        daemon: &DaemonKey,
        workspace: &BackendWorkspace,
    ) -> (needed: bool)
        ensures
            needed == self@.retries.contains(snapshot::retry_key(daemon@, workspace@)),
    {
        self.kept_retries().holds(&snapshot::scope_update_key(daemon, workspace))
    }

    /// Tells a daemon a record's project.
    pub(crate) fn persist_discovery_scope(
        &mut self,
        at: usize,
        daemon: &DaemonKey,
        daemon_id: Option<&str>,
        workspace: &BackendWorkspace,
        project_id: &str,
        project_identity: &str,
        project_root: &str,
        minimum_scope_rev: u64,
    ) -> (answer: Option<u64>)
        requires
            old(self).wf(),
            at < old(self)@.hosts.len(),
        ensures
            final(self).wf(),
            final(self).continues(old(self)),
            persisting(
                old(self)@,
                final(self)@,
                old(self)@.hosts[at as int],
                daemon@,
                daemon_id.deep_view(),
                workspace@,
                project_id@,
                project_identity@,
                project_root@,
                minimum_scope_rev,
            ) == (final(self)@, answer),
    {
        let note = snapshot::scope_update_key(daemon, workspace);
        match self.ask_scope(
            at,
            workspace.id.as_str(),
            project_id,
            project_identity,
            Some(project_root),
            Some(minimum_scope_rev),
            daemon_id,
        ) {
            Ok(updated) => {
                self.scope_retries().remove(&note);
                updated
            },
            Err(_) => {
                self.scope_retries().insert(note);
                None
            },
        }
    }

    fn enrich_from_row(
        &mut self,
        at: usize,
        daemon: &DaemonKey,
        daemon_id: Option<&str>,
        cached: &Vec<BackendWorkspace>,
        record: BackendWorkspace,
        row: &AdeWorkspace,
    ) -> (enriched: BackendWorkspace)
        requires
            old(self).wf(),
            at < old(self)@.hosts.len(),
            row@.project_identity is Some,
        ensures
            final(self).wf(),
            final(self).continues(old(self)),
            enriching_from_row(
                old(self)@,
                final(self)@,
                old(self)@.hosts[at as int],
                daemon@,
                daemon_id.deep_view(),
                cached.deep_view(),
                record@,
                row@,
            ) == (final(self)@, Ok::<RecordView, FailureView>(enriched@)),
    {
        let identity = row.project_identity();
        let already = match find_carrier(cached, &record, row) {
            Some(kept) => Some(kept.project_scope_rev),
            None => None,
        };
        let retry = self.scope_update_needs_retry(daemon, &record);
        let rev: u64 = match already {
            Some(rev) if !retry => rev,
            _ => match self.persist_discovery_scope(
                at,
                daemon,
                daemon_id,
                &record,
                row.project_id.as_str(),
                identity.as_str(),
                row.repository_path.as_str(),
                row.project_scope_rev,
            ) {
                Some(rev) => rev,
                None => row.project_scope_rev,
            },
        };
        let mut enriched = record;
        enriched.project_id = Some(row.project_id.clone());
        enriched.project_identity = Some(identity);
        enriched.project_root = row.repository_path.clone();
        enriched.project_scope_rev = rev;
        enriched
    }

    fn enrich_at(
        &mut self,
        at: usize,
        daemon: &DaemonKey,
        daemon_id: Option<&str>,
        record: BackendWorkspace,
        identity: String,
    ) -> (enriched: Result<BackendWorkspace, Failure>)
        requires
            old(self).wf(),
            at < old(self)@.hosts.len(),
        ensures
            final(self).wf(),
            final(self).continues(old(self)),
            enriching_at(
                old(self)@,
                final(self)@,
                old(self)@.hosts[at as int],
                daemon@,
                daemon_id.deep_view(),
                record@,
                identity@,
            ) == (final(self)@, service::told(enriched)),
    {
        let fallback = match next_project_scope_rev(record.project_scope_rev) {
            Ok(fallback) => fallback,
            Err(failure) => {
                return Err(failure);
            },
        };
        let project_id = workspace::project_id_from_identity(identity.as_str());
        let rev: u64 = match self.persist_discovery_scope(
            at,
            daemon,
            daemon_id,
            &record,
            project_id.as_str(),
            identity.as_str(),
            record.project_root.as_str(),
            fallback,
        ) {
            Some(rev) => rev,
            None => fallback,
        };
        let mut enriched = record;
        enriched.project_id = Some(project_id);
        enriched.project_identity = Some(identity);
        enriched.project_scope_rev = rev;
        Ok(enriched)
    }

    fn enrich_from_cache(
        &mut self,
        at: usize,
        daemon: &DaemonKey,
        daemon_id: Option<&str>,
        record: BackendWorkspace,
        kept: &BackendWorkspace,
        identity: String,
    ) -> (enriched: BackendWorkspace)
        requires
            old(self).wf(),
            at < old(self)@.hosts.len(),
            kept@.project_identity == Some(identity@),
        ensures
            final(self).wf(),
            final(self).continues(old(self)),
            enriching_from_cache(
                old(self)@,
                final(self)@,
                old(self)@.hosts[at as int],
                daemon@,
                daemon_id.deep_view(),
                record@,
                kept@,
            ) == (final(self)@, Ok::<RecordView, FailureView>(enriched@)),
    {
        let project_id = match &kept.project_id {
            Some(project_id) => project_id.clone(),
            None => workspace::project_id_from_identity(identity.as_str()),
        };
        let mut rev: u64 = kept.project_scope_rev;
        if self.scope_update_needs_retry(daemon, &record) {
            match self.persist_discovery_scope(
                at,
                daemon,
                daemon_id,
                &record,
                project_id.as_str(),
                identity.as_str(),
                record.project_root.as_str(),
                kept.project_scope_rev,
            ) {
                Some(answer) => {
                    rev = answer;
                },
                None => {},
            }
        }
        let mut enriched = record;
        enriched.project_id = Some(project_id);
        enriched.project_identity = Some(identity);
        enriched.project_scope_rev = rev;
        enriched
    }

    fn enrich_one(
        &mut self,
        at: usize,
        daemon: &DaemonKey,
        daemon_id: Option<&str>,
        host: Option<&str>,
        known: &Vec<AdeWorkspace>,
        cached: &Vec<BackendWorkspace>,
        record: BackendWorkspace,
    ) -> (enriched: Result<BackendWorkspace, Failure>)
        requires
            old(self).wf(),
            at < old(self)@.hosts.len(),
            old(self)@.hosts[at as int] == host.deep_view(),
        ensures
            final(self).wf(),
            final(self).continues(old(self)),
            enriching_one(
                old(self)@,
                final(self)@,
                host.deep_view(),
                daemon@,
                daemon_id.deep_view(),
                known.deep_view(),
                cached.deep_view(),
                record@,
            ) == (final(self)@, service::told(enriched)),
    {
        match preferred_row(known, daemon_id, host, &record, true) {
            Some(row) => {
                assert(row@.project_identity is Some) by {
                    lemma_preferred_meets(
                        known.deep_view(),
                        scoped_mirror(daemon_id.deep_view(), host.deep_view(), record@),
                    );
                }
                if does_local_scope_win(&record, row) {
                    return Ok(self.enrich_from_row(at, daemon, daemon_id, cached, record, row));
                }
            },
            None => {},
        }
        match &record.project_identity {
            Some(identity) => {
                if record.project_id.is_none() {
                    let identity = identity.clone();
                    return self.enrich_at(at, daemon, daemon_id, record, identity);
                }
                let note = snapshot::scope_update_key(daemon, &record);
                self.scope_retries().remove(&note);
                return Ok(record);
            },
            None => {},
        }
        match find_checkout(cached, &record) {
            Some(kept) => match &kept.project_identity {
                Some(identity) => {
                    return Ok(
                        self.enrich_from_cache(
                            at,
                            daemon,
                            daemon_id,
                            record,
                            kept,
                            identity.clone(),
                        ),
                    );
                },
                None => {},
            },
            None => {},
        }
        match self.ask_repository(at, record.project_root.as_str()) {
            Ok((_, identity)) => {
                if identity.as_str().is_empty() {
                    Ok(record)
                } else {
                    self.enrich_at(at, daemon, daemon_id, record, identity)
                }
            },
            Err(_) => Ok(record),
        }
    }

    /// Gives each record of a listing its project.
    pub(crate) fn enrich_workspace_project_scopes(
        &mut self,
        at: usize,
        daemon: &DaemonKey,
        daemon_id: Option<&str>,
        host: Option<&str>,
        known: &Vec<AdeWorkspace>,
        records: &Vec<BackendWorkspace>,
    ) -> (enriched: Result<Vec<BackendWorkspace>, Failure>)
        requires
            old(self).wf(),
            at < old(self)@.hosts.len(),
            old(self)@.hosts[at as int] == host.deep_view(),
        ensures
            final(self).wf(),
            final(self).continues(old(self)),
            enriching(
                old(self)@,
                final(self)@,
                host.deep_view(),
                daemon@,
                daemon_id.deep_view(),
                known.deep_view(),
                snapshot::remembered(old(self)@.discoveries, daemon@),
                records.deep_view(),
            ) == (final(self)@, service::told(enriched)),
    {
        let cached = self.kept_snapshots().recall(daemon);
        let ghost all = records.deep_view();
        let ghost kept = cached.deep_view();
        let mut done: Vec<BackendWorkspace> = Vec::new();
        let mut i: usize = 0;
        assert(done.deep_view() =~= Seq::<RecordView>::empty());
        assert(all.take(0).len() == 0);
        while i < records.len()
            invariant
                i <= records.len(),
                all == records.deep_view(),
                kept == cached.deep_view(),
                kept == snapshot::remembered(old(self)@.discoveries, daemon@),
                self.wf(),
                self.continues(old(self)),
                self@.hosts == old(self)@.hosts,
                at < self@.hosts.len(),
                old(self)@.hosts[at as int] == host.deep_view(),
                enriching(
                    old(self)@,
                    self@,
                    host.deep_view(),
                    daemon@,
                    daemon_id.deep_view(),
                    known.deep_view(),
                    kept,
                    all.take(i as int),
                ) == (self@, Ok::<Seq<RecordView>, FailureView>(done.deep_view())),
            decreases records.len() - i,
        {
            let ghost before = self@;
            let ghost done_before = done.deep_view();
            let record = records[i].clone();
            let ghost view = record@;
            proof {
                assert(all.take(i + 1).drop_last() =~= all.take(i as int));
                assert(all.take(i + 1).last() == view);
            }
            let one = self.enrich_one(at, daemon, daemon_id, host, known, &cached, record);
            proof {
                lemma_enriching_one_frame(
                    before,
                    self@,
                    host.deep_view(),
                    daemon@,
                    daemon_id.deep_view(),
                    known.deep_view(),
                    kept,
                    view,
                );
                lemma_enriching_settled(
                    old(self)@,
                    before,
                    self@,
                    host.deep_view(),
                    daemon@,
                    daemon_id.deep_view(),
                    known.deep_view(),
                    kept,
                    all.take(i as int),
                );
            }
            match one {
                Ok(record) => {
                    done.push(record);
                    assert(done.deep_view() =~= done_before.push(record@));
                },
                Err(failure) => {
                    proof {
                        lemma_enriching_stops(
                            old(self)@,
                            self@,
                            host.deep_view(),
                            daemon@,
                            daemon_id.deep_view(),
                            known.deep_view(),
                            kept,
                            all,
                            i + 1,
                        );
                    }
                    return Err(failure);
                },
            }
            i = i + 1;
        }
        assert(all.take(all.len() as int) =~= all);
        Ok(done)
    }
}

proof fn lemma_last_where_meets(
    rows: Seq<WorkspaceView>,
    meets: spec_fn(WorkspaceView) -> bool,
)
    ensures
        last_where(rows, meets) matches Some(row) ==> meets(row) && rows.contains(row),
    decreases rows.len(),
{
    if rows.len() > 0 {
        if meets(rows.last()) {
            assert(rows[rows.len() - 1] == rows.last());
        } else {
            lemma_last_where_meets(rows.drop_last(), meets);
            if let Some(row) = last_where(rows.drop_last(), meets) {
                let k = choose|k: int|
                    0 <= k < rows.drop_last().len() && rows.drop_last()[k] == row;
                assert(rows[k] == row);
            }
        }
    }
}

/// The preferred row is one of the rows, and meets the condition.
pub proof fn lemma_preferred_meets(
    rows: Seq<WorkspaceView>,
    meets: spec_fn(WorkspaceView) -> bool,
)
    ensures
        preferred(rows, meets) matches Some(row) ==> meets(row) && rows.contains(row),
{
    lemma_last_where_meets(rows, |row: WorkspaceView| meets(row) && row.daemon_id is Some);
    lemma_last_where_meets(rows, meets);
}

} // verus!
