//! One pass over every workspace: what is running, what is not, and what the
//! hosts hold beyond the rows this client uses.
//!
//! A host that cannot be reached fails alone. Its rows come back unknown, with
//! the status they had; its discoveries come back from the last listing, and
//! unknown too.

use crate::daemon;
use crate::daemon::{daemon_key, row_is_on, DaemonKey, KeyView};
use crate::entry;
use crate::entry::{EntryView, Reconciled, SessionState, WorkspaceEntry};
use crate::laws;
use crate::listing;
use crate::order;
use crate::order::{stable_sorted, Ranked};
use crate::registry;
use crate::registry::RowView;
use crate::replay;
use crate::service;
use crate::service::{ServiceView, WorkspaceLifecycleService};
use crate::session_backend::{BackendWorkspace, RecordView, SessionBackend, SessionInfo};
use crate::sessions;
use crate::snapshot;
use crate::snapshot::Discoveries;
use crate::text;
use crate::workspace::{AdeWorkspace, WorkspaceId, WorkspaceView};
use vstd::prelude::*;
use vstd::string::*;

verus! {

/// One host spelling's share of a pass.
pub struct HostOutcome {
    pub host: Option<String>,
    /// Which daemon answered.
    pub daemon: DaemonKey,
    /// The live session ids behind it; `None` when they could not be listed.
    pub live: Option<Vec<String>>,
    /// What the daemon holds; `None` when it could not be asked.
    pub held: Option<Vec<BackendWorkspace>>,
}

/// What a [`HostOutcome`] holds.
#[verifier::ext_equal]
pub struct OutcomeView {
    pub host: Option<Seq<char>>,
    pub daemon: KeyView,
    pub live: Option<Seq<Seq<char>>>,
    pub held: Option<Seq<RecordView>>,
}

impl View for HostOutcome {
    type V = OutcomeView;

    open spec fn view(&self) -> OutcomeView {
        OutcomeView {
            host: text::opt(self.host),
            daemon: self.daemon@,
            live: match self.live {
                Some(live) => Some(live.deep_view()),
                None => None,
            },
            held: match self.held {
                Some(held) => Some(held.deep_view()),
                None => None,
            },
        }
    }
}

impl DeepView for HostOutcome {
    type V = OutcomeView;

    open spec fn deep_view(&self) -> OutcomeView {
        self@
    }
}

/// What could be asked leads: a spelling that answered wins over another
/// spelling of the same daemon that failed.
impl Ranked for HostOutcome {
    open spec fn ranks_before(a: OutcomeView, b: OutcomeView) -> bool {
        (a.held is Some && b.held is None) || ((a.held is Some <==> b.held is Some) && a.live is Some
            && b.live is None)
    }

    proof fn rank_is_an_order(a: OutcomeView, b: OutcomeView, c: OutcomeView) {
    }

    fn is_ranked_before(&self, other: &Self) -> (before: bool) {
        (self.held.is_some() && other.held.is_none()) || (self.held.is_some()
            == other.held.is_some() && self.live.is_some() && other.live.is_none())
    }
}

/// The outcomes with those that answered in front.
pub fn prefer_answered(outcomes: Vec<HostOutcome>) -> (sorted: Vec<HostOutcome>)
    ensures
        sorted.deep_view() == order::ranked::<HostOutcome>(outcomes.deep_view()),
        order::is_stable_sort(
            outcomes.deep_view(),
            sorted.deep_view(),
            order::rank_of::<HostOutcome>(),
        ),
{
    stable_sorted(outcomes)
}

/// Hosts by name, this machine first.
impl Ranked for Option<String> {
    open spec fn ranks_before(a: Option<Seq<char>>, b: Option<Seq<char>>) -> bool {
        text::opt_text_before(a, b)
    }

    proof fn rank_is_an_order(a: Option<Seq<char>>, b: Option<Seq<char>>, c: Option<Seq<char>>) {
        text::lemma_opt_text_order(a, b, c);
        text::lemma_opt_text_order(a, c, b);
        text::lemma_opt_text_order(b, c, a);
        text::lemma_opt_text_order(c, b, a);
    }

    fn is_ranked_before(&self, other: &Self) -> (before: bool) {
        text::is_opt_before(text::borrowed(self), text::borrowed(other))
    }
}

/// A record a host holds that no row uses.
pub struct Discovery {
    pub remote_host: Option<String>,
    pub workspace: BackendWorkspace,
    pub state: SessionState,
}

/// What a [`Discovery`] holds.
#[verifier::ext_equal]
pub struct DiscoveryView {
    pub remote_host: Option<Seq<char>>,
    pub workspace: RecordView,
    pub state: SessionState,
}

impl DeepView for Discovery {
    type V = DiscoveryView;

    open spec fn deep_view(&self) -> DiscoveryView {
        DiscoveryView {
            remote_host: text::opt(self.remote_host),
            workspace: self.workspace@,
            state: self.state,
        }
    }
}

/// By host, then in the order the daemon made them, with the id only as the
/// tie-break.
impl Ranked for Discovery {
    open spec fn ranks_before(a: DiscoveryView, b: DiscoveryView) -> bool {
        text::opt_text_before(a.remote_host, b.remote_host) || (a.remote_host == b.remote_host && (
        a.workspace.created_at < b.workspace.created_at || (a.workspace.created_at
            == b.workspace.created_at && text::text_before(a.workspace.id, b.workspace.id))))
    }

    proof fn rank_is_an_order(a: DiscoveryView, b: DiscoveryView, c: DiscoveryView) {
        text::lemma_opt_text_order(a.remote_host, b.remote_host, c.remote_host);
        text::lemma_opt_text_order(a.remote_host, c.remote_host, b.remote_host);
        text::lemma_opt_text_order(b.remote_host, c.remote_host, a.remote_host);
        text::lemma_opt_text_order(c.remote_host, b.remote_host, a.remote_host);
        text::lemma_text_order(a.workspace.id, b.workspace.id, c.workspace.id);
        text::lemma_text_order(a.workspace.id, c.workspace.id, b.workspace.id);
        text::lemma_text_order(b.workspace.id, c.workspace.id, a.workspace.id);
        text::lemma_text_order(c.workspace.id, b.workspace.id, a.workspace.id);
    }

    fn is_ranked_before(&self, other: &Self) -> (before: bool) {
        let (a, b) = (text::borrowed(&self.remote_host), text::borrowed(&other.remote_host));
        text::is_opt_before(a, b) || (text::same_opt_text(a, b) && (self.workspace.created_at
            < other.workspace.created_at || (self.workspace.created_at
            == other.workspace.created_at && text::is_before(
            self.workspace.id.as_str(),
            other.workspace.id.as_str(),
        ))))
    }
}

/// Where a pass over the hosts stands.
#[verifier::ext_equal]
pub struct Gathered {
    pub state: ServiceView,
    /// The rows in scope, as the listings so far left them.
    pub rows: Seq<WorkspaceView>,
    pub errors: Seq<(Seq<char>, Seq<char>)>,
    pub outcomes: Seq<OutcomeView>,
}

/// The hosts, then those of the rows that are not among them yet, as they
/// appear.
pub open spec fn with_row_hosts(
    hosts: Seq<Option<Seq<char>>>,
    rows: Seq<WorkspaceView>,
) -> Seq<Option<Seq<char>>>
    decreases rows.len(),
{
    if rows.len() == 0 {
        hosts
    } else {
        let known = with_row_hosts(hosts, rows.drop_last());
        if known.contains(rows.last().remote_host) {
            known
        } else {
            known.push(rows.last().remote_host)
        }
    }
}

/// Whether a row has a session on this host to ask after.
pub open spec fn has_session_on(row: WorkspaceView, host: Option<Seq<char>>) -> bool {
    row.remote_host == host && row.terminal_session_id is Some
}

/// Whether any row has.
pub open spec fn anything_to_probe(rows: Seq<WorkspaceView>, host: Option<Seq<char>>) -> bool {
    exists|k: int| 0 <= k < rows.len() && has_session_on(#[trigger] rows[k], host)
}

/// The first of the rows with this id.
pub open spec fn row_with_id(rows: Seq<WorkspaceView>, id: Seq<char>) -> Option<WorkspaceView>
    decreases rows.len(),
{
    if rows.len() == 0 {
        None
    } else if rows[0].id == id {
        Some(rows[0])
    } else {
        row_with_id(rows.drop_first(), id)
    }
}

/// A row, as a listing left it.
pub open spec fn refreshed_row(row: WorkspaceView, listed: Seq<WorkspaceView>) -> WorkspaceView {
    match row_with_id(listed, row.id) {
        Some(updated) => updated,
        None => row,
    }
}

/// The rows in scope, as a listing left them.
pub open spec fn refreshed(
    rows: Seq<WorkspaceView>,
    listed: Seq<WorkspaceView>,
) -> Seq<WorkspaceView> {
    Seq::new(rows.len(), |k: int| refreshed_row(rows[k], listed))
}

/// A host's share is settled, with a failure where there was one.
pub open spec fn settled_host(
    pass: Gathered,
    outcome: OutcomeView,
    error: Option<Seq<char>>,
) -> Gathered {
    Gathered {
        errors: match error {
            Some(message) => pass.errors.push((daemon::host_name(outcome.host), message)),
            None => pass.errors,
        },
        outcomes: pass.outcomes.push(outcome),
        ..pass
    }
}

/// A host's live sessions are asked for.
///
/// Behind a listing of what the host holds, the answer only counts when it
/// comes from the same daemon.
pub open spec fn asking_live(
    pass: Gathered,
    later: ServiceView,
    discover: bool,
    host: Option<Seq<char>>,
    daemon: KeyView,
    held: Option<Seq<RecordView>>,
) -> Gathered {
    let (asked, reply) = replay::list_sessions(pass.state, later, host);
    let after = Gathered { state: asked, ..pass };
    match reply {
        Err(cause) => settled_host(
            after,
            OutcomeView { host, daemon, live: None, held },
            Some(entry::in_context("listing live sessions"@, cause)),
        ),
        Ok((instance, ids)) => {
            let answered = daemon::key_of(instance, host);
            if answered == daemon || !discover {
                settled_host(
                    after,
                    OutcomeView { host, daemon: answered, live: Some(ids), held },
                    None,
                )
            } else {
                settled_host(after, OutcomeView { host, daemon, live: None, held }, None)
            }
        },
    }
}

/// A host that was reached is asked who it is, what it holds where the pass
/// discovers, and what is alive. A host that will not answer the second
/// question is not asked the third.
pub open spec fn asking_host(
    pass: Gathered,
    later: ServiceView,
    discover: bool,
    host: Option<Seq<char>>,
) -> Gathered {
    let (named, instance) = replay::instance(pass.state, later, host);
    let daemon = daemon::key_of(instance, host);
    if !discover {
        asking_live(Gathered { state: named, ..pass }, later, discover, host, daemon, None)
    } else {
        let run = listing::listing_host(named, later, host);
        match run.result {
            Err(failure) => settled_host(
                Gathered { state: run.state, ..pass },
                OutcomeView { host, daemon, live: None, held: None },
                Some(failure.message()),
            ),
            Ok(listed) => asking_live(
                Gathered { state: run.state, rows: refreshed(pass.rows, listed.rows), ..pass },
                later,
                discover,
                host,
                listed.key,
                Some(listed.held),
            ),
        }
    }
}

/// One host is asked what a pass needs of it. A host with nothing to probe and
/// nothing to discover is not asked, and not connected to.
pub open spec fn gathering_one(
    pass: Gathered,
    later: ServiceView,
    discovering: Seq<Option<Seq<char>>>,
    discover: bool,
    host: Option<Seq<char>>,
) -> Gathered {
    let unnamed = KeyView::Host(host);
    if !anything_to_probe(pass.rows, host) && !discovering.contains(host) {
        settled_host(
            pass,
            OutcomeView { host, daemon: unnamed, live: Some(Seq::empty()), held: None },
            None,
        )
    } else {
        let (reached, connected) = replay::connect(pass.state, later, host);
        match connected {
            Err(failure) => settled_host(
                Gathered { state: reached, ..pass },
                OutcomeView { host, daemon: unnamed, live: None, held: None },
                Some(failure.message()),
            ),
            Ok(()) => asking_host(Gathered { state: reached, ..pass }, later, discover, host),
        }
    }
}

/// Each host is asked, in turn.
pub open spec fn gathering(
    pass: Gathered,
    later: ServiceView,
    discovering: Seq<Option<Seq<char>>>,
    discover: bool,
    hosts: Seq<Option<Seq<char>>>,
) -> Gathered
    decreases hosts.len(),
{
    if hosts.len() == 0 {
        pass
    } else {
        gathering_one(
            gathering(pass, later, discovering, discover, hosts.drop_last()),
            later,
            discovering,
            discover,
            hosts.last(),
        )
    }
}

/// Whether an outcome is about the daemon a row is on, under the row's own
/// spelling of the host. Session ids are only unique within a host.
pub open spec fn is_about(outcome: OutcomeView, row: WorkspaceView) -> bool {
    outcome.host == row.remote_host && daemon::on_daemon(row, outcome.daemon, outcome.host)
}

/// The live sessions a row is held against: those of the first outcome about
/// its daemon. `None` where it could not be asked, or nothing is about it.
pub open spec fn live_for(outcomes: Seq<OutcomeView>, row: WorkspaceView) -> Option<Seq<Seq<char>>>
    decreases outcomes.len(),
{
    if outcomes.len() == 0 {
        None
    } else if is_about(outcomes[0], row) {
        outcomes[0].live
    } else {
        live_for(outcomes.drop_first(), row)
    }
}

/// One row is judged by what its host said, and the verdict is recorded.
pub open spec fn judging_one(
    state: ServiceView,
    outcomes: Seq<OutcomeView>,
    row: WorkspaceView,
) -> (ServiceView, (WorkspaceView, SessionState)) {
    match row.terminal_session_id {
        None => (state, (row, SessionState::NeverCreated)),
        Some(session) => match live_for(outcomes, row) {
            None => (state, (row, SessionState::Unknown)),
            Some(live) => {
                let run = sessions::recording_probe(state, row, live.contains(session));
                (run.state, (run.workspace, run.result->Ok_0))
            },
        },
    }
}

/// Every row is judged, in turn.
pub open spec fn judging(
    state: ServiceView,
    outcomes: Seq<OutcomeView>,
    rows: Seq<WorkspaceView>,
) -> (ServiceView, Seq<(WorkspaceView, SessionState)>)
    decreases rows.len(),
{
    if rows.len() == 0 {
        (state, Seq::empty())
    } else {
        let (before, judged) = judging(state, outcomes, rows.drop_last());
        let (after, last) = judging_one(before, outcomes, rows.last());
        (after, judged.push(last))
    }
}

/// Whether a row stands for this record of an outcome's daemon, however the
/// row's host is spelled.
pub open spec fn is_used_by(
    rows: Seq<(WorkspaceView, SessionState)>,
    outcome: OutcomeView,
    wire_id: Seq<char>,
) -> bool {
    exists|k: int|
        0 <= k < rows.len() && daemon::on_daemon(
            (#[trigger] rows[k]).0,
            outcome.daemon,
            outcome.host,
        ) && rows[k].0.daemon_workspace_id() == wire_id
}

/// The state a discovery reads: known only where both questions were answered.
pub open spec fn discovery_state(outcome: OutcomeView, wire_id: Seq<char>) -> SessionState {
    match (outcome.live, outcome.held) {
        (Some(live), Some(_)) => if live.contains(wire_id) {
            SessionState::Alive
        } else {
            SessionState::Dead
        },
        _ => SessionState::Unknown,
    }
}

/// What an outcome's daemon holds, or held when it was last asked.
pub open spec fn held_by(
    outcome: OutcomeView,
    discoveries: Map<KeyView, Seq<RecordView>>,
) -> Seq<RecordView> {
    match outcome.held {
        Some(held) => held,
        None => snapshot::remembered(discoveries, outcome.daemon),
    }
}

/// The discoveries among an outcome's records: those no row uses.
pub open spec fn discoveries_of(
    records: Seq<RecordView>,
    rows: Seq<(WorkspaceView, SessionState)>,
    outcome: OutcomeView,
) -> Seq<DiscoveryView>
    decreases records.len(),
{
    if records.len() == 0 {
        Seq::empty()
    } else {
        let found = discoveries_of(records.drop_last(), rows, outcome);
        let record = records.last();
        if is_used_by(rows, outcome, record.id) {
            found
        } else {
            found.push(
                DiscoveryView {
                    remote_host: outcome.host,
                    workspace: record,
                    state: discovery_state(outcome, record.id),
                },
            )
        }
    }
}

/// Whether an outcome before `at` is about the same daemon.
pub open spec fn is_rendered(outcomes: Seq<OutcomeView>, at: int) -> bool {
    exists|k: int| 0 <= k < at && (#[trigger] outcomes[k]).daemon == outcomes[at].daemon
}

/// The discoveries of every outcome. One daemon renders once, however many
/// spellings reached it.
pub open spec fn rendering(
    outcomes: Seq<OutcomeView>,
    discoveries: Map<KeyView, Seq<RecordView>>,
    rows: Seq<(WorkspaceView, SessionState)>,
) -> Seq<DiscoveryView>
    decreases outcomes.len(),
{
    if outcomes.len() == 0 {
        Seq::empty()
    } else {
        let before = rendering(outcomes.drop_last(), discoveries, rows);
        let outcome = outcomes.last();
        if is_rendered(outcomes, outcomes.len() - 1) {
            before
        } else {
            before + discoveries_of(held_by(outcome, discoveries), rows, outcome)
        }
    }
}

/// The rows, then the discoveries, as entries.
pub open spec fn entries_of(
    rows: Seq<(WorkspaceView, SessionState)>,
    discovered: Seq<DiscoveryView>,
) -> Seq<EntryView> {
    Seq::new(rows.len(), |k: int| EntryView::Persisted(rows[k].0, rows[k].1)) + Seq::new(
        discovered.len(),
        |k: int|
            EntryView::Discovered {
                remote_host: discovered[k].remote_host,
                workspace: discovered[k].workspace,
                state: discovered[k].state,
            },
    )
}

/// What a pass found.
#[verifier::ext_equal]
pub struct ReconciledView {
    pub entries: Seq<EntryView>,
    pub host_errors: Seq<(Seq<char>, Seq<char>)>,
}

impl DeepView for Reconciled {
    type V = ReconciledView;

    open spec fn deep_view(&self) -> ReconciledView {
        ReconciledView {
            entries: self.entries.deep_view(),
            host_errors: self.host_errors.deep_view(),
        }
    }
}

/// The hosts a pass that discovers asks whether a row names them or not.
pub open spec fn discovered_hosts(state: ServiceView, discover: bool) -> Seq<Option<Seq<char>>> {
    if discover {
        order::ranked::<Option<String>>(state.hosts)
    } else {
        Seq::empty()
    }
}

/// The hosts are asked, and what they said is taken together.
pub open spec fn gathering_all(
    state: ServiceView,
    later: ServiceView,
    rows: Seq<WorkspaceView>,
    discover: bool,
) -> Gathered {
    let discovering = discovered_hosts(state, discover);
    gathering(
        Gathered { state, rows, errors: state.status_errors, outcomes: Seq::empty() },
        later,
        discovering,
        discover,
        with_row_hosts(discovering, rows),
    )
}

/// Every row is judged, last opened first, and the discoveries follow.
pub open spec fn assembling(pass: Gathered, discover: bool) -> (ServiceView, ReconciledView) {
    let outcomes = order::ranked::<HostOutcome>(pass.outcomes);
    let (state, rows) = judging(pass.state, outcomes, order::ranked::<AdeWorkspace>(pass.rows));
    let discovered = if discover {
        order::ranked::<Discovery>(rendering(outcomes, state.discoveries, rows))
    } else {
        Seq::empty()
    };
    (state, ReconciledView { entries: entries_of(rows, discovered), host_errors: pass.errors })
}

/// One pass.
pub open spec fn reconciling(
    state: ServiceView,
    later: ServiceView,
    rows: Seq<WorkspaceView>,
    discover: bool,
) -> (ServiceView, ReconciledView) {
    assembling(gathering_all(state, later, rows, discover), discover)
}

/// That a pass left every row there was, and no other: a row's project, route
/// and status may be new, while its id, its name, its session, its times and
/// whether this client uses it are not. Looking is not usage.
pub open spec fn same_workspaces(before: Seq<RowView>, after: Seq<RowView>) -> bool {
    &&& after.len() == before.len()
    &&& forall|k: int|
        #![trigger after[k]]
        0 <= k < before.len() ==> {
            let (old_row, new_row) = (before[k], after[k]);
            &&& new_row.used_by_client_at == old_row.used_by_client_at
            &&& new_row.workspace == (WorkspaceView {
                project_id: new_row.workspace.project_id,
                project_identity: new_row.workspace.project_identity,
                repository_path: new_row.workspace.repository_path,
                project_scope_rev: new_row.workspace.project_scope_rev,
                remote_host: new_row.workspace.remote_host,
                daemon_id: new_row.workspace.daemon_id,
                status: new_row.workspace.status,
                ..old_row.workspace
            })
        }
}

proof fn lemma_same_workspaces(a: Seq<RowView>, b: Seq<RowView>, c: Seq<RowView>)
    requires
        listing::same_rows_elsewhere(a, b),
        laws::same_rows_but_status(b, c),
    ensures
        same_workspaces(a, c),
{
    assert forall|k: int|
        #![trigger c[k]]
        0 <= k < a.len() implies {
        let (old_row, new_row) = (a[k], c[k]);
        &&& new_row.used_by_client_at == old_row.used_by_client_at
        &&& new_row.workspace == (WorkspaceView {
            project_id: new_row.workspace.project_id,
            project_identity: new_row.workspace.project_identity,
            repository_path: new_row.workspace.repository_path,
            project_scope_rev: new_row.workspace.project_scope_rev,
            remote_host: new_row.workspace.remote_host,
            daemon_id: new_row.workspace.daemon_id,
            status: new_row.workspace.status,
            ..old_row.workspace
        })
    } by {
        assert(b[k].used_by_client_at == a[k].used_by_client_at);
    }
}

/// What holds between the pass before a host was asked and after: the history
/// went on, no row came or went, and nothing gathered was dropped.
pub open spec fn pass_goes_on(before: Gathered, after: Gathered) -> bool {
    &&& replay::goes_on(before.state, after.state)
    &&& listing::same_rows_elsewhere(before.state.rows, after.state.rows)
    &&& before.errors.is_prefix_of(after.errors)
    &&& before.outcomes.is_prefix_of(after.outcomes)
}

proof fn lemma_pass_reflexive(pass: Gathered)
    ensures
        pass_goes_on(pass, pass),
{
    listing::lemma_same_rows_reflexive(pass.state.rows);
}

proof fn lemma_asking_live_settled(
    pass: Gathered,
    now: ServiceView,
    later: ServiceView,
    discover: bool,
    host: Option<Seq<char>>,
    daemon: KeyView,
    held: Option<Seq<RecordView>>,
)
    requires
        replay::goes_on(asking_live(pass, now, discover, host, daemon, held).state, now),
        replay::goes_on(now, later),
    ensures
        pass_goes_on(pass, asking_live(pass, now, discover, host, daemon, held)),
        asking_live(pass, now, discover, host, daemon, held) == asking_live(
            pass,
            later,
            discover,
            host,
            daemon,
            held,
        ),
{
    lemma_pass_reflexive(pass);
    let n = pass.state.log.len() as int;
    assert(now.log[n] == later.log[n]);
}

proof fn lemma_asking_host_settled(
    pass: Gathered,
    now: ServiceView,
    later: ServiceView,
    discover: bool,
    host: Option<Seq<char>>,
)
    requires
        replay::goes_on(asking_host(pass, now, discover, host).state, now),
        replay::goes_on(now, later),
    ensures
        pass_goes_on(pass, asking_host(pass, now, discover, host)),
        asking_host(pass, now, discover, host) == asking_host(pass, later, discover, host),
{
    lemma_pass_reflexive(pass);
    let whole = asking_host(pass, now, discover, host);
    let n = pass.state.log.len() as int;
    let (named, instance) = replay::instance(pass.state, now, host);
    let daemon = daemon::key_of(instance, host);
    if !discover {
        assert(now.log[n] == later.log[n]);
        lemma_asking_live_settled(
            Gathered { state: named, ..pass },
            now,
            later,
            discover,
            host,
            daemon,
            None,
        );
    } else {
        let run = listing::listing_host(named, now, host);
        listing::lemma_listing_host_grows(named, now, host);
        assert(run.state.log.is_prefix_of(now.log));
        assert(now.log[n] == later.log[n]);
        listing::lemma_listing_host_steady(named, now, later, host);
        if let Ok(listed) = run.result {
            let refreshed = Gathered {
                state: run.state,
                rows: refreshed(pass.rows, listed.rows),
                ..pass
            };
            lemma_asking_live_settled(
                refreshed,
                now,
                later,
                discover,
                host,
                listed.key,
                Some(listed.held),
            );
            lemma_pass_transitive(pass, refreshed, whole);
        }
    }
}

/// What a host answered stays its answer as the history goes on.
proof fn lemma_gathering_one_settled(
    pass: Gathered,
    now: ServiceView,
    later: ServiceView,
    discovering: Seq<Option<Seq<char>>>,
    discover: bool,
    host: Option<Seq<char>>,
)
    requires
        replay::goes_on(gathering_one(pass, now, discovering, discover, host).state, now),
        replay::goes_on(now, later),
    ensures
        pass_goes_on(pass, gathering_one(pass, now, discovering, discover, host)),
        gathering_one(pass, now, discovering, discover, host) == gathering_one(
            pass,
            later,
            discovering,
            discover,
            host,
        ),
{
    lemma_pass_reflexive(pass);
    if anything_to_probe(pass.rows, host) || discovering.contains(host) {
        let (reached, connected) = replay::connect(pass.state, now, host);
        let after = Gathered { state: reached, ..pass };
        let c = pass.state.connects.len() as int;
        if connected is Ok {
            lemma_asking_host_settled(after, now, later, discover, host);
            lemma_pass_transitive(pass, after, asking_host(after, now, discover, host));
        }
        assert(reached.connects.is_prefix_of(now.connects));
        if reached.connects.len() > c {
            assert(now.connects[c] == later.connects[c]);
        }
        assert(replay::connect(pass.state, later, host) == (reached, connected));
    }
}

proof fn lemma_pass_transitive(a: Gathered, b: Gathered, c: Gathered)
    requires
        pass_goes_on(a, b),
        pass_goes_on(b, c),
    ensures
        pass_goes_on(a, c),
{
    listing::lemma_same_rows_transitive(a.state.rows, b.state.rows, c.state.rows);
}

/// What the hosts answered stays their answer as the history goes on.
proof fn lemma_gathering_settled(
    pass: Gathered,
    now: ServiceView,
    later: ServiceView,
    discovering: Seq<Option<Seq<char>>>,
    discover: bool,
    hosts: Seq<Option<Seq<char>>>,
)
    requires
        replay::goes_on(gathering(pass, now, discovering, discover, hosts).state, now),
        replay::goes_on(now, later),
    ensures
        pass_goes_on(pass, gathering(pass, now, discovering, discover, hosts)),
        gathering(pass, now, discovering, discover, hosts) == gathering(
            pass,
            later,
            discovering,
            discover,
            hosts,
        ),
    decreases hosts.len(),
{
    if hosts.len() > 0 {
        let before = gathering(pass, now, discovering, discover, hosts.drop_last());
        lemma_gathering_one_settled(before, now, later, discovering, discover, hosts.last());
        lemma_gathering_settled(pass, now, later, discovering, discover, hosts.drop_last());
        lemma_pass_transitive(
            pass,
            before,
            gathering_one(before, now, discovering, discover, hosts.last()),
        );
    }
}

fn lists_host(hosts: &Vec<Option<String>>, host: Option<&str>) -> (listed: bool)
    ensures
        listed == hosts.deep_view().contains(host.deep_view()),
{
    let mut i: usize = 0;
    while i < hosts.len()
        invariant
            i <= hosts.len(),
            forall|k: int| 0 <= k < i ==> hosts.deep_view()[k] != host.deep_view(),
        decreases hosts.len() - i,
    {
        assert(hosts.deep_view()[i as int] == text::opt(hosts[i as int]));
        if text::same_opt_text(text::borrowed(&hosts[i]), host) {
            return true;
        }
        i = i + 1;
    }
    false
}

fn copied_hosts(hosts: &Vec<Option<String>>) -> (copy: Vec<Option<String>>)
    ensures
        copy.deep_view() == hosts.deep_view(),
{
    let mut copy: Vec<Option<String>> = Vec::new();
    let mut i: usize = 0;
    while i < hosts.len()
        invariant
            i <= hosts.len(),
            copy.deep_view() == hosts.deep_view().take(i as int),
        decreases hosts.len() - i,
    {
        let ghost before = copy.deep_view();
        let host = text::owned(text::borrowed(&hosts[i]));
        copy.push(host);
        assert(copy.deep_view() =~= before.push(text::opt(host)));
        i = i + 1;
        assert(copy.deep_view() =~= hosts.deep_view().take(i as int));
    }
    assert(hosts.deep_view().take(hosts.len() as int) =~= hosts.deep_view());
    copy
}

/// The hosts with those of the rows behind them.
fn add_row_hosts(
    hosts: Vec<Option<String>>,
    rows: &Vec<AdeWorkspace>,
) -> (all: Vec<Option<String>>)
    ensures
        all.deep_view() == with_row_hosts(hosts.deep_view(), rows.deep_view()),
{
    let ghost given = hosts.deep_view();
    let ghost list = rows.deep_view();
    let mut all = hosts;
    let mut i: usize = 0;
    assert(list.take(0).len() == 0);
    while i < rows.len()
        invariant
            i <= rows.len(),
            list == rows.deep_view(),
            all.deep_view() == with_row_hosts(given, list.take(i as int)),
        decreases rows.len() - i,
    {
        let ghost before = all.deep_view();
        proof {
            assert(list.take(i + 1).drop_last() =~= list.take(i as int));
            assert(list.take(i + 1).last() == rows[i as int]@);
        }
        let host = text::borrowed(&rows[i].remote_host);
        if !lists_host(&all, host) {
            let owned = text::owned(host);
            all.push(owned);
            assert(all.deep_view() =~= before.push(text::opt(owned)));
        }
        i = i + 1;
    }
    assert(list.take(list.len() as int) =~= list);
    all
}

fn is_anything_to_probe(rows: &Vec<AdeWorkspace>, host: Option<&str>) -> (found: bool)
    ensures
        found == anything_to_probe(rows.deep_view(), host.deep_view()),
{
    let mut i: usize = 0;
    while i < rows.len()
        invariant
            i <= rows.len(),
            forall|k: int|
                0 <= k < i ==> !has_session_on(#[trigger] rows.deep_view()[k], host.deep_view()),
        decreases rows.len() - i,
    {
        let row = &rows[i];
        assert(rows.deep_view()[i as int] == row@);
        if row.terminal_session_id.is_some() && text::same_opt_text(
            text::borrowed(&row.remote_host),
            host,
        ) {
            assert(has_session_on(rows.deep_view()[i as int], host.deep_view()));
            return true;
        }
        i = i + 1;
    }
    false
}

fn find_row<'a>(rows: &'a Vec<AdeWorkspace>, id: &WorkspaceId) -> (found: Option<&'a AdeWorkspace>)
    ensures
        found.deep_view() == row_with_id(rows.deep_view(), id@),
{
    let ghost all = rows.deep_view();
    let mut i: usize = 0;
    assert(all.skip(0) =~= all);
    while i < rows.len()
        invariant
            i <= rows.len(),
            all == rows.deep_view(),
            row_with_id(all, id@) == row_with_id(all.skip(i as int), id@),
        decreases rows.len() - i,
    {
        let row = &rows[i];
        proof {
            assert(all.skip(i as int)[0] == row@);
            assert(all.skip(i as int).drop_first() =~= all.skip(i + 1));
        }
        if row.id.is(id) {
            return Some(row);
        }
        i = i + 1;
    }
    None
}

/// The rows in scope pick up what a listing wrote for them.
fn refresh(rows: &mut Vec<AdeWorkspace>, listed: &Vec<AdeWorkspace>)
    ensures
        final(rows).deep_view() == refreshed(old(rows).deep_view(), listed.deep_view()),
{
    let ghost given = rows.deep_view();
    let mut i: usize = 0;
    while i < rows.len()
        invariant
            i <= rows.len(),
            rows.len() == given.len(),
            forall|k: int|
                0 <= k < i ==> #[trigger] rows.deep_view()[k] == refreshed_row(
                    given[k],
                    listed.deep_view(),
                ),
            forall|k: int| i <= k < given.len() ==> #[trigger] rows.deep_view()[k] == given[k],
        decreases rows.len() - i,
    {
        let ghost before = rows.deep_view();
        assert(rows.deep_view()[i as int] == given[i as int]);
        match find_row(listed, &rows[i].id) {
            Some(updated) => {
                let updated = updated.clone();
                rows[i] = updated;
                assert(rows.deep_view() =~= before.update(i as int, updated@));
            },
            None => {},
        }
        i = i + 1;
    }
    assert(rows.deep_view() =~= refreshed(given, listed.deep_view()));
}

fn ids_of(listed: Vec<SessionInfo>) -> (ids: Vec<String>)
    ensures
        ids.deep_view() == listed.deep_view(),
{
    let mut ids: Vec<String> = Vec::new();
    let mut i: usize = 0;
    while i < listed.len()
        invariant
            i <= listed.len(),
            ids.deep_view() == listed.deep_view().take(i as int),
        decreases listed.len() - i,
    {
        let ghost before = ids.deep_view();
        let id = listed[i].id.as_str().to_owned();
        ids.push(id);
        assert(ids.deep_view() =~= before.push(id@));
        i = i + 1;
        assert(ids.deep_view() =~= listed.deep_view().take(i as int));
    }
    assert(listed.deep_view().take(listed.len() as int) =~= listed.deep_view());
    ids
}

fn push_error(errors: &mut Vec<(String, String)>, host: Option<&str>, message: String)
    ensures
        final(errors).deep_view() == old(errors).deep_view().push(
            (daemon::host_name(host.deep_view()), message@),
        ),
{
    let ghost before = errors.deep_view();
    let line = (daemon::host_label(host), message);
    errors.push(line);
    assert(errors.deep_view() =~= before.push(line.deep_view()));
}

/// The live sessions a row is held against.
fn live_sessions<'a>(outcomes: &'a Vec<HostOutcome>, row: &AdeWorkspace) -> (live: Option<
    &'a Vec<String>,
>)
    ensures
        live.deep_view() == live_for(outcomes.deep_view(), row@),
{
    let ghost all = outcomes.deep_view();
    let mut i: usize = 0;
    assert(all.skip(0) =~= all);
    while i < outcomes.len()
        invariant
            i <= outcomes.len(),
            all == outcomes.deep_view(),
            live_for(all, row@) == live_for(all.skip(i as int), row@),
        decreases outcomes.len() - i,
    {
        let outcome = &outcomes[i];
        proof {
            assert(all.skip(i as int)[0] == outcome@);
            assert(all.skip(i as int).drop_first() =~= all.skip(i + 1));
        }
        let host = text::borrowed(&outcome.host);
        if text::same_opt_text(host, text::borrowed(&row.remote_host)) && row_is_on(
            row,
            &outcome.daemon,
            host,
        ) {
            return match &outcome.live {
                Some(live) => Some(live),
                None => None,
            };
        }
        i = i + 1;
    }
    None
}

fn is_wire_id_taken(
    rows: &Vec<(AdeWorkspace, SessionState)>,
    outcome: &HostOutcome,
    wire_id: &str,
) -> (taken: bool)
    ensures
        taken == is_used_by(rows.deep_view(), outcome@, wire_id@),
{
    let ghost all = rows.deep_view();
    let mut i: usize = 0;
    while i < rows.len()
        invariant
            i <= rows.len(),
            all == rows.deep_view(),
            forall|k: int|
                0 <= k < i ==> !(daemon::on_daemon(
                    (#[trigger] all[k]).0,
                    outcome@.daemon,
                    outcome@.host,
                ) && all[k].0.daemon_workspace_id() == wire_id@),
        decreases rows.len() - i,
    {
        let row = &rows[i].0;
        assert(all[i as int].0 == row@);
        if row_is_on(row, &outcome.daemon, text::borrowed(&outcome.host)) && text::same_text(
            row.daemon_workspace_id().as_str(),
            wire_id,
        ) {
            return true;
        }
        i = i + 1;
    }
    false
}

/// Adds the discoveries among one outcome's records.
fn add_discoveries(
    found: &mut Vec<Discovery>,
    records: &Vec<BackendWorkspace>,
    rows: &Vec<(AdeWorkspace, SessionState)>,
    outcome: &HostOutcome,
)
    ensures
        final(found).deep_view() == old(found).deep_view() + discoveries_of(
            records.deep_view(),
            rows.deep_view(),
            outcome@,
        ),
{
    let ghost given = found.deep_view();
    let ghost all = records.deep_view();
    let mut i: usize = 0;
    assert(all.take(0).len() == 0);
    assert(given + Seq::<DiscoveryView>::empty() =~= given);
    while i < records.len()
        invariant
            i <= records.len(),
            all == records.deep_view(),
            found.deep_view() == given + discoveries_of(
                all.take(i as int),
                rows.deep_view(),
                outcome@,
            ),
        decreases records.len() - i,
    {
        let ghost before = found.deep_view();
        let record = &records[i];
        let ghost so_far = discoveries_of(all.take(i as int), rows.deep_view(), outcome@);
        proof {
            assert(all.take(i + 1).drop_last() =~= all.take(i as int));
            assert(all.take(i + 1).last() == record@);
        }
        if !is_wire_id_taken(rows, outcome, record.id.as_str()) {
            let state = match (&outcome.live, &outcome.held) {
                (Some(live), Some(_)) => if text::lists_text(live, record.id.as_str()) {
                    SessionState::Alive
                } else {
                    SessionState::Dead
                },
                _ => SessionState::Unknown,
            };
            let discovery = Discovery {
                remote_host: text::owned(text::borrowed(&outcome.host)),
                workspace: record.clone(),
                state,
            };
            found.push(discovery);
            proof {
                assert(found.deep_view() =~= before.push(discovery.deep_view()));
                assert(given + so_far.push(discovery.deep_view()) =~= (given + so_far).push(
                    discovery.deep_view(),
                ));
            }
        }
        i = i + 1;
    }
    assert(all.take(all.len() as int) =~= all);
}

fn is_daemon_rendered(outcomes: &Vec<HostOutcome>, at: usize) -> (rendered: bool)
    requires
        at < outcomes.len(),
    ensures
        rendered == is_rendered(outcomes.deep_view(), at as int),
{
    let ghost all = outcomes.deep_view();
    let mut i: usize = 0;
    while i < at
        invariant
            i <= at < outcomes.len(),
            all == outcomes.deep_view(),
            forall|k: int| 0 <= k < i ==> (#[trigger] all[k]).daemon != all[at as int].daemon,
        decreases at - i,
    {
        assert(all[i as int] == outcomes[i as int]@ && all[at as int] == outcomes[at as int]@);
        if outcomes[i].daemon.is(&outcomes[at].daemon) {
            return true;
        }
        i = i + 1;
    }
    false
}

/// The discoveries of every outcome, each daemon's once.
pub fn discoveries_to_show(
    outcomes: &Vec<HostOutcome>,
    remembered: &Discoveries,
    rows: &Vec<(AdeWorkspace, SessionState)>,
) -> (found: Vec<Discovery>)
    ensures
        found.deep_view() == rendering(outcomes.deep_view(), remembered@, rows.deep_view()),
{
    let ghost all = outcomes.deep_view();
    let mut found: Vec<Discovery> = Vec::new();
    let mut i: usize = 0;
    assert(all.take(0).len() == 0);
    assert(found.deep_view() =~= Seq::<DiscoveryView>::empty());
    while i < outcomes.len()
        invariant
            i <= outcomes.len(),
            all == outcomes.deep_view(),
            found.deep_view() == rendering(all.take(i as int), remembered@, rows.deep_view()),
        decreases outcomes.len() - i,
    {
        let outcome = &outcomes[i];
        proof {
            let next = all.take(i + 1);
            assert(next.drop_last() =~= all.take(i as int));
            assert(next.last() == outcome@);
            assert(is_rendered(next, i as int) == is_rendered(all, i as int)) by {
                if is_rendered(next, i as int) {
                    let k = choose|k: int|
                        0 <= k < i && (#[trigger] next[k]).daemon == next[i as int].daemon;
                    assert(all[k].daemon == all[i as int].daemon);
                }
                if is_rendered(all, i as int) {
                    let k = choose|k: int|
                        0 <= k < i && (#[trigger] all[k]).daemon == all[i as int].daemon;
                    assert(next[k].daemon == next[i as int].daemon);
                }
            }
        }
        if !is_daemon_rendered(outcomes, i) {
            match &outcome.held {
                Some(held) => add_discoveries(&mut found, held, rows, outcome),
                None => {
                    let held = remembered.recall(&outcome.daemon);
                    add_discoveries(&mut found, &held, rows, outcome);
                },
            }
        }
        i = i + 1;
    }
    assert(all.take(all.len() as int) =~= all);
    found
}

/// The rows, then the discoveries, as entries.
fn entries(
    rows: &Vec<(AdeWorkspace, SessionState)>,
    discovered: &Vec<Discovery>,
) -> (all: Vec<WorkspaceEntry>)
    ensures
        all.deep_view() == entries_of(rows.deep_view(), discovered.deep_view()),
{
    let ghost goal = entries_of(rows.deep_view(), discovered.deep_view());
    let mut all: Vec<WorkspaceEntry> = Vec::new();
    let mut i: usize = 0;
    while i < rows.len()
        invariant
            i <= rows.len(),
            goal == entries_of(rows.deep_view(), discovered.deep_view()),
            all.deep_view() == goal.take(i as int),
        decreases rows.len() - i,
    {
        let ghost before = all.deep_view();
        let entry = WorkspaceEntry::Persisted(rows[i].0.clone(), rows[i].1);
        all.push(entry);
        proof {
            assert(all.deep_view() =~= before.push(entry@));
            assert(rows.deep_view()[i as int] == (rows[i as int].0@, rows[i as int].1));
            assert(goal[i as int] == entry@);
        }
        i = i + 1;
        assert(all.deep_view() =~= goal.take(i as int));
    }
    let mut j: usize = 0;
    while j < discovered.len()
        invariant
            j <= discovered.len(),
            goal == entries_of(rows.deep_view(), discovered.deep_view()),
            all.deep_view() == goal.take(rows.len() + j),
        decreases discovered.len() - j,
    {
        let ghost before = all.deep_view();
        let discovery = &discovered[j];
        let entry = WorkspaceEntry::Discovered {
            remote_host: text::owned(text::borrowed(&discovery.remote_host)),
            workspace: discovery.workspace.clone(),
            state: discovery.state,
        };
        all.push(entry);
        proof {
            assert(all.deep_view() =~= before.push(entry@));
            assert(discovered.deep_view()[j as int] == discovery.deep_view());
            assert(goal[rows.len() + j] == entry@);
        }
        j = j + 1;
        assert(all.deep_view() =~= goal.take(rows.len() + j));
    }
    assert(goal.take(goal.len() as int) =~= goal);
    all
}

impl<B: SessionBackend> WorkspaceLifecycleService<B> {
    fn ask_live(
        &mut self,
        at: usize,
        host: Option<&str>,
        discover: bool,
        daemon: DaemonKey,
        held: Option<Vec<BackendWorkspace>>,
        errors: &mut Vec<(String, String)>,
        Ghost(pass): Ghost<Gathered>,
    ) -> (outcome: HostOutcome)
        requires
            old(self).wf(),
            at < old(self)@.hosts.len(),
            old(self)@.hosts[at as int] == host.deep_view(),
            pass.state == old(self)@,
            pass.errors == old(errors).deep_view(),
        ensures
            final(self).wf(),
            final(self).continues(old(self)),
            asking_live(
                pass,
                final(self)@,
                discover,
                host.deep_view(),
                daemon@,
                held.deep_view(),
            ) == (Gathered {
                state: final(self)@,
                rows: pass.rows,
                errors: final(errors).deep_view(),
                outcomes: pass.outcomes.push(outcome@),
            }),
    {
        match self.ask_sessions(at) {
            Err(cause) => {
                push_error(errors, host, text::joined3("listing live sessions", ": ", cause.as_str()));
                HostOutcome { host: text::owned(host), daemon, live: None, held }
            },
            Ok(listing) => {
                let answered = daemon_key(text::borrowed(&listing.daemon_id), host);
                if answered.is(&daemon) || !discover {
                    HostOutcome {
                        host: text::owned(host),
                        daemon: answered,
                        live: Some(ids_of(listing.items)),
                        held,
                    }
                } else {
                    HostOutcome { host: text::owned(host), daemon, live: None, held }
                }
            },
        }
    }

    fn ask_host(
        &mut self,
        at: usize,
        rows: &mut Vec<AdeWorkspace>,
        errors: &mut Vec<(String, String)>,
        discover: bool,
        host: Option<&str>,
        Ghost(outcomes): Ghost<Seq<OutcomeView>>,
    ) -> (outcome: HostOutcome)
        requires
            old(self).wf(),
            at < old(self)@.hosts.len(),
            old(self)@.hosts[at as int] == host.deep_view(),
        ensures
            final(self).wf(),
            final(self).continues(old(self)),
            final(self)@.connects == old(self)@.connects,
            asking_host(
                Gathered {
                    state: old(self)@,
                    rows: old(rows).deep_view(),
                    errors: old(errors).deep_view(),
                    outcomes,
                },
                final(self)@,
                discover,
                host.deep_view(),
            ) == (Gathered {
                state: final(self)@,
                rows: final(rows).deep_view(),
                errors: final(errors).deep_view(),
                outcomes: outcomes.push(outcome@),
            }),
    {
        let ghost reached = self@;
        let instance = self.ask_instance(at);
        let ghost named = self@;
        let daemon = daemon_key(text::borrowed(&instance), host);
        if !discover {
            let ghost pass = Gathered {
                state: self@,
                rows: rows.deep_view(),
                errors: errors.deep_view(),
                outcomes,
            };
            return self.ask_live(at, host, discover, daemon, None, errors, Ghost(pass));
        }
        let listed = self.list_host_workspaces(at, host);
        let ghost done = self@;
        assert(named.log[reached.log.len() as int] == done.log[reached.log.len() as int]);
        match listed {
            Err(failure) => {
                push_error(errors, host, failure.message());
                HostOutcome { host: text::owned(host), daemon, live: None, held: None }
            },
            Ok(listed) => {
                refresh(rows, &listed.rows);
                let ghost pass = Gathered {
                    state: self@,
                    rows: rows.deep_view(),
                    errors: errors.deep_view(),
                    outcomes,
                };
                let ghost held = listed.held.deep_view();
                let outcome = self.ask_live(
                    at,
                    host,
                    discover,
                    listed.key,
                    Some(listed.held),
                    errors,
                    Ghost(pass),
                );
                proof {
                    listing::lemma_listing_host_steady(named, done, self@, host.deep_view());
                    let n = reached.log.len() as int;
                    assert(self@.log[n] == done.log[n]);
                    assert(named.log[n] == done.log[n]);
                }
                outcome
            },
        }
    }

    fn gather_one(
        &mut self,
        rows: &mut Vec<AdeWorkspace>,
        errors: &mut Vec<(String, String)>,
        discovering: &Vec<Option<String>>,
        discover: bool,
        host: Option<&str>,
        Ghost(outcomes): Ghost<Seq<OutcomeView>>,
    ) -> (outcome: HostOutcome)
        requires
            old(self).wf(),
        ensures
            final(self).wf(),
            final(self).continues(old(self)),
            gathering_one(
                Gathered {
                    state: old(self)@,
                    rows: old(rows).deep_view(),
                    errors: old(errors).deep_view(),
                    outcomes,
                },
                final(self)@,
                discovering.deep_view(),
                discover,
                host.deep_view(),
            ) == (Gathered {
                state: final(self)@,
                rows: final(rows).deep_view(),
                errors: final(errors).deep_view(),
                outcomes: outcomes.push(outcome@),
            }),
    {
        if !is_anything_to_probe(rows, host) && !lists_host(discovering, host) {
            let live: Vec<String> = Vec::new();
            assert(live.deep_view() =~= Seq::<Seq<char>>::empty());
            return HostOutcome {
                host: text::owned(host),
                daemon: DaemonKey::Host(text::owned(host)),
                live: Some(live),
                held: None,
            };
        }
        let at = match self.backend_for_host(host) {
            Ok(at) => at,
            Err(failure) => {
                push_error(errors, host, failure.message());
                return HostOutcome {
                    host: text::owned(host),
                    daemon: DaemonKey::Host(text::owned(host)),
                    live: None,
                    held: None,
                };
            },
        };
        self.ask_host(at, rows, errors, discover, host, Ghost(outcomes))
    }

    fn gather(
        &mut self,
        rows: &mut Vec<AdeWorkspace>,
        discover: bool,
    ) -> (gathered: (Vec<HostOutcome>, Vec<(String, String)>))
        requires
            old(self).wf(),
        ensures
            final(self).wf(),
            final(self).continues(old(self)),
            gathering_all(old(self)@, final(self)@, old(rows).deep_view(), discover) == (Gathered {
                state: final(self)@,
                rows: final(rows).deep_view(),
                errors: gathered.1.deep_view(),
                outcomes: gathered.0.deep_view(),
            }),
            pass_goes_on(
                Gathered {
                    state: old(self)@,
                    rows: old(rows).deep_view(),
                    errors: old(self)@.status_errors,
                    outcomes: Seq::empty(),
                },
                gathering_all(old(self)@, final(self)@, old(rows).deep_view(), discover),
            ),
    {
        let discovering = if discover {
            stable_sorted(self.known_hosts())
        } else {
            let none: Vec<Option<String>> = Vec::new();
            assert(none.deep_view() =~= Seq::<Option<Seq<char>>>::empty());
            none
        };
        let copy = copied_hosts(&discovering);
        let hosts = add_row_hosts(copy, rows);
        let ghost all = hosts.deep_view();
        let ghost asked = discovering.deep_view();
        let mut errors = self.kept_status_errors();
        let mut outcomes: Vec<HostOutcome> = Vec::new();
        let ghost start = Gathered {
            state: self@,
            rows: rows.deep_view(),
            errors: errors.deep_view(),
            outcomes: Seq::empty(),
        };
        let mut i: usize = 0;
        proof {
            assert(all.take(0).len() == 0);
            assert(outcomes.deep_view() =~= Seq::<OutcomeView>::empty());
        }
        while i < hosts.len()
            invariant
                i <= hosts.len(),
                all == hosts.deep_view(),
                asked == discovering.deep_view(),
                self.wf(),
                self.continues(old(self)),
                pass_goes_on(start, gathering(start, self@, asked, discover, all.take(i as int))),
                gathering(start, self@, asked, discover, all.take(i as int)) == (Gathered {
                    state: self@,
                    rows: rows.deep_view(),
                    errors: errors.deep_view(),
                    outcomes: outcomes.deep_view(),
                }),
            decreases hosts.len() - i,
        {
            let ghost before = self@;
            let ghost pass = Gathered {
                state: self@,
                rows: rows.deep_view(),
                errors: errors.deep_view(),
                outcomes: outcomes.deep_view(),
            };
            proof {
                assert(all.take(i + 1).drop_last() =~= all.take(i as int));
                assert(all.take(i + 1).last() == text::opt(hosts[i as int]));
            }
            let outcome = self.gather_one(
                rows,
                &mut errors,
                &discovering,
                discover,
                text::borrowed(&hosts[i]),
                Ghost(outcomes.deep_view()),
            );
            outcomes.push(outcome);
            proof {
                assert(outcomes.deep_view() =~= pass.outcomes.push(outcome@));
                lemma_gathering_one_settled(
                    pass,
                    self@,
                    self@,
                    asked,
                    discover,
                    text::opt(hosts[i as int]),
                );
                lemma_gathering_settled(
                    start,
                    before,
                    self@,
                    asked,
                    discover,
                    all.take(i as int),
                );
                lemma_pass_transitive(
                    start,
                    pass,
                    gathering_one(pass, self@, asked, discover, text::opt(hosts[i as int])),
                );
            }
            i = i + 1;
        }
        assert(all.take(all.len() as int) =~= all);
        (outcomes, errors)
    }

    fn judge(
        &mut self,
        outcomes: &Vec<HostOutcome>,
        rows: Vec<AdeWorkspace>,
    ) -> (judged: Vec<(AdeWorkspace, SessionState)>)
        requires
            old(self).wf(),
        ensures
            final(self).wf(),
            final(self).continues(old(self)),
            judging(old(self)@, outcomes.deep_view(), rows.deep_view()) == (
                final(self)@,
                judged.deep_view(),
            ),
    {
        let ghost all = rows.deep_view();
        let mut judged: Vec<(AdeWorkspace, SessionState)> = Vec::new();
        let mut i: usize = 0;
        proof {
            assert(all.take(0).len() == 0);
            assert(judged.deep_view() =~= Seq::<(WorkspaceView, SessionState)>::empty());
        }
        while i < rows.len()
            invariant
                i <= rows.len(),
                all == rows.deep_view(),
                self.wf(),
                self.continues(old(self)),
                judging(old(self)@, outcomes.deep_view(), all.take(i as int)) == (
                    self@,
                    judged.deep_view(),
                ),
            decreases rows.len() - i,
        {
            let ghost before = judged.deep_view();
            proof {
                assert(all.take(i + 1).drop_last() =~= all.take(i as int));
                assert(all.take(i + 1).last() == rows[i as int]@);
            }
            let mut row = rows[i].clone();
            let session = text::owned(text::borrowed(&row.terminal_session_id));
            let state = match &session {
                None => SessionState::NeverCreated,
                Some(session) => match live_sessions(outcomes, &row) {
                    Some(live) => {
                        let alive = text::lists_text(live, session.as_str());
                        self.record_probe(&mut row, alive)
                    },
                    None => SessionState::Unknown,
                },
            };
            let pair = (row, state);
            judged.push(pair);
            assert(judged.deep_view() =~= before.push(pair.deep_view()));
            i = i + 1;
        }
        assert(all.take(all.len() as int) =~= all);
        judged
    }

    /// One listing per host, rather than one probe per workspace. A host that
    /// cannot be reached fails alone.
    fn reconcile(&mut self, workspaces: Vec<AdeWorkspace>, discover: bool) -> (found: Reconciled)
        requires
            old(self).wf(),
        ensures
            final(self).wf(),
            final(self).continues(old(self)),
            replay::goes_on(old(self)@, final(self)@),
            same_workspaces(old(self)@.rows, final(self)@.rows),
            reconciling(old(self)@, final(self)@, workspaces.deep_view(), discover) == (
                final(self)@,
                found.deep_view(),
            ),
    {
        let ghost given = workspaces.deep_view();
        let mut rows = workspaces;
        let (outcomes, host_errors) = self.gather(&mut rows, discover);
        let ghost pass = gathering_all(old(self)@, self@, given, discover);
        let ghost gathered = self@;
        proof {
            self.rows_keep_the_rules();
        }
        let outcomes = prefer_answered(outcomes);
        let judged = self.judge(&outcomes, stable_sorted(rows));
        proof {
            laws::lemma_judging_keeps_the_rows(
                gathered,
                outcomes.deep_view(),
                order::ranked::<AdeWorkspace>(pass.rows),
            );
            lemma_same_workspaces(old(self)@.rows, gathered.rows, self@.rows);
            lemma_judging_asks_nothing(
                gathered,
                outcomes.deep_view(),
                order::ranked::<AdeWorkspace>(pass.rows),
            );
            assert(self@.log == gathered.log && self@.connects == gathered.connects);
            lemma_gathering_depends_on_the_answers(old(self)@, gathered, self@, given, discover);
        }
        let discovered = if discover {
            stable_sorted(discoveries_to_show(&outcomes, self.kept_snapshots(), &judged))
        } else {
            let none: Vec<Discovery> = Vec::new();
            assert(none.deep_view() =~= Seq::<DiscoveryView>::empty());
            none
        };
        let entries = entries(&judged, &discovered);
        Reconciled { entries, host_errors }
    }

    /// The startup pass: probes every workspace in use, writes the results
    /// back, and asks each host it contacts what else it holds.
    pub fn reconcile_all(&mut self) -> (found: Reconciled)
        requires
            old(self).wf(),
        ensures
            final(self).wf(),
            final(self).continues(old(self)),
            replay::goes_on(old(self)@, final(self)@),
            same_workspaces(old(self)@.rows, final(self)@.rows),
            reconciling(
                old(self)@,
                final(self)@,
                registry::listing(old(self)@.rows, registry::used_rows()),
                true,
            ) == (final(self)@, found.deep_view()),
    {
        let workspaces = self.registry().confirmed_workspaces();
        self.reconcile(workspaces, true)
    }

    /// The same, narrowed to one project's rows. Rows only: a discovery belongs
    /// to no project of this client's.
    pub fn reconcile_project(&mut self, project_id: &str) -> (found: Reconciled)
        requires
            old(self).wf(),
        ensures
            final(self).wf(),
            final(self).continues(old(self)),
            replay::goes_on(old(self)@, final(self)@),
            same_workspaces(old(self)@.rows, final(self)@.rows),
            reconciling(
                old(self)@,
                final(self)@,
                registry::listing(old(self)@.rows, registry::used_rows_of_project(project_id@)),
                false,
            ) == (final(self)@, found.deep_view()),
    {
        let workspaces = self.registry().confirmed_workspaces_for_project(project_id);
        self.reconcile(workspaces, false)
    }
}

pub proof fn lemma_judging_asks_nothing(
    state: ServiceView,
    outcomes: Seq<OutcomeView>,
    rows: Seq<WorkspaceView>,
)
    ensures
        judging(state, outcomes, rows).0 == (ServiceView {
            rows: judging(state, outcomes, rows).0.rows,
            ..state
        }),
    decreases rows.len(),
{
    if rows.len() > 0 {
        lemma_judging_asks_nothing(state, outcomes, rows.drop_last());
    }
}

/// A replay reads a later state for its history alone.
proof fn lemma_gathering_depends_on_the_answers(
    state: ServiceView,
    now: ServiceView,
    later: ServiceView,
    rows: Seq<WorkspaceView>,
    discover: bool,
)
    requires
        gathering_all(state, now, rows, discover).state == now,
        later.log == now.log,
        later.connects == now.connects,
    ensures
        gathering_all(state, now, rows, discover) == gathering_all(state, later, rows, discover),
{
    let discovering = discovered_hosts(state, discover);
    lemma_gathering_settled(
        Gathered { state, rows, errors: state.status_errors, outcomes: Seq::empty() },
        now,
        later,
        discovering,
        discover,
        with_row_hosts(discovering, rows),
    );
}

/// What a pass was told stays what it was told as the history goes on.
pub proof fn lemma_reconciling_settled(
    state: ServiceView,
    now: ServiceView,
    later: ServiceView,
    rows: Seq<WorkspaceView>,
    discover: bool,
)
    requires
        replay::goes_on(reconciling(state, now, rows, discover).0, now),
        replay::goes_on(now, later),
    ensures
        reconciling(state, now, rows, discover) == reconciling(state, later, rows, discover),
        replay::goes_on(state, reconciling(state, now, rows, discover).0),
{
    let pass = gathering_all(state, now, rows, discover);
    lemma_judging_asks_nothing(
        pass.state,
        order::ranked::<HostOutcome>(pass.outcomes),
        order::ranked::<AdeWorkspace>(pass.rows),
    );
    let discovering = discovered_hosts(state, discover);
    lemma_gathering_settled(
        Gathered { state, rows, errors: state.status_errors, outcomes: Seq::empty() },
        now,
        later,
        discovering,
        discover,
        with_row_hosts(discovering, rows),
    );
}

} // verus!
