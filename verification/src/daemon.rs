//! Which daemon a row or a record belongs to, and what a workspace is called.
//!
//! A daemon that has named itself is known by that name, however its host is
//! spelled. One that has not is known by the route used to reach it.

use crate::order::Ranked;
use crate::session_backend::{BackendWorkspace, RecordView};
use crate::text;
use crate::workspace;
use crate::workspace::{AdeWorkspace, WorkspaceView};
use vstd::prelude::*;
use vstd::string::*;

verus! {

/// The daemon a decision is scoped to.
#[derive(Debug, PartialEq, Eq, Hash)]
pub enum DaemonKey {
    Instance(String),
    Host(Option<String>),
}

/// What a [`DaemonKey`] holds.
#[verifier::ext_equal]
pub enum KeyView {
    Instance(Seq<char>),
    Host(Option<Seq<char>>),
}

impl View for DaemonKey {
    type V = KeyView;

    open spec fn view(&self) -> KeyView {
        match *self {
            DaemonKey::Instance(instance) => KeyView::Instance(instance@),
            DaemonKey::Host(host) => KeyView::Host(text::opt(host)),
        }
    }
}

impl DeepView for DaemonKey {
    type V = KeyView;

    open spec fn deep_view(&self) -> KeyView {
        self@
    }
}

impl Clone for DaemonKey {
    fn clone(&self) -> (copy: Self)
        ensures
            copy@ == self@,
    {
        match self {
            DaemonKey::Instance(instance) => DaemonKey::Instance(instance.clone()),
            DaemonKey::Host(host) => DaemonKey::Host(text::owned(text::borrowed(host))),
        }
    }
}

impl DaemonKey {
    pub fn is(&self, other: &DaemonKey) -> (same: bool)
        ensures
            same == (self@ == other@),
    {
        match (self, other) {
            (DaemonKey::Instance(a), DaemonKey::Instance(b)) => text::same_text(
                a.as_str(),
                b.as_str(),
            ),
            (DaemonKey::Host(a), DaemonKey::Host(b)) => text::same_opt_text(
                text::borrowed(a),
                text::borrowed(b),
            ),
            _ => false,
        }
    }
}

/// The daemon behind an identity and a route: the identity where there is one.
pub open spec fn key_of(daemon_id: Option<Seq<char>>, host: Option<Seq<char>>) -> KeyView {
    match daemon_id {
        Some(id) => KeyView::Instance(id),
        None => KeyView::Host(host),
    }
}

pub fn daemon_key(daemon_id: Option<&str>, host: Option<&str>) -> (key: DaemonKey)
    ensures
        key@ == key_of(daemon_id.deep_view(), host.deep_view()),
{
    match daemon_id {
        Some(daemon_id) => DaemonKey::Instance(daemon_id.to_owned()),
        None => DaemonKey::Host(text::owned(host)),
    }
}

/// The identity a key carries, when it carries one.
pub open spec fn key_instance(key: KeyView) -> Option<Seq<char>> {
    match key {
        KeyView::Instance(instance) => Some(instance),
        KeyView::Host(_) => None,
    }
}

pub fn instance_of(daemon: &DaemonKey) -> (instance: Option<&str>)
    ensures
        instance.deep_view() == key_instance(daemon@),
{
    match daemon {
        DaemonKey::Instance(instance) => Some(instance.as_str()),
        DaemonKey::Host(_) => None,
    }
}

/// Whether a row belongs to the daemon reached at `host`: by its identity when
/// it carries one, and otherwise by the route it was reached by.
pub open spec fn on_daemon(row: WorkspaceView, daemon: KeyView, host: Option<Seq<char>>) -> bool {
    match (row.daemon_id, daemon) {
        (Some(persisted), KeyView::Instance(instance)) => persisted == instance,
        (Some(_), KeyView::Host(_)) => false,
        (None, _) => row.remote_host == host,
    }
}

/// Whether a row may belong to a daemon that could not be asked: a daemon that
/// did not name itself cannot disprove a row on its own route.
pub open spec fn maybe_on_daemon(
    row: WorkspaceView,
    daemon: KeyView,
    host: Option<Seq<char>>,
) -> bool {
    match (row.daemon_id, daemon) {
        (Some(persisted), KeyView::Instance(instance)) => persisted == instance,
        (Some(_), KeyView::Host(_)) => row.remote_host == host,
        (None, _) => row.remote_host == host,
    }
}

/// Whether a row stands for a record of the daemon with this identity, reached
/// at `host`. A persisted identity is exclusive; a row without one has only its
/// exact route.
pub open spec fn mirrors(
    row: WorkspaceView,
    instance: Option<Seq<char>>,
    host: Option<Seq<char>>,
    record: RecordView,
) -> bool {
    &&& row.terminal_session_id == Some(record.id)
    &&& match (row.daemon_id, instance) {
        (Some(persisted), Some(current)) => persisted == current,
        (Some(_), None) => false,
        (None, _) => row.remote_host == host,
    }
}

pub fn row_is_on(row: &AdeWorkspace, daemon: &DaemonKey, host: Option<&str>) -> (on: bool)
    ensures
        on == on_daemon(row@, daemon@, host.deep_view()),
{
    match (&row.daemon_id, daemon) {
        (Some(persisted), DaemonKey::Instance(instance)) => text::same_text(
            persisted.as_str(),
            instance.as_str(),
        ),
        (Some(_), DaemonKey::Host(_)) => false,
        (None, _) => text::same_opt_text(text::borrowed(&row.remote_host), host),
    }
}

pub fn row_could_be_on(row: &AdeWorkspace, daemon: &DaemonKey, host: Option<&str>) -> (on: bool)
    ensures
        on == maybe_on_daemon(row@, daemon@, host.deep_view()),
{
    match (&row.daemon_id, daemon) {
        (Some(persisted), DaemonKey::Instance(instance)) => text::same_text(
            persisted.as_str(),
            instance.as_str(),
        ),
        (Some(_), DaemonKey::Host(_)) => text::same_opt_text(
            text::borrowed(&row.remote_host),
            host,
        ),
        (None, _) => text::same_opt_text(text::borrowed(&row.remote_host), host),
    }
}

pub fn is_the_same_daemons_row(
    candidate: &AdeWorkspace,
    instance_id: Option<&str>,
    host: Option<&str>,
    workspace: &BackendWorkspace,
) -> (same: bool)
    ensures
        same == mirrors(candidate@, instance_id.deep_view(), host.deep_view(), workspace@),
{
    if !text::same_opt_text(
        text::borrowed(&candidate.terminal_session_id),
        Some(workspace.id.as_str()),
    ) {
        return false;
    }
    match (&candidate.daemon_id, instance_id) {
        (Some(persisted), Some(current)) => text::same_text(persisted.as_str(), current),
        (Some(_), None) => false,
        (None, _) => text::same_opt_text(text::borrowed(&candidate.remote_host), host),
    }
}

/// A row that certainly belongs to a daemon may belong to it.
pub proof fn law_certain_is_possible(row: WorkspaceView, daemon: KeyView, host: Option<Seq<char>>)
    ensures
        on_daemon(row, daemon, host) ==> maybe_on_daemon(row, daemon, host),
{
}

/// A persisted identity is exclusive: a row that carries one is never on a
/// daemon with another name, nor on one that has not named itself, and no such
/// daemon's record is that row's.
pub proof fn law_identity_is_exclusive(
    row: WorkspaceView,
    persisted: Seq<char>,
    daemon_id: Option<Seq<char>>,
    host: Option<Seq<char>>,
    record: RecordView,
)
    requires
        row.daemon_id == Some(persisted),
        daemon_id != Some(persisted),
    ensures
        !on_daemon(row, key_of(daemon_id, host), host),
        !mirrors(row, daemon_id, host, record),
{
}

/// A row that carries an identity is found under every spelling of its host: the
/// route plays no part.
pub proof fn law_identity_ignores_the_route(
    row: WorkspaceView,
    daemon_id: Seq<char>,
    host: Option<Seq<char>>,
    other: Option<Seq<char>>,
)
    requires
        row.daemon_id is Some,
    ensures
        on_daemon(row, key_of(Some(daemon_id), host), host) == on_daemon(
            row,
            key_of(Some(daemon_id), other),
            other,
        ),
{
}

/// A row stands for a record exactly when it is on the record's daemon and
/// names the record.
pub proof fn law_mirrors_is_on_daemon(
    row: WorkspaceView,
    daemon_id: Option<Seq<char>>,
    host: Option<Seq<char>>,
    record: RecordView,
)
    ensures
        mirrors(row, daemon_id, host, record) <==> (on_daemon(row, key_of(daemon_id, host), host)
            && row.terminal_session_id == Some(record.id)),
{
}

/// The recency order: last opened first, with the id as the tie-break.
pub open spec fn opened_before_in_list(a: WorkspaceView, b: WorkspaceView) -> bool {
    a.last_opened_at > b.last_opened_at || (a.last_opened_at == b.last_opened_at
        && text::text_before(a.id, b.id))
}

impl Ranked for AdeWorkspace {
    open spec fn ranks_before(a: WorkspaceView, b: WorkspaceView) -> bool {
        opened_before_in_list(a, b)
    }

    proof fn rank_is_an_order(a: WorkspaceView, b: WorkspaceView, c: WorkspaceView) {
        text::lemma_text_order(a.id, b.id, c.id);
        text::lemma_text_order(a.id, c.id, b.id);
        text::lemma_text_order(b.id, c.id, a.id);
        text::lemma_text_order(c.id, b.id, a.id);
    }

    fn is_ranked_before(&self, other: &Self) -> (before: bool) {
        self.last_opened_at > other.last_opened_at || (self.last_opened_at == other.last_opened_at
            && text::is_before(self.id.as_str(), other.id.as_str()))
    }
}

/// That the row at `at` leads the recency order among `rows`, and no earlier
/// row ties with it.
pub open spec fn leads(rows: Seq<WorkspaceView>, at: int) -> bool {
    &&& 0 <= at < rows.len()
    &&& forall|k: int|
        0 <= k < rows.len() ==> !opened_before_in_list(#[trigger] rows[k], rows[at])
    &&& forall|k: int| 0 <= k < at ==> opened_before_in_list(rows[at], #[trigger] rows[k])
}

/// The row to reconnect to: the one the recency order puts first.
pub fn most_recently_opened<'a>(rows: &Vec<&'a AdeWorkspace>) -> (row: Option<&'a AdeWorkspace>)
    ensures
        row is None <==> rows.len() == 0,
        row matches Some(row) ==> exists|at: int|
            leads(rows.deep_view(), at) && rows.deep_view()[at] == row@,
{
    if rows.len() == 0 {
        return None;
    }
    let mut best: usize = 0;
    let mut i: usize = 1;
    let ghost views = rows.deep_view();
    proof {
        AdeWorkspace::rank_is_an_order(views[0], views[0], views[0]);
    }
    while i < rows.len()
        invariant
            best < i <= rows.len(),
            views == rows.deep_view(),
            forall|k: int|
                0 <= k < i ==> !opened_before_in_list(#[trigger] views[k], views[best as int]),
            forall|k: int|
                0 <= k < best ==> opened_before_in_list(views[best as int], #[trigger] views[k]),
        decreases rows.len() - i,
    {
        if rows[i].is_ranked_before(rows[best]) {
            proof {
                assert forall|k: int| 0 <= k < i implies opened_before_in_list(
                    views[i as int],
                    #[trigger] views[k],
                ) by {
                    AdeWorkspace::rank_is_an_order(views[i as int], views[k], views[best as int]);
                }
                assert forall|k: int| 0 <= k <= i implies !opened_before_in_list(
                    #[trigger] views[k],
                    views[i as int],
                ) by {
                    AdeWorkspace::rank_is_an_order(views[k], views[i as int], views[k]);
                    AdeWorkspace::rank_is_an_order(views[i as int], views[k], views[i as int]);
                }
            }
            best = i;
        }
        i = i + 1;
    }
    assert(leads(views, best as int));
    assert(views[best as int] == rows[best as int]@);
    Some(rows[best])
}

/// The reconnect decision cannot come out differently twice: only one position
/// leads, and rows of different ids never tie.
pub proof fn law_the_leading_row_is_one(rows: Seq<WorkspaceView>, a: int, b: int)
    requires
        leads(rows, a),
        leads(rows, b),
    ensures
        a == b,
{
    if a < b {
        assert(opened_before_in_list(rows[b], rows[a]));
    } else if b < a {
        assert(opened_before_in_list(rows[a], rows[b]));
    }
}

/// How a host reads in an error line. This machine has no name of its own.
pub open spec fn host_name(host: Option<Seq<char>>) -> Seq<char> {
    match host {
        Some(host) => host,
        None => "local"@,
    }
}

pub fn host_label(host: Option<&str>) -> (label: String)
    ensures
        label@ == host_name(host.deep_view()),
{
    match host {
        Some(host) => host.to_owned(),
        None => "local".to_owned(),
    }
}

/// Whether a name has the shape of a derived session id, `ade-<slug>-<six hex>`.
pub open spec fn is_derived_name(name: Seq<char>) -> bool {
    let n = name.len();
    &&& n >= 11
    &&& name.take(4) == workspace::session_prefix() + "-"@
    &&& name[n - 7] == '-'
    &&& forall|k: int| n - 6 <= k < n ==> text::is_ascii_hex(#[trigger] name[k])
}

pub fn is_derived_workspace_name(name: &str) -> (derived: bool)
    ensures
        derived == is_derived_name(name@),
{
    proof {
        reveal_strlit("ade");
        reveal_strlit("-");
    }
    let list = text::characters(name);
    let n: usize = list.len();
    if n < 11 {
        return false;
    }
    let ghost prefix = "ade"@ + "-"@;
    assert(prefix.len() == 4 && prefix[0] == 'a' && prefix[1] == 'd' && prefix[2] == 'e'
        && prefix[3] == '-');
    if list[0] != 'a' || list[1] != 'd' || list[2] != 'e' || list[3] != '-' {
        proof {
            let taken = name@.take(4);
            assert(taken[0] == name@[0] && taken[1] == name@[1] && taken[2] == name@[2]
                && taken[3] == name@[3]);
        }
        return false;
    }
    assert(name@.take(4) =~= prefix);
    if list[n - 7] != '-' {
        return false;
    }
    let mut i: usize = n - 6;
    while i < n
        invariant
            n >= 11,
            n == list.len(),
            list@ == name@,
            n - 6 <= i <= n,
            forall|k: int| n - 6 <= k < i ==> text::is_ascii_hex(#[trigger] name@[k]),
        decreases n - i,
    {
        let c: char = list[i];
        let hex = ('0' <= c && c <= '9') || ('a' <= c && c <= 'f') || ('A' <= c && c <= 'F');
        if !hex {
            assert(!text::is_ascii_hex(name@[i as int]));
            return false;
        }
        i = i + 1;
    }
    true
}

/// What to show a workspace as that the backend named: the project it is in,
/// unless a person chose the name.
pub open spec fn shown_name(backend_name: Seq<char>, project_id: Seq<char>) -> Seq<char> {
    if is_derived_name(backend_name) {
        project_id
    } else {
        backend_name
    }
}

pub fn display_name_for(backend_name: &str, project_id: &str) -> (name: String)
    ensures
        name@ == shown_name(backend_name@, project_id@),
{
    if is_derived_workspace_name(backend_name) {
        project_id.to_owned()
    } else {
        backend_name.to_owned()
    }
}

/// A session id derived for a workspace is always recognised as one, so it is
/// never shown where a name belongs.
pub proof fn law_derived_ids_are_recognised(
    name: Seq<char>,
    id: Seq<char>,
    project_id: Seq<char>,
)
    requires
        id.len() >= 6,
        forall|k: int| 0 <= k < 6 ==> text::is_ascii_hex(#[trigger] id[k]),
    ensures
        is_derived_name(workspace::derived_session_name(name, id)),
        shown_name(workspace::derived_session_name(name, id), project_id) == project_id,
{
    reveal_strlit("ade");
    reveal_strlit("-");
    let derived = workspace::derived_session_name(name, id);
    let slug = workspace::slug_of(name);
    let n = derived.len();
    assert(n == 11 + slug.len());
    assert(derived.take(4) =~= "ade"@ + "-"@);
    assert(derived[n - 7] == '-');
    assert forall|k: int| n - 6 <= k < n implies text::is_ascii_hex(#[trigger] derived[k]) by {
        assert(derived[k] == id[k - (n - 6)]);
    }
}

/// A name somebody typed survives verbatim.
pub proof fn law_a_chosen_name_survives(name: Seq<char>, project_id: Seq<char>)
    requires
        !is_derived_name(name),
    ensures
        shown_name(name, project_id) == name,
{
}

} // verus!
