//! The table of workspaces this client knows.
//!
//! The table is a cache: a daemon owns the truth about whether a session is
//! alive. Two things always hold of it. No two rows have one id, and no two
//! rows this client uses stand for one daemon record.

use crate::order;
use crate::order::stable_sorted;
use crate::text;
use crate::workspace::{AdeWorkspace, WorkspaceId, WorkspaceStatus, WorkspaceView};
use vstd::prelude::*;
use vstd::string::*;

verus! {

/// A row of the table.
#[derive(Debug, PartialEq, Eq)]
pub struct StoredRow {
    pub workspace: AdeWorkspace,
    /// When this client confirmed that it uses the workspace. A row without it
    /// is quarantined: kept, and never constrained.
    pub used_by_client_at: Option<i64>,
}

/// What a [`StoredRow`] holds.
#[verifier::ext_equal]
pub struct RowView {
    pub workspace: WorkspaceView,
    pub used_by_client_at: Option<i64>,
}

impl View for StoredRow {
    type V = RowView;

    open spec fn view(&self) -> RowView {
        RowView { workspace: self.workspace@, used_by_client_at: self.used_by_client_at }
    }
}

impl DeepView for StoredRow {
    type V = RowView;

    open spec fn deep_view(&self) -> RowView {
        self@
    }
}

/// A write would have given one daemon record two rows.
#[derive(Clone, Copy, Debug, PartialEq, Eq, Structural)]
pub struct RecordConflict;

impl RowView {
    /// Whether the row counts for the rule of one row per record.
    pub open spec fn owns_a_record(self) -> bool {
        self.used_by_client_at is Some && self.workspace.terminal_session_id is Some
    }

    /// Whose record it is: the daemon's where the row names one, and otherwise
    /// the host's.
    pub open spec fn owner(self) -> Seq<char> {
        match self.workspace.daemon_id {
            Some(daemon) => daemon,
            None => seq!['\0'] + (match self.workspace.remote_host {
                Some(host) => host,
                None => seq!['\0'],
            }),
        }
    }

    /// Whether two rows stand for one daemon record.
    pub open spec fn same_record(self, other: RowView) -> bool {
        &&& self.owns_a_record()
        &&& other.owns_a_record()
        &&& self.owner() == other.owner()
        &&& self.workspace.terminal_session_id == other.workspace.terminal_session_id
    }
}

/// Where the row with an id is; the length of the table when there is none.
pub open spec fn position(rows: Seq<RowView>, id: Seq<char>) -> int
    decreases rows.len(),
{
    if rows.len() == 0 {
        0
    } else if rows[0].workspace.id == id {
        0
    } else {
        1 + position(rows.drop_first(), id)
    }
}

/// The row with an id.
pub open spec fn row_of(rows: Seq<RowView>, id: Seq<char>) -> Option<RowView> {
    let at = position(rows, id);
    if at < rows.len() {
        Some(rows[at])
    } else {
        None
    }
}

/// The workspace with an id.
pub open spec fn workspace_of(rows: Seq<RowView>, id: Seq<char>) -> Option<WorkspaceView> {
    match row_of(rows, id) {
        Some(row) => Some(row.workspace),
        None => None,
    }
}

/// That a row stands for the record of another row than the one at `at`.
pub open spec fn collides(rows: Seq<RowView>, at: int, row: RowView) -> bool {
    exists|k: int| 0 <= k < rows.len() && k != at && row.same_record(#[trigger] rows[k])
}

/// The rules a table keeps.
pub open spec fn is_table(rows: Seq<RowView>) -> bool {
    &&& forall|i: int, j: int|
        0 <= i < j < rows.len() ==> (#[trigger] rows[i]).workspace.id != (
        #[trigger] rows[j]).workspace.id
    &&& forall|i: int, j: int|
        0 <= i < j < rows.len() ==> !(#[trigger] rows[i]).same_record(#[trigger] rows[j])
}

/// The table after the row with an id is changed; a change that would give a
/// record two rows is refused.
pub open spec fn changed(
    rows: Seq<RowView>,
    id: Seq<char>,
    change: spec_fn(RowView) -> RowView,
) -> Option<Seq<RowView>> {
    let at = position(rows, id);
    if at == rows.len() {
        Some(rows)
    } else if collides(rows, at, change(rows[at])) {
        None
    } else {
        Some(rows.update(at, change(rows[at])))
    }
}

/// The table after a workspace is recorded: the row of the same id is replaced,
/// and otherwise the existing owner of the same record is kept.
pub open spec fn with_workspace(rows: Seq<RowView>, row: RowView) -> Option<Seq<RowView>> {
    let at = position(rows, row.workspace.id);
    if at < rows.len() {
        if collides(rows, at, row) {
            None
        } else {
            Some(rows.update(at, row))
        }
    } else if collides(rows, at, row) {
        Some(rows)
    } else {
        Some(rows.push(row))
    }
}

pub proof fn lemma_position(rows: Seq<RowView>, id: Seq<char>)
    ensures
        0 <= position(rows, id) <= rows.len(),
        position(rows, id) < rows.len() ==> rows[position(rows, id)].workspace.id == id,
        forall|k: int| 0 <= k < position(rows, id) ==> (#[trigger] rows[k]).workspace.id != id,
    decreases rows.len(),
{
    if rows.len() > 0 && rows[0].workspace.id != id {
        lemma_position(rows.drop_first(), id);
        assert forall|k: int| 0 <= k < position(rows, id) implies (
        #[trigger] rows[k]).workspace.id != id by {
            if k > 0 {
                assert(rows.drop_first()[k - 1] == rows[k]);
            }
        }
    }
}

/// The position of an id is where a row has it.
pub proof fn lemma_position_is(rows: Seq<RowView>, id: Seq<char>, at: int)
    requires
        is_table(rows),
        0 <= at < rows.len(),
        rows[at].workspace.id == id,
    ensures
        position(rows, id) == at,
{
    lemma_position(rows, id);
    let found = position(rows, id);
    if found < at {
        assert(rows[found].workspace.id != rows[at].workspace.id);
    }
}

pub proof fn lemma_update_keeps_the_rules(rows: Seq<RowView>, at: int, row: RowView)
    requires
        is_table(rows),
        0 <= at < rows.len(),
        row.workspace.id == rows[at].workspace.id,
        !collides(rows, at, row),
    ensures
        is_table(rows.update(at, row)),
{
    let next = rows.update(at, row);
    assert forall|i: int, j: int| 0 <= i < j < next.len() implies !(#[trigger] next[i]).same_record(
        #[trigger] next[j],
    ) by {
        if i == at {
            assert(next[j] == rows[j]);
        } else if j == at {
            assert(next[i] == rows[i]);
            assert(!row.same_record(rows[i]));
        }
    }
}

pub proof fn lemma_push_keeps_the_rules(rows: Seq<RowView>, row: RowView)
    requires
        is_table(rows),
        position(rows, row.workspace.id) == rows.len(),
        !collides(rows, rows.len() as int, row),
    ensures
        is_table(rows.push(row)),
{
    lemma_position(rows, row.workspace.id);
    let next = rows.push(row);
    assert forall|i: int, j: int| 0 <= i < j < next.len() implies !(#[trigger] next[i]).same_record(
        #[trigger] next[j],
    ) by {
        if j == rows.len() {
            assert(next[i] == rows[i]);
            assert(!row.same_record(rows[i]));
        }
    }
}

/// The workspaces of some rows, in the order of the table.
pub open spec fn workspaces_where(
    rows: Seq<RowView>,
    keep: spec_fn(RowView) -> bool,
) -> Seq<WorkspaceView> {
    rows.filter(keep).map_values(|row: RowView| row.workspace)
}

/// That a list holds the workspaces of the kept rows, last opened first.
pub open spec fn lists(
    rows: Seq<RowView>,
    keep: spec_fn(RowView) -> bool,
    list: Seq<WorkspaceView>,
) -> bool {
    &&& order::is_stable_sort(
        workspaces_where(rows, keep),
        list,
        order::rank_of::<AdeWorkspace>(),
    )
    &&& list == listing(rows, keep)
}

/// The workspaces of the kept rows, last opened first and then by id.
pub open spec fn listing(rows: Seq<RowView>, keep: spec_fn(RowView) -> bool) -> Seq<
    WorkspaceView,
> {
    order::ranked::<AdeWorkspace>(workspaces_where(rows, keep))
}

/// Which rows [`AdeWorkspaceRegistry::list_workspaces`] lists: all of them.
pub open spec fn any_row() -> spec_fn(RowView) -> bool {
    |row: RowView| true
}

/// The rows of one project.
pub open spec fn rows_of_project(project_id: Seq<char>) -> spec_fn(RowView) -> bool {
    |row: RowView| row.workspace.project_id == project_id
}

/// The rows this client uses.
pub open spec fn used_rows() -> spec_fn(RowView) -> bool {
    |row: RowView| row.used_by_client_at is Some
}

/// The rows this client uses, of one project.
pub open spec fn used_rows_of_project(project_id: Seq<char>) -> spec_fn(RowView) -> bool {
    |row: RowView| row.used_by_client_at is Some && row.workspace.project_id == project_id
}

/// The quarantined rows.
pub open spec fn quarantined_rows() -> spec_fn(RowView) -> bool {
    |row: RowView| row.used_by_client_at is None
}

/// The quarantined rows that a daemon of this identity may own.
pub open spec fn promotable_rows(instance: Option<Seq<char>>) -> spec_fn(RowView) -> bool {
    |row: RowView|
        row.used_by_client_at is None && (row.workspace.daemon_id is None
            || row.workspace.daemon_id == instance)
}

/// Whether a write of project columns at revision `rev` takes effect.
pub open spec fn scope_applies(workspace: WorkspaceView, rev: u64) -> bool {
    workspace.project_identity is None || rev > workspace.project_scope_rev
}

/// A workspace after a write of its project columns.
pub open spec fn with_scope(
    workspace: WorkspaceView,
    repository_path: Seq<char>,
    rev: u64,
    project_id: Seq<char>,
    project_identity: Seq<char>,
) -> WorkspaceView {
    if scope_applies(workspace, rev) {
        WorkspaceView {
            repository_path,
            project_scope_rev: rev,
            project_id,
            project_identity: Some(project_identity),
            ..workspace
        }
    } else {
        workspace
    }
}

/// The table of workspaces.
pub struct AdeWorkspaceRegistry {
    rows: Vec<StoredRow>,
}

impl View for AdeWorkspaceRegistry {
    type V = Seq<RowView>;

    closed spec fn view(&self) -> Seq<RowView> {
        self.rows.deep_view()
    }
}

/// Which row filter a listing applies.
enum Kept<'a> {
    Any,
    Project(&'a str),
    Used,
    UsedOfProject(&'a str),
    Quarantined,
    Promotable(Option<&'a str>),
}

impl<'a> Kept<'a> {
    spec fn rows(self) -> spec_fn(RowView) -> bool {
        match self {
            Kept::Any => any_row(),
            Kept::Project(project_id) => rows_of_project(project_id@),
            Kept::Used => used_rows(),
            Kept::UsedOfProject(project_id) => used_rows_of_project(project_id@),
            Kept::Quarantined => quarantined_rows(),
            Kept::Promotable(instance) => promotable_rows(instance.deep_view()),
        }
    }

    fn keeps(&self, row: &StoredRow) -> (kept: bool)
        ensures
            kept == (self.rows())(row@),
    {
        match self {
            Kept::Any => true,
            Kept::Project(project_id) => text::same_text(
                row.workspace.project_id.as_str(),
                *project_id,
            ),
            Kept::Used => row.used_by_client_at.is_some(),
            Kept::UsedOfProject(project_id) => row.used_by_client_at.is_some() && text::same_text(
                row.workspace.project_id.as_str(),
                *project_id,
            ),
            Kept::Quarantined => row.used_by_client_at.is_none(),
            Kept::Promotable(instance) => row.used_by_client_at.is_none() && (
            row.workspace.daemon_id.is_none() || text::same_opt_text(
                text::borrowed(&row.workspace.daemon_id),
                *instance,
            )),
        }
    }
}

fn owner(row: &StoredRow) -> (owner: String)
    ensures
        owner@ == row@.owner(),
{
    match &row.workspace.daemon_id {
        Some(daemon) => daemon.clone(),
        None => {
            let mut owner = String::new();
            owner.push('\0');
            match &row.workspace.remote_host {
                Some(host) => {
                    owner.append(host.as_str());
                },
                None => {
                    owner.push('\0');
                },
            }
            assert(owner@ =~= row@.owner());
            owner
        },
    }
}

fn is_same_record(a: &StoredRow, b: &StoredRow) -> (same: bool)
    ensures
        same == a@.same_record(b@),
{
    a.used_by_client_at.is_some() && a.workspace.terminal_session_id.is_some()
        && b.used_by_client_at.is_some() && b.workspace.terminal_session_id.is_some()
        && text::same_text(owner(a).as_str(), owner(b).as_str()) && text::same_opt_text(
        text::borrowed(&a.workspace.terminal_session_id),
        text::borrowed(&b.workspace.terminal_session_id),
    )
}

impl AdeWorkspaceRegistry {
    /// That the table keeps its rules.
    pub open spec fn wf(&self) -> bool {
        is_table(self@)
    }

    pub fn new() -> (registry: Self)
        ensures
            registry.wf(),
            registry@ == Seq::<RowView>::empty(),
    {
        let registry = AdeWorkspaceRegistry { rows: Vec::new() };
        assert(registry@ =~= Seq::<RowView>::empty());
        registry
    }

    fn find(&self, id: &str) -> (at: usize)
        ensures
            at == position(self@, id@),
            at <= self.rows.len(),
    {
        let mut at: usize = 0;
        assert(self@.skip(0) =~= self@);
        while at < self.rows.len() && !text::same_text(self.rows[at].workspace.id.as_str(), id)
            invariant
                at <= self.rows.len(),
                position(self@, id@) == at + position(self@.skip(at as int), id@),
            decreases self.rows.len() - at,
        {
            assert(self@.skip(at as int)[0] == self@[at as int]);
            assert(self@.skip(at as int).drop_first() =~= self@.skip(at + 1));
            at = at + 1;
        }
        proof {
            if at < self.rows.len() {
                assert(self@.skip(at as int)[0] == self@[at as int]);
            } else {
                assert(self@.skip(at as int).len() == 0);
            }
        }
        at
    }

    fn has_collision(&self, at: usize, row: &StoredRow) -> (found: bool)
        ensures
            found == collides(self@, at as int, row@),
    {
        let mut k: usize = 0;
        while k < self.rows.len()
            invariant
                k <= self.rows.len(),
                forall|m: int|
                    0 <= m < k && m != at ==> !row@.same_record(#[trigger] self@[m]),
            decreases self.rows.len() - k,
        {
            if k != at && is_same_record(row, &self.rows[k]) {
                assert(row@.same_record(self@[k as int]));
                return true;
            }
            assert(self@[k as int] == self.rows[k as int]@);
            k = k + 1;
        }
        false
    }

    /// Puts a row in the place of the one at `at`, unless that would give a
    /// record two rows.
    fn replace(&mut self, at: usize, row: StoredRow) -> (replaced: Result<(), RecordConflict>)
        requires
            old(self).wf(),
            at < old(self)@.len(),
            row@.workspace.id == old(self)@[at as int].workspace.id,
        ensures
            final(self).wf(),
            replaced is Err <==> collides(old(self)@, at as int, row@),
            replaced is Ok ==> final(self)@ == old(self)@.update(at as int, row@),
            replaced is Err ==> final(self)@ == old(self)@,
    {
        if self.has_collision(at, &row) {
            return Err(RecordConflict);
        }
        let ghost view = row@;
        proof {
            lemma_update_keeps_the_rules(self@, at as int, view);
        }
        self.rows[at] = row;
        assert(self@ =~= old(self)@.update(at as int, view));
        Ok(())
    }

    fn copy_row(&self, at: usize) -> (row: StoredRow)
        requires
            at < self@.len(),
        ensures
            row@ == self@[at as int],
    {
        StoredRow {
            workspace: self.rows[at].workspace.clone(),
            used_by_client_at: self.rows[at].used_by_client_at,
        }
    }

    fn listed(&self, kept: Kept) -> (list: Vec<AdeWorkspace>)
        ensures
            lists(self@, kept.rows(), list.deep_view()),
    {
        let mut list: Vec<AdeWorkspace> = Vec::new();
        let mut i: usize = 0;
        let ghost keep = kept.rows();
        assert(self@.take(0).filter(keep) =~= Seq::<RowView>::empty()) by {
            reveal(Seq::filter);
        }
        while i < self.rows.len()
            invariant
                i <= self.rows.len(),
                keep == kept.rows(),
                list.deep_view() == workspaces_where(self@.take(i as int), keep),
            decreases self.rows.len() - i,
        {
            let ghost before = list.deep_view();
            proof {
                reveal(Seq::filter);
                assert(self@.take(i + 1).drop_last() =~= self@.take(i as int));
                assert(self@.take(i + 1).last() == self.rows[i as int]@);
            }
            if kept.keeps(&self.rows[i]) {
                let workspace = self.rows[i].workspace.clone();
                list.push(workspace);
                assert(list.deep_view() =~= before.push(workspace@));
            }
            i = i + 1;
            assert(list.deep_view() =~= workspaces_where(self@.take(i as int), keep));
        }
        assert(self@.take(self@.len() as int) =~= self@);
        stable_sorted(list)
    }

    /// Records a workspace this client uses from `now` on. A row of the same id
    /// is replaced; the existing owner of the same daemon record is kept.
    pub fn create_workspace(
        &mut self,
        workspace: AdeWorkspace,
        now: i64,
    ) -> (created: Result<(), RecordConflict>)
        requires
            old(self).wf(),
        ensures
            final(self).wf(),
            match with_workspace(
                old(self)@,
                RowView { workspace: workspace@, used_by_client_at: Some(now) },
            ) {
                Some(rows) => created is Ok && final(self)@ == rows,
                None => created is Err && final(self)@ == old(self)@,
            },
    {
        let row = StoredRow { workspace, used_by_client_at: Some(now) };
        let at = self.find(row.workspace.id.as_str());
        proof {
            lemma_position(self@, row@.workspace.id);
        }
        if at < self.rows.len() {
            self.replace(at, row)
        } else if self.has_collision(at, &row) {
            Ok(())
        } else {
            let ghost view = row@;
            proof {
                lemma_push_keeps_the_rules(self@, view);
            }
            self.rows.push(row);
            assert(self@ =~= old(self)@.push(view));
            Ok(())
        }
    }

    pub fn get_workspace(&self, id: &WorkspaceId) -> (workspace: Option<AdeWorkspace>)
        ensures
            workspace.deep_view() == workspace_of(self@, id@),
    {
        let at = self.find(id.as_str());
        if at < self.rows.len() {
            Some(self.rows[at].workspace.clone())
        } else {
            None
        }
    }

    /// When this client confirmed that it uses a workspace.
    pub fn used_by_client_at(&self, id: &WorkspaceId) -> (used: Option<i64>)
        ensures
            used == (match row_of(self@, id@) {
                Some(row) => row.used_by_client_at,
                None => None,
            }),
    {
        let at = self.find(id.as_str());
        if at < self.rows.len() {
            self.rows[at].used_by_client_at
        } else {
            None
        }
    }

    /// Every workspace, last opened first.
    pub fn list_workspaces(&self) -> (list: Vec<AdeWorkspace>)
        ensures
            lists(self@, any_row(), list.deep_view()),
    {
        self.listed(Kept::Any)
    }

    /// Every workspace of a project, last opened first.
    pub fn list_workspaces_for_project(&self, project_id: &str) -> (list: Vec<AdeWorkspace>)
        ensures
            lists(self@, rows_of_project(project_id@), list.deep_view()),
    {
        self.listed(Kept::Project(project_id))
    }

    /// The workspaces this client uses, last opened first.
    pub fn confirmed_workspaces(&self) -> (list: Vec<AdeWorkspace>)
        ensures
            lists(self@, used_rows(), list.deep_view()),
    {
        self.listed(Kept::Used)
    }

    /// The workspaces of a project this client uses, last opened first.
    pub fn confirmed_workspaces_for_project(&self, project_id: &str) -> (list: Vec<AdeWorkspace>)
        ensures
            lists(self@, used_rows_of_project(project_id@), list.deep_view()),
    {
        self.listed(Kept::UsedOfProject(project_id))
    }

    /// The quarantined workspaces, last opened first.
    pub fn unconfirmed_workspaces(&self) -> (list: Vec<AdeWorkspace>)
        ensures
            lists(self@, quarantined_rows(), list.deep_view()),
    {
        self.listed(Kept::Quarantined)
    }

    /// The quarantined workspaces a daemon of this identity may own, last
    /// opened first.
    pub fn promotion_candidates(&self, instance: Option<&str>) -> (list: Vec<AdeWorkspace>)
        ensures
            lists(self@, promotable_rows(instance.deep_view()), list.deep_view()),
    {
        self.listed(Kept::Promotable(instance))
    }

    pub fn update_status(&mut self, id: &WorkspaceId, status: WorkspaceStatus)
        requires
            old(self).wf(),
        ensures
            final(self).wf(),
            changed(old(self)@, id@, status_change(status)) == Some(final(self)@),
    {
        let at = self.find(id.as_str());
        proof {
            lemma_position(self@, id@);
        }
        if at < self.rows.len() {
            let mut row = self.copy_row(at);
            row.workspace.status = status;
            proof {
                lemma_same_record_key_is_free(self@, at as int, row@);
            }
            let replaced = self.replace(at, row);
            assert(replaced is Ok);
        }
    }

    /// Renames a workspace. The id is untouched: everything else is keyed by it.
    pub fn update_name(&mut self, id: &WorkspaceId, name: &str)
        requires
            old(self).wf(),
        ensures
            final(self).wf(),
            changed(old(self)@, id@, name_change(name@)) == Some(final(self)@),
    {
        let at = self.find(id.as_str());
        proof {
            lemma_position(self@, id@);
        }
        if at < self.rows.len() {
            let mut row = self.copy_row(at);
            row.workspace.name = name.to_owned();
            proof {
                lemma_same_record_key_is_free(self@, at as int, row@);
            }
            let replaced = self.replace(at, row);
            assert(replaced is Ok);
        }
    }

    /// Marks a workspace as opened at `last_opened_at`.
    pub fn update_last_opened_at(&mut self, id: &WorkspaceId, last_opened_at: i64)
        requires
            old(self).wf(),
        ensures
            final(self).wf(),
            changed(old(self)@, id@, opening_change(last_opened_at)) == Some(final(self)@),
    {
        let at = self.find(id.as_str());
        proof {
            lemma_position(self@, id@);
        }
        if at < self.rows.len() {
            let mut row = self.copy_row(at);
            row.workspace.last_opened_at = last_opened_at;
            proof {
                lemma_same_record_key_is_free(self@, at as int, row@);
            }
            let replaced = self.replace(at, row);
            assert(replaced is Ok);
        }
    }

    pub fn update_terminal_session_id(
        &mut self,
        id: &WorkspaceId,
        terminal_session_id: Option<&str>,
    ) -> (updated: Result<(), RecordConflict>)
        requires
            old(self).wf(),
        ensures
            final(self).wf(),
            wrote(
                old(self)@,
                final(self)@,
                updated,
                changed(old(self)@, id@, session_change(terminal_session_id.deep_view())),
            ),
    {
        let at = self.find(id.as_str());
        proof {
            lemma_position(self@, id@);
        }
        if at < self.rows.len() {
            let mut row = self.copy_row(at);
            row.workspace.terminal_session_id = text::owned(terminal_session_id);
            self.replace(at, row)
        } else {
            Ok(())
        }
    }

    pub fn update_terminal_session_and_daemon_id(
        &mut self,
        id: &WorkspaceId,
        terminal_session_id: Option<&str>,
        daemon_id: Option<&str>,
    ) -> (updated: Result<(), RecordConflict>)
        requires
            old(self).wf(),
        ensures
            final(self).wf(),
            wrote(
                old(self)@,
                final(self)@,
                updated,
                changed(
                    old(self)@,
                    id@,
                    session_and_daemon_change(
                        terminal_session_id.deep_view(),
                        daemon_id.deep_view(),
                    ),
                ),
            ),
    {
        let at = self.find(id.as_str());
        proof {
            lemma_position(self@, id@);
        }
        if at < self.rows.len() {
            let mut row = self.copy_row(at);
            row.workspace.terminal_session_id = text::owned(terminal_session_id);
            row.workspace.daemon_id = text::owned(daemon_id);
            self.replace(at, row)
        } else {
            Ok(())
        }
    }

    /// Both columns in one write: they are learned from one handshake.
    pub fn update_remote_host_and_daemon_id(
        &mut self,
        id: &WorkspaceId,
        remote_host: Option<&str>,
        daemon_id: Option<&str>,
    ) -> (updated: Result<(), RecordConflict>)
        requires
            old(self).wf(),
        ensures
            final(self).wf(),
            wrote(
                old(self)@,
                final(self)@,
                updated,
                changed(
                    old(self)@,
                    id@,
                    route_change(remote_host.deep_view(), daemon_id.deep_view()),
                ),
            ),
    {
        let at = self.find(id.as_str());
        proof {
            lemma_position(self@, id@);
        }
        if at < self.rows.len() {
            let mut row = self.copy_row(at);
            row.workspace.remote_host = text::owned(remote_host);
            row.workspace.daemon_id = text::owned(daemon_id);
            self.replace(at, row)
        } else {
            Ok(())
        }
    }

    /// Stops using a workspace without forgetting it.
    pub fn quarantine_workspace(&mut self, id: &WorkspaceId)
        requires
            old(self).wf(),
        ensures
            final(self).wf(),
            changed(old(self)@, id@, quarantine_change()) == Some(final(self)@),
    {
        let at = self.find(id.as_str());
        proof {
            lemma_position(self@, id@);
        }
        if at < self.rows.len() {
            let mut row = self.copy_row(at);
            row.used_by_client_at = None;
            let replaced = self.replace(at, row);
            assert(replaced is Ok);
        }
    }

    /// Takes a quarantined workspace into use, on a route and from `now` on.
    /// Answers whether there was one to take.
    pub fn confirm_workspace(
        &mut self,
        id: &WorkspaceId,
        remote_host: Option<&str>,
        daemon_id: Option<&str>,
        now: i64,
    ) -> (confirmed: Result<bool, RecordConflict>)
        requires
            old(self).wf(),
        ensures
            final(self).wf(),
            match row_of(old(self)@, id@) {
                Some(row) if row.used_by_client_at is None => match changed(
                    old(self)@,
                    id@,
                    confirmation(remote_host.deep_view(), daemon_id.deep_view(), now),
                ) {
                    Some(rows) => confirmed == Ok::<bool, RecordConflict>(true) && final(self)@
                        == rows,
                    None => confirmed is Err && final(self)@ == old(self)@,
                },
                _ => confirmed == Ok::<bool, RecordConflict>(false) && final(self)@ == old(self)@,
            },
    {
        let at = self.find(id.as_str());
        proof {
            lemma_position(self@, id@);
        }
        if at < self.rows.len() && self.rows[at].used_by_client_at.is_none() {
            let mut row = self.copy_row(at);
            row.workspace.remote_host = text::owned(remote_host);
            row.workspace.daemon_id = text::owned(daemon_id);
            row.workspace.last_opened_at = now;
            row.used_by_client_at = Some(now);
            match self.replace(at, row) {
                Ok(()) => Ok(true),
                Err(conflict) => Err(conflict),
            }
        } else {
            Ok(false)
        }
    }

    /// Moves a workspace to another route, provided it is still on the one the
    /// caller read. Answers whether it was.
    pub fn rebind_workspace_route(
        &mut self,
        id: &WorkspaceId,
        expected_host: Option<&str>,
        expected_daemon_id: Option<&str>,
        remote_host: Option<&str>,
        daemon_id: Option<&str>,
    ) -> (rebound: Result<bool, RecordConflict>)
        requires
            old(self).wf(),
        ensures
            final(self).wf(),
            match row_of(old(self)@, id@) {
                Some(row) if row.workspace.remote_host == expected_host.deep_view()
                    && row.workspace.daemon_id == expected_daemon_id.deep_view() => match changed(
                    old(self)@,
                    id@,
                    route_change(remote_host.deep_view(), daemon_id.deep_view()),
                ) {
                    Some(rows) => rebound == Ok::<bool, RecordConflict>(true) && final(self)@
                        == rows,
                    None => rebound is Err && final(self)@ == old(self)@,
                },
                _ => rebound == Ok::<bool, RecordConflict>(false) && final(self)@ == old(self)@,
            },
    {
        let at = self.find(id.as_str());
        proof {
            lemma_position(self@, id@);
        }
        if at < self.rows.len() && text::same_opt_text(
            text::borrowed(&self.rows[at].workspace.remote_host),
            expected_host,
        ) && text::same_opt_text(
            text::borrowed(&self.rows[at].workspace.daemon_id),
            expected_daemon_id,
        ) {
            let mut row = self.copy_row(at);
            row.workspace.remote_host = text::owned(remote_host);
            row.workspace.daemon_id = text::owned(daemon_id);
            match self.replace(at, row) {
                Ok(()) => Ok(true),
                Err(conflict) => Err(conflict),
            }
        } else {
            Ok(false)
        }
    }

    /// Writes a workspace's project at a revision. Answers whether the write
    /// took effect and with the workspace as it then stands, or `None` when
    /// there is no such workspace.
    pub fn update_project_scope(
        &mut self,
        id: &WorkspaceId,
        rev: u64,
        project_id: &str,
        project_identity: &str,
    ) -> (written: Option<(bool, AdeWorkspace)>)
        requires
            old(self).wf(),
        ensures
            final(self).wf(),
            match workspace_of(old(self)@, id@) {
                Some(before) => scope_write(
                    old(self)@,
                    final(self)@,
                    before,
                    before.repository_path,
                    rev,
                    project_id@,
                    project_identity@,
                    written,
                ),
                None => written is None && final(self)@ == old(self)@,
            },
    {
        match self.get_workspace(id) {
            Some(before) => self.update_repository_scope(
                id,
                before.repository_path.as_str(),
                rev,
                project_id,
                project_identity,
            ),
            None => None,
        }
    }

    /// [`AdeWorkspaceRegistry::update_project_scope`], with the checkout the
    /// project is rooted at.
    pub fn update_repository_scope(
        &mut self,
        id: &WorkspaceId,
        repository_path: &str,
        rev: u64,
        project_id: &str,
        project_identity: &str,
    ) -> (written: Option<(bool, AdeWorkspace)>)
        requires
            old(self).wf(),
        ensures
            final(self).wf(),
            match workspace_of(old(self)@, id@) {
                Some(before) => scope_write(
                    old(self)@,
                    final(self)@,
                    before,
                    repository_path@,
                    rev,
                    project_id@,
                    project_identity@,
                    written,
                ),
                None => written is None && final(self)@ == old(self)@,
            },
    {
        let at = self.find(id.as_str());
        proof {
            lemma_position(self@, id@);
        }
        if at == self.rows.len() {
            return None;
        }
        let mut row = self.copy_row(at);
        let applied = row.workspace.project_identity.is_none() || rev
            > row.workspace.project_scope_rev;
        if applied {
            row.workspace.repository_path = repository_path.to_owned();
            row.workspace.project_scope_rev = rev;
            row.workspace.project_id = project_id.to_owned();
            row.workspace.project_identity = Some(project_identity.to_owned());
        }
        let stored = row.workspace.clone();
        proof {
            lemma_same_record_key_is_free(self@, at as int, row@);
        }
        let replaced = self.replace(at, row);
        assert(replaced is Ok);
        Some((applied, stored))
    }

    pub fn delete_workspace(&mut self, id: &WorkspaceId)
        requires
            old(self).wf(),
        ensures
            final(self).wf(),
            final(self)@ == without(old(self)@, id@),
    {
        let at = self.find(id.as_str());
        proof {
            lemma_position(self@, id@);
        }
        if at < self.rows.len() {
            let ghost before = self@;
            self.rows.remove(at);
            proof {
                assert(self@ =~= before.remove(at as int));
                lemma_remove_keeps_the_rules(before, at as int);
            }
        }
    }
}

/// The table without the row of an id.
pub open spec fn without(rows: Seq<RowView>, id: Seq<char>) -> Seq<RowView> {
    let at = position(rows, id);
    if at < rows.len() {
        rows.remove(at)
    } else {
        rows
    }
}

/// What a refusable write did: what it should, or nothing.
pub open spec fn wrote(
    before: Seq<RowView>,
    after: Seq<RowView>,
    result: Result<(), RecordConflict>,
    owed: Option<Seq<RowView>>,
) -> bool {
    match owed {
        Some(rows) => result is Ok && after == rows,
        None => result is Err && after == before,
    }
}

pub open spec fn status_change(status: WorkspaceStatus) -> spec_fn(RowView) -> RowView {
    |row: RowView| RowView { workspace: WorkspaceView { status, ..row.workspace }, ..row }
}

pub open spec fn name_change(name: Seq<char>) -> spec_fn(RowView) -> RowView {
    |row: RowView| RowView { workspace: WorkspaceView { name, ..row.workspace }, ..row }
}

pub open spec fn opening_change(last_opened_at: i64) -> spec_fn(RowView) -> RowView {
    |row: RowView| RowView { workspace: WorkspaceView { last_opened_at, ..row.workspace }, ..row }
}

pub open spec fn quarantine_change() -> spec_fn(RowView) -> RowView {
    |row: RowView| RowView { used_by_client_at: None, ..row }
}

pub open spec fn session_change(session: Option<Seq<char>>) -> spec_fn(RowView) -> RowView {
    |row: RowView|
        RowView {
            workspace: WorkspaceView { terminal_session_id: session, ..row.workspace },
            ..row
        }
}

pub open spec fn session_and_daemon_change(
    session: Option<Seq<char>>,
    daemon: Option<Seq<char>>,
) -> spec_fn(RowView) -> RowView {
    |row: RowView|
        RowView {
            workspace: WorkspaceView {
                terminal_session_id: session,
                daemon_id: daemon,
                ..row.workspace
            },
            ..row
        }
}

pub open spec fn route_change(
    host: Option<Seq<char>>,
    daemon: Option<Seq<char>>,
) -> spec_fn(RowView) -> RowView {
    |row: RowView|
        RowView {
            workspace: WorkspaceView { remote_host: host, daemon_id: daemon, ..row.workspace },
            ..row
        }
}

/// A quarantined row taken into use.
pub open spec fn confirmation(
    host: Option<Seq<char>>,
    daemon: Option<Seq<char>>,
    now: i64,
) -> spec_fn(RowView) -> RowView {
    |row: RowView|
        RowView {
            workspace: WorkspaceView {
                remote_host: host,
                daemon_id: daemon,
                last_opened_at: now,
                ..row.workspace
            },
            used_by_client_at: Some(now),
        }
}

/// What a write of project columns did.
pub open spec fn scope_write(
    before: Seq<RowView>,
    after: Seq<RowView>,
    workspace: WorkspaceView,
    repository_path: Seq<char>,
    rev: u64,
    project_id: Seq<char>,
    project_identity: Seq<char>,
    written: Option<(bool, AdeWorkspace)>,
) -> bool {
    let at = position(before, workspace.id);
    let stored = with_scope(workspace, repository_path, rev, project_id, project_identity);
    &&& written matches Some((applied, result)) && applied == scope_applies(workspace, rev)
        && result@ == stored
    &&& after == before.update(at, RowView { workspace: stored, ..before[at] })
}

/// Deleting a row keeps the rules.
pub proof fn lemma_without_keeps_the_rules(rows: Seq<RowView>, id: Seq<char>)
    requires
        is_table(rows),
    ensures
        is_table(without(rows, id)),
{
    lemma_position(rows, id);
    if position(rows, id) < rows.len() {
        lemma_remove_keeps_the_rules(rows, position(rows, id));
    }
}

proof fn lemma_remove_keeps_the_rules(rows: Seq<RowView>, at: int)
    requires
        is_table(rows),
        0 <= at < rows.len(),
    ensures
        is_table(rows.remove(at)),
{
    let next = rows.remove(at);
    assert forall|i: int, j: int| 0 <= i < j < next.len() implies (
    #[trigger] next[i]).workspace.id != (#[trigger] next[j]).workspace.id && !next[i].same_record(
        next[j],
    ) by {
        let oi = if i < at {
            i
        } else {
            i + 1
        };
        let oj = if j < at {
            j
        } else {
            j + 1
        };
        assert(next[i] == rows[oi] && next[j] == rows[oj]);
    }
}

/// A write that leaves a row's claim to its record alone cannot be refused.
proof fn lemma_same_record_key_is_free(rows: Seq<RowView>, at: int, row: RowView)
    requires
        is_table(rows),
        0 <= at < rows.len(),
        row.owner() == rows[at].owner(),
        row.workspace.terminal_session_id == rows[at].workspace.terminal_session_id,
        row.used_by_client_at == rows[at].used_by_client_at,
    ensures
        !collides(rows, at, row),
{
    if collides(rows, at, row) {
        let k = choose|k: int|
            0 <= k < rows.len() && k != at && row.same_record(#[trigger] rows[k]);
        if k < at {
            assert(rows[k].same_record(rows[at]));
        } else {
            assert(rows[at].same_record(rows[k]));
        }
    }
}

/// Which of two rows for one record an upgrade keeps: one with a branch, then
/// the one opened later, then the one with the lower id.
pub open spec fn outlives(winner: WorkspaceView, victim: WorkspaceView) -> bool {
    ||| winner.branch is Some && victim.branch is None
    ||| (winner.branch is Some) == (victim.branch is Some) && winner.last_opened_at
        > victim.last_opened_at
    ||| (winner.branch is Some) == (victim.branch is Some) && winner.last_opened_at
        == victim.last_opened_at && text::text_before(winner.id, victim.id)
}

/// Whether two rows are duplicates from before daemons had names: both in use,
/// with one session on one host.
pub open spec fn duplicates(a: RowView, b: RowView) -> bool {
    &&& a.owns_a_record()
    &&& b.owns_a_record()
    &&& a.workspace.terminal_session_id == b.workspace.terminal_session_id
    &&& a.workspace.remote_host == b.workspace.remote_host
    &&& a.workspace.id != b.workspace.id
}

/// Whether an upgrade drops a row: a duplicate of it outlives it.
pub open spec fn superseded(rows: Seq<RowView>, row: RowView) -> bool {
    exists|k: int|
        0 <= k < rows.len() && duplicates(#[trigger] rows[k], row) && outlives(
            rows[k].workspace,
            row.workspace,
        )
}

/// The rows an upgrade keeps, in their order.
pub open spec fn without_duplicates(rows: Seq<RowView>) -> Seq<RowView> {
    rows.filter(|row: RowView| !superseded(rows, row))
}

fn does_outlive(winner: &AdeWorkspace, victim: &AdeWorkspace) -> (outlives_it: bool)
    ensures
        outlives_it == outlives(winner@, victim@),
{
    if winner.branch.is_some() != victim.branch.is_some() {
        return winner.branch.is_some();
    }
    winner.last_opened_at > victim.last_opened_at || (winner.last_opened_at
        == victim.last_opened_at && text::is_before(winner.id.as_str(), victim.id.as_str()))
}

fn is_superseded(rows: &Vec<StoredRow>, row: &StoredRow) -> (dropped: bool)
    ensures
        dropped == superseded(rows.deep_view(), row@),
{
    let mut k: usize = 0;
    while k < rows.len()
        invariant
            k <= rows.len(),
            forall|m: int|
                0 <= m < k ==> !(duplicates(#[trigger] rows.deep_view()[m], row@) && outlives(
                    rows.deep_view()[m].workspace,
                    row@.workspace,
                )),
        decreases rows.len() - k,
    {
        let other = &rows[k];
        assert(rows.deep_view()[k as int] == other@);
        if other.used_by_client_at.is_some() && other.workspace.terminal_session_id.is_some()
            && row.used_by_client_at.is_some() && row.workspace.terminal_session_id.is_some()
            && text::same_opt_text(
            text::borrowed(&other.workspace.terminal_session_id),
            text::borrowed(&row.workspace.terminal_session_id),
        ) && text::same_opt_text(
            text::borrowed(&other.workspace.remote_host),
            text::borrowed(&row.workspace.remote_host),
        ) && !other.workspace.id.is(&row.workspace.id) && does_outlive(
            &other.workspace,
            &row.workspace,
        ) {
            return true;
        }
        k = k + 1;
    }
    false
}

fn copy_rows(rows: &Vec<StoredRow>) -> (kept: Vec<StoredRow>)
    ensures
        kept.deep_view() == without_duplicates(rows.deep_view()),
{
    let mut kept: Vec<StoredRow> = Vec::new();
    let ghost all = rows.deep_view();
    let ghost keep = |row: RowView| !superseded(all, row);
    let mut i: usize = 0;
    assert(all.take(0).filter(keep) =~= Seq::<RowView>::empty()) by {
        reveal(Seq::filter);
    }
    while i < rows.len()
        invariant
            i <= rows.len(),
            all == rows.deep_view(),
            keep == (|row: RowView| !superseded(all, row)),
            kept.deep_view() == all.take(i as int).filter(keep),
        decreases rows.len() - i,
    {
        let ghost before = kept.deep_view();
        proof {
            reveal(Seq::filter);
            assert(all.take(i + 1).drop_last() =~= all.take(i as int));
            assert(all.take(i + 1).last() == rows[i as int]@);
        }
        if !is_superseded(rows, &rows[i]) {
            let row = StoredRow {
                workspace: rows[i].workspace.clone(),
                used_by_client_at: rows[i].used_by_client_at,
            };
            kept.push(row);
            assert(kept.deep_view() =~= before.push(row@));
        }
        i = i + 1;
    }
    assert(all.take(all.len() as int) =~= all);
    kept
}

impl AdeWorkspaceRegistry {
    /// The table over rows an earlier version stored. Its duplicates are
    /// collapsed first; rows that still share an id or a record are refused.
    pub fn open(rows: &Vec<StoredRow>) -> (opened: Result<Self, RecordConflict>)
        ensures
            opened is Ok <==> is_table(without_duplicates(rows.deep_view())),
            opened matches Ok(registry) ==> registry.wf() && registry@ == without_duplicates(
                rows.deep_view(),
            ),
    {
        let registry = AdeWorkspaceRegistry { rows: copy_rows(rows) };
        let mut i: usize = 0;
        while i < registry.rows.len()
            invariant
                i <= registry.rows.len(),
                forall|a: int, b: int|
                    0 <= a < b < registry@.len() && a < i ==> (
                    #[trigger] registry@[a]).workspace.id != (#[trigger] registry@[b]).workspace.id
                        && !registry@[a].same_record(registry@[b]),
                registry@ == without_duplicates(rows.deep_view()),
            decreases registry.rows.len() - i,
        {
            let mut j: usize = i + 1;
            while j < registry.rows.len()
                invariant
                    i < j <= registry.rows.len(),
                    registry@ == without_duplicates(rows.deep_view()),
                    forall|b: int|
                        i < b < j ==> registry@[i as int].workspace.id != (
                        #[trigger] registry@[b]).workspace.id && !registry@[i as int].same_record(
                            registry@[b],
                        ),
                decreases registry.rows.len() - j,
            {
                assert(registry@[i as int] == registry.rows[i as int]@);
                assert(registry@[j as int] == registry.rows[j as int]@);
                if registry.rows[i].workspace.id.is(&registry.rows[j].workspace.id)
                    || is_same_record(&registry.rows[i], &registry.rows[j]) {
                    return Err(RecordConflict);
                }
                j = j + 1;
            }
            i = i + 1;
        }
        Ok(registry)
    }
}

/// An upgrade leaves one row per session and host among the rows in use, so
/// long as their ids differ; what it keeps it does not alter.
pub proof fn law_one_survivor_per_session(rows: Seq<RowView>, a: int, b: int)
    requires
        0 <= a < without_duplicates(rows).len(),
        0 <= b < without_duplicates(rows).len(),
    ensures
        !duplicates(without_duplicates(rows)[a], without_duplicates(rows)[b]),
        rows.contains(without_duplicates(rows)[a]),
{
    let keep = |row: RowView| !superseded(rows, row);
    let kept = without_duplicates(rows);
    rows.lemma_filter_contains_rev(keep, kept[a]);
    rows.lemma_filter_contains_rev(keep, kept[b]);
    rows.lemma_filter_pred(keep, a);
    rows.lemma_filter_pred(keep, b);
    let (x, y) = (kept[a], kept[b]);
    if duplicates(x, y) {
        text::lemma_text_order(x.workspace.id, y.workspace.id, x.workspace.id);
        let ka = choose|k: int| 0 <= k < rows.len() && rows[k] == x;
        let kb = choose|k: int| 0 <= k < rows.len() && rows[k] == y;
        if outlives(x.workspace, y.workspace) {
            assert(duplicates(rows[ka], y));
        } else {
            assert(outlives(y.workspace, x.workspace));
            assert(duplicates(rows[kb], x));
        }
        assert(false);
    }
}

/// An upgrade never drops a quarantined row.
pub proof fn law_quarantined_rows_survive(rows: Seq<RowView>, k: int)
    requires
        0 <= k < rows.len(),
        rows[k].used_by_client_at is None,
    ensures
        without_duplicates(rows).contains(rows[k]),
{
    let keep = |row: RowView| !superseded(rows, row);
    rows.lemma_filter_contains(keep, k);
}

/// Recording a workspace under the id of a row replaces that row and no other.
pub proof fn law_same_id_replaces(rows: Seq<RowView>, row: RowView, k: int)
    requires
        is_table(rows),
        0 <= k < rows.len(),
        rows[k].workspace.id == row.workspace.id,
        !collides(rows, k, row),
    ensures
        with_workspace(rows, row) == Some(rows.update(k, row)),
{
    lemma_position_is(rows, row.workspace.id, k);
}

/// Recording a workspace whose record another row owns leaves that owner, and
/// every other row, as it was.
pub proof fn law_the_owner_survives(rows: Seq<RowView>, row: RowView, k: int)
    requires
        is_table(rows),
        0 <= k < rows.len(),
        row.same_record(rows[k]),
        forall|m: int| 0 <= m < rows.len() ==> (#[trigger] rows[m]).workspace.id
            != row.workspace.id,
    ensures
        with_workspace(rows, row) == Some(rows),
{
    lemma_position(rows, row.workspace.id);
    assert(collides(rows, position(rows, row.workspace.id), row));
}

/// A change of one row leaves every other row as it was.
pub proof fn law_a_change_is_local(
    rows: Seq<RowView>,
    id: Seq<char>,
    change: spec_fn(RowView) -> RowView,
    other: Seq<char>,
)
    requires
        is_table(rows),
        id != other,
        forall|row: RowView| (#[trigger] change(row)).workspace.id == row.workspace.id,
        changed(rows, id, change) is Some,
    ensures
        is_table(changed(rows, id, change)->0),
        row_of(changed(rows, id, change)->0, other) == row_of(rows, other),
{
    let after = changed(rows, id, change)->0;
    lemma_position(rows, id);
    lemma_position(rows, other);
    lemma_position(after, other);
    let at = position(rows, id);
    if at < rows.len() {
        lemma_update_keeps_the_rules(rows, at, change(rows[at]));
        let k = position(rows, other);
        if k < rows.len() {
            assert(after[k] == rows[k]);
            lemma_position_is(after, other, k);
        } else {
            let m = position(after, other);
            if m < after.len() {
                assert(after[m].workspace.id == other);
                assert(rows[m].workspace.id == other);
            }
        }
    }
}

/// What is written is what is read: after a row is changed, its id finds the
/// changed row.
pub proof fn law_a_change_is_read_back(
    rows: Seq<RowView>,
    id: Seq<char>,
    change: spec_fn(RowView) -> RowView,
)
    requires
        is_table(rows),
        row_of(rows, id) is Some,
        forall|row: RowView| (#[trigger] change(row)).workspace.id == row.workspace.id,
        changed(rows, id, change) is Some,
    ensures
        row_of(changed(rows, id, change)->0, id) == Some(change(row_of(rows, id)->0)),
{
    let after = changed(rows, id, change)->0;
    lemma_position(rows, id);
    let at = position(rows, id);
    lemma_update_keeps_the_rules(rows, at, change(rows[at]));
    lemma_position_is(after, id, at);
}

/// A deleted workspace is not found again, and no other is lost with it.
pub proof fn law_a_deletion_is_local(rows: Seq<RowView>, id: Seq<char>, other: Seq<char>)
    requires
        is_table(rows),
    ensures
        row_of(without(rows, id), id) is None,
        id != other ==> row_of(without(rows, id), other) == row_of(rows, other),
{
    lemma_position(rows, id);
    lemma_position(rows, other);
    let after = without(rows, id);
    lemma_position(after, id);
    lemma_position(after, other);
    let at = position(rows, id);
    if at < rows.len() {
        lemma_remove_keeps_the_rules(rows, at);
        let m = position(after, id);
        if m < after.len() {
            let k = if m < at {
                m
            } else {
                m + 1
            };
            assert(after[m] == rows[k]);
            assert(rows[k].workspace.id != rows[at].workspace.id);
        }
        if id != other {
            let k = position(rows, other);
            if k < rows.len() {
                let n = if k < at {
                    k
                } else {
                    k - 1
                };
                assert(after[n] == rows[k]);
                lemma_position_is(after, other, n);
            } else {
                let n = position(after, other);
                if n < after.len() {
                    let o = if n < at {
                        n
                    } else {
                        n + 1
                    };
                    assert(after[n] == rows[o]);
                    assert(rows[o].workspace.id == other);
                }
            }
        }
    } else if id != other {
    }
}

} // verus!
