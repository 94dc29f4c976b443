//! What opening a workspace does to the window around its terminal: which
//! checkout it contributes, which workspace a window is bound to, and how a
//! bound checkout that moves is followed.

use crate::entry::{Failure, FailureView};
use crate::paths;
use crate::text;
use crate::workspace::{AdeWorkspace, WorkspaceId, WorkspaceView};
use vstd::prelude::*;
use vstd::string::*;

verus! {

/// The path a workspace contributes to the window's project. A remote one
/// contributes nothing: its checkout is a path on another host, and some
/// unrelated directory here may share it.
pub open spec fn contributed_path(workspace: WorkspaceView) -> Option<Seq<char>> {
    if workspace.remote_host is Some {
        None
    } else {
        Some(workspace.repository_path)
    }
}

pub fn worktree_path(ade_workspace: &AdeWorkspace) -> (path: Option<&str>)
    ensures
        path.deep_view() == contributed_path(ade_workspace@),
{
    if ade_workspace.is_remote() {
        None
    } else {
        Some(ade_workspace.repository_path.as_str())
    }
}

/// The first worktree with this path.
pub open spec fn worktree_at(roots: Seq<(Seq<char>, u64)>, path: Seq<char>) -> Option<u64>
    decreases roots.len(),
{
    if roots.len() == 0 {
        None
    } else if paths::is_same(roots[0].0, path) {
        Some(roots[0].1)
    } else {
        worktree_at(roots.drop_first(), path)
    }
}

pub fn find_worktree(roots: &Vec<(String, u64)>, path: &str) -> (found: Option<u64>)
    ensures
        found == worktree_at(roots.deep_view(), path@),
{
    let ghost all = roots.deep_view();
    let mut i: usize = 0;
    assert(all.skip(0) =~= all);
    while i < roots.len()
        invariant
            i <= roots.len(),
            all == roots.deep_view(),
            worktree_at(all, path@) == worktree_at(all.skip(i as int), path@),
        decreases roots.len() - i,
    {
        proof {
            assert(all.skip(i as int)[0] == roots[i as int].deep_view());
            assert(all.skip(i as int).drop_first() =~= all.skip(i + 1));
        }
        if paths::same_path(roots[i].0.as_str(), path) {
            return Some(roots[i].1);
        }
        i = i + 1;
    }
    None
}

/// How a workspace's checkout comes to be a worktree of the window.
#[derive(Debug, PartialEq, Eq)]
pub enum EnsureWorktree {
    /// There is nothing to add.
    Nothing,
    /// An exact worktree is there already.
    Reuse(u64),
    /// It is added; a worktree that merely covers it does not do.
    Create(String),
}

pub fn ensure_repository_worktree(
    ade_workspace: &AdeWorkspace,
    roots: &Vec<(String, u64)>,
) -> (step: EnsureWorktree)
    ensures
        match contributed_path(ade_workspace@) {
            None => step is Nothing,
            Some(path) => match worktree_at(roots.deep_view(), path) {
                Some(id) => step == EnsureWorktree::Reuse(id),
                None => step matches EnsureWorktree::Create(added) && added@ == path,
            },
        },
{
    match worktree_path(ade_workspace) {
        None => EnsureWorktree::Nothing,
        Some(path) => match find_worktree(roots, path) {
            Some(id) => EnsureWorktree::Reuse(id),
            None => EnsureWorktree::Create(path.to_owned()),
        },
    }
}

/// A host, as a refusal names it.
pub open spec fn scope_host(host: Option<Seq<char>>) -> Seq<char> {
    match host {
        Some(host) => host,
        None => "a local host"@,
    }
}

fn host_text(host: Option<&str>) -> (shown: String)
    ensures
        shown@ == scope_host(host.deep_view()),
{
    match host {
        Some(host) => host.to_owned(),
        None => "a local host".to_owned(),
    }
}

/// A path as `std`'s `Debug` for `Path` shows it.
pub uninterp spec fn quoted(path: Seq<char>) -> Seq<char>;

/// Shows a path by `std`'s `Debug` for `Path`, which writes it in quotes and
/// escapes what would not show. The contract claims that the path alone decides
/// the text; which characters are escaped, and how, is left unsaid.
#[verifier::external_body]
fn quote(path: &str) -> (shown: String)
    ensures
        shown@ == quoted(path@),
{
    format!("{:?}", std::path::Path::new(path))
}

/// The paths of the worktrees, in quotes.
pub open spec fn quoted_roots(roots: Seq<(Seq<char>, u64)>) -> Seq<Seq<char>> {
    roots.map_values(|root: (Seq<char>, u64)| quoted(root.0))
}

fn list_roots(roots: &Vec<(String, u64)>) -> (list: Vec<String>)
    ensures
        list.deep_view() == quoted_roots(roots.deep_view()),
{
    let ghost all = roots.deep_view();
    let mut list: Vec<String> = Vec::new();
    let mut i: usize = 0;
    assert(list.deep_view() =~= quoted_roots(all.take(0)));
    while i < roots.len()
        invariant
            i <= roots.len(),
            all == roots.deep_view(),
            list.deep_view() == quoted_roots(all.take(i as int)),
        decreases roots.len() - i,
    {
        let ghost before = list.deep_view();
        let shown = quote(roots[i].0.as_str());
        list.push(shown);
        proof {
            assert(all[i as int] == roots[i as int].deep_view());
            assert(list.deep_view() =~= before.push(shown@));
            assert(quoted_roots(all.take(i + 1)) =~= quoted_roots(all.take(i as int)).push(
                quoted(all[i as int].0),
            ));
        }
        i = i + 1;
    }
    assert(all.take(all.len() as int) =~= all);
    list
}

/// Why a window cannot be bound to a remote workspace of another host or
/// checkout.
pub open spec fn out_of_scope(
    workspace: WorkspaceView,
    host: Option<Seq<char>>,
    roots: Seq<(Seq<char>, u64)>,
) -> FailureView {
    FailureView::Message(
        "workspace "@ + workspace.id + " belongs to "@ + scope_host(workspace.remote_host) + " at "@
            + workspace.repository_path + ", but this window is scoped to "@ + scope_host(host)
            + " at ["@ + text::join(quoted_roots(roots), ", "@) + "]"@,
    )
}

/// What a window shows: the workspace it was last opened onto.
pub struct Binding {
    window: u64,
    id: WorkspaceId,
    repository_path: String,
    remote_host: Option<String>,
    worktree_id: Option<u64>,
    /// The counter that outdates the moves of this binding.
    counter: usize,
}

/// What a [`Binding`] holds.
#[verifier::ext_equal]
pub struct BindingView {
    pub window: u64,
    pub id: Seq<char>,
    pub repository_path: Seq<char>,
    pub remote_host: Option<Seq<char>>,
    pub worktree_id: Option<u64>,
    pub counter: nat,
}

impl DeepView for Binding {
    type V = BindingView;

    closed spec fn deep_view(&self) -> BindingView {
        BindingView {
            window: self.window,
            id: self.id@,
            repository_path: self.repository_path@,
            remote_host: text::opt(self.remote_host),
            worktree_id: self.worktree_id,
            counter: self.counter as nat,
        }
    }
}

/// What [`BoundWorkspaces`] holds.
#[verifier::ext_equal]
pub struct BoundView {
    pub bindings: Seq<BindingView>,
    /// How often each binding's moves have been outdated.
    pub generations: Seq<u64>,
}

/// Which workspace each window is showing. The name in a header cannot say:
/// every workspace of a project that nobody renamed has the same one.
pub struct BoundWorkspaces {
    bindings: Vec<Binding>,
    generations: Vec<u64>,
}

impl View for BoundWorkspaces {
    type V = BoundView;

    closed spec fn view(&self) -> BoundView {
        BoundView { bindings: self.bindings.deep_view(), generations: self.generations@ }
    }
}

/// Where a window's binding is; the number of bindings when it has none.
pub open spec fn binding_at(bindings: Seq<BindingView>, window: u64) -> int
    decreases bindings.len(),
{
    if bindings.len() == 0 || bindings[0].window == window {
        0
    } else {
        1 + binding_at(bindings.drop_first(), window)
    }
}

/// A window's binding.
pub open spec fn binding_of(bindings: Seq<BindingView>, window: u64) -> Option<BindingView> {
    let at = binding_at(bindings, window);
    if at < bindings.len() {
        Some(bindings[at])
    } else {
        None
    }
}

pub proof fn lemma_binding_at(bindings: Seq<BindingView>, window: u64, n: int)
    requires
        0 <= n <= bindings.len(),
        forall|k: int| 0 <= k < n ==> (#[trigger] bindings[k]).window != window,
        n < bindings.len() ==> bindings[n].window == window,
    ensures
        binding_at(bindings, window) == n,
    decreases bindings.len(),
{
    if bindings.len() > 0 && bindings[0].window != window {
        let rest = bindings.drop_first();
        assert forall|k: int| 0 <= k < n - 1 implies (#[trigger] rest[k]).window != window by {
            assert(rest[k] == bindings[k + 1]);
        }
        lemma_binding_at(rest, window, n - 1);
    }
}

pub proof fn lemma_binding_at_bounds(bindings: Seq<BindingView>, window: u64)
    ensures
        0 <= binding_at(bindings, window) <= bindings.len(),
        binding_at(bindings, window) < bindings.len() ==> bindings[binding_at(
            bindings,
            window,
        )].window == window,
        forall|k: int|
            0 <= k < binding_at(bindings, window) ==> (#[trigger] bindings[k]).window != window,
    decreases bindings.len(),
{
    if bindings.len() > 0 && bindings[0].window != window {
        let rest = bindings.drop_first();
        lemma_binding_at_bounds(rest, window);
        assert forall|k: int| 0 <= k < binding_at(bindings, window) implies (
        #[trigger] bindings[k]).window != window by {
            if k > 0 {
                assert(rest[k - 1] == bindings[k]);
            }
        }
    }
}

/// A move of a bound checkout that is being followed.
#[derive(Clone, Copy, Debug, PartialEq, Eq, Structural)]
pub struct ScopeWait {
    pub window: u64,
    pub worktree_id: u64,
    pub counter: usize,
    pub revision: u64,
}

/// Whether nothing has outdated a move.
pub open spec fn is_current(bound: BoundView, wait: ScopeWait) -> bool {
    wait.counter < bound.generations.len() && bound.generations[wait.counter as int]
        == wait.revision
}

/// Whether no window has two bindings, and each binding has a counter of its
/// own.
pub open spec fn is_sound(bound: BoundView) -> bool {
    &&& forall|i: int, j: int|
        0 <= i < j < bound.bindings.len() ==> (#[trigger] bound.bindings[i]).window != (
        #[trigger] bound.bindings[j]).window
    &&& forall|i: int|
        0 <= i < bound.bindings.len() ==> (#[trigger] bound.bindings[i]).counter
            < bound.generations.len()
    &&& forall|i: int, j: int|
        0 <= i < j < bound.bindings.len() ==> (#[trigger] bound.bindings[i]).counter != (
        #[trigger] bound.bindings[j]).counter
}

/// One more outdating of a binding's moves.
pub open spec fn outdating(generations: Seq<u64>, counter: int) -> Seq<u64> {
    generations.update(counter, generations[counter].wrapping_add(1))
}

/// What a window shows once it is bound to a workspace.
pub open spec fn new_binding(
    bound: BoundView,
    window: u64,
    workspace: WorkspaceView,
    worktree: Option<u64>,
) -> BindingView {
    BindingView {
        window,
        id: workspace.id,
        repository_path: workspace.repository_path,
        remote_host: workspace.remote_host,
        worktree_id: worktree,
        counter: bound.generations.len(),
    }
}

/// Binds a window to a workspace, in the place of what it showed, whose moves
/// are outdated.
pub open spec fn rebinding(
    bound: BoundView,
    window: u64,
    workspace: WorkspaceView,
    worktree: Option<u64>,
) -> BoundView {
    let at = binding_at(bound.bindings, window);
    let binding = new_binding(bound, window, workspace, worktree);
    if at < bound.bindings.len() {
        BoundView {
            bindings: bound.bindings.update(at, binding),
            generations: outdating(bound.generations, bound.bindings[at].counter as int).push(0),
        }
    } else {
        BoundView {
            bindings: bound.bindings.push(binding),
            generations: bound.generations.push(0),
        }
    }
}

/// Forgets what a window shows.
pub open spec fn clearing(bound: BoundView, window: u64) -> BoundView {
    let at = binding_at(bound.bindings, window);
    BoundView {
        bindings: if at < bound.bindings.len() {
            bound.bindings.remove(at)
        } else {
            bound.bindings
        },
        ..bound
    }
}

/// Follows a move of a window's checkouts, where the window is bound to one of
/// them. Its earlier moves are outdated.
pub open spec fn moving(bound: BoundView, window: u64) -> (BoundView, Option<ScopeWait>) {
    match binding_of(bound.bindings, window) {
        Some(binding) => match binding.worktree_id {
            Some(worktree_id) => {
                let generations = outdating(bound.generations, binding.counter as int);
                (
                    BoundView { generations, ..bound },
                    Some(
                        ScopeWait {
                            window,
                            worktree_id,
                            counter: binding.counter as usize,
                            revision: generations[binding.counter as int],
                        },
                    ),
                )
            },
            None => (bound, None),
        },
        None => (bound, None),
    }
}

/// The bindings after the registry followed a move: that of the window the move was
/// about follows too, if it is still the one.
pub open spec fn following_move(
    bound: BoundView,
    wait: ScopeWait,
    updated: WorkspaceView,
) -> BoundView {
    let at = binding_at(bound.bindings, wait.window);
    if at < bound.bindings.len() && bound.bindings[at].id == updated.id && bound.bindings[at].counter
        == wait.counter && is_current(bound, wait) {
        BoundView {
            bindings: bound.bindings.update(
                at,
                BindingView {
                    repository_path: updated.repository_path,
                    ..bound.bindings[at]
                },
            ),
            ..bound
        }
    } else {
        bound
    }
}

/// Whether a window whose project is on a host, with these worktrees, can be bound
/// to a workspace.
pub open spec fn is_in_scope(
    workspace: WorkspaceView,
    host: Option<Seq<char>>,
    roots: Seq<(Seq<char>, u64)>,
) -> bool {
    workspace.remote_host is None || (host == workspace.remote_host && worktree_at(
        roots,
        workspace.repository_path,
    ) is Some)
}

/// The workspace a window shows, where it is the checkout acted on.
pub open spec fn target_of(
    bindings: Seq<BindingView>,
    window: u64,
    path: Seq<char>,
    host: Option<Seq<char>>,
) -> Option<Seq<char>> {
    match binding_of(bindings, window) {
        Some(binding) => if paths::is_same(binding.repository_path, path) && binding.remote_host
            == host {
            Some(binding.id)
        } else {
            None
        },
        None => None,
    }
}

/// The project a checkout belongs to, once it is known.
#[derive(Debug, PartialEq, Eq)]
pub struct Scope {
    pub repository_path: String,
    pub project_id: String,
    pub project_identity: String,
}

/// What is known of a moved checkout: nothing until the project's identity has
/// settled, the worktree is still there, and the identity is not empty.
pub fn settled_scope(
    identity_is_known: bool,
    repository_path: Option<String>,
    project_id: String,
    project_identity: String,
) -> (scope: Option<Scope>)
    ensures
        match scope {
            Some(scope) => {
                &&& identity_is_known
                &&& text::opt(repository_path) == Some(scope.repository_path@)
                &&& scope.project_id@ == project_id@
                &&& scope.project_identity@ == project_identity@
                &&& project_identity@.len() > 0
            },
            None => !identity_is_known || repository_path is None || project_identity@.len() == 0,
        },
{
    if !identity_is_known || project_identity.as_str().is_empty() {
        return None;
    }
    match repository_path {
        Some(repository_path) => Some(Scope { repository_path, project_id, project_identity }),
        None => None,
    }
}

/// What to do next about a move.
#[derive(Clone, Copy, Debug, PartialEq, Eq, Structural)]
pub enum PollStep {
    /// Nothing: it has been outdated.
    Abandon,
    /// The project is known, and can be written.
    Write,
    /// Nothing: it has not settled in time.
    GiveUp,
    /// Ask again after so many milliseconds.
    WaitMillis(u64),
}

/// What to do next about a move that is current or not, settled or not, and has
/// been waited for so many milliseconds.
pub open spec fn poll_step(is_current: bool, is_settled: bool, waited_millis: u64) -> PollStep {
    if !is_current {
        PollStep::Abandon
    } else if is_settled {
        PollStep::Write
    } else if waited_millis >= 120_000 {
        PollStep::GiveUp
    } else {
        PollStep::WaitMillis(250)
    }
}

/// The first binding of a window registers what ends it.
#[derive(Debug, PartialEq, Eq)]
pub struct Bound {
    /// What the header says: the workspace's name.
    pub title: String,
    pub is_first: bool,
}

impl BoundWorkspaces {
    /// What always holds.
    pub closed spec fn wf(&self) -> bool {
        is_sound(self@)
    }

    pub fn new() -> (bound: Self)
        ensures
            bound.wf(),
            bound@ == (BoundView { bindings: Seq::empty(), generations: Seq::empty() }),
    {
        let bound = BoundWorkspaces { bindings: Vec::new(), generations: Vec::new() };
        assert(bound@.bindings =~= Seq::<BindingView>::empty());
        bound
    }

    fn find(&self, window: u64) -> (at: usize)
        ensures
            at == binding_at(self@.bindings, window),
            at <= self@.bindings.len(),
            self@.bindings.len() == self.bindings.len(),
            at < self@.bindings.len() ==> self@.bindings[at as int].window == window,
    {
        let ghost all = self@.bindings;
        let mut at: usize = 0;
        while at < self.bindings.len() && self.bindings[at].window != window
            invariant
                at <= self.bindings.len(),
                all == self.bindings.deep_view(),
                forall|k: int| 0 <= k < at ==> (#[trigger] all[k]).window != window,
            decreases self.bindings.len() - at,
        {
            assert(all[at as int] == self.bindings[at as int].deep_view());
            at = at + 1;
        }
        proof {
            if at < self.bindings.len() {
                assert(all[at as int] == self.bindings[at as int].deep_view());
            }
            lemma_binding_at(all, window, at as int);
        }
        at
    }

    /// The workspace a window was last opened onto.
    pub fn bound_workspace(&self, window: u64) -> (id: Option<&WorkspaceId>)
        ensures
            id.deep_view() == (match binding_of(self@.bindings, window) {
                Some(binding) => Some(binding.id),
                None => None,
            }),
    {
        let at = self.find(window);
        if at < self.bindings.len() {
            assert(self@.bindings[at as int] == self.bindings[at as int].deep_view());
            Some(&self.bindings[at].id)
        } else {
            None
        }
    }

    /// The bound workspace, only when it is the exact worktree acted on. A
    /// window can show several checkouts, so its binding alone is not enough to
    /// pick the target of something destructive.
    pub fn bound_workspace_for_worktree(
        &self,
        window: u64,
        repository_path: &str,
        remote_host: Option<&str>,
    ) -> (id: Option<&WorkspaceId>)
        ensures
            id.deep_view() == target_of(
                self@.bindings,
                window,
                repository_path@,
                remote_host.deep_view(),
            ),
    {
        let at = self.find(window);
        if at < self.bindings.len() {
            let binding = &self.bindings[at];
            assert(self@.bindings[at as int] == binding.deep_view());
            if paths::same_path(binding.repository_path.as_str(), repository_path)
                && text::same_opt_text(text::borrowed(&binding.remote_host), remote_host) {
                Some(&binding.id)
            } else {
                None
            }
        } else {
            None
        }
    }

    /// A window shows nothing any more.
    pub fn clear_window_binding(&mut self, window: u64)
        requires
            old(self).wf(),
        ensures
            final(self).wf(),
            final(self)@ == clearing(old(self)@, window),
            binding_of(final(self)@.bindings, window) is None,
    {
        let ghost before = self@.bindings;
        let at = self.find(window);
        proof {
            lemma_binding_at_bounds(before, window);
        }
        if at < self.bindings.len() {
            let _ = self.bindings.remove(at);
            assert(self@.bindings =~= before.remove(at as int));
        }
        proof {
            lemma_binding_at_bounds(self@.bindings, window);
            let left = binding_at(self@.bindings, window);
            if left < self@.bindings.len() {
                if at < before.len() {
                    let k = if left < at {
                        left
                    } else {
                        left + 1
                    };
                    assert(self@.bindings[left] == before[k]);
                    assert(before[k].window == before[at as int].window);
                }
            }
        }
    }

    /// Binds a window to a workspace and names it after the workspace.
    ///
    /// `host` and `roots` are what the window's project is scoped to; a remote
    /// workspace of another host or checkout does not take the window over.
    pub fn name_window_after_workspace(
        &mut self,
        window: u64,
        ade_workspace: &AdeWorkspace,
        host: Option<&str>,
        roots: &Vec<(String, u64)>,
    ) -> (named: Result<Bound, Failure>)
        requires
            old(self).wf(),
        ensures
            final(self).wf(),
            ({
                let workspace = ade_workspace@;
                let worktree = worktree_at(roots.deep_view(), workspace.repository_path);
                let before = old(self)@;
                if !is_in_scope(workspace, host.deep_view(), roots.deep_view()) {
                    &&& final(self)@ == before
                    &&& named matches Err(failure) && failure@ == out_of_scope(
                        workspace,
                        host.deep_view(),
                        roots.deep_view(),
                    )
                } else {
                    &&& named matches Ok(bound) && bound.title@ == workspace.name
                        && bound.is_first == (binding_of(before.bindings, window) is None)
                    &&& final(self)@ == rebinding(before, window, workspace, worktree)
                    &&& binding_of(final(self)@.bindings, window) == Some(
                        new_binding(before, window, workspace, worktree),
                    )
                }
            }),
    {
        let worktree_id = find_worktree(roots, ade_workspace.repository_path.as_str());
        if ade_workspace.is_remote() && !(text::same_opt_text(
            host,
            text::borrowed(&ade_workspace.remote_host),
        ) && worktree_id.is_some()) {
            return Err(refuse_scope(ade_workspace, host, roots));
        }
        let ghost before = self@;
        let at = self.find(window);
        proof {
            lemma_binding_at_bounds(before.bindings, window);
        }
        let binding = Binding {
            window,
            id: ade_workspace.id.clone(),
            repository_path: ade_workspace.repository_path.clone(),
            remote_host: text::owned(text::borrowed(&ade_workspace.remote_host)),
            worktree_id,
            counter: self.generations.len(),
        };
        let ghost shown = binding.deep_view();
        let is_first = at == self.bindings.len();
        if is_first {
            self.bindings.push(binding);
            assert(self@.bindings =~= before.bindings.push(shown));
        } else {
            let counter = self.bindings[at].counter;
            assert(before.bindings[at as int] == self.bindings[at as int].deep_view());
            let outdated = self.generations[counter].wrapping_add(1);
            self.generations[counter] = outdated;
            self.bindings[at] = binding;
            assert(self@.bindings =~= before.bindings.update(at as int, shown));
        }
        self.generations.push(0);
        proof {
            lemma_binding_at(self@.bindings, window, at as int);
        }
        Ok(Bound { title: ade_workspace.name.clone(), is_first })
    }

    /// The checkouts of a window's project moved: what to follow, where the
    /// window is bound to one of them. Every earlier move is outdated.
    pub fn worktree_moved(&mut self, window: u64) -> (wait: Option<ScopeWait>)
        requires
            old(self).wf(),
        ensures
            final(self).wf(),
            (final(self)@, wait) == moving(old(self)@, window),
            wait matches Some(wait) ==> is_current(final(self)@, wait),
    {
        let at = self.find(window);
        if at == self.bindings.len() {
            return None;
        }
        let binding = &self.bindings[at];
        assert(self@.bindings[at as int] == binding.deep_view());
        let worktree_id = match binding.worktree_id {
            Some(worktree_id) => worktree_id,
            None => {
                return None;
            },
        };
        let counter = binding.counter;
        let revision = self.generations[counter].wrapping_add(1);
        let ghost kept = self@.bindings;
        self.generations[counter] = revision;
        assert(self@.bindings =~= kept);
        Some(ScopeWait { window, worktree_id, counter, revision })
    }

    /// Whether nothing has outdated a move.
    pub fn may_write(&self, wait: ScopeWait) -> (current: bool)
        ensures
            current == is_current(self@, wait),
    {
        wait.counter < self.generations.len() && self.generations[wait.counter] == wait.revision
    }

    /// What to do next about a move: whether its project is known by now, and
    /// how long it has been waited for.
    pub fn poll(&self, wait: ScopeWait, is_settled: bool, waited_millis: u64) -> (step: PollStep)
        ensures
            step == poll_step(is_current(self@, wait), is_settled, waited_millis),
    {
        if !self.may_write(wait) {
            PollStep::Abandon
        } else if is_settled {
            PollStep::Write
        } else if waited_millis >= 120_000 {
            PollStep::GiveUp
        } else {
            PollStep::WaitMillis(250)
        }
    }

    /// The registry followed a move: the binding follows too, if it is still
    /// the one the move was about.
    pub fn scope_written(&mut self, wait: ScopeWait, updated: &AdeWorkspace)
        requires
            old(self).wf(),
        ensures
            final(self).wf(),
            final(self)@ == following_move(old(self)@, wait, updated@),
    {
        let ghost before = self@.bindings;
        let at = self.find(wait.window);
        if at < self.bindings.len() {
            assert(before[at as int] == self.bindings[at as int].deep_view());
            if self.bindings[at].id.is(&updated.id) && self.bindings[at].counter == wait.counter
                && self.may_write(wait) {
                let binding = Binding {
                    window: self.bindings[at].window,
                    id: self.bindings[at].id.clone(),
                    repository_path: updated.repository_path.clone(),
                    remote_host: text::owned(text::borrowed(&self.bindings[at].remote_host)),
                    worktree_id: self.bindings[at].worktree_id,
                    counter: self.bindings[at].counter,
                };
                let ghost shown = binding.deep_view();
                self.bindings[at] = binding;
                assert(self@.bindings =~= before.update(at as int, shown));
            }
        }
    }
}

fn refuse_scope(
    ade_workspace: &AdeWorkspace,
    host: Option<&str>,
    roots: &Vec<(String, u64)>,
) -> (failure: Failure)
    ensures
        failure@ == out_of_scope(ade_workspace@, host.deep_view(), roots.deep_view()),
{
    let own = host_text(text::borrowed(&ade_workspace.remote_host));
    let whose = text::joined3("workspace ", ade_workspace.id.as_str(), " belongs to ");
    let whose = text::joined3(whose.as_str(), own.as_str(), " at ");
    let whose = text::joined3(
        whose.as_str(),
        ade_workspace.repository_path.as_str(),
        ", but this window is scoped to ",
    );
    let list = list_roots(roots);
    let other = text::joined3(whose.as_str(), host_text(host).as_str(), " at [");
    Failure::Message(
        text::joined3(other.as_str(), text::joined_with(&list, ", ").as_str(), "]"),
    )
}

proof fn lemma_binding_kept(before: Seq<BindingView>, after: Seq<BindingView>, window: u64)
    requires
        before.len() <= after.len(),
        forall|k: int|
            0 <= k < before.len() ==> (#[trigger] before[k]).window == after[k].window,
        binding_at(before, window) < before.len(),
    ensures
        binding_at(after, window) == binding_at(before, window),
{
    lemma_binding_at_bounds(before, window);
    let at = binding_at(before, window);
    assert(before[at].window == after[at].window);
    assert forall|k: int| 0 <= k < at implies (#[trigger] after[k]).window != window by {
        assert(before[k].window == after[k].window);
    }
    lemma_binding_at(after, window, at);
}

/// Once the checkouts of a window have moved again, its earlier move is neither
/// waited for nor written.
pub proof fn law_a_later_move_outdates_the_earlier(bound: BoundView, window: u64, wait: ScopeWait)
    requires
        is_current(bound, wait),
        binding_of(bound.bindings, window) matches Some(binding) && binding.counter == wait.counter
            && binding.worktree_id is Some,
    ensures
        !is_current(moving(bound, window).0, wait),
{
}

/// Once a window shows another workspace, no move of what it showed before is
/// waited for or written.
pub proof fn law_a_new_binding_outdates_the_moves(
    bound: BoundView,
    window: u64,
    workspace: WorkspaceView,
    worktree: Option<u64>,
    wait: ScopeWait,
)
    requires
        is_current(bound, wait),
        binding_of(bound.bindings, window) matches Some(binding) && binding.counter
            == wait.counter,
    ensures
        !is_current(rebinding(bound, window, workspace, worktree), wait),
{
    lemma_binding_at_bounds(bound.bindings, window);
    let at = binding_at(bound.bindings, window);
    let generations = outdating(bound.generations, bound.bindings[at].counter as int);
    assert(generations.push(0)[wait.counter as int] == generations[wait.counter as int]);
}

/// What happens to one window leaves the others alone: each shows what it
/// showed, and what it is waiting for is still waited for.
pub proof fn law_a_window_answers_for_itself(
    bound: BoundView,
    window: u64,
    other: u64,
    workspace: WorkspaceView,
    worktree: Option<u64>,
    wait: ScopeWait,
)
    requires
        is_sound(bound),
        other != window,
        binding_of(bound.bindings, other) matches Some(binding) && binding.counter == wait.counter,
        is_current(bound, wait),
    ensures
        ({
            let moved = moving(bound, window).0;
            let rebound = rebinding(bound, window, workspace, worktree);
            let cleared = clearing(bound, window);
            let shown = binding_of(bound.bindings, other);
            &&& binding_of(moved.bindings, other) == shown
            &&& binding_of(rebound.bindings, other) == shown
            &&& binding_of(cleared.bindings, other) == shown
            &&& is_current(moved, wait)
            &&& is_current(rebound, wait)
            &&& is_current(cleared, wait)
        }),
{
    let bindings = bound.bindings;
    lemma_binding_at_bounds(bindings, window);
    lemma_binding_at_bounds(bindings, other);
    let at = binding_at(bindings, window);
    let place = binding_at(bindings, other);
    if at < bindings.len() {
        assert(at != place);
        assert(bindings[at].counter != bindings[place].counter);
        let rebound = rebinding(bound, window, workspace, worktree);
        lemma_binding_kept(bindings, rebound.bindings, other);
        let left = bindings.remove(at);
        let kept = if place < at {
            place
        } else {
            place - 1
        };
        assert(left[kept] == bindings[place]);
        assert forall|k: int| 0 <= k < kept implies (#[trigger] left[k]).window != other by {
            if k < at {
                assert(left[k] == bindings[k]);
            } else {
                assert(left[k] == bindings[k + 1]);
            }
        }
        lemma_binding_at(left, other, kept);
    } else {
        lemma_binding_kept(
            bindings,
            rebinding(bound, window, workspace, worktree).bindings,
            other,
        );
    }
}

} // verus!
