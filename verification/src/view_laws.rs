//! Which window shows which workspace, and what a moved checkout changes of that.

use crate::paths;
use crate::workspace::WorkspaceView;
use crate::workspace_view;
use crate::workspace_view::{BindingView, BoundView, PollStep, ScopeWait};
use vstd::prelude::*;

verus! {

/// A worktree that is found has the path asked for, by whatever spelling, and
/// nothing before it has; none is found only where no worktree has it.
pub proof fn law_a_found_worktree_has_the_path(roots: Seq<(Seq<char>, u64)>, path: Seq<char>)
    ensures
        match workspace_view::worktree_at(roots, path) {
            Some(id) => exists|k: int|
                {
                    &&& 0 <= k < roots.len() && (#[trigger] roots[k]).1 == id
                    &&& paths::is_same(roots[k].0, path)
                    &&& forall|i: int| 0 <= i < k ==> !paths::is_same((#[trigger] roots[i]).0, path)
                },
            None => forall|k: int|
                0 <= k < roots.len() ==> !paths::is_same((#[trigger] roots[k]).0, path),
        },
    decreases roots.len(),
{
    if roots.len() > 0 {
        if paths::is_same(roots[0].0, path) {
            assert(roots[0].1 == roots[0].1);
        } else {
            let rest = roots.drop_first();
            law_a_found_worktree_has_the_path(rest, path);
            match workspace_view::worktree_at(rest, path) {
                Some(id) => {
                    let k = choose|k: int|
                        {
                            &&& 0 <= k < rest.len() && (#[trigger] rest[k]).1 == id
                            &&& paths::is_same(rest[k].0, path)
                            &&& forall|i: int|
                                0 <= i < k ==> !paths::is_same((#[trigger] rest[i]).0, path)
                        };
                    assert(roots[k + 1].1 == id);
                    assert forall|i: int| 0 <= i < k + 1 implies !paths::is_same(
                        (#[trigger] roots[i]).0,
                        path,
                    ) by {
                        if i > 0 {
                            assert(rest[i - 1] == roots[i]);
                        }
                    }
                },
                None => {
                    assert forall|k: int| 0 <= k < roots.len() implies !paths::is_same(
                        (#[trigger] roots[k]).0,
                        path,
                    ) by {
                        if k > 0 {
                            assert(rest[k - 1] == roots[k]);
                        }
                    }
                },
            }
        }
    }
}

/// A local workspace contributes its own checkout to the window. One on another
/// host contributes nothing, whatever is at its path here.
pub proof fn law_a_remote_checkout_is_not_a_local_one(workspace: WorkspaceView)
    ensures
        workspace.remote_host is None ==> workspace_view::contributed_path(workspace) == Some(
            workspace.repository_path,
        ),
        workspace.remote_host is Some ==> workspace_view::contributed_path(workspace) is None,
{
}

/// A window takes any local workspace. A remote one it takes exactly where its
/// project is on that host and has that checkout.
pub proof fn law_a_window_stays_in_its_scope(
    workspace: WorkspaceView,
    host: Option<Seq<char>>,
    roots: Seq<(Seq<char>, u64)>,
)
    ensures
        workspace_view::is_in_scope(workspace, host, roots) <==> workspace.remote_host is None || (
        host == workspace.remote_host && exists|k: int|
            0 <= k < roots.len() && paths::is_same(
                (#[trigger] roots[k]).0,
                workspace.repository_path,
            )),
{
    law_a_found_worktree_has_the_path(roots, workspace.repository_path);
}

/// A window that was named after a workspace shows that workspace: its id, its
/// checkout, its host, and the worktree that has the checkout.
pub proof fn law_a_window_shows_what_it_was_named_after(
    bound: BoundView,
    window: u64,
    workspace: WorkspaceView,
    worktree: Option<u64>,
)
    ensures
        ({
            let after = workspace_view::rebinding(bound, window, workspace, worktree);
            &&& workspace_view::binding_of(after.bindings, window) matches Some(shown)
            &&& shown.window == window && shown.id == workspace.id
            &&& shown.repository_path == workspace.repository_path && shown.remote_host
                == workspace.remote_host && shown.worktree_id == worktree
            &&& after.bindings.len() == bound.bindings.len() + (
            if workspace_view::binding_of(bound.bindings, window) is None {
                1nat
            } else {
                0nat
            })
        }),
{
    let bindings = bound.bindings;
    workspace_view::lemma_binding_at_bounds(bindings, window);
    let at = workspace_view::binding_at(bindings, window);
    let after = workspace_view::rebinding(bound, window, workspace, worktree).bindings;
    assert forall|k: int| 0 <= k < at implies (#[trigger] after[k]).window != window by {
        assert(after[k] == bindings[k]);
    }
    workspace_view::lemma_binding_at(after, window, at);
}

/// What something destructive acts on is the workspace the window shows, and only
/// where that is the very checkout acted on.
pub proof fn law_a_target_is_the_checkout_acted_on(
    bindings: Seq<BindingView>,
    window: u64,
    path: Seq<char>,
    host: Option<Seq<char>>,
)
    ensures
        match workspace_view::target_of(bindings, window, path, host) {
            Some(id) => exists|k: int|
                {
                    &&& 0 <= k < bindings.len()
                    &&& (#[trigger] bindings[k]).window == window && bindings[k].id == id
                    &&& paths::is_same(bindings[k].repository_path, path)
                    &&& bindings[k].remote_host == host
                },
            None => workspace_view::binding_of(bindings, window) matches Some(shown) ==> !(
            paths::is_same(shown.repository_path, path) && shown.remote_host == host),
        },
{
    workspace_view::lemma_binding_at_bounds(bindings, window);
    let at = workspace_view::binding_at(bindings, window);
    if at < bindings.len() {
        assert(bindings[at].window == window);
    }
}

/// A move is followed exactly where the window is bound to a worktree. What is
/// followed is that worktree, and nothing has outdated it yet.
pub proof fn law_a_move_follows_the_bound_worktree(bound: BoundView, window: u64)
    requires
        workspace_view::is_sound(bound),
        bound.generations.len() <= usize::MAX,
    ensures
        ({
            let (after, wait) = workspace_view::moving(bound, window);
            &&& after.bindings == bound.bindings
            &&& wait is Some <==> (workspace_view::binding_of(bound.bindings, window) matches Some(
                shown,
            ) && shown.worktree_id is Some)
            &&& wait matches Some(wait) ==> {
                &&& wait.window == window
                &&& workspace_view::binding_of(bound.bindings, window) matches Some(shown)
                &&& shown.worktree_id == Some(wait.worktree_id)
                &&& workspace_view::is_current(after, wait)
            }
            &&& wait is None ==> after == bound
        }),
{
    workspace_view::lemma_binding_at_bounds(bound.bindings, window);
}

/// Once the registry has followed a move, the window it was about is bound to the
/// new checkout, if it still shows that workspace and nothing outdated the move.
/// Otherwise nothing changes, and no other window is touched either way.
pub proof fn law_a_binding_follows_its_own_move(
    bound: BoundView,
    wait: ScopeWait,
    updated: WorkspaceView,
)
    requires
        workspace_view::is_sound(bound),
    ensures
        ({
            let after = workspace_view::following_move(bound, wait, updated);
            let is_its_own = workspace_view::binding_of(bound.bindings, wait.window) matches Some(
                shown,
            ) && shown.id == updated.id && shown.counter == wait.counter
                && workspace_view::is_current(bound, wait);
            &&& !is_its_own ==> after == bound
            &&& is_its_own ==> {
                &&& after.generations == bound.generations
                &&& after.bindings.len() == bound.bindings.len()
                &&& forall|k: int|
                    #![trigger after.bindings[k]]
                    0 <= k < bound.bindings.len() ==> after.bindings[k] == (
                    if bound.bindings[k].window == wait.window {
                        BindingView {
                            repository_path: updated.repository_path,
                            ..bound.bindings[k]
                        }
                    } else {
                        bound.bindings[k]
                    })
            }
        }),
{
    workspace_view::lemma_binding_at_bounds(bound.bindings, wait.window);
    let at = workspace_view::binding_at(bound.bindings, wait.window);
    let after = workspace_view::following_move(bound, wait, updated);
    if at < bound.bindings.len() {
        assert forall|k: int| 0 <= k < bound.bindings.len() && k != at implies (
        #[trigger] bound.bindings[k]).window != wait.window by {
            if k < at {
                assert(bound.bindings[k].window != bound.bindings[at].window);
            } else {
                assert(bound.bindings[at].window != bound.bindings[k].window);
            }
        }
        assert forall|k: int|
            #![trigger after.bindings[k]]
            0 <= k < bound.bindings.len() && k != at implies after.bindings[k]
            == bound.bindings[k] by {
            assert(bound.bindings[k].window != wait.window);
        }
    }
}

/// A move that was outdated is never written, and one that is current is written
/// as soon as its project is known. Until then it is asked again, and given up once
/// it has been waited for too long: whatever was given up after some time would
/// have been after any longer one, and it ends.
pub proof fn law_a_move_is_written_once_it_settles(
    is_current: bool,
    is_settled: bool,
    waited: u64,
    longer: u64,
)
    requires
        waited <= longer,
    ensures
        ({
            let step = workspace_view::poll_step(is_current, is_settled, waited);
            &&& step == PollStep::Abandon <==> !is_current
            &&& step == PollStep::Write <==> is_current && is_settled
            &&& step == PollStep::GiveUp ==> workspace_view::poll_step(
                is_current,
                is_settled,
                longer,
            ) == PollStep::GiveUp
            &&& step matches PollStep::WaitMillis(millis) ==> millis > 0
            &&& !(workspace_view::poll_step(is_current, is_settled, u64::MAX) is WaitMillis)
        }),
{
}

} // verus!
