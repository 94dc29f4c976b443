//! What opening, renaming and losing a workspace lead to in the window.

use crate::disconnected_overlay;
use crate::disconnected_overlay::{HostView, OverlayStep};
use crate::entry::FailureView;
use crate::rename_workspace_modal;
use crate::rename_workspace_modal::{ConfirmView, ModalView};
use crate::session_backend::AttachedView;
use crate::terminal_pane;
use crate::terminal_pane::OpenStepView;
use crate::text;
use crate::workspace::WorkspaceView;
use vstd::prelude::*;

verus! {

/// What is run to get onto a session is the argv as it came, word for word, under
/// the title and in the directory given, in a tab that names the session. Only an
/// empty argv is refused.
pub proof fn law_a_terminal_runs_the_argv_as_it_came(
    session: Seq<char>,
    title: Seq<char>,
    cwd: Option<Seq<char>>,
    argv: Seq<Seq<char>>,
)
    ensures
        match terminal_pane::spawn_of(session, title, cwd, argv) {
            Ok(task) => {
                &&& task.command matches Some(command)
                &&& seq![command] + task.args == argv
                &&& task.label == title && task.full_label == title && task.cwd == cwd
                &&& terminal_pane::task_session(task.id) == Some(session)
                &&& !task.show_summary && !task.show_command && !task.show_rerun
            },
            Err(_) => argv.len() == 0,
        },
        argv.len() == 0 ==> terminal_pane::spawn_of(session, title, cwd, argv) is Err,
{
    terminal_pane::law_a_task_id_names_its_session(session, session);
    if argv.len() > 0 {
        assert(seq![argv[0]] + argv.drop_first() =~= argv);
    }
}

/// A local workspace's terminal starts in its own checkout; a remote one's starts
/// in no directory of this machine. Either is on the session attached to, under
/// the workspace's name.
pub proof fn law_a_terminal_starts_where_its_workspace_is(
    workspace: WorkspaceView,
    attached: AttachedView,
)
    ensures
        terminal_pane::attach_spawn(workspace, attached) matches Ok(task) ==> {
            &&& workspace.remote_host is None ==> task.cwd == Some(workspace.repository_path)
            &&& workspace.remote_host is Some ==> task.cwd is None
            &&& task.label == workspace.name
            &&& terminal_pane::task_session(task.id) == Some(attached.session_id)
            &&& task.command == Some(attached.argv[0])
        },
        terminal_pane::attach_spawn(workspace, attached) is Ok <==> attached.argv.len() > 0,
{
    terminal_pane::law_a_task_id_names_its_session(attached.session_id, attached.session_id);
}

proof fn lemma_view_of(open: Seq<(Seq<char>, u64)>, id: Seq<char>)
    ensures
        match terminal_pane::view_of(open, id) {
            Some(view) => open.contains((id, view)),
            None => forall|k: int| 0 <= k < open.len() ==> (#[trigger] open[k]).0 != id,
        },
    decreases open.len(),
{
    if open.len() > 0 {
        if open[0].0 == id {
            assert(open[0] == (id, open[0].1));
        } else {
            let rest = open.drop_first();
            lemma_view_of(rest, id);
            match terminal_pane::view_of(rest, id) {
                Some(view) => {
                    let k = choose|k: int| 0 <= k < rest.len() && rest[k] == (id, view);
                    assert(open[k + 1] == (id, view));
                },
                None => {
                    assert forall|k: int| 0 <= k < open.len() implies (
                    #[trigger] open[k]).0 != id by {
                        if k > 0 {
                            assert(rest[k - 1] == open[k]);
                        }
                    }
                },
            }
        }
    }
}

proof fn lemma_view_pushed(open: Seq<(Seq<char>, u64)>, last: (Seq<char>, u64), id: Seq<char>)
    ensures
        terminal_pane::view_of(open.push(last), id) == (match terminal_pane::view_of(open, id) {
            Some(view) => Some(view),
            None => if last.0 == id {
                Some(last.1)
            } else {
                None
            },
        }),
    decreases open.len(),
{
    let all = open.push(last);
    if open.len() == 0 {
        assert(all[0] == last);
        assert(all.drop_first() =~= open);
    } else {
        assert(all[0] == open[0]);
        assert(all.drop_first() =~= open.drop_first().push(last));
        lemma_view_pushed(open.drop_first(), last, id);
    }
}

/// Forgetting one workspace's view leaves every other's, and none of its own.
pub proof fn law_forgetting_a_view_leaves_the_others(
    open: Seq<(Seq<char>, u64)>,
    id: Seq<char>,
    other: Seq<char>,
)
    ensures
        terminal_pane::view_of(open.filter(terminal_pane::is_not(id)), id) is None,
        other != id ==> terminal_pane::view_of(open.filter(terminal_pane::is_not(id)), other)
            == terminal_pane::view_of(open, other),
    decreases open.len(),
{
    reveal(Seq::filter);
    if open.len() > 0 {
        let (rest, last) = (open.drop_last(), open.last());
        law_forgetting_a_view_leaves_the_others(rest, id, other);
        let kept = rest.filter(terminal_pane::is_not(id));
        assert(open =~= rest.push(last));
        lemma_view_pushed(rest, last, other);
        lemma_view_pushed(kept, last, other);
        lemma_view_pushed(kept, last, id);
    }
}

/// A view is found only while it is there, and the handles that are kept are
/// exactly those of views that are.
pub proof fn law_a_closed_view_is_not_found(
    open: Seq<(Seq<char>, u64)>,
    alive: Seq<u64>,
    id: Seq<char>,
)
    ensures
        ({
            let kept = open.filter(terminal_pane::is_alive(alive));
            &&& terminal_pane::view_of(kept, id) matches Some(view) ==> alive.contains(view)
                && open.contains((id, view))
            &&& forall|k: int|
                0 <= k < open.len() && alive.contains((#[trigger] open[k]).1) ==> kept.contains(
                    open[k],
                )
        }),
{
    let keep = terminal_pane::is_alive(alive);
    let kept = open.filter(keep);
    lemma_view_of(kept, id);
    if let Some(view) = terminal_pane::view_of(kept, id) {
        let k = choose|k: int| 0 <= k < kept.len() && kept[k] == (id, view);
        open.lemma_filter_pred(keep, k);
        open.lemma_filter_contains_rev(keep, (id, view));
    }
    assert forall|k: int|
        0 <= k < open.len() && alive.contains((#[trigger] open[k]).1) implies kept.contains(
        open[k],
    ) by {
        open.lemma_filter_contains(keep, k);
    }
}

/// A tab is brought to the front only where it is there, is the workspace's own and
/// shows the very session attached to; it takes the focus unless a modal has it.
/// Otherwise a terminal is started, on that session and no other, and the tab of
/// another session is no longer remembered as the workspace's.
pub proof fn law_a_tab_in_front_shows_the_session_attached_to(
    open: Seq<(Seq<char>, u64)>,
    workspace: WorkspaceView,
    attached: AttachedView,
    alive: Seq<u64>,
    showing: Option<Seq<char>>,
    has_modal: bool,
    supports_terminal: bool,
)
    ensures
        ({
            let (after, step) = terminal_pane::opening_terminal(
                open,
                workspace,
                attached,
                alive,
                showing,
                has_modal,
                supports_terminal,
            );
            &&& match step {
                OpenStepView::Activate { view, focus } => {
                    &&& alive.contains(view) && open.contains((workspace.id, view))
                    &&& showing == Some(attached.session_id)
                    &&& focus == !has_modal
                },
                OpenStepView::Spawn { task, title } => {
                    &&& supports_terminal && title == workspace.name
                    &&& terminal_pane::task_session(task.id) == Some(attached.session_id)
                    &&& terminal_pane::view_of(after, workspace.id) is None
                },
                OpenStepView::Refuse(_) => !supports_terminal || attached.argv.len() == 0,
            }
            &&& showing == Some(attached.session_id) && (exists|k: int|
                0 <= k < open.len() && (#[trigger] open[k]).0 == workspace.id && alive.contains(
                    open[k].1,
                )) ==> step is Activate
        }),
{
    let keep = terminal_pane::is_alive(alive);
    let known = open.filter(keep);
    law_a_closed_view_is_not_found(open, alive, workspace.id);
    law_forgetting_a_view_leaves_the_others(known, workspace.id, workspace.id);
    law_a_terminal_starts_where_its_workspace_is(workspace, attached);
    lemma_view_of(known, workspace.id);
    if exists|k: int|
        0 <= k < open.len() && (#[trigger] open[k]).0 == workspace.id && alive.contains(open[k].1) {
        let k = choose|k: int|
            0 <= k < open.len() && (#[trigger] open[k]).0 == workspace.id && alive.contains(
                open[k].1,
            );
        assert(known.contains(open[k]));
        let i = choose|i: int| 0 <= i < known.len() && known[i] == open[k];
        assert(known[i].0 == workspace.id);
    }
}

/// The name asked for is what was typed but for the white space around it, for the
/// workspace the modal is about. A blank name is not asked for, nor the one that the
/// workspace has, nor any while an answer is awaited.
pub proof fn law_the_name_typed_is_the_name_asked_for(modal: ModalView, typed: Seq<char>)
    ensures
        ({
            let (after, step) = rename_workspace_modal::confirming(modal, typed);
            let name = text::trim_text(typed);
            &&& after.workspace == modal.workspace
            &&& match step {
                ConfirmView::Ask { id, name: asked } => {
                    &&& !modal.renaming && after.renaming && after.error is None
                    &&& id == modal.workspace.id && asked == name
                    &&& asked.len() > 0 && asked != modal.workspace.name
                },
                ConfirmView::Dismiss => after == modal && !modal.renaming && name
                    == modal.workspace.name,
                ConfirmView::Show => !modal.renaming && !after.renaming && after.error is Some
                    && forall|k: int|
                    0 <= k < typed.len() ==> text::is_white_space(#[trigger] typed[k]),
                ConfirmView::Ignore => after == modal && modal.renaming,
            }
        }),
{
    text::law_a_trimmed_text_stays_trimmed(typed);
}

/// A rename that was agreed to closes the modal, and names the window anew exactly
/// where it shows that workspace. One that was refused leaves the modal open with
/// the reason, ready to be confirmed again.
pub proof fn law_a_refused_rename_can_be_tried_again(
    modal: ModalView,
    answer: Result<WorkspaceView, FailureView>,
    bound: Option<Seq<char>>,
    typed: Seq<char>,
)
    ensures
        ({
            let (after, retitle, done) = rename_workspace_modal::after_answer(modal, answer, bound);
            match answer {
                Ok(workspace) => {
                    &&& done && after.workspace == workspace
                    &&& bound == Some(workspace.id) ==> retitle == Some(workspace.name)
                    &&& bound != Some(workspace.id) ==> retitle is None
                },
                Err(failure) => {
                    &&& !done && retitle is None
                    &&& after.workspace == modal.workspace
                    &&& after.error == Some(failure.message())
                    &&& !(rename_workspace_modal::confirming(after, typed).1 is Ignore)
                },
            }
        }),
{
}

/// A lost project is opened again only where it is on a remote server and its window
/// is still there; the overlay closes either way.
pub proof fn law_only_a_remote_project_reconnects(overlay: (HostView, bool), has_window: bool)
    ensures
        ({
            let (after, step) = disconnected_overlay::reconnecting(overlay, has_window);
            &&& after.0 == overlay.0 && after.1
            &&& step == OverlayStep::Reconnect <==> overlay.0 is RemoteServerProject && has_window
            &&& step != OverlayStep::Reconnect ==> step == OverlayStep::Dismiss
        }),
        ({
            let (after, step) = disconnected_overlay::closing(overlay, has_window);
            &&& after.0 == overlay.0
            &&& has_window ==> after.1 && step == OverlayStep::CloseWorkspace
            &&& !has_window ==> after == overlay && step == OverlayStep::Stay
        }),
{
}

} // verus!
