//! Renaming a workspace, from the answer in the modal to the header of the
//! window that shows it.
//!
//! The daemon is asked first, so a refusal leaves the modal open with the
//! reason in it rather than a name only this machine would believe in.

use crate::entry::{Failure, FailureView};
use crate::service;
use crate::text;
use crate::workspace::{AdeWorkspace, WorkspaceId, WorkspaceView};
use vstd::prelude::*;
use vstd::string::*;

verus! {

/// What a [`RenameWorkspaceModal`] holds.
#[verifier::ext_equal]
pub struct ModalView {
    pub workspace: WorkspaceView,
    pub renaming: bool,
    pub error: Option<Seq<char>>,
}

pub struct RenameWorkspaceModal {
    workspace: AdeWorkspace,
    /// Set while the daemon is being asked, so the modal cannot be confirmed
    /// twice.
    renaming: bool,
    error: Option<String>,
}

impl View for RenameWorkspaceModal {
    type V = ModalView;

    closed spec fn view(&self) -> ModalView {
        ModalView {
            workspace: self.workspace@,
            renaming: self.renaming,
            error: text::opt(self.error),
        }
    }
}

/// What confirming leads to.
#[derive(Debug, PartialEq, Eq)]
pub enum ConfirmStep {
    /// Nothing: the daemon is being asked already.
    Ignore,
    /// The error is shown.
    Show,
    /// The modal closes: the name is the one the workspace has.
    Dismiss,
    /// The daemon is asked for this name.
    Ask { id: WorkspaceId, name: String },
}

/// What confirming leads to, and leaves.
pub open spec fn confirming(modal: ModalView, typed: Seq<char>) -> (ModalView, ConfirmView) {
    let name = text::trim_text(typed);
    if modal.renaming {
        (modal, ConfirmView::Ignore)
    } else if name.len() == 0 {
        (ModalView { error: Some("A workspace needs a name."@), ..modal }, ConfirmView::Show)
    } else if name == modal.workspace.name {
        (modal, ConfirmView::Dismiss)
    } else {
        (
            ModalView { renaming: true, error: None, ..modal },
            ConfirmView::Ask { id: modal.workspace.id, name },
        )
    }
}

/// What a [`ConfirmStep`] holds.
#[verifier::ext_equal]
pub enum ConfirmView {
    Ignore,
    Show,
    Dismiss,
    Ask { id: Seq<char>, name: Seq<char> },
}

impl View for ConfirmStep {
    type V = ConfirmView;

    open spec fn view(&self) -> ConfirmView {
        match *self {
            ConfirmStep::Ignore => ConfirmView::Ignore,
            ConfirmStep::Show => ConfirmView::Show,
            ConfirmStep::Dismiss => ConfirmView::Dismiss,
            ConfirmStep::Ask { id, name } => ConfirmView::Ask { id: id@, name: name@ },
        }
    }
}

/// What a rename that ended leads to.
#[derive(Debug, PartialEq, Eq)]
pub struct RenameOutcome {
    /// The new header of the window, where that window shows the workspace.
    pub retitle: Option<String>,
    /// Whether the modal closes and the rows are read anew.
    pub done: bool,
}

/// The modal once the daemon has answered, the new header of the window where it
/// has one, and whether the modal closes.
pub open spec fn after_answer(
    modal: ModalView,
    answer: Result<WorkspaceView, FailureView>,
    bound: Option<Seq<char>>,
) -> (ModalView, Option<Seq<char>>, bool) {
    match answer {
        Ok(workspace) => (
            ModalView { workspace, ..modal },
            if bound == Some(workspace.id) {
                Some(workspace.name)
            } else {
                None
            },
            true,
        ),
        Err(failure) => (
            ModalView { renaming: false, error: Some(failure.message()), ..modal },
            None,
            false,
        ),
    }
}

/// The button that confirms: what it says, and whether it can be pressed.
pub open spec fn confirm_button(renaming: bool) -> (Seq<char>, bool) {
    if renaming {
        ("Renaming…"@, false)
    } else {
        ("Rename"@, true)
    }
}

impl RenameWorkspaceModal {
    pub fn new(workspace: AdeWorkspace) -> (modal: Self)
        ensures
            modal@ == (ModalView { workspace: workspace@, renaming: false, error: None }),
    {
        RenameWorkspaceModal { workspace, renaming: false, error: None }
    }

    /// What the field is filled with: a rename is usually an edit of what is
    /// there.
    pub fn prefill(&self) -> (name: &str)
        ensures
            name@ == self@.workspace.name,
    {
        self.workspace.name.as_str()
    }

    pub fn error(&self) -> (error: Option<&str>)
        ensures
            error.deep_view() == self@.error,
    {
        text::borrowed(&self.error)
    }

    /// The button that confirms.
    pub fn button(&self) -> (button: (&'static str, bool))
        ensures
            (button.0@, button.1) == confirm_button(self@.renaming),
    {
        if self.renaming {
            ("Renaming…", false)
        } else {
            ("Rename", true)
        }
    }

    /// The user confirmed what they typed.
    pub fn confirm(&mut self, typed: &str) -> (step: ConfirmStep)
        ensures
            confirming(old(self)@, typed@) == (final(self)@, step@),
    {
        if self.renaming {
            return ConfirmStep::Ignore;
        }
        let name = text::trimmed(typed);
        if name.as_str().is_empty() {
            self.error = Some("A workspace needs a name.".to_owned());
            return ConfirmStep::Show;
        }
        if text::same_text(name.as_str(), self.workspace.name.as_str()) {
            return ConfirmStep::Dismiss;
        }
        self.renaming = true;
        self.error = None;
        ConfirmStep::Ask { id: self.workspace.id.clone(), name }
    }

    /// The daemon answered. The header is only this rename's to change when the
    /// window is bound to the workspace that was renamed.
    pub fn renamed(
        &mut self,
        answer: Result<AdeWorkspace, Failure>,
        bound: Option<&WorkspaceId>,
    ) -> (outcome: RenameOutcome)
        ensures
            after_answer(old(self)@, service::told(answer), bound.deep_view()) == (
                final(self)@,
                text::opt(outcome.retitle),
                outcome.done,
            ),
    {
        match answer {
            Ok(workspace) => {
                let is_bound = match bound {
                    Some(id) => id.is(&workspace.id),
                    None => false,
                };
                let retitle = if is_bound {
                    Some(workspace.name.clone())
                } else {
                    None
                };
                self.workspace = workspace;
                RenameOutcome { retitle, done: true }
            },
            Err(failure) => {
                self.renaming = false;
                self.error = Some(failure.message());
                RenameOutcome { retitle: None, done: false }
            },
        }
    }
}

/// A rename is asked for once: until the daemon has answered, confirming again
/// asks nothing.
pub proof fn law_a_rename_is_asked_once(modal: ModalView, first: Seq<char>, second: Seq<char>)
    ensures
        confirming(modal, first).1 is Ask ==> confirming(confirming(modal, first).0, second).1
            == ConfirmView::Ignore,
{
}

} // verus!
