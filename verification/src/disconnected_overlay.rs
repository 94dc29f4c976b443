//! What is shown when the connection to a project is lost.

use crate::text;
use vstd::prelude::*;
use vstd::string::*;

verus! {

/// Whose project was lost.
#[derive(Debug, PartialEq, Eq)]
pub enum Host {
    /// Somebody else's, joined as a guest.
    CollabGuestProject,
    /// One on a remote server, by the name it is shown under, and whether the
    /// server's process is what ended.
    RemoteServerProject { name: String, server_not_running: bool },
}

/// What a [`Host`] holds.
#[verifier::ext_equal]
pub enum HostView {
    CollabGuestProject,
    RemoteServerProject { name: Seq<char>, server_not_running: bool },
}

impl View for Host {
    type V = HostView;

    open spec fn view(&self) -> HostView {
        match *self {
            Host::CollabGuestProject => HostView::CollabGuestProject,
            Host::RemoteServerProject { name, server_not_running } =>
                HostView::RemoteServerProject { name: name@, server_not_running },
        }
    }
}

/// A project's event, as far as it matters here.
#[derive(Clone, Copy, Debug, PartialEq, Eq, Structural)]
pub enum ProjectEvent {
    DisconnectedFromHost,
    DisconnectedFromRemote { server_not_running: bool },
    Other,
}

/// Whose project an event says was lost, where it says so.
pub fn lost_host(event: ProjectEvent, remote_name: Option<String>) -> (host: Option<Host>)
    ensures
        match host {
            None => event == ProjectEvent::Other,
            Some(host) => event != ProjectEvent::Other && host@ == (match text::opt(remote_name) {
                Some(name) => HostView::RemoteServerProject {
                    name,
                    server_not_running: event == (ProjectEvent::DisconnectedFromRemote {
                        server_not_running: true,
                    }),
                },
                None => HostView::CollabGuestProject,
            }),
        },
{
    let server_not_running = match event {
        ProjectEvent::Other => {
            return None;
        },
        ProjectEvent::DisconnectedFromHost => false,
        ProjectEvent::DisconnectedFromRemote { server_not_running } => server_not_running,
    };
    match remote_name {
        Some(name) => Some(Host::RemoteServerProject { name, server_not_running }),
        None => Some(Host::CollabGuestProject),
    }
}

/// What the overlay says.
pub open spec fn lost_text(host: HostView, restores_unsaved_buffers: bool) -> Seq<char> {
    match host {
        HostView::CollabGuestProject => "Your connection to the remote project has been lost."@,
        HostView::RemoteServerProject { name, server_not_running } => "Your connection to "@ + name
            + " has been lost due to the server "@ + (if server_not_running {
            "process exiting unexpectedly"@
        } else {
            "not responding"@
        }) + "."@ + (if restores_unsaved_buffers {
            "\nUnsaved changes are stored locally."@
        } else {
            ""@
        }),
    }
}

/// A button of the overlay.
#[derive(Clone, Copy, Debug, PartialEq, Eq, Structural)]
pub enum OverlayButton {
    CloseWorkspace,
    Reconnect,
}

impl OverlayButton {
    pub fn label(self) -> (label: &'static str)
        ensures
            label@ == (match self {
                OverlayButton::CloseWorkspace => "Close Workspace"@,
                OverlayButton::Reconnect => "Reconnect"@,
            }),
    {
        match self {
            OverlayButton::CloseWorkspace => "Close Workspace",
            OverlayButton::Reconnect => "Reconnect",
        }
    }
}

/// What a click leads to.
#[derive(Clone, Copy, Debug, PartialEq, Eq, Structural)]
pub enum OverlayStep {
    /// The overlay stays.
    Stay,
    /// The overlay closes.
    Dismiss,
    /// The overlay closes, and the project is opened again.
    Reconnect,
    /// The overlay closes, and the workspace with it.
    CloseWorkspace,
}

/// The overlay once reconnecting was asked for, and what that leads to.
pub open spec fn reconnecting(overlay: (HostView, bool), has_window: bool) -> (
    (HostView, bool),
    OverlayStep,
) {
    (
        (overlay.0, true),
        if overlay.0 is RemoteServerProject && has_window {
            OverlayStep::Reconnect
        } else {
            OverlayStep::Dismiss
        },
    )
}

/// The overlay once closing the workspace was asked for, and what that leads to.
pub open spec fn closing(overlay: (HostView, bool), has_window: bool) -> (
    (HostView, bool),
    OverlayStep,
) {
    (
        (overlay.0, overlay.1 || has_window),
        if has_window {
            OverlayStep::CloseWorkspace
        } else {
            OverlayStep::Stay
        },
    )
}

/// The overlay over a project that was lost.
pub struct DisconnectedOverlay {
    host: Host,
    finished: bool,
}

impl View for DisconnectedOverlay {
    type V = (HostView, bool);

    closed spec fn view(&self) -> (HostView, bool) {
        (self.host@, self.finished)
    }
}

impl DisconnectedOverlay {
    pub fn new(host: Host) -> (overlay: Self)
        ensures
            overlay@ == (host@, false),
    {
        DisconnectedOverlay { host, finished: false }
    }

    /// Whether the overlay lets itself be closed: only once it is done with.
    pub fn on_before_dismiss(&self) -> (closes: bool)
        ensures
            closes == self@.1,
    {
        self.finished
    }

    /// Whether opening the project again is offered: not a guest's.
    pub fn can_reconnect(&self) -> (can: bool)
        ensures
            can == (self@.0 is RemoteServerProject),
    {
        match &self.host {
            Host::RemoteServerProject { .. } => true,
            Host::CollabGuestProject => false,
        }
    }

    /// The buttons below the message.
    pub fn buttons(&self) -> (buttons: Vec<OverlayButton>)
        ensures
            buttons@ == (if self@.0 is RemoteServerProject {
                seq![OverlayButton::CloseWorkspace, OverlayButton::Reconnect]
            } else {
                seq![OverlayButton::CloseWorkspace]
            }),
    {
        let mut buttons: Vec<OverlayButton> = Vec::new();
        buttons.push(OverlayButton::CloseWorkspace);
        if self.can_reconnect() {
            buttons.push(OverlayButton::Reconnect);
        }
        buttons
    }

    /// What the overlay says.
    pub fn message(&self, restores_unsaved_buffers: bool) -> (message: String)
        ensures
            message@ == lost_text(self@.0, restores_unsaved_buffers),
    {
        match &self.host {
            Host::CollabGuestProject => {
                "Your connection to the remote project has been lost.".to_owned()
            },
            Host::RemoteServerProject { name, server_not_running } => {
                let reason = if *server_not_running {
                    "process exiting unexpectedly"
                } else {
                    "not responding"
                };
                let autosave = if restores_unsaved_buffers {
                    "\nUnsaved changes are stored locally."
                } else {
                    ""
                };
                let head = text::joined3(
                    "Your connection to ",
                    name.as_str(),
                    " has been lost due to the server ",
                );
                let head = text::joined3(head.as_str(), reason, ".");
                text::joined(head.as_str(), autosave)
            },
        }
    }

    /// The overlay is closed, or cancelled.
    pub fn dismiss(&mut self) -> (step: OverlayStep)
        ensures
            step == OverlayStep::Dismiss,
            final(self)@ == (old(self)@.0, true),
    {
        self.finished = true;
        OverlayStep::Dismiss
    }

    /// Reconnecting was asked for. A guest's project is not opened again, nor
    /// one whose window is gone.
    pub fn handle_reconnect(&mut self, has_window: bool) -> (step: OverlayStep)
        ensures
            reconnecting(old(self)@, has_window) == (final(self)@, step),
    {
        let _ = self.dismiss();
        if self.can_reconnect() && has_window {
            OverlayStep::Reconnect
        } else {
            OverlayStep::Dismiss
        }
    }

    /// Closing the workspace was asked for. Nothing happens where the window
    /// around it is gone already.
    pub fn handle_close_workspace(&mut self, has_window: bool) -> (step: OverlayStep)
        ensures
            closing(old(self)@, has_window) == (final(self)@, step),
    {
        if !has_window {
            return OverlayStep::Stay;
        }
        let _ = self.dismiss();
        OverlayStep::CloseWorkspace
    }
}

} // verus!
