//! The persistent terminal pane: what is run to get onto a workspace's session,
//! and which tab already shows it.

use crate::entry::{Failure, FailureView};
use crate::service;
use crate::session_backend::{Attached, AttachedView};
use crate::sessions;
use crate::text;
use crate::workspace::{AdeWorkspace, WorkspaceId, WorkspaceView};
use vstd::prelude::*;
use vstd::string::*;

verus! {

/// What a terminal is to run. The task chrome stays off: this is a terminal,
/// not a build.
#[derive(Debug, PartialEq, Eq)]
pub struct SpawnInTerminal {
    /// Identifies the tab.
    pub id: String,
    pub label: String,
    pub full_label: String,
    pub command: Option<String>,
    pub args: Vec<String>,
    pub command_label: String,
    pub cwd: Option<String>,
    pub show_summary: bool,
    pub show_command: bool,
    pub show_rerun: bool,
}

/// What a [`SpawnInTerminal`] holds.
#[verifier::ext_equal]
pub struct SpawnView {
    pub id: Seq<char>,
    pub label: Seq<char>,
    pub full_label: Seq<char>,
    pub command: Option<Seq<char>>,
    pub args: Seq<Seq<char>>,
    pub command_label: Seq<char>,
    pub cwd: Option<Seq<char>>,
    pub show_summary: bool,
    pub show_command: bool,
    pub show_rerun: bool,
}

impl DeepView for SpawnInTerminal {
    type V = SpawnView;

    open spec fn deep_view(&self) -> SpawnView {
        SpawnView {
            id: self.id@,
            label: self.label@,
            full_label: self.full_label@,
            command: text::opt(self.command),
            args: self.args.deep_view(),
            command_label: self.command_label@,
            cwd: text::opt(self.cwd),
            show_summary: self.show_summary,
            show_command: self.show_command,
            show_rerun: self.show_rerun,
        }
    }
}

/// The id of the tab that shows a session.
pub open spec fn task_id(session_id: Seq<char>) -> Seq<char> {
    "ade-session:"@ + session_id
}

pub fn session_task_id(session_id: &str) -> (id: String)
    ensures
        id@ == task_id(session_id@),
{
    text::joined("ade-session:", session_id)
}

/// The session a tab's id stands for, where it stands for one.
pub open spec fn task_session(id: Seq<char>) -> Option<Seq<char>> {
    let prefix = "ade-session:"@;
    if prefix.is_prefix_of(id) {
        Some(id.skip(prefix.len() as int))
    } else {
        None
    }
}

/// Two sessions never share a tab's id, and the id gives the session back.
pub proof fn law_a_task_id_names_its_session(a: Seq<char>, b: Seq<char>)
    ensures
        a != b ==> task_id(a) != task_id(b),
        task_session(task_id(a)) == Some(a),
{
    let prefix = "ade-session:"@;
    assert(task_id(a).skip(prefix.len() as int) =~= a);
    assert(task_id(b).skip(prefix.len() as int) =~= b);
    assert(prefix.is_prefix_of(task_id(a)));
}

/// What is run to get onto a session: the argv verbatim, labelled with the
/// workspace's name.
pub open spec fn spawn_of(
    session_id: Seq<char>,
    title: Seq<char>,
    cwd: Option<Seq<char>>,
    argv: Seq<Seq<char>>,
) -> Result<SpawnView, FailureView> {
    if argv.len() == 0 {
        Err(
            FailureView::Message("the attach command is empty; expected a daemon attach argv"@),
        )
    } else {
        Ok(
            SpawnView {
                id: task_id(session_id),
                label: title,
                full_label: title,
                command: Some(argv[0]),
                args: argv.drop_first(),
                command_label: text::join(argv, " "@),
                cwd,
                show_summary: false,
                show_command: false,
                show_rerun: false,
            },
        )
    }
}

pub fn session_spawn_task(
    session_id: &str,
    title: &str,
    cwd: Option<String>,
    attach_argv: Vec<String>,
) -> (spawn: Result<SpawnInTerminal, Failure>)
    ensures
        service::told(spawn) == spawn_of(
            session_id@,
            title@,
            text::opt(cwd),
            attach_argv.deep_view(),
        ),
{
    if attach_argv.len() == 0 {
        return Err(
            Failure::saying("the attach command is empty; expected a daemon attach argv"),
        );
    }
    let command_label = text::joined_with(&attach_argv, " ");
    let ghost given = attach_argv.deep_view();
    let mut args = attach_argv;
    let command = args.remove(0);
    proof {
        assert(args.deep_view() =~= given.drop_first());
        assert(command@ == given[0]);
    }
    Ok(
        SpawnInTerminal {
            id: session_task_id(session_id),
            label: title.to_owned(),
            full_label: title.to_owned(),
            command: Some(command),
            args,
            command_label,
            cwd,
            show_summary: false,
            show_command: false,
            show_rerun: false,
        },
    )
}

/// What is run to get onto a workspace's session. A remote workspace gets no
/// working directory: its checkout is a path on its own host.
pub open spec fn attach_spawn(
    workspace: WorkspaceView,
    attached: AttachedView,
) -> Result<SpawnView, FailureView> {
    spawn_of(
        attached.session_id,
        workspace.name,
        if workspace.remote_host is Some {
            None
        } else {
            Some(workspace.repository_path)
        },
        attached.argv,
    )
}

pub fn attach_spawn_task(
    workspace: &AdeWorkspace,
    attached: Attached,
) -> (spawn: Result<SpawnInTerminal, Failure>)
    ensures
        service::told(spawn) == attach_spawn(workspace@, attached@),
{
    let cwd = if workspace.is_remote() {
        None
    } else {
        Some(workspace.repository_path.clone())
    };
    session_spawn_task(
        attached.session_id.as_str(),
        workspace.name.as_str(),
        cwd,
        attached.argv,
    )
}

/// Which workspaces have a terminal tab open, by the handle of the view.
///
/// The pane, not this map, owns a view's lifetime, so every read drops the
/// handles that closing a tab left behind.
pub struct WorkspaceTerminals {
    open: Vec<(WorkspaceId, u64)>,
}

impl View for WorkspaceTerminals {
    type V = Seq<(Seq<char>, u64)>;

    closed spec fn view(&self) -> Seq<(Seq<char>, u64)> {
        self.open.deep_view()
    }
}

/// The condition of a handle whose view is still there.
pub open spec fn is_alive(alive: Seq<u64>) -> spec_fn((Seq<char>, u64)) -> bool {
    |entry: (Seq<char>, u64)| alive.contains(entry.1)
}

/// The condition of a handle whose view is gone.
pub open spec fn is_closed(alive: Seq<u64>) -> spec_fn((Seq<char>, u64)) -> bool {
    |entry: (Seq<char>, u64)| !alive.contains(entry.1)
}

/// The condition of being about another workspace.
pub open spec fn is_not(id: Seq<char>) -> spec_fn((Seq<char>, u64)) -> bool {
    |entry: (Seq<char>, u64)| entry.0 != id
}

/// The handle of a workspace's view.
pub open spec fn view_of(open: Seq<(Seq<char>, u64)>, id: Seq<char>) -> Option<u64>
    decreases open.len(),
{
    if open.len() == 0 {
        None
    } else if open[0].0 == id {
        Some(open[0].1)
    } else {
        view_of(open.drop_first(), id)
    }
}

/// The ids of the handles.
pub open spec fn ids_of(open: Seq<(Seq<char>, u64)>) -> Seq<Seq<char>> {
    open.map_values(|entry: (Seq<char>, u64)| entry.0)
}

pub(crate) fn lists_view(alive: &Vec<u64>, view: u64) -> (listed: bool)
    ensures
        listed == alive@.contains(view),
{
    let mut i: usize = 0;
    while i < alive.len()
        invariant
            i <= alive.len(),
            forall|k: int| 0 <= k < i ==> alive@[k] != view,
        decreases alive.len() - i,
    {
        if alive[i] == view {
            return true;
        }
        i = i + 1;
    }
    false
}

impl WorkspaceTerminals {
    pub fn new() -> (terminals: Self)
        ensures
            terminals@ == Seq::<(Seq<char>, u64)>::empty(),
    {
        let terminals = WorkspaceTerminals { open: Vec::new() };
        assert(terminals@ =~= Seq::<(Seq<char>, u64)>::empty());
        terminals
    }

    pub fn len(&self) -> (count: usize)
        ensures
            count == self@.len(),
    {
        self.open.len()
    }

    /// The live view for a workspace, if there is one, after dropping every
    /// handle whose view is gone. Answers with the ids that were dropped too.
    pub fn get(&mut self, id: &WorkspaceId, alive: &Vec<u64>) -> (found: (
        Option<u64>,
        Vec<WorkspaceId>,
    ))
        ensures
            final(self)@ == old(self)@.filter(is_alive(alive@)),
            found.0 == view_of(final(self)@, id@),
            found.1.deep_view() == ids_of(old(self)@.filter(is_closed(alive@))),
    {
        let ghost all = self@;
        let ghost stays = is_alive(alive@);
        let ghost goes = is_closed(alive@);
        let ghost id_of = |entry: (Seq<char>, u64)| entry.0;
        let mut kept: Vec<(WorkspaceId, u64)> = Vec::new();
        let mut pruned: Vec<WorkspaceId> = Vec::new();
        let mut i: usize = 0;
        proof {
            reveal(Seq::filter);
            assert(kept.deep_view() =~= all.take(0).filter(stays));
            assert(pruned.deep_view() =~= ids_of(all.take(0).filter(goes)));
        }
        while i < self.open.len()
            invariant
                i <= self.open.len(),
                all == self.open.deep_view(),
                stays == is_alive(alive@),
                goes == is_closed(alive@),
                kept.deep_view() == all.take(i as int).filter(stays),
                pruned.deep_view() == ids_of(all.take(i as int).filter(goes)),
            decreases self.open.len() - i,
        {
            let ghost kept_before = kept.deep_view();
            let ghost pruned_before = pruned.deep_view();
            let ghost gone_before = all.take(i as int).filter(goes);
            let entry = &self.open[i];
            proof {
                reveal(Seq::filter);
                assert(all.take(i + 1).drop_last() =~= all.take(i as int));
                assert(all.take(i + 1).last() == entry.deep_view());
            }
            if lists_view(alive, entry.1) {
                let copy = (entry.0.clone(), entry.1);
                kept.push(copy);
                assert(kept.deep_view() =~= kept_before.push(copy.deep_view()));
            } else {
                let gone = entry.0.clone();
                pruned.push(gone);
                proof {
                    assert(pruned.deep_view() =~= pruned_before.push(gone@));
                    assert(ids_of(gone_before.push(entry.deep_view())) =~= ids_of(
                        gone_before,
                    ).push(gone@));
                }
            }
            i = i + 1;
        }
        assert(all.take(all.len() as int) =~= all);
        self.open = kept;
        (self.find(id), pruned)
    }

    fn find(&self, id: &WorkspaceId) -> (view: Option<u64>)
        ensures
            view == view_of(self@, id@),
    {
        let ghost all = self@;
        let mut i: usize = 0;
        assert(all.skip(0) =~= all);
        while i < self.open.len()
            invariant
                i <= self.open.len(),
                all == self.open.deep_view(),
                view_of(all, id@) == view_of(all.skip(i as int), id@),
            decreases self.open.len() - i,
        {
            proof {
                assert(all.skip(i as int)[0] == self.open[i as int].deep_view());
                assert(all.skip(i as int).drop_first() =~= all.skip(i + 1));
            }
            if self.open[i].0.is(id) {
                return Some(self.open[i].1);
            }
            i = i + 1;
        }
        None
    }

    /// Forgets a workspace's view; nothing where it has none.
    pub fn forget(&mut self, id: &WorkspaceId)
        ensures
            final(self)@ == old(self)@.filter(is_not(id@)),
    {
        let ghost all = self@;
        let ghost stays = is_not(id@);
        let mut kept: Vec<(WorkspaceId, u64)> = Vec::new();
        let mut i: usize = 0;
        proof {
            reveal(Seq::filter);
            assert(kept.deep_view() =~= all.take(0).filter(stays));
        }
        while i < self.open.len()
            invariant
                i <= self.open.len(),
                all == self.open.deep_view(),
                stays == is_not(id@),
                kept.deep_view() == all.take(i as int).filter(stays),
            decreases self.open.len() - i,
        {
            let ghost kept_before = kept.deep_view();
            let entry = &self.open[i];
            proof {
                reveal(Seq::filter);
                assert(all.take(i + 1).drop_last() =~= all.take(i as int));
                assert(all.take(i + 1).last() == entry.deep_view());
            }
            if !entry.0.is(id) {
                let copy = (entry.0.clone(), entry.1);
                kept.push(copy);
                assert(kept.deep_view() =~= kept_before.push(copy.deep_view()));
            }
            i = i + 1;
        }
        assert(all.take(all.len() as int) =~= all);
        self.open = kept;
    }

    /// Remembers a workspace's view, in the place of any it had.
    pub fn insert(&mut self, id: WorkspaceId, view: u64)
        ensures
            final(self)@ == old(self)@.filter(is_not(id@)).push((id@, view)),
    {
        self.forget(&id);
        let ghost before = self@;
        let entry = (id, view);
        self.open.push(entry);
        assert(self@ =~= before.push(entry.deep_view()));
    }
}

proof fn lemma_view_behind_others(open: Seq<(Seq<char>, u64)>, id: Seq<char>, view: u64)
    requires
        forall|k: int| 0 <= k < open.len() ==> (#[trigger] open[k]).0 != id,
    ensures
        view_of(open.push((id, view)), id) == Some(view),
    decreases open.len(),
{
    let all = open.push((id, view));
    if open.len() > 0 {
        let rest = open.drop_first();
        assert(all[0] == open[0]);
        assert(all.drop_first() =~= rest.push((id, view)));
        assert forall|k: int| 0 <= k < rest.len() implies (#[trigger] rest[k]).0 != id by {
            assert(rest[k] == open[k + 1]);
        }
        lemma_view_behind_others(rest, id, view);
    }
}

/// The view remembered last is the one found.
pub proof fn law_the_latest_view_is_found(
    open: Seq<(Seq<char>, u64)>,
    id: Seq<char>,
    view: u64,
)
    ensures
        view_of(open.filter(is_not(id)).push((id, view)), id) == Some(view),
{
    let others = open.filter(is_not(id));
    assert forall|k: int| 0 <= k < others.len() implies (#[trigger] others[k]).0 != id by {
        open.lemma_filter_pred(is_not(id), k);
    }
    lemma_view_behind_others(others, id, view);
}

/// What to do to get a workspace's terminal in front.
#[derive(Debug, PartialEq, Eq)]
pub enum OpenStep {
    /// The tab that shows the session is brought to the front; it takes the
    /// focus unless a modal has it.
    Activate { view: u64, focus: bool },
    /// A terminal is started, and given the workspace's name.
    Spawn { task: SpawnInTerminal, title: String },
    /// It cannot be shown.
    Refuse(Failure),
}

/// What an [`OpenStep`] holds.
#[verifier::ext_equal]
pub enum OpenStepView {
    Activate { view: u64, focus: bool },
    Spawn { task: SpawnView, title: Seq<char> },
    Refuse(FailureView),
}

impl View for OpenStep {
    type V = OpenStepView;

    open spec fn view(&self) -> OpenStepView {
        match *self {
            OpenStep::Activate { view, focus } => OpenStepView::Activate { view, focus },
            OpenStep::Spawn { task, title } => OpenStepView::Spawn {
                task: task.deep_view(),
                title: title@,
            },
            OpenStep::Refuse(failure) => OpenStepView::Refuse(failure@),
        }
    }
}

/// A terminal is started, where the project can host one.
pub open spec fn attaching_anew(
    workspace: WorkspaceView,
    attached: AttachedView,
    supports_terminal: bool,
) -> OpenStepView {
    if !supports_terminal {
        OpenStepView::Refuse(
            FailureView::Message(
                "this project cannot host a terminal, so workspace "@ + workspace.id
                    + " cannot be attached"@,
            ),
        )
    } else {
        match attach_spawn(workspace, attached) {
            Ok(task) => OpenStepView::Spawn { task, title: workspace.name },
            Err(failure) => OpenStepView::Refuse(failure),
        }
    }
}

/// Starts a terminal on a session: because nothing shows it yet, or because the
/// tab that did is in no pane of this window.
pub fn attach_anew(
    workspace: &AdeWorkspace,
    attached: Attached,
    supports_terminal: bool,
) -> (step: OpenStep)
    ensures
        step@ == attaching_anew(workspace@, attached@, supports_terminal),
{
    if !supports_terminal {
        return OpenStep::Refuse(
            Failure::Message(
                text::joined3(
                    "this project cannot host a terminal, so workspace ",
                    workspace.id.as_str(),
                    " cannot be attached",
                ),
            ),
        );
    }
    match attach_spawn_task(workspace, attached) {
        Ok(task) => OpenStep::Spawn { task, title: workspace.name.clone() },
        Err(failure) => OpenStep::Refuse(failure),
    }
}

/// The handles once a workspace's terminal was opened, and how it was.
pub open spec fn opening_terminal(
    open: Seq<(Seq<char>, u64)>,
    workspace: WorkspaceView,
    attached: AttachedView,
    alive: Seq<u64>,
    showing: Option<Seq<char>>,
    has_modal: bool,
    supports_terminal: bool,
) -> (Seq<(Seq<char>, u64)>, OpenStepView) {
    let known = open.filter(is_alive(alive));
    let anew = attaching_anew(workspace, attached, supports_terminal);
    match view_of(known, workspace.id) {
        Some(view) => if showing == Some(attached.session_id) {
            (known, OpenStepView::Activate { view, focus: !has_modal })
        } else {
            (known.filter(is_not(workspace.id)), anew)
        },
        None => (known, anew),
    }
}

/// Opens a workspace's terminal, or brings the one already open to the front,
/// but only if it shows the session just attached to: a recreated workspace has
/// a new session, and the tab of the dead one must not pass for it.
///
/// `showing` is the session the remembered tab shows. A tab that cannot be
/// activated after all is forgotten, and the terminal attached anew.
pub fn open_workspace_terminal(
    terminals: &mut WorkspaceTerminals,
    workspace: &AdeWorkspace,
    attached: Attached,
    alive: &Vec<u64>,
    showing: Option<&str>,
    has_modal: bool,
    supports_terminal: bool,
) -> (step: OpenStep)
    ensures
        opening_terminal(
            old(terminals)@,
            workspace@,
            attached@,
            alive@,
            showing.deep_view(),
            has_modal,
            supports_terminal,
        ) == (final(terminals)@, step@),
{
    let (found, _) = terminals.get(&workspace.id, alive);
    match found {
        Some(view) => {
            if text::same_opt_text(showing, Some(attached.session_id.as_str())) {
                return OpenStep::Activate { view, focus: !has_modal };
            }
            terminals.forget(&workspace.id);
        },
        None => {},
    }
    attach_anew(workspace, attached, supports_terminal)
}

} // verus!
