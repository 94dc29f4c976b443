//! The one view of every workspace that the windows share.
//!
//! The entries are replaced by each pass that lands, and only the latest pass
//! may land: one that listed before a removal describes a world that is gone.

use crate::daemon;
use crate::daemon::{DaemonKey, KeyView};
use crate::entry::{EntryView, Failure, FailureView, Reconciled, SessionState, WorkspaceEntry};
use crate::reconcile;
use crate::service;
use crate::session_backend::StatusDelivery;
use crate::terminal_pane;
use crate::text;
use crate::workspace::{AdeWorkspace, WorkspaceId, WorkspaceView};
use vstd::prelude::*;
use vstd::string::*;

verus! {

/// The name shown for a title that is a shell's own path: shells announce their
/// executable as the title when they start, which as a name is noise.
pub open spec fn shell_title(title: Seq<char>) -> Seq<char> {
    let name = text::ascii_lower_text(last_part(title));
    if name == "powershell.exe"@ || name == "pwsh.exe"@ {
        "PowerShell"@
    } else if name == "cmd.exe"@ {
        "Command Prompt"@
    } else if name == "conhost.exe"@ || name == "openconsole.exe"@ {
        ""@
    } else {
        title
    }
}

/// Whether a character separates the parts of a path.
pub open spec fn is_separator(c: char) -> bool {
    c == '\\' || c == '/'
}

/// What follows the last separator.
pub open spec fn last_part(title: Seq<char>) -> Seq<char>
    decreases title.len(),
{
    if title.len() == 0 || is_separator(title.last()) {
        Seq::empty()
    } else {
        last_part(title.drop_last()).push(title.last())
    }
}

fn tail_of(title: &str) -> (tail: String)
    ensures
        tail@ == last_part(title@),
{
    let all = text::characters(title);
    let mut from: usize = all.len();
    assert(title@.skip(title@.len() as int) =~= Seq::<char>::empty());
    assert(title@.take(title@.len() as int) =~= title@);
    assert(last_part(title@) + Seq::<char>::empty() =~= last_part(title@));
    while from > 0 && !(all[from - 1] == '\\' || all[from - 1] == '/')
        invariant
            from <= all.len(),
            all@ == title@,
            last_part(title@) == last_part(title@.take(from as int)) + title@.skip(from as int),
        decreases from,
    {
        proof {
            let head = title@.take(from as int);
            assert(head.last() == title@[from - 1]);
            assert(head.drop_last() =~= title@.take(from - 1));
            assert(last_part(head) + title@.skip(from as int) =~= last_part(head.drop_last())
                + title@.skip(from - 1));
        }
        from = from - 1;
    }
    proof {
        let head = title@.take(from as int);
        if from > 0 {
            assert(head.last() == title@[from - 1]);
        }
        assert(last_part(head) =~= Seq::<char>::empty());
        assert(last_part(title@) =~= title@.skip(from as int));
        assert(title@.subrange(from as int, title@.len() as int) =~= title@.skip(from as int));
    }
    text::slice(title, from, all.len())
}

pub fn friendly_shell_title(title: &str) -> (shown: String)
    ensures
        shown@ == shell_title(title@),
{
    let name = text::lowered(tail_of(title).as_str());
    let name = name.as_str();
    if text::same_text(name, "powershell.exe") || text::same_text(name, "pwsh.exe") {
        "PowerShell".to_owned()
    } else if text::same_text(name, "cmd.exe") {
        "Command Prompt".to_owned()
    } else if text::same_text(name, "conhost.exe") || text::same_text(name, "openconsole.exe") {
        "".to_owned()
    } else {
        title.to_owned()
    }
}

/// The title a terminal's own text stands for.
pub open spec fn spoken_title(breadcrumb: Seq<char>) -> Seq<char> {
    shell_title(text::trim_text(breadcrumb))
}

pub fn terminal_title(breadcrumb: &str) -> (title: String)
    ensures
        title@ == spoken_title(breadcrumb@),
{
    friendly_shell_title(text::trimmed(breadcrumb).as_str())
}

/// How the entries are kept current.
#[derive(Clone, Copy, Debug, PartialEq, Eq, Structural)]
pub enum StatusPlan {
    /// A pass every so many milliseconds.
    Timer(u64),
    /// A pass for each burst of pushed events, and no timer.
    Stream,
}

pub fn status_plan(delivery: StatusDelivery) -> (plan: StatusPlan)
    ensures
        plan == (match delivery {
            StatusDelivery::Poll { interval_millis } => StatusPlan::Timer(interval_millis),
            StatusDelivery::Push => StatusPlan::Stream,
        }),
{
    match delivery {
        StatusDelivery::Poll { interval_millis } => StatusPlan::Timer(interval_millis),
        StatusDelivery::Push => StatusPlan::Stream,
    }
}

/// One text as a list, where there is one.
pub open spec fn lines_of(line: Option<Seq<char>>) -> Seq<Seq<char>> {
    match line {
        Some(line) => seq![line],
        None => Seq::empty(),
    }
}

/// What an [`AdeWorkspaceStore`] holds.
#[verifier::ext_equal]
pub struct StoreView {
    pub entries: Seq<EntryView>,
    pub host_errors: Seq<Seq<char>>,
    /// The daemon each host spelling was last found to be.
    pub daemons: Seq<(Option<Seq<char>>, Seq<char>)>,
    pub error: Option<Seq<char>>,
    pub status_stream_error: Option<Seq<char>>,
    /// Each workspace's title, with the terminal it came from.
    pub titles: Map<Seq<char>, (u64, Seq<char>)>,
    /// The terminals whose titles are followed, each with its workspace.
    pub watchers: Seq<(u64, Seq<char>)>,
    pub ticket: u64,
    /// The removals that are still being written.
    pub pending: Seq<(Option<Seq<char>>, Seq<char>)>,
    /// The pass that is under way, where one is.
    pub pass: Option<u64>,
}

/// What the session backends last said about every workspace.
pub struct AdeWorkspaceStore {
    entries: Vec<WorkspaceEntry>,
    host_errors: Vec<String>,
    daemons: Vec<(Option<String>, String)>,
    error: Option<String>,
    status_stream_error: Option<String>,
    session_titles: SessionTitles,
    title_watchers: Vec<(u64, WorkspaceId)>,
    refresh_ticket: u64,
    pending_removals: Vec<(Option<String>, String)>,
    /// The pass that is under way.
    pass: Option<u64>,
}

impl View for AdeWorkspaceStore {
    type V = StoreView;

    closed spec fn view(&self) -> StoreView {
        StoreView {
            entries: self.entries.deep_view(),
            host_errors: self.host_errors.deep_view(),
            daemons: self.daemons.deep_view(),
            error: text::opt(self.error),
            status_stream_error: text::opt(self.status_stream_error),
            titles: self.session_titles@,
            watchers: self.title_watchers.deep_view(),
            ticket: self.refresh_ticket,
            pending: self.pending_removals.deep_view(),
            pass: self.pass,
        }
    }
}

/// The daemon behind a host spelling, as the last pass found it.
pub open spec fn daemon_at(
    daemons: Seq<(Option<Seq<char>>, Seq<char>)>,
    host: Option<Seq<char>>,
) -> KeyView
    decreases daemons.len(),
{
    if daemons.len() == 0 {
        KeyView::Host(host)
    } else if daemons[0].0 == host {
        KeyView::Instance(daemons[0].1)
    } else {
        daemon_at(daemons.drop_first(), host)
    }
}

/// Whether an entry is one whose removal is still being written. It is matched
/// by daemon: it may be filed under another spelling of the host.
pub open spec fn is_pending(
    pending: Seq<(Option<Seq<char>>, Seq<char>)>,
    daemons: Seq<(Option<Seq<char>>, Seq<char>)>,
    entry: EntryView,
) -> bool {
    exists|k: int|
        0 <= k < pending.len() && (#[trigger] pending[k]).1 == entry.wire_id() && daemon_at(
            daemons,
            pending[k].0,
        ) == daemon_at(daemons, entry.remote_host())
}

/// The condition of not being one.
pub open spec fn stays(
    pending: Seq<(Option<Seq<char>>, Seq<char>)>,
    daemons: Seq<(Option<Seq<char>>, Seq<char>)>,
) -> spec_fn(EntryView) -> bool {
    |entry: EntryView| !is_pending(pending, daemons, entry)
}

/// The rows of the registry, among the entries.
pub open spec fn persisted_of(entries: Seq<EntryView>) -> Seq<(WorkspaceView, SessionState)>
    decreases entries.len(),
{
    if entries.len() == 0 {
        Seq::empty()
    } else {
        let earlier = persisted_of(entries.drop_last());
        match entries.last() {
            EntryView::Persisted(row, state) => earlier.push((row, state)),
            EntryView::Discovered { .. } => earlier,
        }
    }
}

/// Whether a workspace's session may still be running: its title is kept.
pub open spec fn keeps_title(entries: Seq<EntryView>, id: Seq<char>) -> bool {
    exists|k: int|
        0 <= k < entries.len() && (#[trigger] entries[k] matches EntryView::Persisted(row, state)
            && row.id == id && (state == SessionState::Alive || state == SessionState::Unknown))
}

/// The titles that are kept.
pub open spec fn titled(
    titles: Map<Seq<char>, (u64, Seq<char>)>,
    entries: Seq<EntryView>,
) -> Map<Seq<char>, (u64, Seq<char>)> {
    titles.restrict(Set::new(|id: Seq<char>| keeps_title(entries, id)))
}

/// The line shown for a host that could not be reached.
pub open spec fn host_line(error: (Seq<char>, Seq<char>)) -> Seq<char> {
    "host "@ + error.0 + ": "@ + error.1
}

/// The state after a pass landed.
pub open spec fn landing(
    store: StoreView,
    found: reconcile::ReconciledView,
    daemons: Seq<(Option<Seq<char>>, Seq<char>)>,
) -> StoreView {
    let entries = found.entries.filter(stays(store.pending, daemons));
    StoreView {
        entries,
        host_errors: found.host_errors.map_values(
            |error: (Seq<char>, Seq<char>)| host_line(error),
        ),
        daemons,
        error: None,
        titles: titled(store.titles, entries),
        ..store
    }
}

/// The condition of being another workspace than the one named.
pub open spec fn is_other(
    host: Option<Seq<char>>,
    wire_id: Seq<char>,
) -> spec_fn(EntryView) -> bool {
    |entry: EntryView| entry.remote_host() != host || entry.wire_id() != wire_id
}

/// The titles after a terminal spoke, and whether what is shown changed.
///
/// A workspace with several terminals is titled by whichever last spoke a name.
/// Silence is not speech: only the terminal whose name is showing clears it.
pub open spec fn titling(
    titles: Map<Seq<char>, (u64, Seq<char>)>,
    id: Seq<char>,
    author: u64,
    title: Seq<char>,
) -> (Map<Seq<char>, (u64, Seq<char>)>, bool) {
    if title.len() == 0 {
        if titles.dom().contains(id) && titles[id].0 == author {
            (titles.remove(id), true)
        } else {
            (titles, false)
        }
    } else {
        (
            titles.insert(id, (author, title)),
            !titles.dom().contains(id) || titles[id].1 != title,
        )
    }
}

/// The title of a workspace: the first with its id.
pub open spec fn title_in(
    list: Seq<(Seq<char>, (u64, Seq<char>))>,
    id: Seq<char>,
) -> Option<(u64, Seq<char>)>
    decreases list.len(),
{
    if list.len() == 0 {
        None
    } else if list[0].0 == id {
        Some(list[0].1)
    } else {
        title_in(list.drop_first(), id)
    }
}

/// Each workspace's title, with the terminal it came from.
struct SessionTitles {
    list: Vec<(WorkspaceId, (u64, String))>,
}

impl View for SessionTitles {
    type V = Map<Seq<char>, (u64, Seq<char>)>;

    closed spec fn view(&self) -> Map<Seq<char>, (u64, Seq<char>)> {
        let list = self.list.deep_view();
        Map::new(
            |id: Seq<char>| title_in(list, id) is Some,
            |id: Seq<char>| title_in(list, id)->0,
        )
    }
}

proof fn lemma_title_at(list: Seq<(Seq<char>, (u64, Seq<char>))>, id: Seq<char>, n: int)
    requires
        0 <= n <= list.len(),
        forall|k: int| 0 <= k < n ==> (#[trigger] list[k]).0 != id,
        n < list.len() ==> list[n].0 == id,
    ensures
        title_in(list, id) == (if n < list.len() {
            Some(list[n].1)
        } else {
            None
        }),
    decreases list.len(),
{
    if list.len() > 0 && list[0].0 != id {
        let rest = list.drop_first();
        assert forall|k: int| 0 <= k < n - 1 implies (#[trigger] rest[k]).0 != id by {
            assert(rest[k] == list[k + 1]);
        }
        lemma_title_at(rest, id, n - 1);
    }
}

/// Writing one workspace's title, at its place or behind the others, leaves the
/// others' titles.
proof fn lemma_title_written(
    list: Seq<(Seq<char>, (u64, Seq<char>))>,
    n: int,
    entry: (Seq<char>, (u64, Seq<char>)),
    other: Seq<char>,
)
    requires
        0 <= n <= list.len(),
        n < list.len() ==> list[n].0 == entry.0,
        other != entry.0,
    ensures
        title_in(
            if n < list.len() {
                list.update(n, entry)
            } else {
                list.push(entry)
            },
            other,
        ) == title_in(list, other),
    decreases list.len(),
{
    let now = if n < list.len() {
        list.update(n, entry)
    } else {
        list.push(entry)
    };
    if n == 0 {
        if list.len() > 0 {
            assert(now.drop_first() =~= list.drop_first());
        } else {
            assert(now.drop_first() =~= list);
        }
    } else {
        let rest = list.drop_first();
        if n < list.len() {
            assert(now.drop_first() =~= rest.update(n - 1, entry));
        } else {
            assert(now.drop_first() =~= rest.push(entry));
        }
        lemma_title_written(rest, n - 1, entry, other);
    }
}

/// Keeping the titles of some workspaces keeps each of theirs as it was.
proof fn lemma_titles_kept(
    list: Seq<(Seq<char>, (u64, Seq<char>))>,
    keeps: spec_fn(Seq<char>) -> bool,
    id: Seq<char>,
)
    ensures
        title_in(list.filter(|title: (Seq<char>, (u64, Seq<char>))| keeps(title.0)), id) == (
        if keeps(id) {
            title_in(list, id)
        } else {
            None
        }),
    decreases list.len(),
{
    let meets = |title: (Seq<char>, (u64, Seq<char>))| keeps(title.0);
    reveal(Seq::filter);
    if list.len() > 0 {
        let (rest, last) = (list.drop_last(), list.last());
        lemma_titles_kept(rest, keeps, id);
        assert(list =~= rest.push(last));
        lemma_title_pushed(rest, last, id);
        lemma_title_pushed(rest.filter(meets), last, id);
    }
}

proof fn lemma_title_pushed(
    list: Seq<(Seq<char>, (u64, Seq<char>))>,
    last: (Seq<char>, (u64, Seq<char>)),
    id: Seq<char>,
)
    ensures
        title_in(list.push(last), id) == (match title_in(list, id) {
            Some(title) => Some(title),
            None => if last.0 == id {
                Some(last.1)
            } else {
                None
            },
        }),
    decreases list.len(),
{
    let now = list.push(last);
    if list.len() == 0 {
        assert(now[0] == last);
        assert(now.drop_first() =~= list);
    } else {
        assert(now[0] == list[0]);
        assert(now.drop_first() =~= list.drop_first().push(last));
        lemma_title_pushed(list.drop_first(), last, id);
    }
}

impl SessionTitles {
    fn new() -> (titles: Self)
        ensures
            titles@ == Map::<Seq<char>, (u64, Seq<char>)>::empty(),
    {
        let titles = SessionTitles { list: Vec::new() };
        assert(titles@ =~= Map::<Seq<char>, (u64, Seq<char>)>::empty());
        titles
    }

    fn find(&self, id: &WorkspaceId) -> (at: usize)
        ensures
            at <= self.list.len(),
            forall|k: int| 0 <= k < at ==> (#[trigger] self.list.deep_view()[k]).0 != id@,
            at < self.list.len() ==> self.list.deep_view()[at as int].0 == id@,
            at < self.list.len() <==> self@.dom().contains(id@),
            at < self.list.len() ==> self@[id@] == self.list.deep_view()[at as int].1,
    {
        let ghost all = self.list.deep_view();
        let mut at: usize = 0;
        while at < self.list.len() && !self.list[at].0.is(id)
            invariant
                at <= self.list.len(),
                all == self.list.deep_view(),
                forall|k: int| 0 <= k < at ==> (#[trigger] all[k]).0 != id@,
            decreases self.list.len() - at,
        {
            assert(all[at as int] == self.list[at as int].deep_view());
            at = at + 1;
        }
        proof {
            if at < self.list.len() {
                assert(all[at as int] == self.list[at as int].deep_view());
            }
            lemma_title_at(all, id@, at as int);
        }
        at
    }

    fn get(&self, id: &WorkspaceId) -> (title: Option<&(u64, String)>)
        ensures
            title.deep_view() == (if self@.dom().contains(id@) {
                Some(self@[id@])
            } else {
                None
            }),
    {
        let at = self.find(id);
        if at < self.list.len() {
            assert(self.list.deep_view()[at as int] == self.list[at as int].deep_view());
            Some(&self.list[at].1)
        } else {
            None
        }
    }

    fn insert(&mut self, id: &WorkspaceId, author: u64, title: &str)
        ensures
            final(self)@ == old(self)@.insert(id@, (author, title@)),
    {
        let ghost before = self.list.deep_view();
        let at = self.find(id);
        let entry = (id.clone(), (author, title.to_owned()));
        let ghost view = entry.deep_view();
        if at < self.list.len() {
            self.list[at] = entry;
            assert(self.list.deep_view() =~= before.update(at as int, view));
        } else {
            self.list.push(entry);
            assert(self.list.deep_view() =~= before.push(view));
        }
        proof {
            let now = self.list.deep_view();
            lemma_title_at(now, id@, at as int);
            assert forall|other: Seq<char>| other != id@ implies #[trigger] title_in(now, other)
                == title_in(before, other) by {
                lemma_title_written(before, at as int, view, other);
            }
            assert(self@ =~= old(self)@.insert(id@, (author, title@)));
        }
    }

    /// Keeps the titles of the workspaces that may still be running, or of all
    /// but one.
    fn retain(&mut self, entries: Option<&Vec<WorkspaceEntry>>, but: Option<&WorkspaceId>)
        ensures
            forall|id: Seq<char>| #[trigger]
                final(self)@.dom().contains(id) <==> old(self)@.dom().contains(id) && stays_titled(
                    entries.deep_view(),
                    but.deep_view(),
                    id,
                ),
            forall|id: Seq<char>|
                final(self)@.dom().contains(id) ==> #[trigger] final(self)@[id] == old(self)@[id],
    {
        let ghost all = self.list.deep_view();
        let ghost keeps = |id: Seq<char>| stays_titled(entries.deep_view(), but.deep_view(), id);
        let ghost meets = |title: (Seq<char>, (u64, Seq<char>))| keeps(title.0);
        let mut kept: Vec<(WorkspaceId, (u64, String))> = Vec::new();
        let mut i: usize = 0;
        assert(all.take(0).filter(meets) =~= Seq::<(Seq<char>, (u64, Seq<char>))>::empty()) by {
            reveal(Seq::filter);
        }
        while i < self.list.len()
            invariant
                i <= self.list.len(),
                *self == *old(self),
                all == self.list.deep_view(),
                keeps == (|id: Seq<char>| stays_titled(entries.deep_view(), but.deep_view(), id)),
                meets == (|title: (Seq<char>, (u64, Seq<char>))| keeps(title.0)),
                kept.deep_view() == all.take(i as int).filter(meets),
            decreases self.list.len() - i,
        {
            let ghost before = kept.deep_view();
            let title = &self.list[i];
            proof {
                reveal(Seq::filter);
                assert(all.take(i + 1).drop_last() =~= all.take(i as int));
                assert(all.take(i + 1).last() == title.deep_view());
            }
            let runs = match entries {
                Some(entries) => may_be_running(entries, &title.0),
                None => true,
            };
            let another = match but {
                Some(but) => !title.0.is(but),
                None => true,
            };
            if runs && another {
                let copy = (title.0.clone(), (title.1.0, title.1.1.clone()));
                kept.push(copy);
                assert(kept.deep_view() =~= before.push(copy.deep_view()));
            }
            i = i + 1;
        }
        assert(all.take(all.len() as int) =~= all);
        self.list = kept;
        proof {
            assert forall|id: Seq<char>| #[trigger] title_in(self.list.deep_view(), id) == (
            if keeps(id) {
                title_in(all, id)
            } else {
                None
            }) by {
                lemma_titles_kept(all, keeps, id);
            }
        }
    }
}

/// Whether a workspace's title stays: its session may still be running, where
/// that is asked, and it is not the one left out.
pub open spec fn stays_titled(
    entries: Option<Seq<EntryView>>,
    but: Option<Seq<char>>,
    id: Seq<char>,
) -> bool {
    &&& entries matches Some(entries) ==> keeps_title(entries, id)
    &&& but != Some(id)
}

/// The condition of a terminal still being there, and not being the one named.
pub open spec fn is_another_alive(terminal: u64, alive: Seq<u64>) -> spec_fn(
    (u64, Seq<char>),
) -> bool {
    |watcher: (u64, Seq<char>)| alive.contains(watcher.0) && watcher.0 != terminal
}

/// The watchers after a terminal began to be followed: those of terminals that
/// are gone are dropped, and an earlier one of the same terminal gives way.
pub open spec fn following(
    watchers: Seq<(u64, Seq<char>)>,
    id: Seq<char>,
    terminal: u64,
    alive: Seq<u64>,
) -> Seq<(u64, Seq<char>)> {
    watchers.filter(is_another_alive(terminal, alive)).push((terminal, id))
}

/// The workspace a terminal is followed for.
pub open spec fn followed_for(watchers: Seq<(u64, Seq<char>)>, terminal: u64) -> Option<Seq<char>>
    decreases watchers.len(),
{
    if watchers.len() == 0 {
        None
    } else if watchers[0].0 == terminal {
        Some(watchers[0].1)
    } else {
        followed_for(watchers.drop_first(), terminal)
    }
}

/// What a followed terminal's new title asks for.
#[derive(Debug, PartialEq, Eq)]
pub struct TitleChange {
    /// Whether what is shown of its workspace changed.
    pub changed: bool,
    /// The title its own tab takes; `None` falls back to the tab's label.
    pub custom_title: Option<String>,
}

/// The title a tab takes from its terminal.
pub open spec fn tab_title(title: Seq<char>) -> Option<Seq<char>> {
    if title.len() == 0 {
        None
    } else {
        Some(title)
    }
}

/// A pass is under way no longer.
pub open spec fn ending(store: StoreView, ticket: u64) -> StoreView {
    StoreView {
        pass: if store.pass == Some(ticket) {
            None
        } else {
            store.pass
        },
        ..store
    }
}

/// The state after a pass began.
pub open spec fn beginning(store: StoreView) -> StoreView {
    let ticket = store.ticket.wrapping_add(1);
    StoreView { ticket, pass: Some(ticket), ..store }
}

/// The state after a pass ended, landed or not.
pub open spec fn after_pass(
    store: StoreView,
    ticket: u64,
    reconciled: Result<reconcile::ReconciledView, FailureView>,
    daemons: Seq<(Option<Seq<char>>, Seq<char>)>,
) -> StoreView {
    let ended = ending(store, ticket);
    if ticket != store.ticket {
        ended
    } else {
        match reconciled {
            Ok(found) => landing(ended, found, daemons),
            Err(failure) => StoreView { error: Some(failure.message()), ..ended },
        }
    }
}

/// The state after a workspace was taken out of view.
pub open spec fn forgetting(
    store: StoreView,
    host: Option<Seq<char>>,
    wire_id: Seq<char>,
) -> StoreView {
    StoreView {
        entries: store.entries.filter(is_other(host, wire_id)),
        ticket: store.ticket.wrapping_add(1),
        pending: if store.pending.contains((host, wire_id)) {
            store.pending
        } else {
            store.pending.push((host, wire_id))
        },
        ..store
    }
}

/// The state after a removal was written, or failed with a message.
pub open spec fn after_removal(
    store: StoreView,
    host: Option<Seq<char>>,
    wire_id: Seq<char>,
    failed: Option<Seq<char>>,
) -> StoreView {
    StoreView {
        ticket: store.ticket.wrapping_add(1),
        pending: without_first(store.pending, (host, wire_id)),
        error: match failed {
            None => store.error,
            Some(message) => Some(message),
        },
        ..store
    }
}

/// What stands while no events are pushed, and why.
pub open spec fn stream_note(cause: Seq<char>) -> Seq<char> {
    "status updates are off: "@ + cause
}

impl AdeWorkspaceStore {
    /// A store whose first pass is under way. A refusal to open the stream of
    /// events, where there was one, stays noted.
    pub fn new(refused: Option<&Failure>) -> (store: Self)
        ensures
            store@ == (StoreView {
                entries: Seq::empty(),
                host_errors: Seq::empty(),
                daemons: Seq::empty(),
                error: None,
                status_stream_error: match refused {
                    Some(failure) => Some(stream_note(failure@.message())),
                    None => None,
                },
                titles: Map::empty(),
                watchers: Seq::empty(),
                ticket: 1,
                pending: Seq::empty(),
                pass: Some(1),
            }),
    {
        let status_stream_error = match refused {
            Some(failure) => Some(
                text::joined("status updates are off: ", failure.message().as_str()),
            ),
            None => None,
        };
        let mut store = AdeWorkspaceStore {
            entries: Vec::new(),
            host_errors: Vec::new(),
            daemons: Vec::new(),
            error: None,
            status_stream_error,
            session_titles: SessionTitles::new(),
            title_watchers: Vec::new(),
            refresh_ticket: 0,
            pending_removals: Vec::new(),
            pass: None,
        };
        let _ = store.refresh();
        proof {
            assert(store@.entries =~= Seq::empty());
            assert(store@.host_errors =~= Seq::empty());
            assert(store@.daemons =~= Seq::empty());
            assert(store@.watchers =~= Seq::empty());
            assert(store@.pending =~= Seq::empty());
        }
        store
    }

    /// Every workspace the last pass saw.
    pub fn entries(&self) -> (entries: &[WorkspaceEntry])
        ensures
            entries.deep_view() == self@.entries,
    {
        self.entries.as_slice()
    }

    /// The workspaces the registry holds, among those the last pass saw.
    pub fn persisted(&self) -> (rows: Vec<(&AdeWorkspace, SessionState)>)
        ensures
            rows@.len() == persisted_of(self@.entries).len(),
            forall|k: int|
                0 <= k < rows@.len() ==> persisted_of(self@.entries)[k] == (
                    (#[trigger] rows@[k]).0@,
                    rows@[k].1,
                ),
    {
        let ghost all = self@.entries;
        let mut rows: Vec<(&AdeWorkspace, SessionState)> = Vec::new();
        let mut i: usize = 0;
        assert(persisted_of(all.take(0)) =~= Seq::empty());
        while i < self.entries.len()
            invariant
                i <= self.entries.len(),
                all == self.entries.deep_view(),
                rows@.len() == persisted_of(all.take(i as int)).len(),
                forall|k: int|
                    0 <= k < rows@.len() ==> persisted_of(all.take(i as int))[k] == (
                        (#[trigger] rows@[k]).0@,
                        rows@[k].1,
                    ),
            decreases self.entries.len() - i,
        {
            proof {
                assert(all.take(i + 1).drop_last() =~= all.take(i as int));
                assert(all.take(i + 1).last() == self.entries[i as int]@);
            }
            match self.entries[i].persisted() {
                Some(row) => {
                    rows.push(row);
                },
                None => {},
            }
            i = i + 1;
        }
        assert(all.take(all.len() as int) =~= all);
        rows
    }

    /// Which daemon answered for each host.
    pub fn daemons(&self) -> (daemons: &Vec<(Option<String>, String)>)
        ensures
            daemons.deep_view() == self@.daemons,
    {
        &self.daemons
    }

    pub fn error(&self) -> (error: Option<&str>)
        ensures
            error.deep_view() == self@.error,
    {
        text::borrowed(&self.error)
    }

    pub fn host_errors(&self) -> (errors: &Vec<String>)
        ensures
            errors.deep_view() == self@.host_errors,
    {
        &self.host_errors
    }

    pub fn status_stream_error(&self) -> (error: Option<&str>)
        ensures
            error.deep_view() == self@.status_stream_error,
    {
        text::borrowed(&self.status_stream_error)
    }

    pub fn is_refreshing(&self) -> (refreshing: bool)
        ensures
            refreshing == (self@.pass is Some),
    {
        self.pass.is_some()
    }

    /// The ticket of the pass that is under way, to end it by.
    pub fn pass(&self) -> (ticket: Option<u64>)
        ensures
            ticket == self@.pass,
    {
        self.pass
    }

    /// The title a workspace's session last set for itself.
    pub fn session_title(&self, id: &WorkspaceId) -> (title: Option<&str>)
        ensures
            title.deep_view() == (if self@.titles.dom().contains(id@) {
                Some(self@.titles[id@].1)
            } else {
                None
            }),
    {
        match self.session_titles.get(id) {
            Some(title) => Some(title.1.as_str()),
            None => None,
        }
    }

    /// Follows a terminal's own title, for a workspace. `alive` are the terminals
    /// that are still there.
    pub fn follow_session_title(
        &mut self,
        workspace_id: WorkspaceId,
        terminal: u64,
        alive: &Vec<u64>,
    )
        ensures
            final(self)@ == (StoreView {
                watchers: following(old(self)@.watchers, workspace_id@, terminal, alive@),
                ..old(self)@
            }),
    {
        let ghost all = self@.watchers;
        let ghost keep = is_another_alive(terminal, alive@);
        let mut kept: Vec<(u64, WorkspaceId)> = Vec::new();
        let mut i: usize = 0;
        assert(all.take(0).filter(keep) =~= Seq::empty()) by {
            reveal(Seq::filter);
        }
        assert(kept.deep_view() =~= Seq::<(u64, Seq<char>)>::empty());
        while i < self.title_watchers.len()
            invariant
                i <= self.title_watchers.len(),
                all == self.title_watchers.deep_view(),
                keep == is_another_alive(terminal, alive@),
                kept.deep_view() == all.take(i as int).filter(keep),
            decreases self.title_watchers.len() - i,
        {
            let ghost before = kept.deep_view();
            proof {
                reveal(Seq::filter);
                assert(all.take(i + 1).drop_last() =~= all.take(i as int));
                assert(all.take(i + 1).last() == self.title_watchers[i as int].deep_view());
            }
            let watched: u64 = self.title_watchers[i].0;
            if terminal_pane::lists_view(alive, watched) && watched != terminal {
                let watcher = (watched, self.title_watchers[i].1.clone());
                kept.push(watcher);
                assert(kept.deep_view() =~= before.push(watcher.deep_view()));
            }
            i = i + 1;
        }
        assert(all.take(all.len() as int) =~= all);
        let ghost before = kept.deep_view();
        let watcher = (terminal, workspace_id);
        kept.push(watcher);
        assert(kept.deep_view() =~= before.push(watcher.deep_view()));
        self.title_watchers = kept;
    }

    /// A terminal's own text changed. `None` when the terminal is not followed.
    pub fn breadcrumbs_changed(&mut self, terminal: u64, breadcrumb: &str) -> (change: Option<
        TitleChange,
    >)
        ensures
            match followed_for(old(self)@.watchers, terminal) {
                None => change is None && final(self)@ == old(self)@,
                Some(id) => {
                    let title = spoken_title(breadcrumb@);
                    &&& change matches Some(change)
                    &&& titling(old(self)@.titles, id, terminal, title) == (
                        final(self)@.titles,
                        change.changed,
                    )
                    &&& text::opt(change.custom_title) == tab_title(title)
                    &&& final(self)@ == (StoreView { titles: final(self)@.titles, ..old(self)@ })
                },
            },
    {
        let ghost all = self@.watchers;
        let mut i: usize = 0;
        assert(all.skip(0) =~= all);
        while i < self.title_watchers.len()
            invariant
                *self == *old(self),
                i <= self.title_watchers.len(),
                all == self.title_watchers.deep_view(),
                followed_for(all, terminal) == followed_for(all.skip(i as int), terminal),
            decreases self.title_watchers.len() - i,
        {
            proof {
                assert(all.skip(i as int)[0] == self.title_watchers[i as int].deep_view());
                assert(all.skip(i as int).drop_first() =~= all.skip(i + 1));
            }
            if self.title_watchers[i].0 == terminal {
                let id = self.title_watchers[i].1.clone();
                let title = terminal_title(breadcrumb);
                let changed = self.set_session_title(&id, terminal, title.as_str());
                let custom_title = if title.as_str().is_empty() {
                    None
                } else {
                    Some(title)
                };
                return Some(TitleChange { changed, custom_title });
            }
            i = i + 1;
        }
        None
    }

    /// A terminal set its title, or reset it. Answers whether what is shown
    /// changed.
    pub fn set_session_title(
        &mut self,
        id: &WorkspaceId,
        author: u64,
        title: &str,
    ) -> (changed: bool)
        ensures
            titling(old(self)@.titles, id@, author, title@) == (final(self)@.titles, changed),
            final(self)@ == (StoreView { titles: final(self)@.titles, ..old(self)@ }),
    {
        if title.is_empty() {
            let is_shown = match self.session_titles.get(id) {
                Some(shown) => shown.0 == author,
                None => false,
            };
            if !is_shown {
                return false;
            }
            self.session_titles.retain(None, Some(id));
            assert(self@.titles =~= old(self)@.titles.remove(id@));
            return true;
        }
        let changed = match self.session_titles.get(id) {
            Some(shown) => !text::same_text(shown.1.as_str(), title),
            None => true,
        };
        self.session_titles.insert(id, author, title);
        changed
    }

    /// The daemon behind a host spelling.
    pub fn daemon_of(&self, host: Option<&str>) -> (daemon: DaemonKey)
        ensures
            daemon@ == daemon_at(self@.daemons, host.deep_view()),
    {
        find_daemon(&self.daemons, host)
    }

    /// A pass begins: what it lists only counts while nothing newer has begun
    /// or been removed.
    pub fn refresh(&mut self) -> (ticket: u64)
        ensures
            ticket == old(self)@.ticket.wrapping_add(1),
            final(self)@ == beginning(old(self)@),
    {
        self.refresh_ticket = self.refresh_ticket.wrapping_add(1);
        self.pass = Some(self.refresh_ticket);
        self.refresh_ticket
    }

    /// A pass ended. Answers whether it landed: what one listed that was outdated
    /// meanwhile is not taken. Either way it is under way no longer; a newer one
    /// still is.
    pub fn land(
        &mut self,
        ticket: u64,
        reconciled: Result<Reconciled, Failure>,
        daemons: Vec<(Option<String>, String)>,
    ) -> (landed: bool)
        ensures
            landed == (ticket == old(self)@.ticket),
            final(self)@ == after_pass(
                old(self)@,
                ticket,
                service::told(reconciled),
                daemons.deep_view(),
            ),
    {
        let runs = match self.pass {
            Some(pass) => pass == ticket,
            None => false,
        };
        if runs {
            self.pass = None;
        }
        if self.refresh_ticket != ticket {
            return false;
        }
        match reconciled {
            Err(failure) => {
                self.error = Some(failure.message());
            },
            Ok(found) => {
                self.error = None;
                self.host_errors = host_lines(&found.host_errors);
                self.daemons = daemons;
                self.entries = kept_entries(found.entries, &self.pending_removals, &self.daemons);
                self.keep_titles();
            },
        }
        true
    }

    fn keep_titles(&mut self)
        ensures
            final(self)@ == (StoreView {
                titles: titled(old(self)@.titles, old(self)@.entries),
                ..old(self)@
            }),
    {
        self.session_titles.retain(Some(&self.entries), None);
        assert(self@.titles =~= titled(old(self)@.titles, old(self)@.entries));
    }

    /// A workspace is gone: it leaves the view now, and every pass under way is
    /// outdated. Its removal stays pending until it is written.
    pub fn forget_workspace(&mut self, host: Option<&str>, wire_id: &str)
        ensures
            final(self)@ == forgetting(old(self)@, host.deep_view(), wire_id@),
    {
        self.entries = other_entries(&self.entries, host, wire_id);
        self.refresh_ticket = self.refresh_ticket.wrapping_add(1);
        let ghost before = self@.pending;
        let at = find_removal(&self.pending_removals, host, wire_id);
        if at == self.pending_removals.len() {
            let removal = (text::owned(host), wire_id.to_owned());
            self.pending_removals.push(removal);
            assert(self@.pending =~= before.push(removal.deep_view()));
        } else {
            assert(before[at as int] == (host.deep_view(), wire_id@));
        }
    }

    /// A removal was written, or failed. Answers whether to begin a pass: not
    /// behind a failure, whose line that pass would take away.
    pub fn removal_ended(
        &mut self,
        host: Option<&str>,
        wire_id: &str,
        forgotten: &Result<(), Failure>,
    ) -> (refreshes: bool)
        ensures
            refreshes == (*forgotten is Ok),
            final(self)@ == after_removal(
                old(self)@,
                host.deep_view(),
                wire_id@,
                match *forgotten {
                    Ok(()) => None,
                    Err(failure) => Some(failure@.message()),
                },
            ),
    {
        self.refresh_ticket = self.refresh_ticket.wrapping_add(1);
        let ghost before = self@.pending;
        let at = find_removal(&self.pending_removals, host, wire_id);
        proof {
            lemma_without_first(before, (host.deep_view(), wire_id@), at as int);
        }
        if at < self.pending_removals.len() {
            let _ = self.pending_removals.remove(at);
            assert(self@.pending =~= before.remove(at as int));
        }
        match forgotten {
            Ok(()) => true,
            Err(failure) => {
                self.error = Some(failure.message());
                false
            },
        }
    }
}

/// A list without the first of an element.
pub open spec fn without_first<T>(list: Seq<T>, item: T) -> Seq<T>
    decreases list.len(),
{
    if list.len() == 0 {
        list
    } else if list[0] == item {
        list.drop_first()
    } else {
        seq![list[0]] + without_first(list.drop_first(), item)
    }
}

proof fn lemma_without_first<T>(list: Seq<T>, item: T, at: int)
    requires
        0 <= at <= list.len(),
        forall|k: int| 0 <= k < at ==> #[trigger] list[k] != item,
        at < list.len() ==> list[at] == item,
    ensures
        without_first(list, item) == (if at < list.len() {
            list.remove(at)
        } else {
            list
        }),
    decreases list.len(),
{
    if list.len() > 0 {
        if at == 0 {
            assert(list.drop_first() =~= list.remove(0));
        } else {
            let rest = list.drop_first();
            assert forall|k: int| 0 <= k < at - 1 implies #[trigger] rest[k] != item by {
                assert(rest[k] == list[k + 1]);
            }
            lemma_without_first(rest, item, at - 1);
            if at < list.len() {
                assert(seq![list[0]] + rest.remove(at - 1) =~= list.remove(at));
            } else {
                assert(seq![list[0]] + rest =~= list);
            }
        }
    }
}

fn find_removal(
    pending: &Vec<(Option<String>, String)>,
    host: Option<&str>,
    wire_id: &str,
) -> (at: usize)
    ensures
        at <= pending.len(),
        pending.deep_view().len() == pending.len(),
        forall|k: int|
            0 <= k < at ==> #[trigger] pending.deep_view()[k] != (host.deep_view(), wire_id@),
        at < pending.len() ==> pending.deep_view()[at as int] == (host.deep_view(), wire_id@),
{
    let ghost all = pending.deep_view();
    let mut at: usize = 0;
    while at < pending.len()
        invariant
            at <= pending.len(),
            all == pending.deep_view(),
            forall|k: int| 0 <= k < at ==> #[trigger] all[k] != (host.deep_view(), wire_id@),
        decreases pending.len() - at,
    {
        assert(all[at as int] == pending[at as int].deep_view());
        if text::same_opt_text(text::borrowed(&pending[at].0), host) && text::same_text(
            pending[at].1.as_str(),
            wire_id,
        ) {
            return at;
        }
        at = at + 1;
    }
    at
}

fn find_daemon(daemons: &Vec<(Option<String>, String)>, host: Option<&str>) -> (daemon: DaemonKey)
    ensures
        daemon@ == daemon_at(daemons.deep_view(), host.deep_view()),
{
    let ghost all = daemons.deep_view();
    let mut i: usize = 0;
    assert(all.skip(0) =~= all);
    while i < daemons.len()
        invariant
            i <= daemons.len(),
            all == daemons.deep_view(),
            daemon_at(all, host.deep_view()) == daemon_at(all.skip(i as int), host.deep_view()),
        decreases daemons.len() - i,
    {
        proof {
            assert(all.skip(i as int)[0] == daemons[i as int].deep_view());
            assert(all.skip(i as int).drop_first() =~= all.skip(i + 1));
        }
        if text::same_opt_text(text::borrowed(&daemons[i].0), host) {
            return DaemonKey::Instance(daemons[i].1.clone());
        }
        i = i + 1;
    }
    DaemonKey::Host(text::owned(host))
}

fn is_removal_pending(
    pending: &Vec<(Option<String>, String)>,
    daemons: &Vec<(Option<String>, String)>,
    entry: &WorkspaceEntry,
) -> (found: bool)
    ensures
        found == is_pending(pending.deep_view(), daemons.deep_view(), entry@),
{
    let ghost all = pending.deep_view();
    let daemon = find_daemon(daemons, entry.remote_host());
    let wire_id = entry.wire_id();
    let mut i: usize = 0;
    while i < pending.len()
        invariant
            i <= pending.len(),
            all == pending.deep_view(),
            daemon@ == daemon_at(daemons.deep_view(), entry@.remote_host()),
            wire_id@ == entry@.wire_id(),
            forall|k: int|
                0 <= k < i ==> !((#[trigger] all[k]).1 == entry@.wire_id() && daemon_at(
                    daemons.deep_view(),
                    all[k].0,
                ) == daemon_at(daemons.deep_view(), entry@.remote_host())),
        decreases pending.len() - i,
    {
        assert(all[i as int] == pending[i as int].deep_view());
        if text::same_text(pending[i].1.as_str(), wire_id.as_str()) && find_daemon(
            daemons,
            text::borrowed(&pending[i].0),
        ).is(&daemon) {
            return true;
        }
        i = i + 1;
    }
    false
}

fn kept_entries(
    entries: Vec<WorkspaceEntry>,
    pending: &Vec<(Option<String>, String)>,
    daemons: &Vec<(Option<String>, String)>,
) -> (kept: Vec<WorkspaceEntry>)
    ensures
        kept.deep_view() == entries.deep_view().filter(
            stays(pending.deep_view(), daemons.deep_view()),
        ),
{
    let ghost all = entries.deep_view();
    let ghost meets = stays(pending.deep_view(), daemons.deep_view());
    let mut kept: Vec<WorkspaceEntry> = Vec::new();
    let mut i: usize = 0;
    assert(all.take(0).filter(meets) =~= Seq::<EntryView>::empty()) by {
        reveal(Seq::filter);
    }
    while i < entries.len()
        invariant
            i <= entries.len(),
            all == entries.deep_view(),
            meets == stays(pending.deep_view(), daemons.deep_view()),
            kept.deep_view() == all.take(i as int).filter(meets),
        decreases entries.len() - i,
    {
        let ghost before = kept.deep_view();
        proof {
            reveal(Seq::filter);
            assert(all.take(i + 1).drop_last() =~= all.take(i as int));
            assert(all.take(i + 1).last() == entries[i as int]@);
        }
        if !is_removal_pending(pending, daemons, &entries[i]) {
            let copy = entries[i].clone();
            kept.push(copy);
            assert(kept.deep_view() =~= before.push(copy@));
        }
        i = i + 1;
    }
    assert(all.take(all.len() as int) =~= all);
    kept
}

fn other_entries(
    entries: &Vec<WorkspaceEntry>,
    host: Option<&str>,
    wire_id: &str,
) -> (kept: Vec<WorkspaceEntry>)
    ensures
        kept.deep_view() == entries.deep_view().filter(is_other(host.deep_view(), wire_id@)),
{
    let ghost all = entries.deep_view();
    let ghost meets = is_other(host.deep_view(), wire_id@);
    let mut kept: Vec<WorkspaceEntry> = Vec::new();
    let mut i: usize = 0;
    assert(all.take(0).filter(meets) =~= Seq::<EntryView>::empty()) by {
        reveal(Seq::filter);
    }
    while i < entries.len()
        invariant
            i <= entries.len(),
            all == entries.deep_view(),
            meets == is_other(host.deep_view(), wire_id@),
            kept.deep_view() == all.take(i as int).filter(meets),
        decreases entries.len() - i,
    {
        let ghost before = kept.deep_view();
        proof {
            reveal(Seq::filter);
            assert(all.take(i + 1).drop_last() =~= all.take(i as int));
            assert(all.take(i + 1).last() == entries[i as int]@);
        }
        let same = text::same_opt_text(entries[i].remote_host(), host) && text::same_text(
            entries[i].wire_id().as_str(),
            wire_id,
        );
        if !same {
            let copy = entries[i].clone();
            kept.push(copy);
            assert(kept.deep_view() =~= before.push(copy@));
        }
        i = i + 1;
    }
    assert(all.take(all.len() as int) =~= all);
    kept
}

fn may_be_running(entries: &Vec<WorkspaceEntry>, id: &WorkspaceId) -> (found: bool)
    ensures
        found == keeps_title(entries.deep_view(), id@),
{
    let ghost all = entries.deep_view();
    let mut i: usize = 0;
    while i < entries.len()
        invariant
            i <= entries.len(),
            all == entries.deep_view(),
            forall|k: int|
                0 <= k < i ==> !(#[trigger] all[k] matches EntryView::Persisted(row, state)
                    && row.id == id@ && (state == SessionState::Alive || state
                    == SessionState::Unknown)),
        decreases entries.len() - i,
    {
        assert(all[i as int] == entries[i as int]@);
        match entries[i].persisted() {
            Some((row, state)) => {
                if row.id.is(id) && (state == SessionState::Alive || state
                    == SessionState::Unknown) {
                    return true;
                }
            },
            None => {},
        }
        i = i + 1;
    }
    false
}

fn host_lines(errors: &Vec<(String, String)>) -> (lines: Vec<String>)
    ensures
        lines.deep_view() == errors.deep_view().map_values(
            |error: (Seq<char>, Seq<char>)| host_line(error),
        ),
{
    let ghost all = errors.deep_view();
    let ghost line_of = |error: (Seq<char>, Seq<char>)| host_line(error);
    let mut lines: Vec<String> = Vec::new();
    let mut i: usize = 0;
    assert(lines.deep_view() =~= all.take(0).map_values(line_of));
    while i < errors.len()
        invariant
            i <= errors.len(),
            all == errors.deep_view(),
            line_of == (|error: (Seq<char>, Seq<char>)| host_line(error)),
            lines.deep_view() == all.take(i as int).map_values(line_of),
        decreases errors.len() - i,
    {
        let ghost before = lines.deep_view();
        let head = text::joined("host ", errors[i].0.as_str());
        let line = text::joined3(head.as_str(), ": ", errors[i].1.as_str());
        lines.push(line);
        proof {
            assert(all[i as int] == errors[i as int].deep_view());
            assert(lines.deep_view() =~= before.push(line@));
            assert(all.take(i + 1).map_values(line_of) =~= all.take(i as int).map_values(
                line_of,
            ).push(line_of(all[i as int])));
        }
        i = i + 1;
    }
    assert(all.take(all.len() as int) =~= all);
    lines
}

/// A workspace that is being removed does not come back: no pass that lands
/// while the removal is pending shows it, however its host is spelled.
pub proof fn law_a_pending_removal_stays_hidden(
    store: StoreView,
    found: reconcile::ReconciledView,
    daemons: Seq<(Option<Seq<char>>, Seq<char>)>,
    k: int,
)
    requires
        0 <= k < landing(store, found, daemons).entries.len(),
    ensures
        !is_pending(store.pending, daemons, landing(store, found, daemons).entries[k]),
        found.entries.contains(landing(store, found, daemons).entries[k]),
{
    let meets = stays(store.pending, daemons);
    found.entries.lemma_filter_pred(meets, k);
    found.entries.lemma_filter_contains_rev(meets, landing(store, found, daemons).entries[k]);
}

/// Only the latest pass may land: beginning another, or a removal, outdates
/// every ticket handed out right before.
pub proof fn law_a_newer_pass_outdates_the_last(ticket: u64)
    ensures
        ticket.wrapping_add(1) != ticket,
{
}

/// A terminal that has no title of its own takes nothing from another: silence
/// from any but the terminal whose name is showing changes nothing.
pub proof fn law_silence_is_not_speech(
    titles: Map<Seq<char>, (u64, Seq<char>)>,
    id: Seq<char>,
    author: u64,
)
    requires
        titles.dom().contains(id) ==> titles[id].0 != author,
    ensures
        titling(titles, id, author, Seq::empty()) == (titles, false),
{
}

/// What a terminal says of its own workspace is no other's business: the others'
/// titles stay, and a title that is cleared is gone.
pub proof fn law_a_title_is_its_workspaces_own(
    titles: Map<Seq<char>, (u64, Seq<char>)>,
    id: Seq<char>,
    author: u64,
    title: Seq<char>,
    other: Seq<char>,
)
    requires
        other != id,
    ensures
        ({
            let after = titling(titles, id, author, title).0;
            &&& after.dom().contains(other) == titles.dom().contains(other)
            &&& titles.dom().contains(other) ==> after[other] == titles[other]
            &&& title.len() == 0 && titles.dom().contains(id) && titles[id].0 == author
                ==> !after.dom().contains(id)
            &&& title.len() > 0 ==> after.dom().contains(id) && after[id] == (author, title)
        }),
{
}

proof fn lemma_followed_last(watchers: Seq<(u64, Seq<char>)>, terminal: u64, id: Seq<char>)
    requires
        forall|k: int| 0 <= k < watchers.len() ==> (#[trigger] watchers[k]).0 != terminal,
    ensures
        followed_for(watchers.push((terminal, id)), terminal) == Some(id),
    decreases watchers.len(),
{
    let all = watchers.push((terminal, id));
    if watchers.len() == 0 {
        assert(all[0] == (terminal, id));
    } else {
        let rest = watchers.drop_first();
        assert(all[0] == watchers[0]);
        assert(all.drop_first() =~= rest.push((terminal, id)));
        assert forall|k: int| 0 <= k < rest.len() implies (#[trigger] rest[k]).0 != terminal by {
            assert(rest[k] == watchers[k + 1]);
        }
        lemma_followed_last(rest, terminal, id);
    }
}

/// A terminal titles the workspace it was last followed for.
pub proof fn law_the_last_follow_holds(
    watchers: Seq<(u64, Seq<char>)>,
    id: Seq<char>,
    terminal: u64,
    alive: Seq<u64>,
)
    ensures
        followed_for(following(watchers, id, terminal, alive), terminal) == Some(id),
{
    let keep = is_another_alive(terminal, alive);
    let kept = watchers.filter(keep);
    assert forall|k: int| 0 <= k < kept.len() implies (#[trigger] kept[k]).0 != terminal by {
        watchers.lemma_filter_pred(keep, k);
    }
    lemma_followed_last(kept, terminal, id);
}

} // verus!
