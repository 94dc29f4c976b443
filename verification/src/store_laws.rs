//! What the view of every workspace shows, and for how long.

use crate::daemon::KeyView;
use crate::entry::{EntryView, FailureView, SessionState};
use crate::reconcile;
use crate::store;
use crate::store::StoreView;
use crate::text;
use crate::workspace::WorkspaceView;
use vstd::prelude::*;

verus! {

/// The daemon behind a spelling of a host is the one that was first found under
/// it, and nothing but the spelling where none was.
pub proof fn law_a_spelling_stands_for_its_daemon(
    daemons: Seq<(Option<Seq<char>>, Seq<char>)>,
    host: Option<Seq<char>>,
)
    ensures
        match store::daemon_at(daemons, host) {
            KeyView::Instance(daemon) => exists|k: int|
                0 <= k < daemons.len() && #[trigger] daemons[k] == (host, daemon) && forall|i: int|
                    0 <= i < k ==> (#[trigger] daemons[i]).0 != host,
            KeyView::Host(route) => route == host && forall|k: int|
                0 <= k < daemons.len() ==> (#[trigger] daemons[k]).0 != host,
        },
    decreases daemons.len(),
{
    if daemons.len() > 0 {
        if daemons[0].0 == host {
            assert(daemons[0] == (host, daemons[0].1));
        } else {
            let rest = daemons.drop_first();
            law_a_spelling_stands_for_its_daemon(rest, host);
            match store::daemon_at(rest, host) {
                KeyView::Instance(daemon) => {
                    let k = choose|k: int|
                        0 <= k < rest.len() && #[trigger] rest[k] == (host, daemon) && forall|
                            i: int,
                        |
                            0 <= i < k ==> (#[trigger] rest[i]).0 != host;
                    assert(daemons[k + 1] == (host, daemon));
                    assert forall|i: int| 0 <= i < k + 1 implies (
                    #[trigger] daemons[i]).0 != host by {
                        if i > 0 {
                            assert(rest[i - 1] == daemons[i]);
                        }
                    }
                },
                KeyView::Host(_) => {
                    assert forall|k: int| 0 <= k < daemons.len() implies (
                    #[trigger] daemons[k]).0 != host by {
                        if k > 0 {
                            assert(rest[k - 1] == daemons[k]);
                        }
                    }
                },
            }
        }
    }
}

/// A pass that lands shows everything it found but what is being removed, with a
/// line for each host that could not be asked. A title stays exactly where its
/// workspace is shown and may still be running. An earlier failure is forgotten.
pub proof fn law_a_landed_pass_shows_what_it_found(
    before: StoreView,
    found: reconcile::ReconciledView,
    daemons: Seq<(Option<Seq<char>>, Seq<char>)>,
)
    ensures
        ({
            let after = store::after_pass(before, before.ticket, Ok(found), daemons);
            &&& after.daemons == daemons
            &&& after.error is None
            &&& after.pass != Some(before.ticket)
            &&& after.ticket == before.ticket && after.pending == before.pending
            &&& after.watchers == before.watchers
            &&& after.status_stream_error == before.status_stream_error
            &&& after.entries.len() <= found.entries.len()
            &&& forall|k: int|
                #![trigger found.entries[k]]
                0 <= k < found.entries.len() ==> after.entries.contains(found.entries[k]) || exists|
                    p: int,
                |
                    0 <= p < before.pending.len() && (#[trigger] before.pending[p]).1
                        == found.entries[k].wire_id() && store::daemon_at(
                        daemons,
                        before.pending[p].0,
                    ) == store::daemon_at(daemons, found.entries[k].remote_host())
            &&& after.host_errors.len() == found.host_errors.len()
            &&& forall|e: int|
                #![trigger after.host_errors[e]]
                0 <= e < found.host_errors.len() ==> after.host_errors[e] == "host "@
                    + found.host_errors[e].0 + ": "@ + found.host_errors[e].1
            &&& forall|id: Seq<char>| #[trigger]
                after.titles.dom().contains(id) <==> before.titles.dom().contains(id) && exists|
                    k: int,
                |
                    0 <= k < after.entries.len() && (
                    #[trigger] after.entries[k] matches EntryView::Persisted(row, state) && row.id
                        == id && (state == SessionState::Alive || state == SessionState::Unknown))
            &&& forall|id: Seq<char>|
                after.titles.dom().contains(id) ==> #[trigger] after.titles[id]
                    == before.titles[id]
        }),
{
    let after = store::after_pass(before, before.ticket, Ok(found), daemons);
    let meets = store::stays(before.pending, daemons);
    found.entries.lemma_filter_len(meets);
    assert forall|k: int|
        #![trigger found.entries[k]]
        0 <= k < found.entries.len() && !after.entries.contains(found.entries[k]) implies exists|
        p: int,
    |
        0 <= p < before.pending.len() && (#[trigger] before.pending[p]).1
            == found.entries[k].wire_id() && store::daemon_at(daemons, before.pending[p].0)
            == store::daemon_at(daemons, found.entries[k].remote_host()) by {
        if meets(found.entries[k]) {
            found.entries.lemma_filter_contains(meets, k);
        }
        assert(store::is_pending(before.pending, daemons, found.entries[k]));
    }
}

/// A pass that was outdated shows nothing, and one that failed leaves what was
/// shown and says why. Either way it is under way no longer, and a newer one still
/// is.
pub proof fn law_an_outdated_or_failed_pass_keeps_the_view(
    before: StoreView,
    ticket: u64,
    reconciled: Result<reconcile::ReconciledView, FailureView>,
    daemons: Seq<(Option<Seq<char>>, Seq<char>)>,
)
    requires
        ticket != before.ticket || reconciled is Err,
    ensures
        ({
            let after = store::after_pass(before, ticket, reconciled, daemons);
            &&& after == (StoreView { pass: after.pass, error: after.error, ..before })
            &&& ticket != before.ticket ==> after.error == before.error
            &&& ticket == before.ticket ==> after.error == Some(reconciled->Err_0.message())
            &&& after.pass != Some(ticket)
            &&& before.pass != Some(ticket) ==> after.pass == before.pass
        }),
{
}

/// Beginning a pass outdates the one before: what that one lists is not shown.
pub proof fn law_only_the_latest_pass_is_shown(
    before: StoreView,
    found: reconcile::ReconciledView,
    daemons: Seq<(Option<Seq<char>>, Seq<char>)>,
)
    ensures
        ({
            let begun = store::beginning(before);
            let after = store::after_pass(begun, before.ticket, Ok(found), daemons);
            &&& begun.pass == Some(begun.ticket)
            &&& begun.ticket != before.ticket
            &&& begun == (StoreView { ticket: begun.ticket, pass: begun.pass, ..before })
            &&& after == begun
        }),
{
}

/// A workspace that is forgotten leaves the view at once, and nothing else does.
/// The pass that was under way does not bring it back, and neither does one begun
/// later that found it under that spelling while the removal is being written.
pub proof fn law_a_forgotten_workspace_stays_away(
    before: StoreView,
    host: Option<Seq<char>>,
    wire_id: Seq<char>,
    found: reconcile::ReconciledView,
    daemons: Seq<(Option<Seq<char>>, Seq<char>)>,
)
    ensures
        ({
            let after = store::forgetting(before, host, wire_id);
            let late = store::after_pass(after, before.ticket, Ok(found), daemons);
            let begun = store::beginning(after);
            let landed = store::after_pass(begun, begun.ticket, Ok(found), daemons);
            &&& after == (StoreView {
                entries: after.entries,
                ticket: after.ticket,
                pending: after.pending,
                ..before
            })
            &&& after.pending.contains((host, wire_id))
            &&& forall|k: int|
                0 <= k < after.entries.len() ==> {
                    &&& before.entries.contains(#[trigger] after.entries[k])
                    &&& after.entries[k].remote_host() != host || after.entries[k].wire_id()
                        != wire_id
                }
            &&& forall|k: int|
                0 <= k < before.entries.len() && ((
                #[trigger] before.entries[k]).remote_host() != host || before.entries[k].wire_id()
                    != wire_id) ==> after.entries.contains(before.entries[k])
            &&& late.entries == after.entries
            &&& forall|k: int|
                0 <= k < landed.entries.len() ==> (#[trigger] landed.entries[k]).remote_host()
                    != host || landed.entries[k].wire_id() != wire_id
        }),
{
    let other = store::is_other(host, wire_id);
    let after = store::forgetting(before, host, wire_id);
    assert(after.pending.contains((host, wire_id))) by {
        if !before.pending.contains((host, wire_id)) {
            assert(after.pending.last() == (host, wire_id));
        }
    }
    assert forall|k: int| 0 <= k < after.entries.len() implies {
        &&& before.entries.contains(#[trigger] after.entries[k])
        &&& after.entries[k].remote_host() != host || after.entries[k].wire_id() != wire_id
    } by {
        before.entries.lemma_filter_pred(other, k);
        assert(after.entries.contains(after.entries[k]));
        before.entries.lemma_filter_contains_rev(other, after.entries[k]);
    }
    assert forall|k: int|
        0 <= k < before.entries.len() && ((#[trigger] before.entries[k]).remote_host() != host
            || before.entries[k].wire_id() != wire_id) implies after.entries.contains(
        before.entries[k],
    ) by {
        before.entries.lemma_filter_contains(other, k);
    }
    let begun = store::beginning(after);
    let landed = store::after_pass(begun, begun.ticket, Ok(found), daemons);
    let stays = store::stays(after.pending, daemons);
    assert forall|k: int| 0 <= k < landed.entries.len() implies (
    #[trigger] landed.entries[k]).remote_host() != host || landed.entries[k].wire_id()
        != wire_id by {
        found.entries.lemma_filter_pred(stays, k);
        let entry = landed.entries[k];
        if entry.remote_host() == host && entry.wire_id() == wire_id {
            let p = choose|p: int|
                0 <= p < after.pending.len() && after.pending[p] == (host, wire_id);
            assert(store::is_pending(after.pending, daemons, entry));
        }
    }
}

/// The end of a removal takes back what its beginning noted: the same removals are
/// pending as before. A failure is what is then said.
pub proof fn law_a_removal_that_ended_is_pending_no_longer(
    before: StoreView,
    host: Option<Seq<char>>,
    wire_id: Seq<char>,
    failed: Option<Seq<char>>,
)
    requires
        !before.pending.contains((host, wire_id)),
    ensures
        ({
            let noted = store::forgetting(before, host, wire_id);
            let after = store::after_removal(noted, host, wire_id, failed);
            &&& after.pending == before.pending
            &&& after.entries == noted.entries
            &&& after.titles == before.titles && after.watchers == before.watchers
            &&& after.error == (if failed is Some {
                failed
            } else {
                before.error
            })
            &&& after.ticket != noted.ticket
        }),
{
    lemma_without_pushed(before.pending, (host, wire_id));
}

proof fn lemma_without_pushed<T>(list: Seq<T>, item: T)
    requires
        !list.contains(item),
    ensures
        store::without_first(list.push(item), item) == list,
    decreases list.len(),
{
    let all = list.push(item);
    if list.len() == 0 {
        assert(all[0] == item);
        assert(all.drop_first() =~= list);
    } else {
        let rest = list.drop_first();
        assert(all[0] == list[0]);
        assert(list.contains(list[0]));
        assert(all.drop_first() =~= rest.push(item));
        assert(!rest.contains(item)) by {
            if rest.contains(item) {
                let k = choose|k: int| 0 <= k < rest.len() && rest[k] == item;
                assert(list[k + 1] == item);
            }
        }
        lemma_without_pushed(rest, item);
        assert(seq![list[0]] + rest =~= list);
    }
}

/// What is shown as the title of a workspace.
pub open spec fn shown(titles: Map<Seq<char>, (u64, Seq<char>)>, id: Seq<char>) -> Option<
    Seq<char>,
> {
    if titles.dom().contains(id) {
        Some(titles[id].1)
    } else {
        None
    }
}

/// A title's change is answered exactly when what is shown differs. What a
/// terminal says is shown, and what it takes back is not.
pub proof fn law_a_change_is_answered_when_it_shows(
    titles: Map<Seq<char>, (u64, Seq<char>)>,
    id: Seq<char>,
    author: u64,
    title: Seq<char>,
)
    ensures
        ({
            let (after, changed) = store::titling(titles, id, author, title);
            &&& changed <==> shown(after, id) != shown(titles, id)
            &&& title.len() > 0 ==> shown(after, id) == Some(title) && after[id].0 == author
            &&& title.len() == 0 ==> shown(after, id) == shown(titles, id) || (
            titles.dom().contains(id) && titles[id].0 == author && shown(after, id) is None)
            &&& title.len() == 0 && titles.dom().contains(id) && titles[id].0 == author ==> shown(
                after,
                id,
            ) is None
        }),
{
}

/// Following one terminal leaves every other that is still there followed for the
/// workspace it was followed for, and lets go of those that are gone.
pub proof fn law_following_one_leaves_the_others(
    watchers: Seq<(u64, Seq<char>)>,
    id: Seq<char>,
    terminal: u64,
    alive: Seq<u64>,
    other: u64,
)
    requires
        other != terminal,
    ensures
        store::followed_for(store::following(watchers, id, terminal, alive), other) == (
        if alive.contains(other) {
            store::followed_for(watchers, other)
        } else {
            None
        }),
{
    let keep = store::is_another_alive(terminal, alive);
    lemma_followed_pushed(watchers.filter(keep), (terminal, id), other);
    lemma_followed_kept(watchers, keep, other, alive.contains(other));
}

proof fn lemma_followed_pushed(
    watchers: Seq<(u64, Seq<char>)>,
    last: (u64, Seq<char>),
    terminal: u64,
)
    ensures
        store::followed_for(watchers.push(last), terminal) == (match store::followed_for(
            watchers,
            terminal,
        ) {
            Some(id) => Some(id),
            None => if last.0 == terminal {
                Some(last.1)
            } else {
                None
            },
        }),
    decreases watchers.len(),
{
    let all = watchers.push(last);
    if watchers.len() == 0 {
        assert(all[0] == last);
        assert(all.drop_first() =~= watchers);
    } else {
        assert(all[0] == watchers[0]);
        assert(all.drop_first() =~= watchers.drop_first().push(last));
        lemma_followed_pushed(watchers.drop_first(), last, terminal);
    }
}

proof fn lemma_followed_kept(
    watchers: Seq<(u64, Seq<char>)>,
    keep: spec_fn((u64, Seq<char>)) -> bool,
    terminal: u64,
    stays: bool,
)
    requires
        forall|watcher: (u64, Seq<char>)|
            watcher.0 == terminal ==> #[trigger] keep(watcher) == stays,
    ensures
        store::followed_for(watchers.filter(keep), terminal) == (if stays {
            store::followed_for(watchers, terminal)
        } else {
            None
        }),
    decreases watchers.len(),
{
    reveal(Seq::filter);
    if watchers.len() > 0 {
        let (rest, last) = (watchers.drop_last(), watchers.last());
        lemma_followed_kept(rest, keep, terminal, stays);
        assert(watchers =~= rest.push(last));
        lemma_followed_pushed(rest, last, terminal);
        lemma_followed_pushed(rest.filter(keep), last, terminal);
    }
}

/// The rows of the registry are those among the entries, each with its state, and
/// as many.
pub proof fn law_the_rows_shown_are_the_persisted_ones(
    entries: Seq<EntryView>,
    row: WorkspaceView,
    state: SessionState,
)
    ensures
        store::persisted_of(entries).contains((row, state)) <==> entries.contains(
            EntryView::Persisted(row, state),
        ),
        store::persisted_of(entries).len() == entries.filter(
            |entry: EntryView| entry is Persisted,
        ).len(),
    decreases entries.len(),
{
    reveal(Seq::filter);
    if entries.len() > 0 {
        let (rest, last) = (entries.drop_last(), entries.last());
        law_the_rows_shown_are_the_persisted_ones(rest, row, state);
        assert(entries =~= rest.push(last));
        let earlier = store::persisted_of(rest);
        let entry = EntryView::Persisted(row, state);
        if rest.contains(entry) {
            let k = choose|k: int| 0 <= k < rest.len() && rest[k] == entry;
            assert(entries[k] == entry);
            let i = choose|i: int| 0 <= i < earlier.len() && earlier[i] == (row, state);
            assert(store::persisted_of(entries)[i] == (row, state));
        }
        if last == entry {
            assert(entries[rest.len() as int] == entry);
            assert(store::persisted_of(entries)[earlier.len() as int] == (row, state));
        }
    }
}

/// A shell that announces its own executable is shown by its friendly name, or not
/// at all, wherever the executable lies and however it is capitalised. Any other
/// title is shown as it is.
pub proof fn law_only_a_shells_own_path_is_renamed(
    directory: Seq<char>,
    separator: char,
    name: Seq<char>,
)
    requires
        separator == '/' || separator == '\\',
        forall|k: int| 0 <= k < name.len() ==> #[trigger] name[k] != '/' && name[k] != '\\',
    ensures
        ({
            let title = directory.push(separator) + name;
            let small = text::ascii_lower_text(name);
            &&& store::shell_title(title) == (if small == "powershell.exe"@ || small
                == "pwsh.exe"@ {
                "PowerShell"@
            } else if small == "cmd.exe"@ {
                "Command Prompt"@
            } else if small == "conhost.exe"@ || small == "openconsole.exe"@ {
                ""@
            } else {
                title
            })
            &&& store::shell_title(name) == store::shell_title(title) || (store::shell_title(title)
                == title && store::shell_title(name) == name)
        }),
{
    lemma_last_part(directory.push(separator), name);
    lemma_last_part(Seq::empty(), name);
    assert(Seq::<char>::empty() + name =~= name);
}

proof fn lemma_last_part(head: Seq<char>, name: Seq<char>)
    requires
        head.len() == 0 || head.last() == '/' || head.last() == '\\',
        forall|k: int| 0 <= k < name.len() ==> #[trigger] name[k] != '/' && name[k] != '\\',
    ensures
        store::last_part(head + name) == name,
    decreases name.len(),
{
    let all = head + name;
    if name.len() == 0 {
        assert(all =~= head);
        assert(store::last_part(all) =~= name);
    } else {
        let rest = name.drop_last();
        assert(all.last() == name.last());
        assert(all.last() == name[name.len() - 1]);
        assert(all.drop_last() =~= head + rest);
        lemma_last_part(head, rest);
        assert(rest.push(name.last()) =~= name);
    }
}

} // verus!
