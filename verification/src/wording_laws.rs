//! What labels, questions and lists say of what they stand for.

use crate::daemon;
use crate::disconnected_overlay;
use crate::disconnected_overlay::HostView;
use crate::entry::{EntryView, FailureView, SessionState};
use crate::missing_tab;
use crate::missing_tab::TabView;
use crate::rename_workspace_modal;
use crate::row_display;
use crate::store;
use crate::terminal_agents;
use crate::terminal_agents::AgentIcon;
use crate::text;
use crate::workspace_sidebar;
use crate::workspace_sidebar::{Color, LineModelView, LineView, Prompt};
use crate::workspace_view;
use crate::worktree_metadata_store;
use vstd::prelude::*;

verus! {

/// Whether one text stands in another.
pub open spec fn is_said(said: Seq<char>, text: Seq<char>) -> bool {
    exists|from: int|
        0 <= from <= text.len() - said.len() && said == #[trigger] text.subrange(
            from,
            from + said.len(),
        )
}

proof fn lemma_said(before: Seq<char>, said: Seq<char>, after: Seq<char>)
    ensures
        is_said(said, before + said + after),
{
    let whole = before + said + after;
    let from = before.len() as int;
    assert(said =~= whole.subrange(from, from + said.len()));
}

/// A noun has the ending of the plural for every count but one.
pub proof fn law_only_one_is_singular(count: nat)
    ensures
        workspace_sidebar::plural(count).len() == 0 <==> count == 1,
        count != 1 ==> workspace_sidebar::plural(count) == seq!['s'],
{
    reveal_strlit("");
    reveal_strlit("s");
}

/// A question about many workspaces names how many they are, and the button that
/// confirms says what would be done: the two questions are told apart by it.
pub proof fn law_a_question_says_how_many(clean: Prompt, kill: Prompt, count: nat, others: nat)
    requires
        workspace_sidebar::asks_to_clean_up(clean, count),
        workspace_sidebar::asks_to_kill(kill, others),
    ensures
        is_said(text::decimal(count), clean.title@),
        is_said(text::decimal(others), kill.title@),
        clean.confirm@ != kill.confirm@,
        clean.title@ != kill.title@,
        clean.title@.last() == '?' && kill.title@.last() == '?',
{
    reveal_strlit("Kill and clean up ");
    reveal_strlit("Kill sessions in ");
    reveal_strlit("Kill and Clean Up");
    reveal_strlit("Kill All Sessions");
    reveal_strlit("?");
    let (a, b) = ("Kill and clean up "@, " gone workspace"@ + workspace_sidebar::plural(count) + "?"@);
    let (c, d) = ("Kill sessions in "@, " live workspace"@ + workspace_sidebar::plural(others) + "?"@);
    assert(clean.title@ =~= a + text::decimal(count) + b);
    assert(kill.title@ =~= c + text::decimal(others) + d);
    lemma_said(a, text::decimal(count), b);
    lemma_said(c, text::decimal(others), d);
    assert(clean.title@[5] == 'a' && kill.title@[5] == 's');
    assert(clean.confirm@[5] == 'a' && kill.confirm@[5] == 'A');
}

/// A heading names its project and its host, says first how many sessions are alive
/// and then how many are gone, and stands out exactly where the selection is inside.
pub proof fn law_a_heading_counts_its_sessions(
    line: LineView,
    selected: Option<Seq<char>>,
    group: Option<(Option<Seq<char>>, Seq<char>)>,
)
    ensures
        match (line, workspace_sidebar::line_model(line, selected, group)) {
            (
                LineView::Project {
                    project_id,
                    project_identity,
                    remote_host,
                    live_count,
                    gone_count,
                },
                LineModelView::Heading(shown),
            ) => {
                &&& shown.name == project_id
                &&& remote_host matches Some(name) ==> shown.host == name
                &&& text::decimal(live_count).is_prefix_of(shown.counts)
                &&& (text::decimal(gone_count) + " gone"@).is_suffix_of(shown.counts)
                &&& shown.counts.len() == text::decimal(live_count).len() + text::decimal(
                    gone_count,
                ).len() + 13
                &&& shown.color == (if group == Some((remote_host, project_identity)) {
                    Color::Default
                } else {
                    Color::Muted
                })
            },
            (
                LineView::Workspace(EntryView::Persisted(row, state)),
                LineModelView::Row(shown),
            ) => {
                &&& shown.name == row.name
                &&& shown.selected <==> selected == Some(row.id)
            },
            (LineView::Workspace(entry), LineModelView::Row(shown)) => entry is Discovered
                && !shown.selected,
            _ => false,
        },
{
    reveal_strlit(" live · ");
    reveal_strlit(" gone");
    if let LineView::Project { live_count, gone_count, .. } = line {
        let counts = workspace_sidebar::counts_text(live_count, gone_count);
        let tail = text::decimal(gone_count) + " gone"@;
        assert(tail =~= counts.subrange(counts.len() - tail.len(), counts.len() as int));
    }
}

/// A placeholder stands for what could not be opened, and is named by it: a file by
/// its last component, whatever separators follow, and a session by its whole id.
pub proof fn law_a_placeholder_is_named_by_what_it_stands_for(
    directory: Seq<char>,
    separator: char,
    name: Seq<char>,
    trail: Seq<char>,
    session: Seq<char>,
)
    requires
        missing_tab::is_separator(separator),
        name.len() > 0,
        forall|k: int| 0 <= k < name.len() ==> !missing_tab::is_separator(#[trigger] name[k]),
        forall|k: int| 0 <= k < trail.len() ==> missing_tab::is_separator(#[trigger] trail[k]),
    ensures
        ({
            let path = directory.push(separator) + name + trail;
            let (file, terminal) = (
                TabView::Editor { path },
                TabView::Terminal { session_id: session },
            );
            &&& missing_tab::short_name_of(file) == name
            &&& missing_tab::subject_of(file) == path
            &&& missing_tab::short_name_of(terminal) == session
            &&& missing_tab::subject_of(terminal) == session
            &&& missing_tab::reason_of(file) != missing_tab::reason_of(terminal)
        }),
{
    reveal_strlit("This file could not be opened");
    reveal_strlit("This session could not be attached to. It is still running.");
    assert(missing_tab::reason_of(TabView::Editor { path: name }).len() == 29);
    lemma_named(directory.push(separator), name, trail);
}

proof fn lemma_named(before: Seq<char>, name: Seq<char>, trail: Seq<char>)
    requires
        before.len() > 0 && missing_tab::is_separator(before.last()),
        name.len() > 0,
        forall|k: int| 0 <= k < name.len() ==> !missing_tab::is_separator(#[trigger] name[k]),
        forall|k: int| 0 <= k < trail.len() ==> missing_tab::is_separator(#[trigger] trail[k]),
    ensures
        missing_tab::last_named(before + name + trail) == name,
    decreases trail.len(),
{
    let path = before + name + trail;
    if trail.len() == 0 {
        assert(path =~= before + name);
        assert(path.last() == name[name.len() - 1]);
        lemma_behind(before, name);
    } else {
        let rest = trail.drop_last();
        assert(path.last() == trail[trail.len() - 1]);
        assert(path.drop_last() =~= before + name + rest);
        assert forall|k: int| 0 <= k < rest.len() implies missing_tab::is_separator(
            #[trigger] rest[k],
        ) by {
            assert(rest[k] == trail[k]);
        }
        lemma_named(before, name, rest);
    }
}

proof fn lemma_behind(before: Seq<char>, name: Seq<char>)
    requires
        before.len() > 0 && missing_tab::is_separator(before.last()),
        forall|k: int| 0 <= k < name.len() ==> !missing_tab::is_separator(#[trigger] name[k]),
    ensures
        missing_tab::behind_separator(before + name) == name,
    decreases name.len(),
{
    let path = before + name;
    if name.len() == 0 {
        assert(path =~= before);
    } else {
        let rest = name.drop_last();
        assert(path.last() == name[name.len() - 1]);
        assert(path.drop_last() =~= before + rest);
        assert forall|k: int| 0 <= k < rest.len() implies !missing_tab::is_separator(
            #[trigger] rest[k],
        ) by {
            assert(rest[k] == name[k]);
        }
        lemma_behind(before, rest);
        assert(rest.push(name.last()) =~= name);
    }
}

/// A lost connection to a server is told by the server's name, and a connection that
/// is lost in another way is told in other words.
pub proof fn law_a_lost_server_is_named(name: Seq<char>, restores: bool)
    ensures
        ({
            let gone = disconnected_overlay::lost_text(
                HostView::RemoteServerProject { name, server_not_running: true },
                restores,
            );
            let silent = disconnected_overlay::lost_text(
                HostView::RemoteServerProject { name, server_not_running: false },
                restores,
            );
            &&& is_said(name, gone) && is_said(name, silent)
            &&& gone != silent
            &&& restores ==> "\nUnsaved changes are stored locally."@.is_suffix_of(gone)
                && "\nUnsaved changes are stored locally."@.is_suffix_of(silent)
            &&& !restores ==> gone.last() == '.' && silent.last() == '.'
        }),
{
    reveal_strlit("Your connection to ");
    reveal_strlit("process exiting unexpectedly");
    reveal_strlit("not responding");
    reveal_strlit(".");
    reveal_strlit("");
    let note = if restores {
        "\nUnsaved changes are stored locally."@
    } else {
        ""@
    };
    let head = "Your connection to "@;
    let middle = " has been lost due to the server "@;
    let gone = disconnected_overlay::lost_text(
        HostView::RemoteServerProject { name, server_not_running: true },
        restores,
    );
    let silent = disconnected_overlay::lost_text(
        HostView::RemoteServerProject { name, server_not_running: false },
        restores,
    );
    let (a, b) = (
        middle + "process exiting unexpectedly"@ + "."@ + note,
        middle + "not responding"@ + "."@ + note,
    );
    assert(gone =~= head + name + a);
    assert(silent =~= head + name + b);
    lemma_said(head, name, a);
    lemma_said(head, name, b);
    assert(gone.len() > silent.len());
    assert(note =~= gone.subrange(gone.len() - note.len(), gone.len() as int));
    assert(note =~= silent.subrange(silent.len() - note.len(), silent.len() as int));
}

/// A rename that is under way cannot be confirmed again; the button says so.
pub proof fn law_a_rename_is_confirmed_once(renaming: bool)
    ensures
        rename_workspace_modal::confirm_button(renaming).1 == !renaming,
        rename_workspace_modal::confirm_button(true).0
            != rename_workspace_modal::confirm_button(false).0,
{
    reveal_strlit("Renaming…");
    reveal_strlit("Rename");
    assert(rename_workspace_modal::confirm_button(true).0.len() == 9);
}

/// The agents that are configured are offered as they are and in their order, with
/// one before them and one behind.
pub proof fn law_every_configured_agent_is_offered(
    configured: Seq<(Seq<char>, AgentIcon, Seq<char>)>,
    k: int,
)
    ensures
        ({
            let offered = terminal_agents::presets(configured);
            &&& offered.len() == configured.len() + 2
            &&& 0 <= k < configured.len() ==> offered[k + 1] == configured[k]
            &&& offered[0].1 == AgentIcon::OpenAi
            &&& offered.last().1 == AgentIcon::OpenCode
        }),
{
}

/// A tab takes any title but an empty one.
pub proof fn law_an_empty_title_is_no_title(title: Seq<char>)
    ensures
        match store::tab_title(title) {
            None => title.len() == 0,
            Some(taken) => taken == title && title.len() > 0,
        },
{
}

/// A title goes with its session: it stays only where a row of the workspace shows a
/// session that is alive or may be, and it is not the one that is to go.
pub proof fn law_a_title_goes_with_its_session(
    entries: Seq<EntryView>,
    but: Option<Seq<char>>,
    id: Seq<char>,
)
    ensures
        !store::stays_titled(Some(entries), Some(id), id),
        !store::stays_titled(None, Some(id), id),
        store::stays_titled(None, but, id) <==> but != Some(id),
        (forall|k: int|
            0 <= k < entries.len() ==> (#[trigger] entries[k] matches EntryView::Persisted(
                row,
                state,
            ) ==> row.id != id || state == SessionState::Dead || state
                == SessionState::NeverCreated)) ==> !store::stays_titled(Some(entries), but, id),
        forall|k: int|
            0 <= k < entries.len() && but != Some(id) && (
            #[trigger] entries[k] matches EntryView::Persisted(row, state) && row.id == id && (state
                == SessionState::Alive || state == SessionState::Unknown)) ==> store::stays_titled(
                Some(entries),
                but,
                id,
            ),
{
}

/// A failure is told in its own words, and nothing is told where there is none.
pub proof fn law_a_failure_is_told(failure: FailureView)
    ensures
        workspace_sidebar::failure_text(Err(failure)) == Some(failure.message()),
        workspace_sidebar::failure_text(Ok(())) is None,
{
}

/// What one moment is later than another is told in whole seconds, rounded towards
/// none; the other way round it is as much with the other sign. This is of moments
/// that lie in no leap second.
pub proof fn law_an_age_is_counted_in_whole_seconds(
    entry_seconds: i64,
    entry_nanos: u32,
    now_seconds: i64,
    now_nanos: u32,
)
    requires
        entry_nanos < 1_000_000_000,
        now_nanos < 1_000_000_000,
    ensures
        ({
            let age = row_display::seconds_from(
                entry_seconds,
                entry_nanos,
                now_seconds,
                now_nanos,
            );
            let back = row_display::seconds_from(
                now_seconds,
                now_nanos,
                entry_seconds,
                entry_nanos,
            );
            let (then, now) = (
                entry_seconds * 1_000_000_000 + entry_nanos,
                now_seconds * 1_000_000_000 + now_nanos,
            );
            &&& back == -age
            &&& now >= then ==> then + age * 1_000_000_000 <= now < then + (age + 1)
                * 1_000_000_000
            &&& entry_nanos == now_nanos ==> age == now_seconds - entry_seconds
        }),
{
}

/// A leap second is counted where it lies between the two times of day, and only
/// there: a minute that ends in one is a second longer.
pub proof fn law_a_leap_second_counts_in_between(
    entry_seconds: i64,
    entry_nanos: u32,
    now_seconds: i64,
    now_nanos: u32,
)
    requires
        row_display::is_moment(entry_seconds, entry_nanos),
        row_display::is_moment(now_seconds, now_nanos),
    ensures
        ({
            let counted = row_display::leap_between(
                entry_seconds,
                entry_nanos,
                now_seconds,
                now_nanos,
            );
            &&& -1 <= counted <= 1
            &&& counted == 1 ==> entry_nanos >= 1_000_000_000 && entry_seconds % 60 == 59
            &&& counted == -1 ==> now_nanos >= 1_000_000_000 && now_seconds % 60 == 59
            &&& entry_seconds % 86_400 == now_seconds % 86_400 ==> counted == 0
            &&& row_display::leap_between(now_seconds, now_nanos, entry_seconds, entry_nanos)
                == -counted
        }),
{
}

/// A window that is refused a workspace is told which, where it belongs, and where
/// the window is.
pub proof fn law_a_refusal_names_the_workspace(
    workspace: crate::workspace::WorkspaceView,
    host: Option<Seq<char>>,
    roots: Seq<(Seq<char>, u64)>,
)
    ensures
        ({
            let told = workspace_view::out_of_scope(workspace, host, roots).message();
            &&& is_said(workspace.id, told)
            &&& is_said(workspace.repository_path, told)
            &&& workspace.remote_host matches Some(name) ==> is_said(name, told)
            &&& host matches Some(name) ==> is_said(name, told)
        }),
{
    let told = workspace_view::out_of_scope(workspace, host, roots).message();
    let (first, second) = (
        workspace_view::scope_host(workspace.remote_host),
        workspace_view::scope_host(host),
    );
    let listed = text::join(workspace_view::quoted_roots(roots), ", "@);
    let end = " at ["@ + listed + "]"@;
    let scoped = ", but this window is scoped to "@;
    let a = "workspace "@;
    let b = a + workspace.id + " belongs to "@;
    let c = b + first + " at "@;
    let d = c + workspace.repository_path + scoped;
    assert(told =~= d + second + end);
    lemma_said(d, second, end);
    let c_end = scoped + second + end;
    assert(told =~= c + workspace.repository_path + c_end);
    lemma_said(c, workspace.repository_path, c_end);
    let b_end = " at "@ + workspace.repository_path + c_end;
    assert(told =~= b + first + b_end);
    lemma_said(b, first, b_end);
    let a_end = " belongs to "@ + first + b_end;
    assert(told =~= a + workspace.id + a_end);
    lemma_said(a, workspace.id, a_end);
}

/// A test's database has the name it was given; without one it is told apart by the
/// thread that runs the test.
pub proof fn law_a_test_database_is_its_threads(
    given: Option<Seq<char>>,
    a: Seq<char>,
    b: Seq<char>,
)
    ensures
        given matches Some(name) ==> worktree_metadata_store::test_db_name(given, Some(a)) == name,
        a != b ==> worktree_metadata_store::test_db_name(None, Some(a))
            != worktree_metadata_store::test_db_name(None, Some(b)),
        a.is_suffix_of(worktree_metadata_store::test_db_name(None, Some(a))),
{
    let head = "THREAD_METADATA_DB_"@;
    let (x, y) = (
        worktree_metadata_store::test_db_name(None, Some(a)),
        worktree_metadata_store::test_db_name(None, Some(b)),
    );
    assert(a =~= x.subrange(head.len() as int, x.len() as int));
    assert(b =~= y.subrange(head.len() as int, y.len() as int));
}

/// This machine is named as such, and any other host by its own name.
pub proof fn law_a_host_is_shown_by_its_name(name: Seq<char>)
    ensures
        daemon::host_name(Some(name)) == name,
        workspace_view::scope_host(Some(name)) == name,
        workspace_view::scope_host(None) == "a local host"@,
{
}

} // verus!
