//! What entries, daemons, events, lists and reports say of what they stand for.

use crate::adopt;
use crate::bulk;
use crate::daemon;
use crate::daemon::KeyView;
use crate::entry;
use crate::entry::{EntryView, FailureView, SessionState};
use crate::events;
use crate::order;
use crate::reconcile::{Discovery, DiscoveryView};
use crate::session_backend::{DaemonEventView, RecordView, WorkspaceEventView};
use crate::text;
use crate::workspace;
use crate::workspace::WorkspaceView;
use vstd::prelude::*;
use vstd::utf8::*;

verus! {

/// An entry for a row says what the row says.
pub proof fn law_a_row_speaks_for_itself(row: WorkspaceView, known: SessionState)
    ensures
        ({
            let entry = EntryView::Persisted(row, known);
            &&& entry.remote_host() == row.remote_host
            &&& entry.wire_id() == (match row.terminal_session_id {
                Some(session) => session,
                None => workspace::derived_session_name(row.name, row.id),
            })
            &&& entry.project_id() == row.project_id
            &&& entry.project_identity() == (match row.project_identity {
                Some(identity) => identity,
                None => row.repository_path,
            })
            &&& entry.name() == row.name
            &&& entry.repository_path() == row.repository_path
            &&& entry.state() == known
        }),
{
}

/// An entry for a record says what the record says, on the host it was found on. A
/// record without a project is labelled by its root; one whose name nobody chose
/// goes by its project.
pub proof fn law_a_record_speaks_for_itself(
    host: Option<Seq<char>>,
    record: RecordView,
    known: SessionState,
)
    ensures
        ({
            let entry = EntryView::Discovered {
                remote_host: host,
                workspace: record,
                state: known,
            };
            &&& entry.remote_host() == host
            &&& entry.wire_id() == record.id
            &&& entry.project_id() == (match record.project_id {
                Some(project_id) => project_id,
                None => workspace::path_project_id(record.project_root),
            })
            &&& entry.project_identity() == (match record.project_identity {
                Some(identity) => identity,
                None => record.project_root,
            })
            &&& daemon::is_derived_name(record.name) ==> entry.name() == entry.project_id()
            &&& !daemon::is_derived_name(record.name) ==> entry.name() == record.name
            &&& entry.repository_path() == record.project_root
            &&& entry.state() == known
        }),
{
}

/// A name counts as nobody's choice only where it has the shape of a session id made
/// by this application: its own word, anything, and six hexadecimal digits.
pub proof fn law_only_a_made_name_is_nobodys_choice(name: Seq<char>)
    ensures
        daemon::is_derived_name(name) ==> {
            let n = name.len() as int;
            &&& n >= 11
            &&& name[0] == 'a' && name[1] == 'd' && name[2] == 'e' && name[3] == '-'
            &&& name[n - 7] == '-'
            &&& forall|k: int|
                n - 6 <= k < n ==> ('0' <= #[trigger] name[k] <= '9') || ('a' <= name[k] <= 'f')
                    || ('A' <= name[k] <= 'F')
        },
{
    if daemon::is_derived_name(name) {
        reveal_strlit("ade");
        reveal_strlit("-");
        let head = "ade"@ + "-"@;
        assert(name.take(4) == head);
        assert(name[0] == name.take(4)[0] && name[1] == name.take(4)[1]);
        assert(name[2] == name.take(4)[2] && name[3] == name.take(4)[3]);
    }
}

/// A daemon that named itself is known by that name, and gives it back; one that did
/// not is known by the route to it. Two that go by one key have one name, or one
/// route.
pub proof fn law_a_daemon_is_known_by_its_name_or_its_route(
    a: Option<Seq<char>>,
    b: Option<Seq<char>>,
    host: Option<Seq<char>>,
    other: Option<Seq<char>>,
)
    ensures
        daemon::key_instance(daemon::key_of(a, host)) == a,
        a is Some ==> daemon::key_of(a, host) == daemon::key_of(a, other),
        daemon::key_of(a, host) == daemon::key_of(b, other) <==> a == b && (a is Some || host
            == other),
        host matches Some(name) ==> daemon::host_name(host) == name,
        host is None ==> daemon::host_name(host) == "local"@,
{
}

/// What a daemon pushes about a workspace is handed on as what happened, with the
/// host and the daemon it happened on; what it pushes about a session is not one of
/// these. The inventory moved unless a layout alone did.
pub proof fn law_a_pushed_event_keeps_its_origin(
    host: Option<Seq<char>>,
    daemon: Option<Seq<char>>,
    event: DaemonEventView,
)
    ensures
        match (event, events::workspace_event(host, daemon, event)) {
            (DaemonEventView::Session(_), handed) => handed is None
                && !events::changes_inventory(event),
            (
                DaemonEventView::Layout(layout),
                Some(WorkspaceEventView::Layout { remote_host, daemon_id, event: handed }),
            ) => remote_host == host && daemon_id == daemon && handed == layout
                && !events::changes_inventory(event),
            (
                DaemonEventView::WorkspaceChanged(layout),
                Some(WorkspaceEventView::Layout { remote_host, daemon_id, event: handed }),
            ) => remote_host == host && daemon_id == daemon && handed == layout
                && events::changes_inventory(event),
            (
                DaemonEventView::WorkspaceReset(layout),
                Some(WorkspaceEventView::Reset { remote_host, daemon_id, event: handed }),
            ) => remote_host == host && daemon_id == daemon && handed == layout
                && events::changes_inventory(event),
            (
                DaemonEventView::WorkspaceRemoved { workspace_id },
                Some(WorkspaceEventView::Removed { remote_host, daemon_id, workspace_id: gone }),
            ) => remote_host == host && daemon_id == daemon && gone == workspace_id
                && events::changes_inventory(event),
            _ => false,
        },
{
}

/// A list joined is its two halves joined, with the separator in between.
pub proof fn law_a_joined_list_is_its_halves_joined(
    a: Seq<Seq<char>>,
    b: Seq<Seq<char>>,
    separator: Seq<char>,
)
    requires
        a.len() > 0,
        b.len() > 0,
    ensures
        text::join(a + b, separator) == text::join(a, separator) + separator + text::join(
            b,
            separator,
        ),
        text::join(seq![a[0]], separator) == a[0],
    decreases b.len(),
{
    let all = a + b;
    assert(all.last() == b.last());
    if b.len() == 1 {
        assert(all.drop_last() =~= a);
        assert(text::join(b, separator) == b[0]);
    } else {
        let rest = b.drop_last();
        law_a_joined_list_is_its_halves_joined(a, rest, separator);
        assert(all.drop_last() =~= a + rest);
        assert(text::join(a, separator) + separator + text::join(rest, separator) + separator
            + b.last() =~= text::join(a, separator) + separator + (text::join(rest, separator)
            + separator + b.last()));
    }
}

/// A report on the killing of many is a success exactly where nothing failed, and
/// ends in the lines about what did.
pub proof fn law_a_report_ends_in_what_failed(lines: Seq<Seq<char>>)
    ensures
        bulk::kill_report(lines) is Ok <==> lines.len() == 0,
        bulk::kill_report(lines) matches Err(failure) ==> failure is Message && text::join(
            lines,
            "\n"@,
        ).is_suffix_of(failure.message()),
{
    if let Err(failure) = bulk::kill_report(lines) {
        let said = text::join(lines, "\n"@);
        let all = failure.message();
        assert(said =~= all.subrange(all.len() - said.len(), all.len() as int));
    }
}

/// A workspace that is gone is named by its host and its id; any other failure says
/// what it was given to say.
pub proof fn law_a_failure_says_what_it_was(host: Option<Seq<char>>, id: Seq<char>, said: Seq<char>)
    ensures
        ({
            let gone = FailureView::Gone { remote_host: host, wire_id: id }.message();
            daemon::host_name(host).is_prefix_of(gone) && id.is_suffix_of(gone)
        }),
        FailureView::Message(said).message() == said,
        said.is_suffix_of(entry::in_context(id, said)) && id.is_prefix_of(
            entry::in_context(id, said),
        ),
{
    let gone = FailureView::Gone { remote_host: host, wire_id: id }.message();
    assert(id =~= gone.subrange(gone.len() - id.len(), gone.len() as int));
    let whole = entry::in_context(id, said);
    assert(said =~= whole.subrange(whole.len() - said.len(), whole.len() as int));
}

/// Texts stand in the order of their bytes: a text stands before any that it begins,
/// and of two that part at a byte the one with the lower byte stands first. No text
/// at all stands before every text.
pub proof fn law_texts_stand_in_the_order_of_their_bytes(
    common: Seq<u8>,
    x: u8,
    y: u8,
    u: Seq<u8>,
    v: Seq<u8>,
)
    requires
        x != y,
    ensures
        text::bytes_before(common, common.push(x) + u),
        text::bytes_before(common.push(x) + u, common.push(y) + v) <==> x < y,
    decreases common.len(),
{
    let (a, b) = (common.push(x) + u, common.push(y) + v);
    if common.len() == 0 {
        assert(a[0] == x && b[0] == y);
    } else {
        let rest = common.drop_first();
        law_texts_stand_in_the_order_of_their_bytes(rest, x, y, u, v);
        assert(a[0] == common[0] && b[0] == common[0]);
        assert(a.drop_first() =~= rest.push(x) + u);
        assert(b.drop_first() =~= rest.push(y) + v);
    }
}

/// The order of texts is that of their bytes, and nothing stands before no text.
pub proof fn law_no_text_stands_first(a: Seq<char>, b: Seq<char>)
    ensures
        text::text_before(a, b) <==> text::bytes_before(encode_utf8(a), encode_utf8(b)),
        text::opt_text_before(None, Some(a)),
        !text::opt_text_before(Some(a), None),
        text::opt_text_before(Some(a), Some(b)) <==> text::text_before(a, b),
{
}

/// Discoveries stand by host, this machine's first, and those of one host in the
/// order they were made.
pub proof fn law_discoveries_stand_by_host_and_age(
    found: Seq<DiscoveryView>,
    i: int,
    j: int,
)
    requires
        0 <= i < j < order::ranked::<Discovery>(found).len(),
    ensures
        ({
            let shown = order::ranked::<Discovery>(found);
            let (a, b) = (shown[i], shown[j]);
            &&& !text::opt_text_before(b.remote_host, a.remote_host)
            &&& a.remote_host == b.remote_host ==> a.workspace.created_at
                <= b.workspace.created_at
            &&& a.remote_host == b.remote_host && a.workspace.created_at == b.workspace.created_at
                ==> !text::text_before(b.workspace.id, a.workspace.id)
        }),
{
    let shown = order::ranked::<Discovery>(found);
    let before = order::rank_of::<Discovery>();
    order::lemma_ranked_is_sorted::<Discovery>(found);
    let by = choose|by: Seq<int>| order::sorts(found, shown, by, before);
    let (a, b) = (shown[i], shown[j]);
    assert(before(a, b) || !before(b, a));
    text::lemma_opt_text_order(a.remote_host, b.remote_host, a.remote_host);
    text::lemma_text_order(a.workspace.id, b.workspace.id, a.workspace.id);
}

/// The record to adopt is the oldest there is: none was made before it, and of those
/// made with it none has a lower id.
pub proof fn law_the_record_to_adopt_is_the_oldest(records: Seq<RecordView>, at: int, k: int)
    requires
        adopt::is_oldest(records, at),
        0 <= k < records.len(),
    ensures
        records[at].created_at <= records[k].created_at,
        records[at].created_at == records[k].created_at ==> !text::text_before(
            records[k].id,
            records[at].id,
        ),
{
    assert(!adopt::is_older(records[k], records[at]));
}

/// A key that stands for a host stands for that host alone.
pub proof fn law_a_route_is_no_name(name: Seq<char>, host: Option<Seq<char>>)
    ensures
        daemon::key_of(Some(name), host) == KeyView::Instance(name),
        daemon::key_of(None, host) == KeyView::Host(host),
        daemon::key_of(Some(name), host) != daemon::key_of(None, host),
{
}

} // verus!
