//! Killing the sessions of every workspace shown, without losing a workspace.

use crate::cleanup;
use crate::confirm;
use crate::entry::{EntryView, Failure, FailureView, WorkspaceEntry};
use crate::registry;
use crate::replay;
use crate::service;
use crate::service::{ServiceView, WorkspaceLifecycleService};
use crate::session_backend::SessionBackend;
use crate::sessions;
use crate::text;
use crate::workspace::WorkspaceId;
use vstd::prelude::*;
use vstd::string::*;

verus! {

/// A workspace whose sessions are to be killed, with the id its row gets should
/// this client not use it yet.
pub struct KillTarget {
    pub entry: WorkspaceEntry,
    pub fresh: WorkspaceId,
}

impl DeepView for KillTarget {
    type V = (EntryView, Seq<char>);

    open spec fn deep_view(&self) -> (EntryView, Seq<char>) {
        (self.entry@, self.fresh@)
    }
}

/// How one target is named where its kill failed.
pub open spec fn target_name(target: EntryView) -> Seq<char> {
    match target {
        EntryView::Persisted(row, _) => row.id,
        EntryView::Discovered { workspace, .. } => workspace.id,
    }
}

/// One target's sessions are killed. A discovery is taken into use first; one
/// that somebody else removed already is what was asked for.
pub open spec fn killing_target(
    state: ServiceView,
    later: ServiceView,
    target: (EntryView, Seq<char>),
    now: i64,
) -> Run {
    match target.0 {
        EntryView::Persisted(row, _) => {
            let run = sessions::killing_session_of(state, later, row.id);
            Run {
                state: run.state,
                failure: match run.result {
                    Ok(_) => None,
                    Err(failure) => Some(failure),
                },
            }
        },
        EntryView::Discovered { remote_host, workspace, .. } => {
            let confirmed = confirm::confirming_discovery(
                state,
                later,
                remote_host,
                workspace.id,
                target.1,
                now,
            );
            match confirmed.result {
                Ok(row) => {
                    let run = sessions::killing_session_of(confirmed.state, later, row.id);
                    Run {
                        state: run.state,
                        failure: match run.result {
                            Ok(_) => None,
                            Err(failure) => Some(failure),
                        },
                    }
                },
                Err(FailureView::Gone { .. }) => Run { state: confirmed.state, failure: None },
                Err(failure) => Run { state: confirmed.state, failure: Some(failure) },
            }
        },
    }
}

/// How the killing of one target ended.
pub struct Run {
    pub state: ServiceView,
    pub failure: Option<FailureView>,
}

/// Every target's sessions are killed in turn; a failure stops none of the
/// others. Answers with a line for each that failed.
pub open spec fn killing_targets(
    state: ServiceView,
    later: ServiceView,
    targets: Seq<(EntryView, Seq<char>)>,
    now: i64,
) -> (ServiceView, Seq<Seq<char>>)
    decreases targets.len(),
{
    if targets.len() == 0 {
        (state, Seq::empty())
    } else {
        let (before, lines) = killing_targets(state, later, targets.drop_last(), now);
        let run = killing_target(before, later, targets.last(), now);
        (
            run.state,
            match run.failure {
                None => lines,
                Some(failure) => lines.push(
                    target_name(targets.last().0) + ": "@ + failure.message(),
                ),
            },
        )
    }
}

/// What is answered for the lines of the failures.
pub open spec fn kill_report(lines: Seq<Seq<char>>) -> Result<(), FailureView> {
    if lines.len() == 0 {
        Ok(())
    } else {
        Err(
            FailureView::Message(
                "failed to kill sessions in "@ + text::decimal(lines.len()) + " workspace"@ + (
                if lines.len() == 1 {
                    ""@
                } else {
                    "s"@
                }) + ":\n"@ + text::join(lines, "\n"@),
            ),
        )
    }
}

pub fn report_kills(lines: &Vec<String>) -> (report: Result<(), Failure>)
    ensures
        service::told(report) == kill_report(lines.deep_view()),
{
    if lines.len() == 0 {
        return Ok(());
    }
    let count = text::number(lines.len() as u64);
    let suffix = if lines.len() == 1 {
        ""
    } else {
        "s"
    };
    let head = text::joined3("failed to kill sessions in ", count.as_str(), " workspace");
    let head = text::joined3(head.as_str(), suffix, ":\n");
    Err(Failure::about(head.as_str(), text::joined_with(lines, "\n").as_str()))
}

proof fn lemma_killing_session_settled(
    state: ServiceView,
    now: ServiceView,
    later: ServiceView,
    id: Seq<char>,
)
    requires
        replay::goes_on(sessions::killing_session_of(state, now, id).state, now),
        replay::goes_on(now, later),
    ensures
        replay::goes_on(state, sessions::killing_session_of(state, now, id).state),
        sessions::killing_session_of(state, now, id) == sessions::killing_session_of(
            state,
            later,
            id,
        ),
{
    if let Some(workspace) = registry::workspace_of(state.rows, id) {
        if let Some(session) = workspace.terminal_session_id {
            cleanup::lemma_connect_settled(state, now, later, workspace.remote_host);
            let (reached, connected) = replay::connect(state, now, workspace.remote_host);
            if connected is Ok {
                let n = reached.log.len() as int;
                assert(now.log[n] == later.log[n]);
                let (asked, reply) = replay::session_exists(
                    reached,
                    now,
                    workspace.remote_host,
                    session,
                    workspace.daemon_id,
                );
                if reply == Ok::<bool, Seq<char>>(true) {
                    assert(now.log[n + 1] == later.log[n + 1]);
                }
            }
        }
    }
}

proof fn lemma_confirming_settled(
    state: ServiceView,
    now: ServiceView,
    later: ServiceView,
    host: Option<Seq<char>>,
    wire_id: Seq<char>,
    id: Seq<char>,
    time: i64,
)
    requires
        replay::goes_on(
            confirm::confirming_discovery(state, now, host, wire_id, id, time).state,
            now,
        ),
        replay::goes_on(now, later),
    ensures
        replay::goes_on(
            state,
            confirm::confirming_discovery(state, now, host, wire_id, id, time).state,
        ),
        confirm::confirming_discovery(state, now, host, wire_id, id, time)
            == confirm::confirming_discovery(state, later, host, wire_id, id, time),
{
    let (reached, connected) = replay::connect(state, now, host);
    if connected is Ok {
        confirm::lemma_opening_discovery_grows(reached, now, host, wire_id, id, time, 3);
        confirm::lemma_opening_discovery_settled(reached, now, later, host, wire_id, id, time, 3);
    }
    cleanup::lemma_connect_settled(state, now, later, host);
}

proof fn lemma_killing_target_settled(
    state: ServiceView,
    now: ServiceView,
    later: ServiceView,
    target: (EntryView, Seq<char>),
    time: i64,
)
    requires
        replay::goes_on(killing_target(state, now, target, time).state, now),
        replay::goes_on(now, later),
    ensures
        replay::goes_on(state, killing_target(state, now, target, time).state),
        killing_target(state, now, target, time) == killing_target(state, later, target, time),
{
    match target.0 {
        EntryView::Persisted(row, _) => {
            lemma_killing_session_settled(state, now, later, row.id);
        },
        EntryView::Discovered { remote_host, workspace, .. } => {
            let confirmed = confirm::confirming_discovery(
                state,
                now,
                remote_host,
                workspace.id,
                target.1,
                time,
            );
            if let Ok(row) = confirmed.result {
                lemma_killing_session_settled(confirmed.state, now, later, row.id);
            }
            lemma_confirming_settled(
                state,
                now,
                later,
                remote_host,
                workspace.id,
                target.1,
                time,
            );
        },
    }
}

proof fn lemma_killing_targets_settled(
    state: ServiceView,
    now: ServiceView,
    later: ServiceView,
    targets: Seq<(EntryView, Seq<char>)>,
    time: i64,
)
    requires
        replay::goes_on(killing_targets(state, now, targets, time).0, now),
        replay::goes_on(now, later),
    ensures
        replay::goes_on(state, killing_targets(state, now, targets, time).0),
        killing_targets(state, now, targets, time) == killing_targets(state, later, targets, time),
    decreases targets.len(),
{
    if targets.len() > 0 {
        let before = killing_targets(state, now, targets.drop_last(), time).0;
        lemma_killing_target_settled(before, now, later, targets.last(), time);
        lemma_killing_targets_settled(state, now, later, targets.drop_last(), time);
    }
}

impl<B: SessionBackend> WorkspaceLifecycleService<B> {
    fn kill_target(&mut self, target: &KillTarget, now: i64) -> (failure: Option<Failure>)
        requires
            old(self).wf(),
        ensures
            final(self).wf(),
            final(self).continues(old(self)),
            killing_target(old(self)@, final(self)@, target.deep_view(), now) == (Run {
                state: final(self)@,
                failure: failure.deep_view(),
            }),
    {
        match &target.entry {
            WorkspaceEntry::Persisted(row, _) => match self.kill_workspace_session(&row.id) {
                Ok(_) => None,
                Err(failure) => Some(failure),
            },
            WorkspaceEntry::Discovered { remote_host, workspace, .. } => {
                let confirmed = self.confirm_discovered(
                    text::borrowed(remote_host),
                    workspace.id.as_str(),
                    target.fresh.clone(),
                    now,
                );
                let ghost known = self@;
                match confirmed {
                    Ok(row) => {
                        let killed = self.kill_workspace_session(&row.id);
                        proof {
                            lemma_killing_session_settled(known, self@, self@, row.id@);
                            lemma_confirming_settled(
                                old(self)@,
                                known,
                                self@,
                                text::opt(*remote_host),
                                workspace.id@,
                                target.fresh@,
                                now,
                            );
                        }
                        match killed {
                            Ok(_) => None,
                            Err(failure) => Some(failure),
                        }
                    },
                    Err(Failure::Gone(_)) => None,
                    Err(failure) => Some(failure),
                }
            },
        }
    }

    /// Kills the sessions of every target and keeps their workspaces. A failure
    /// stops none of the others; they are all named in the answer.
    pub fn kill_session_targets(
        &mut self,
        targets: Vec<KillTarget>,
        now: i64,
    ) -> (killed: Result<(), Failure>)
        requires
            old(self).wf(),
        ensures
            final(self).wf(),
            final(self).continues(old(self)),
            ({
                let (state, lines) = killing_targets(
                    old(self)@,
                    final(self)@,
                    targets.deep_view(),
                    now,
                );
                &&& state == final(self)@
                &&& service::told(killed) == kill_report(lines)
            }),
    {
        let ghost all = targets.deep_view();
        let mut lines: Vec<String> = Vec::new();
        let mut i: usize = 0;
        proof {
            assert(all.take(0).len() == 0);
            assert(lines.deep_view() =~= Seq::<Seq<char>>::empty());
        }
        while i < targets.len()
            invariant
                i <= targets.len(),
                all == targets.deep_view(),
                self.wf(),
                self.continues(old(self)),
                killing_targets(old(self)@, self@, all.take(i as int), now) == (
                    self@,
                    lines.deep_view(),
                ),
            decreases targets.len() - i,
        {
            let ghost before = self@;
            let ghost lines_before = lines.deep_view();
            let target = &targets[i];
            proof {
                assert(all.take(i + 1).drop_last() =~= all.take(i as int));
                assert(all.take(i + 1).last() == target.deep_view());
            }
            let failed = self.kill_target(target, now);
            proof {
                lemma_killing_target_settled(before, self@, self@, target.deep_view(), now);
                lemma_killing_targets_settled(old(self)@, before, self@, all.take(i as int), now);
            }
            match failed {
                None => {},
                Some(failure) => {
                    let name = match &target.entry {
                        WorkspaceEntry::Persisted(row, _) => row.id.as_str(),
                        WorkspaceEntry::Discovered { workspace, .. } => workspace.id.as_str(),
                    };
                    let line = text::joined3(name, ": ", failure.message().as_str());
                    lines.push(line);
                    assert(lines.deep_view() =~= lines_before.push(line@));
                },
            }
            i = i + 1;
        }
        assert(all.take(all.len() as int) =~= all);
        report_kills(&lines)
    }
}

} // verus!
