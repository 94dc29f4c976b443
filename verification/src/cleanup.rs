//! Removing the workspaces whose sessions are gone.
//!
//! Only a row that is a candidate, that a pass found dead, and that a second
//! probe found dead again is removed. A row that turned out alive, lost its
//! session identity or became unreachable in between is left alone.

use crate::entry;
use crate::entry::{EntryView, Failure, FailureView, SessionState};
use crate::reconcile;
use crate::registry;
use crate::replay;
use crate::service;
use crate::service::{ServiceView, WorkspaceLifecycleService};
use crate::session_backend::SessionBackend;
use crate::sessions;
use crate::sessions::Run;
use crate::workspace::{WorkspaceId, WorkspaceView};
use vstd::prelude::*;
use vstd::string::*;

verus! {

/// One row is removed, where it is to be. Answers whether it was.
pub open spec fn cleaning_row(
    state: ServiceView,
    later: ServiceView,
    id: Seq<char>,
) -> Run<bool> {
    match registry::workspace_of(state.rows, id) {
        None => Run { state, result: Ok(false) },
        Some(current) => {
            let probe = sessions::probing(state, later, current);
            if probe.result == Ok::<SessionState, FailureView>(SessionState::Dead) {
                let kill = sessions::killing_and_deleting(probe.state, later, probe.workspace);
                Run {
                    state: kill.state,
                    result: match kill.result {
                        Ok(()) => Ok(true),
                        Err(failure) => Err(
                            sessions::while_doing(
                                "cleaning dead workspace "@,
                                probe.workspace.id,
                                failure.message(),
                            ),
                        ),
                    },
                }
            } else {
                Run { state: probe.state, result: Ok(false) }
            }
        },
    }
}

/// One entry of a pass is removed, where it is to be. A discovery is nothing
/// this client has used, so it is nothing this client may remove.
pub open spec fn cleaning_one(
    state: ServiceView,
    later: ServiceView,
    candidates: Seq<Seq<char>>,
    found: EntryView,
) -> Run<bool> {
    match found {
        EntryView::Persisted(row, SessionState::Dead) => if candidates.contains(row.id) {
            cleaning_row(state, later, row.id)
        } else {
            Run { state, result: Ok(false) }
        },
        _ => Run { state, result: Ok(false) },
    }
}

/// Each entry is removed, where it is to be, until one refuses. Answers how
/// many were.
pub open spec fn cleaning(
    state: ServiceView,
    later: ServiceView,
    candidates: Seq<Seq<char>>,
    found: Seq<EntryView>,
) -> Run<nat>
    decreases found.len(),
{
    if found.len() == 0 {
        Run { state, result: Ok(0) }
    } else {
        let before = cleaning(state, later, candidates, found.drop_last());
        match before.result {
            Err(failure) => before,
            Ok(count) => {
                let one = cleaning_one(before.state, later, candidates, found.last());
                Run {
                    state: one.state,
                    result: match one.result {
                        Ok(cleaned) => Ok(
                            if cleaned {
                                count + 1
                            } else {
                                count
                            },
                        ),
                        Err(failure) => Err(failure),
                    },
                }
            },
        }
    }
}

/// A pass over every workspace, and then the removals.
pub open spec fn cleaning_up(
    state: ServiceView,
    later: ServiceView,
    candidates: Seq<Seq<char>>,
) -> Run<nat> {
    let (after, found) = reconcile::reconciling(
        state,
        later,
        registry::listing(state.rows, registry::used_rows()),
        true,
    );
    cleaning(after, later, candidates, found.entries)
}

/// How a backend was reached stays how it was reached.
pub proof fn lemma_connect_settled(
    state: ServiceView,
    now: ServiceView,
    later: ServiceView,
    host: Option<Seq<char>>,
)
    requires
        replay::connect(state, now, host).0.connects.is_prefix_of(now.connects),
        now.connects.is_prefix_of(later.connects),
    ensures
        replay::connect(state, now, host) == replay::connect(state, later, host),
        replay::goes_on(state, replay::connect(state, now, host).0),
{
    let c = state.connects.len() as int;
    if replay::connect(state, now, host).0.connects.len() > c {
        assert(now.connects[c] == later.connects[c]);
    }
}

proof fn lemma_probing_settled(
    state: ServiceView,
    now: ServiceView,
    later: ServiceView,
    workspace: WorkspaceView,
)
    requires
        replay::goes_on(sessions::probing(state, now, workspace).state, now),
        replay::goes_on(now, later),
    ensures
        replay::goes_on(state, sessions::probing(state, now, workspace).state),
        sessions::probing(state, now, workspace) == sessions::probing(state, later, workspace),
{
    if workspace.terminal_session_id is Some {
        lemma_connect_settled(state, now, later, workspace.remote_host);
        let (reached, connected) = replay::connect(state, now, workspace.remote_host);
        if connected is Ok {
            let n = reached.log.len() as int;
            assert(now.log[n] == later.log[n]);
        }
    }
}

proof fn lemma_fencing_settled(
    state: ServiceView,
    now: ServiceView,
    later: ServiceView,
    workspace: WorkspaceView,
    changed: Seq<char>,
)
    requires
        replay::goes_on(sessions::fencing(state, now, workspace, changed).state, now),
        replay::goes_on(now, later),
    ensures
        replay::goes_on(state, sessions::fencing(state, now, workspace, changed).state),
        sessions::fencing(state, now, workspace, changed) == sessions::fencing(
            state,
            later,
            workspace,
            changed,
        ),
{
    if workspace.daemon_id is None {
        let n = state.log.len() as int;
        assert(now.log[n] == later.log[n]);
        let (first, named) = replay::list_workspaces(state, now, workspace.remote_host);
        if named is Ok {
            assert(now.log[n + 1] == later.log[n + 1]);
        }
    }
}

proof fn lemma_killing_settled(
    state: ServiceView,
    now: ServiceView,
    later: ServiceView,
    workspace: WorkspaceView,
)
    requires
        replay::goes_on(sessions::killing_and_deleting(state, now, workspace).state, now),
        replay::goes_on(now, later),
    ensures
        replay::goes_on(state, sessions::killing_and_deleting(state, now, workspace).state),
        sessions::killing_and_deleting(state, now, workspace) == sessions::killing_and_deleting(
            state,
            later,
            workspace,
        ),
{
    let (reached, connected) = replay::connect(state, now, workspace.remote_host);
    let changed = "the daemon changed while preparing to delete workspace "@;
    let fence = sessions::fencing(reached, now, workspace, changed);
    if connected is Ok {
        assert(fence.state.log.is_prefix_of(now.log));
        assert(fence.state.connects == reached.connects);
    }
    lemma_connect_settled(state, now, later, workspace.remote_host);
    if connected is Ok {
        lemma_fencing_settled(reached, now, later, workspace, changed);
        if fence.result is Ok {
            let n = fence.state.log.len() as int;
            assert(now.log[n] == later.log[n]);
        }
    }
}

proof fn lemma_cleaning_one_settled(
    state: ServiceView,
    now: ServiceView,
    later: ServiceView,
    candidates: Seq<Seq<char>>,
    found: EntryView,
)
    requires
        replay::goes_on(cleaning_one(state, now, candidates, found).state, now),
        replay::goes_on(now, later),
    ensures
        replay::goes_on(state, cleaning_one(state, now, candidates, found).state),
        cleaning_one(state, now, candidates, found) == cleaning_one(
            state,
            later,
            candidates,
            found,
        ),
{
    if let EntryView::Persisted(row, SessionState::Dead) = found {
        if candidates.contains(row.id) {
            if let Some(current) = registry::workspace_of(state.rows, row.id) {
                let probe = sessions::probing(state, now, current);
                if probe.result == Ok::<SessionState, FailureView>(SessionState::Dead) {
                    lemma_killing_settled(probe.state, now, later, probe.workspace);
                }
                lemma_probing_settled(state, now, later, current);
            }
        }
    }
}

/// What was answered stays the answer as the history goes on.
proof fn lemma_cleaning_settled(
    state: ServiceView,
    now: ServiceView,
    later: ServiceView,
    candidates: Seq<Seq<char>>,
    found: Seq<EntryView>,
)
    requires
        replay::goes_on(cleaning(state, now, candidates, found).state, now),
        replay::goes_on(now, later),
    ensures
        replay::goes_on(state, cleaning(state, now, candidates, found).state),
        cleaning(state, now, candidates, found) == cleaning(state, later, candidates, found),
    decreases found.len(),
{
    if found.len() > 0 {
        let before = cleaning(state, now, candidates, found.drop_last());
        if before.result is Ok {
            lemma_cleaning_one_settled(before.state, now, later, candidates, found.last());
        }
        lemma_cleaning_settled(state, now, later, candidates, found.drop_last());
    }
}

/// The first refusal is the answer.
proof fn lemma_cleaning_stops(
    state: ServiceView,
    later: ServiceView,
    candidates: Seq<Seq<char>>,
    found: Seq<EntryView>,
    n: int,
)
    requires
        0 <= n <= found.len(),
        cleaning(state, later, candidates, found.take(n)).result is Err,
    ensures
        cleaning(state, later, candidates, found) == cleaning(
            state,
            later,
            candidates,
            found.take(n),
        ),
    decreases found.len(),
{
    if n == found.len() {
        assert(found.take(n) =~= found);
    } else {
        assert(found.drop_last().take(n) =~= found.take(n));
        lemma_cleaning_stops(state, later, candidates, found.drop_last(), n);
    }
}

fn lists_id(ids: &Vec<WorkspaceId>, id: &WorkspaceId) -> (listed: bool)
    ensures
        listed == ids.deep_view().contains(id@),
{
    let mut i: usize = 0;
    while i < ids.len()
        invariant
            i <= ids.len(),
            forall|k: int| 0 <= k < i ==> ids.deep_view()[k] != id@,
        decreases ids.len() - i,
    {
        assert(ids.deep_view()[i as int] == ids[i as int]@);
        if ids[i].is(id) {
            return true;
        }
        i = i + 1;
    }
    false
}

impl<B: SessionBackend> WorkspaceLifecycleService<B> {
    fn clean_row(&mut self, id: &WorkspaceId) -> (cleaned: Result<bool, Failure>)
        requires
            old(self).wf(),
        ensures
            final(self).wf(),
            final(self).continues(old(self)),
            cleaning_row(old(self)@, final(self)@, id@) == (Run {
                state: final(self)@,
                result: service::told(cleaned),
            }),
    {
        let mut current = match self.registry().get_workspace(id) {
            Some(current) => current,
            None => {
                return Ok(false);
            },
        };
        let ghost given = current@;
        let state = self.probe(&mut current);
        let ghost probed = self@;
        match state {
            Ok(SessionState::Dead) => {},
            _ => {
                return Ok(false);
            },
        }
        let killed = self.kill_and_delete_workspace(&current);
        proof {
            lemma_killing_settled(probed, self@, self@, current@);
            lemma_probing_settled(old(self)@, probed, self@, given);
        }
        match killed {
            Ok(()) => Ok(true),
            Err(failure) => Err(failure.behind("cleaning dead workspace ", current.id.as_str())),
        }
    }

    /// Removes the candidates whose sessions are confirmed dead. Each dead
    /// daemon record is killed before its row is deleted, so that the next pass
    /// does not discover it again. Answers how many were removed.
    pub fn cleanup_dead_workspaces(
        &mut self,
        candidate_ids: Vec<WorkspaceId>,
    ) -> (cleaned: Result<usize, Failure>)
        requires
            old(self).wf(),
        ensures
            final(self).wf(),
            final(self).continues(old(self)),
            ({
                let run = cleaning_up(old(self)@, final(self)@, candidate_ids.deep_view());
                &&& run.state == final(self)@
                &&& match cleaned {
                    Ok(count) => run.result == Ok::<nat, FailureView>(count as nat),
                    Err(failure) => run.result == Err::<nat, FailureView>(failure@),
                }
            }),
    {
        let ghost candidates = candidate_ids.deep_view();
        let reconciled = self.reconcile_all();
        let entries = reconciled.entries;
        let ghost found = entries.deep_view();
        let ghost passed = self@;
        let ghost known = registry::listing(old(self)@.rows, registry::used_rows());
        let mut count: usize = 0;
        let mut i: usize = 0;
        assert(found.take(0).len() == 0);
        while i < entries.len()
            invariant
                i <= entries.len(),
                count <= i,
                found == entries.deep_view(),
                candidates == candidate_ids.deep_view(),
                self.wf(),
                self.continues(old(self)),
                replay::goes_on(passed, self@),
                reconcile::reconciling(old(self)@, self@, known, true).0 == passed,
                reconcile::reconciling(old(self)@, self@, known, true).1.entries == found,
                known == registry::listing(old(self)@.rows, registry::used_rows()),
                cleaning(passed, self@, candidates, found.take(i as int)) == (Run {
                    state: self@,
                    result: Ok::<nat, FailureView>(count as nat),
                }),
            decreases entries.len() - i,
        {
            let ghost before = self@;
            proof {
                assert(found.take(i + 1).drop_last() =~= found.take(i as int));
                assert(found.take(i + 1).last() == entries[i as int]@);
            }
            let cleaned = match entries[i].persisted() {
                Some((row, SessionState::Dead)) => if lists_id(&candidate_ids, &row.id) {
                    self.clean_row(&row.id)
                } else {
                    Ok(false)
                },
                _ => Ok(false),
            };
            proof {
                lemma_cleaning_one_settled(before, self@, self@, candidates, entries[i as int]@);
                lemma_cleaning_settled(passed, before, self@, candidates, found.take(i as int));
                reconcile::lemma_reconciling_settled(
                    old(self)@,
                    before,
                    self@,
                    known,
                    true,
                );
            }
            match cleaned {
                Ok(cleaned) => if cleaned {
                    count = count + 1;
                },
                Err(failure) => {
                    proof {
                        lemma_cleaning_stops(passed, self@, candidates, found, i + 1);
                    }
                    return Err(failure);
                },
            }
            i = i + 1;
        }
        assert(found.take(found.len() as int) =~= found);
        Ok(count)
    }
}

} // verus!
