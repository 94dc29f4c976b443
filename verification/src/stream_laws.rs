//! What the opening of event streams asks of each host.

use crate::adopt;
use crate::discovery_laws;
use crate::entry::{EntryView, SessionState};
use crate::events;
use crate::events::PumpRun;
use crate::listing;
use crate::reconcile_laws;
use crate::service;
use crate::service::{Exchange, ServiceView};
use crate::session_laws;
use vstd::prelude::*;

verus! {

/// Whether a host was asked for its stream since, and what it answered.
pub open spec fn was_asked(
    log: Seq<Exchange>,
    from: int,
    host: Option<Seq<char>>,
    granted: bool,
) -> bool {
    exists|n: int|
        from <= n < log.len() && (#[trigger] log[n] matches Exchange::Subscribe {
            host: asked,
            reply,
        } && asked == host && reply is Ok == granted)
}

/// Whether there is a note about a host.
pub open spec fn is_noted(errors: Seq<(Seq<char>, Seq<char>)>, host: Seq<char>) -> bool {
    exists|n: int| 0 <= n < errors.len() && (#[trigger] errors[n]).0 == host
}

/// Every host's stream is asked for, until this machine refuses its own: a host that
/// is forwarded already is not asked again, one that grants its stream is forwarded
/// from then on, and one that refuses is noted. Only this machine's refusal is a
/// failure, and where nobody listens nothing is asked.
pub proof fn law_every_host_is_asked_for_its_stream(
    run: PumpRun,
    later: ServiceView,
    idle: bool,
    hosts: Seq<Option<Seq<char>>>,
)
    requires
        run.failure is None,
    ensures
        ({
            let after = events::opening_pumps(run, later, idle, hosts);
            let from = run.state.log.len() as int;
            &&& idle ==> after == run
            &&& run.state.log.is_prefix_of(after.state.log)
            &&& run.pumped.is_prefix_of(after.pumped)
            &&& run.opened.is_prefix_of(after.opened)
            &&& after.pumped.len() - run.pumped.len() == after.opened.len() - run.opened.len()
            &&& forall|k: int|
                #![trigger after.opened[k]]
                run.opened.len() <= k < after.opened.len() ==> {
                    &&& hosts.contains(after.opened[k])
                    &&& !run.pumped.contains(after.opened[k])
                    &&& after.pumped[k - run.opened.len() + run.pumped.len()] == after.opened[k]
                    &&& was_asked(after.state.log, from, after.opened[k], true)
                }
            &&& after.failure is Some ==> hosts.contains(None) && was_asked(
                after.state.log,
                from,
                None,
                false,
            )
            &&& !idle && after.failure is None ==> forall|k: int|
                0 <= k < hosts.len() ==> after.pumped.contains(#[trigger] hosts[k]) || (hosts[k]
                    is Some && was_asked(after.state.log, from, hosts[k], false) && is_noted(
                    after.state.status_errors,
                    hosts[k]->0,
                ))
        }),
    decreases hosts.len(),
{
    if hosts.len() > 0 {
        let (rest, host) = (hosts.drop_last(), hosts.last());
        let from = run.state.log.len() as int;
        law_every_host_is_asked_for_its_stream(run, later, idle, rest);
        let before = events::opening_pumps(run, later, idle, rest);
        let after = events::opening_pumps(run, later, idle, hosts);
        assert(hosts[hosts.len() - 1] == host);
        assert(hosts.contains(host));
        assert forall|h: Option<Seq<char>>| #[trigger] rest.contains(h) implies hosts.contains(
            h,
        ) by {
            let k = choose|k: int| 0 <= k < rest.len() && rest[k] == h;
            assert(hosts[k] == h);
        }
        if before.failure is None && !idle && !before.pumped.contains(host) {
            lemma_asked_once(before, after, later, host);
            assert forall|h: Option<Seq<char>>, granted: bool| #[trigger]
                was_asked(before.state.log, from, h, granted) implies was_asked(
                after.state.log,
                from,
                h,
                granted,
            ) by {
                let n = choose|n: int|
                    from <= n < before.state.log.len() && (#[trigger] before.state.log[n]
                        matches Exchange::Subscribe { host: asked, reply } && asked == h && reply
                        is Ok == granted);
                assert(after.state.log[n] == before.state.log[n]);
            }
            let n = before.state.log.len() as int;
            assert(after.state.log[n] matches Exchange::Subscribe { host: asked, reply } && asked
                == host && was_asked(after.state.log, from, host, reply is Ok));
            assert forall|k: int|
                #![trigger after.opened[k]]
                run.opened.len() <= k < after.opened.len() implies hosts.contains(after.opened[k])
                && !run.pumped.contains(after.opened[k]) && after.pumped[k - run.opened.len()
                + run.pumped.len()] == after.opened[k] && was_asked(
                after.state.log,
                from,
                after.opened[k],
                true,
            ) by {
                if k < before.opened.len() {
                    assert(after.opened[k] == before.opened[k]);
                    assert(rest.contains(before.opened[k]));
                } else {
                    assert(after.opened[k] == host);
                    if run.pumped.contains(host) {
                        let i = choose|i: int| 0 <= i < run.pumped.len() && run.pumped[i] == host;
                        assert(before.pumped[i] == host);
                    }
                }
            }
            assert forall|h: Option<Seq<char>>| #[trigger]
                before.pumped.contains(h) implies after.pumped.contains(h) by {
                let i = choose|i: int| 0 <= i < before.pumped.len() && before.pumped[i] == h;
                assert(after.pumped[i] == h);
            }
            if after.failure is None {
                assert forall|k: int| 0 <= k < hosts.len() implies after.pumped.contains(
                    #[trigger] hosts[k],
                ) || (hosts[k] is Some && was_asked(after.state.log, from, hosts[k], false)
                    && is_noted(after.state.status_errors, hosts[k]->0)) by {
                    if k < rest.len() {
                        assert(rest[k] == hosts[k]);
                    } else if after.pumped.len() > before.pumped.len() {
                        assert(after.pumped[before.pumped.len() as int] == host);
                    }
                }
            }
        } else if before.failure is None && !idle {
            assert forall|k: int| 0 <= k < hosts.len() implies after.pumped.contains(
                #[trigger] hosts[k],
            ) || (hosts[k] is Some && was_asked(after.state.log, from, hosts[k], false)
                && is_noted(after.state.status_errors, hosts[k]->0)) by {
                if k < rest.len() {
                    assert(rest[k] == hosts[k]);
                }
            }
        }
    }
}

proof fn lemma_asked_once(
    before: PumpRun,
    after: PumpRun,
    later: ServiceView,
    host: Option<Seq<char>>,
)
    requires
        before.failure is None,
        !before.pumped.contains(host),
        after == events::opening_pump(before, later, false, host),
    ensures
        after.state.log.len() == before.state.log.len() + 1,
        before.state.log.is_prefix_of(after.state.log),
        after.state.log.last() matches Exchange::Subscribe { host: asked, reply } && asked == host
            && if reply is Ok {
            after.pumped == before.pumped.push(host) && after.opened == before.opened.push(host)
                && after.failure is None
        } else {
            after.pumped == before.pumped && after.opened == before.opened && (after.failure is Some
                <==> host is None) && (host matches Some(name) ==> is_noted(
                after.state.status_errors,
                name,
            ))
        },
        forall|name: Seq<char>| #[trigger]
            is_noted(before.state.status_errors, name) ==> is_noted(
                after.state.status_errors,
                name,
            ),
{
    if let Some(name) = host {
        if let Exchange::Subscribe { reply: Err(cause), .. } = after.state.log.last() {
            assert forall|other: Seq<char>|
                is_noted(before.state.status_errors, other) || other == name implies #[trigger]
            is_noted(after.state.status_errors, other) by {
                lemma_noted(
                    before.state.status_errors,
                    name,
                    "status updates are off: "@ + cause,
                    other,
                );
            }
            assert(is_noted(after.state.status_errors, name));
        }
    }
}

proof fn lemma_noted(
    errors: Seq<(Seq<char>, Seq<char>)>,
    host: Seq<char>,
    message: Seq<char>,
    other: Seq<char>,
)
    requires
        is_noted(errors, other) || other == host,
    ensures
        is_noted(service::with_status_error(errors, host, message), other),
    decreases errors.len(),
{
    let noted = service::with_status_error(errors, host, message);
    if errors.len() == 0 {
        assert(noted[0].0 == host);
    } else if errors[0].0 == host {
        if other == host {
            assert(noted[0].0 == host);
        } else {
            let n = choose|n: int| 0 <= n < errors.len() && (#[trigger] errors[n]).0 == other;
            assert(noted[n] == errors[n]);
        }
    } else {
        let rest = errors.drop_first();
        if other == errors[0].0 {
            assert(noted[0] == errors[0]);
        } else {
            if is_noted(errors, other) {
                let n = choose|n: int| 0 <= n < errors.len() && (#[trigger] errors[n]).0 == other;
                assert(rest[n - 1] == errors[n]);
            }
            lemma_noted(rest, host, message, other);
            let inner = service::with_status_error(rest, host, message);
            let n = choose|n: int| 0 <= n < inner.len() && (#[trigger] inner[n]).0 == other;
            assert(noted[n + 1] == inner[n]);
        }
    }
}

/// A host that cannot be reached offers nothing, and nothing is asked of it. One that
/// can be is listed, and offers rows that are stored and records found on it; nothing
/// is probed. The later state is one that what was asked and answered led to.
pub proof fn law_a_host_is_listed_before_it_is_chosen_from(
    state: ServiceView,
    later: ServiceView,
    host: Option<Seq<char>>,
)
    requires
        adopt::ensuring_host(state, later, host).state.log.is_prefix_of(later.log),
    ensures
        ({
            let run = adopt::ensuring_host(state, later, host);
            &&& state.log.is_prefix_of(run.state.log)
            &&& session_laws::is_unreached(state, run.state, host) ==> run.result is Err
                && run.state.log == state.log && run.state.rows == state.rows
            &&& run.result matches Ok(entries) ==> {
                &&& run.state.hosts.contains(host)
                &&& exists|instance: Option<Seq<char>>| #[trigger]
                    reconcile_laws::was_listed_as(
                        run.state.log,
                        state.log.len() as int,
                        run.state.log.len() as int,
                        host,
                        instance,
                    )
                &&& forall|k: int|
                    0 <= k < entries.len() ==> match #[trigger] entries[k] {
                        EntryView::Persisted(row, known) => known == SessionState::Unknown
                            && session_laws::stores(run.state.rows, row),
                        EntryView::Discovered { remote_host, state: known, .. } => known
                            == SessionState::Unknown && remote_host == host,
                    }
            }
        }),
{
    let reached = service::reaching(state, later, host);
    if service::reach(state, later, host) is Ok {
        if !state.hosts.contains(host) {
            assert(reached.hosts.last() == host);
        }
        let run = listing::listing_host(reached, later, host);
        reconcile_laws::lemma_listing_host(reached, later, host);
        listing::lemma_listing_host_grows(reached, later, host);
        listing::lemma_listing_host_steady(reached, later, later, host);
        if let Ok(listed) = run.result {
            let entries = adopt::host_entries_of(listed, host);
            assert forall|k: int| 0 <= k < entries.len() implies match #[trigger] entries[k] {
                EntryView::Persisted(row, known) => known == SessionState::Unknown
                    && session_laws::stores(run.state.rows, row),
                EntryView::Discovered { remote_host, state: known, .. } => known
                    == SessionState::Unknown && remote_host == host,
            } by {
                assert(entries.contains(entries[k]));
                discovery_laws::law_a_host_offers_its_rows_and_its_unused_records(
                    listed,
                    host,
                    entries[k],
                );
                if let EntryView::Persisted(row, _) = entries[k] {
                    let i = choose|i: int| 0 <= i < listed.rows.len() && listed.rows[i] == row;
                    assert(session_laws::stores(run.state.rows, listed.rows[i]));
                }
            }
        }
    }
}

} // verus!
