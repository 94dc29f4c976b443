//! Where every host's pushed events go, and which hosts are listened to.
//!
//! One stream per kind of event for the whole service, however many hosts there
//! are: who listens is asked when an event is delivered, not when a host's
//! stream is opened.

use crate::entry::{Failure, FailureView};
use crate::calls;
use crate::outlets;
use crate::outlets::{Listener, Outlets, OutletsView};
use crate::replay;
use crate::service;
use crate::service::{ServiceView, Step, WorkspaceLifecycleService};
use crate::session_backend::{
    DaemonEvent, DaemonEventView, IdentifiedDaemonEvent, SessionBackend, SessionChange,
    StatusEvent, WorkspaceEvent, WorkspaceEventView,
};
use crate::text;
use smol::channel::{Receiver, Sender};
use vstd::prelude::*;
use vstd::string::*;

verus! {

/// Everyone waiting to be told that something moved. Dropping the receiver is
/// how a watcher leaves.
pub struct Watchers {
    outlets: Outlets<()>,
}

impl View for Watchers {
    type V = OutletsView<()>;

    closed spec fn view(&self) -> OutletsView<()> {
        self.outlets@
    }
}

/// Nobody, and nothing told.
pub open spec fn silent<T: View>() -> OutletsView<T> {
    OutletsView { listeners: Seq::empty(), came: 0, told: Seq::empty() }
}

impl Watchers {
    pub fn new() -> (watchers: Self)
        ensures
            watchers@ == silent::<()>(),
    {
        Watchers { outlets: Outlets::new() }
    }

    /// One more watcher. Another window must not silence the first.
    pub fn watch(&mut self) -> (receiver: Receiver<()>)
        ensures
            exists|sender: Sender<()>| #[trigger]
                outlets::are_ends(sender, receiver) && final(self)@ == outlets::with_listener(
                    old(self)@,
                    sender,
                ),
            outlets::hears(final(self)@, receiver),
    {
        self.outlets.listen()
    }

    pub fn is_empty(&self) -> (empty: bool)
        ensures
            empty == (self@.listeners.len() == 0),
    {
        self.outlets.is_empty()
    }

    /// Tells every watcher once, and forgets those that are gone.
    pub fn announce(&mut self)
        ensures
            final(self)@ == outlets::telling_all(old(self)@, final(self)@, ()),
    {
        self.outlets.tell_all();
    }
}

/// Who is told when some host's daemon falls behind this client's, or catches
/// up. Carries no payload: a listener asks again for the hosts it shows.
pub struct DaemonFreshness {
    watchers: Watchers,
}

impl View for DaemonFreshness {
    type V = OutletsView<()>;

    closed spec fn view(&self) -> OutletsView<()> {
        self.watchers@
    }
}

impl DaemonFreshness {
    pub fn new() -> (freshness: Self)
        ensures
            freshness@ == silent::<()>(),
    {
        DaemonFreshness { watchers: Watchers::new() }
    }

    /// A stream that yields once every time some host's freshness changes. Any
    /// number of subscribers.
    pub fn watch_daemon_freshness(&mut self) -> (receiver: Receiver<()>)
        ensures
            exists|sender: Sender<()>| #[trigger]
                outlets::are_ends(sender, receiver) && final(self)@ == outlets::with_listener(
                    old(self)@,
                    sender,
                ),
            outlets::hears(final(self)@, receiver),
    {
        self.watchers.watch()
    }

    pub fn is_empty(&self) -> (empty: bool)
        ensures
            empty == (self@.listeners.len() == 0),
    {
        self.watchers.is_empty()
    }

    /// Some host's freshness changed: every subscriber is told once, and those
    /// that are gone are forgotten.
    pub fn announce(&mut self)
        ensures
            final(self)@ == outlets::telling_all(old(self)@, final(self)@, ()),
    {
        self.watchers.announce();
    }
}

/// What an [`EventFanout`] holds.
#[verifier::ext_equal]
pub struct FanoutView {
    /// The stream of the sessions, which one listens to at most.
    pub status: OutletsView<StatusEvent>,
    /// The stream of the layouts, which one listens to at most.
    pub layout: OutletsView<WorkspaceEvent>,
    pub changes: OutletsView<()>,
}

/// Where one host's pushed events go once they are off the wire: onto whichever
/// merged stream each kind belongs to.
pub struct EventFanout {
    status: Outlets<StatusEvent>,
    /// Layouts and removals both.
    layout: Outlets<WorkspaceEvent>,
    workspace_changes: Watchers,
}

impl View for EventFanout {
    type V = FanoutView;

    closed spec fn view(&self) -> FanoutView {
        FanoutView {
            status: self.status@,
            layout: self.layout@,
            changes: self.workspace_changes@,
        }
    }
}

/// Whether nobody has subscribed to anything.
pub open spec fn is_unheard(fanout: FanoutView) -> bool {
    fanout.status.listeners.len() == 0 && fanout.layout.listeners.len() == 0
        && fanout.changes.listeners.len() == 0
}

/// A session event is handed on, where anybody listens; a listener that is gone
/// is forgotten.
pub open spec fn handing_status(
    fanout: FanoutView,
    later: FanoutView,
    event: (Seq<char>, SessionChange),
) -> FanoutView {
    FanoutView { status: outlets::telling_one(fanout.status, later.status, event), ..fanout }
}

/// A layout event is handed on, where anybody listens; a listener that is gone
/// is forgotten.
pub open spec fn handing_layout(
    fanout: FanoutView,
    later: FanoutView,
    event: WorkspaceEventView,
) -> FanoutView {
    FanoutView { layout: outlets::telling_one(fanout.layout, later.layout, event), ..fanout }
}

/// Every watcher of the workspaces is told, once.
pub open spec fn announcing(fanout: FanoutView, later: FanoutView) -> FanoutView {
    FanoutView { changes: outlets::telling_all(fanout.changes, later.changes, ()), ..fanout }
}

/// The workspace event that a pushed event becomes, for those that become one.
pub open spec fn workspace_event(
    remote_host: Option<Seq<char>>,
    daemon_id: Option<Seq<char>>,
    event: DaemonEventView,
) -> Option<WorkspaceEventView> {
    match event {
        DaemonEventView::Session(_) => None,
        DaemonEventView::Layout(event) => Some(
            WorkspaceEventView::Layout { remote_host, daemon_id, event },
        ),
        DaemonEventView::WorkspaceChanged(event) => Some(
            WorkspaceEventView::Layout { remote_host, daemon_id, event },
        ),
        DaemonEventView::WorkspaceReset(event) => Some(
            WorkspaceEventView::Reset { remote_host, daemon_id, event },
        ),
        DaemonEventView::WorkspaceRemoved { workspace_id } => Some(
            WorkspaceEventView::Removed { remote_host, daemon_id, workspace_id },
        ),
    }
}

/// Whether a pushed event says that the inventory moved.
pub open spec fn changes_inventory(event: DaemonEventView) -> bool {
    event is WorkspaceChanged || event is WorkspaceReset || event is WorkspaceRemoved
}

/// One pushed event is handed to its stream.
pub open spec fn delivering(
    fanout: FanoutView,
    later: FanoutView,
    remote_host: Option<Seq<char>>,
    daemon_id: Option<Seq<char>>,
    event: DaemonEventView,
) -> FanoutView {
    match workspace_event(remote_host, daemon_id, event) {
        None => handing_status(fanout, later, event->Session_0),
        Some(layout) => {
            let handed = handing_layout(fanout, later, layout);
            if changes_inventory(event) {
                announcing(handed, later)
            } else {
                handed
            }
        },
    }
}

impl EventFanout {
    pub fn new() -> (fanout: Self)
        ensures
            fanout@ == (FanoutView { status: silent(), layout: silent(), changes: silent() }),
    {
        EventFanout {
            status: Outlets::new(),
            layout: Outlets::new(),
            workspace_changes: Watchers::new(),
        }
    }

    /// Whether nobody has subscribed to anything, which is the one case where
    /// opening a host's stream would be pure cost.
    pub fn is_idle(&self) -> (idle: bool)
        ensures
            idle == is_unheard(self@),
    {
        self.status.is_empty() && self.layout.is_empty() && self.workspace_changes.is_empty()
    }

    /// Every host's session events, merged. One subscriber: another takes the
    /// stream over.
    pub fn subscribe_status(&mut self) -> (receiver: Receiver<StatusEvent>)
        ensures
            exists|sender: Sender<StatusEvent>| #[trigger]
                outlets::are_ends(sender, receiver) && final(self)@ == (FanoutView {
                    status: outlets::taken_over(old(self)@.status, sender),
                    ..old(self)@
                }),
            outlets::hears(final(self)@.status, receiver),
    {
        self.status.take_over()
    }

    /// Every host's accepted layouts and removed workspaces, merged. One
    /// subscriber: another takes the stream over.
    pub fn subscribe_layout(&mut self) -> (receiver: Receiver<WorkspaceEvent>)
        ensures
            exists|sender: Sender<WorkspaceEvent>| #[trigger]
                outlets::are_ends(sender, receiver) && final(self)@ == (FanoutView {
                    layout: outlets::taken_over(old(self)@.layout, sender),
                    ..old(self)@
                }),
            outlets::hears(final(self)@.layout, receiver),
    {
        self.layout.take_over()
    }

    /// Changes of the inventory that no session may tell of. Any number of
    /// subscribers.
    pub fn subscribe_workspace_changes(&mut self) -> (receiver: Receiver<()>)
        ensures
            exists|sender: Sender<()>| #[trigger]
                outlets::are_ends(sender, receiver) && final(self)@ == (FanoutView {
                    changes: outlets::with_listener(old(self)@.changes, sender),
                    ..old(self)@
                }),
            outlets::hears(final(self)@.changes, receiver),
    {
        self.workspace_changes.watch()
    }

    fn hand_status(&mut self, event: StatusEvent)
        ensures
            final(self)@ == handing_status(old(self)@, final(self)@, event@),
    {
        self.status.tell(event);
    }

    fn hand_layout(&mut self, event: WorkspaceEvent)
        ensures
            final(self)@ == handing_layout(old(self)@, final(self)@, event@),
    {
        self.layout.tell(event);
    }

    fn notify_workspace_changes(&mut self)
        ensures
            final(self)@ == announcing(old(self)@, final(self)@),
    {
        self.workspace_changes.announce();
    }

    /// Hands one event to its stream. `false` once nobody listens, which is
    /// what ends a pump.
    ///
    /// A listener that is gone is forgotten rather than tried again: dropping
    /// the receiver is the only way to leave.
    pub fn deliver(
        &mut self,
        remote_host: Option<&str>,
        identified: IdentifiedDaemonEvent,
    ) -> (heard: bool)
        ensures
            final(self)@ == delivering(
                old(self)@,
                final(self)@,
                remote_host.deep_view(),
                text::opt(identified.daemon_id),
                identified.event@,
            ),
            heard == !is_unheard(final(self)@),
    {
        let remote_host = text::owned(remote_host);
        let daemon_id = identified.daemon_id;
        match identified.event {
            DaemonEvent::Session(event) => self.hand_status(event),
            DaemonEvent::Layout(event) => {
                self.hand_layout(WorkspaceEvent::Layout { remote_host, daemon_id, event })
            },
            DaemonEvent::WorkspaceChanged(event) => {
                self.hand_layout(WorkspaceEvent::Layout { remote_host, daemon_id, event });
                self.notify_workspace_changes();
            },
            DaemonEvent::WorkspaceReset(event) => {
                self.hand_layout(WorkspaceEvent::Reset { remote_host, daemon_id, event });
                self.notify_workspace_changes();
            },
            DaemonEvent::WorkspaceRemoved { workspace_id } => {
                self.hand_layout(WorkspaceEvent::Removed { remote_host, daemon_id, workspace_id });
                self.notify_workspace_changes();
            },
        }
        !self.is_idle()
    }
}

/// An event is handed to the stream of its kind and to no other, once, where
/// somebody listens; a listener that did not take it is forgotten, and nobody
/// begins to listen by it.
pub proof fn law_a_gone_listener_is_forgotten(
    fanout: FanoutView,
    later: FanoutView,
    remote_host: Option<Seq<char>>,
    daemon_id: Option<Seq<char>>,
    event: DaemonEventView,
)
    requires
        fanout.status.listeners.len() <= 1,
        fanout.layout.listeners.len() <= 1,
    ensures
        ({
            let after = delivering(fanout, later, remote_host, daemon_id, event);
            &&& match workspace_event(remote_host, daemon_id, event) {
                None => after.layout == fanout.layout && after.changes == fanout.changes
                    && is_handed_once(fanout.status, after.status, event->Session_0),
                Some(layout) => after.status == fanout.status && is_handed_once(
                    fanout.layout,
                    after.layout,
                    layout,
                ),
            }
            &&& !changes_inventory(event) ==> after.changes == fanout.changes
            &&& is_unheard(fanout) ==> after == fanout
        }),
{
    if is_unheard(fanout) {
        assert(outlets::telling_all(fanout.changes, later.changes, ()) =~= fanout.changes);
    }
    match workspace_event(remote_host, daemon_id, event) {
        None => lemma_handed_once(fanout.status, later.status, event->Session_0),
        Some(layout) => lemma_handed_once(fanout.layout, later.layout, layout),
    }
}

/// What is delivered goes into the channel of whoever subscribed to the stream
/// of its kind, and a change of the inventory into that of everyone who watches
/// for one.
pub proof fn law_a_subscriber_hears_what_is_delivered(
    fanout: FanoutView,
    later: FanoutView,
    remote_host: Option<Seq<char>>,
    daemon_id: Option<Seq<char>>,
    event: DaemonEventView,
    sessions: Receiver<StatusEvent>,
    layouts: Receiver<WorkspaceEvent>,
    changes: Receiver<()>,
)
    requires
        fanout.status.listeners.len() <= 1,
        fanout.layout.listeners.len() <= 1,
    ensures
        ({
            let after = delivering(fanout, later, remote_host, daemon_id, event);
            &&& match workspace_event(remote_host, daemon_id, event) {
                None => outlets::hears(fanout.status, sessions) ==> outlets::was_told(
                    after.status,
                    fanout.status.told.len(),
                    sessions,
                    event->Session_0,
                ),
                Some(layout) => outlets::hears(fanout.layout, layouts) ==> outlets::was_told(
                    after.layout,
                    fanout.layout.told.len(),
                    layouts,
                    layout,
                ),
            }
            &&& changes_inventory(event) && outlets::hears(fanout.changes, changes)
                ==> outlets::was_told(
                after.changes,
                fanout.changes.told.len(),
                changes,
                (),
            )
        }),
{
    match workspace_event(remote_host, daemon_id, event) {
        None => {
            if outlets::hears(fanout.status, sessions) {
                outlets::law_the_one_listener_is_told(
                    fanout.status,
                    later.status,
                    event->Session_0,
                    sessions,
                );
            }
        },
        Some(layout) => {
            if outlets::hears(fanout.layout, layouts) {
                outlets::law_the_one_listener_is_told(
                    fanout.layout,
                    later.layout,
                    layout,
                    layouts,
                );
            }
        },
    }
    if outlets::hears(fanout.changes, changes) {
        outlets::law_every_listener_is_told(fanout.changes, later.changes, (), changes);
    }
}

proof fn lemma_handed_once<T: View>(
    before: OutletsView<T>,
    later: OutletsView<T>,
    message: T::V,
)
    requires
        before.listeners.len() <= 1,
    ensures
        is_handed_once(before, outlets::telling_one(before, later, message), message),
{
    let after = outlets::telling_one(before, later, message);
    if before.listeners.len() > 0 {
        assert(after.told.drop_last() =~= before.told);
        assert(before.listeners.drop_first() =~= Seq::<Listener<T>>::empty());
    }
}

/// That a message was put into a stream once, where somebody listened, and that
/// who did not take it does not listen any more.
pub open spec fn is_handed_once<T: View>(
    before: OutletsView<T>,
    after: OutletsView<T>,
    message: T::V,
) -> bool {
    if before.listeners.len() == 0 {
        after == before
    } else {
        &&& after.told.len() == before.told.len() + 1
        &&& after.told.drop_last() == before.told
        &&& after.told.last().listener == before.listeners[0]
        &&& after.told.last().message == message
        &&& after.listeners == (if after.told.last().taken {
            before.listeners
        } else {
            Seq::empty()
        })
    }
}

/// A host's stream to forward, as opened.
pub struct Pump {
    pub remote_host: Option<String>,
    pub events: Receiver<IdentifiedDaemonEvent>,
    /// The connections it belongs to.
    pub generation: u64,
}

impl DeepView for Pump {
    type V = (Option<Seq<char>>, u64);

    open spec fn deep_view(&self) -> (Option<Seq<char>>, u64) {
        (text::opt(self.remote_host), self.generation)
    }
}

/// What [`EventPumps`] holds.
#[verifier::ext_equal]
pub struct PumpsView {
    pub fanout: FanoutView,
    /// The hosts whose stream is being forwarded.
    pub pumped: Seq<Option<Seq<char>>>,
    pub generation: u64,
}

/// The merged streams, and the hosts that feed them: each host's stream is
/// opened once, however many subscribers there are.
pub struct EventPumps {
    fanout: EventFanout,
    pumped: Vec<Option<String>>,
    generation: u64,
}

impl View for EventPumps {
    type V = PumpsView;

    closed spec fn view(&self) -> PumpsView {
        PumpsView {
            fanout: self.fanout@,
            pumped: self.pumped.deep_view(),
            generation: self.generation,
        }
    }
}

impl EventPumps {
    /// No host is pumped twice.
    pub open spec fn wf(&self) -> bool {
        self@.pumped.no_duplicates()
    }

    pub fn new() -> (pumps: Self)
        ensures
            pumps.wf(),
            pumps@.fanout == (FanoutView {
                status: silent(),
                layout: silent(),
                changes: silent(),
            }),
            pumps@.pumped == Seq::<Option<Seq<char>>>::empty(),
            pumps@.generation == 0,
    {
        let pumps = EventPumps { fanout: EventFanout::new(), pumped: Vec::new(), generation: 0 };
        assert(pumps@.pumped =~= Seq::<Option<Seq<char>>>::empty());
        pumps
    }

    /// The merged streams, to subscribe to.
    pub fn fanout(&mut self) -> (fanout: &mut EventFanout)
        ensures
            fanout@ == old(self)@.fanout,
            final(self)@ == (PumpsView { fanout: final(fanout)@, ..old(self)@ }),
    {
        &mut self.fanout
    }

    /// Ends every pump, for connections that are gone. The subscribers stay.
    pub fn disconnect(&mut self)
        ensures
            final(self)@ == (PumpsView {
                pumped: Seq::empty(),
                generation: old(self)@.generation.wrapping_add(1),
                ..old(self)@
            }),
    {
        self.generation = self.generation.wrapping_add(1);
        self.pumped = Vec::new();
        assert(self@.pumped =~= Seq::<Option<Seq<char>>>::empty());
    }

    /// What a pump does with one event: whether it goes on. An event that came
    /// over a connection that is gone is delivered to nobody.
    pub fn forward(
        &mut self,
        generation: u64,
        remote_host: Option<&str>,
        event: IdentifiedDaemonEvent,
    ) -> (goes_on: bool)
        ensures
            if generation == old(self)@.generation {
                &&& final(self)@ == (PumpsView {
                    fanout: delivering(
                        old(self)@.fanout,
                        final(self)@.fanout,
                        remote_host.deep_view(),
                        text::opt(event.daemon_id),
                        event.event@,
                    ),
                    ..old(self)@
                })
                &&& goes_on == !is_unheard(final(self)@.fanout)
            } else {
                !goes_on && final(self)@ == old(self)@
            },
    {
        if generation != self.generation {
            return false;
        }
        self.fanout.deliver(remote_host, event)
    }

    fn find(&self, host: Option<&str>) -> (at: usize)
        ensures
            at <= self@.pumped.len(),
            self@.pumped.len() == self.pumped.len(),
            at < self@.pumped.len() ==> self@.pumped[at as int] == host.deep_view(),
            at == self@.pumped.len() ==> !self@.pumped.contains(host.deep_view()),
    {
        let mut at: usize = 0;
        while at < self.pumped.len() && !text::same_opt_text(
            text::borrowed(&self.pumped[at]),
            host,
        )
            invariant
                at <= self.pumped.len(),
                forall|k: int| 0 <= k < at ==> self@.pumped[k] != host.deep_view(),
            decreases self.pumped.len() - at,
        {
            assert(self@.pumped[at as int] == text::opt(self.pumped[at as int]));
            at = at + 1;
        }
        at
    }

    /// A host's pump could not be started after all, and may be tried again.
    pub fn release(&mut self, host: Option<&str>)
        requires
            old(self).wf(),
        ensures
            final(self).wf(),
            final(self)@.fanout == old(self)@.fanout,
            final(self)@.generation == old(self)@.generation,
            final(self)@.pumped == old(self)@.pumped.filter(
                |other: Option<Seq<char>>| other != host.deep_view(),
            ),
            !final(self)@.pumped.contains(host.deep_view()),
    {
        let at = self.find(host);
        let ghost before = self@.pumped;
        if at < self.pumped.len() {
            let _ = self.pumped.remove(at);
            assert(self@.pumped =~= before.remove(at as int));
        }
        proof {
            lemma_released(before, host.deep_view());
        }
    }
}

/// Of a list without duplicates, leaving out an element and removing it where it
/// stands are one.
proof fn lemma_released<T>(list: Seq<T>, item: T)
    requires
        list.no_duplicates(),
    ensures
        list.filter(|other: T| other != item).no_duplicates(),
        !list.filter(|other: T| other != item).contains(item),
        !list.contains(item) ==> list.filter(|other: T| other != item) == list,
        forall|at: int|
            0 <= at < list.len() && list[at] == item ==> list.filter(|other: T| other != item)
                == #[trigger] list.remove(at),
    decreases list.len(),
{
    let keeps = |other: T| other != item;
    reveal(Seq::filter);
    if list.len() > 0 {
        let earlier = list.drop_last();
        lemma_released(earlier, item);
        let kept = earlier.filter(keeps);
        assert forall|x: T| kept.contains(x) implies earlier.contains(x) by {
            if !earlier.contains(item) {
                assert(kept == earlier);
            } else {
                let at = choose|at: int| 0 <= at < earlier.len() && earlier[at] == item;
                assert(kept == earlier.remove(at));
                let k = choose|k: int| 0 <= k < kept.len() && kept[k] == x;
                assert(earlier[if k < at { k } else { k + 1 }] == x);
            }
        }
        if list.last() == item {
            assert(!earlier.contains(item)) by {
                if earlier.contains(item) {
                    let k = choose|k: int| 0 <= k < earlier.len() && earlier[k] == item;
                    assert(list[k] == list[list.len() - 1]);
                }
            }
            assert(list.filter(keeps) == earlier);
            assert forall|at: int| 0 <= at < list.len() && list[at] == item implies earlier
                == #[trigger] list.remove(at) by {
                assert(at == list.len() - 1);
                assert(list.remove(at) =~= earlier);
            }
            assert(list[list.len() - 1] == item);
        } else {
            assert(list.filter(keeps) == kept.push(list.last()));
            assert(!kept.contains(list.last())) by {
                if earlier.contains(list.last()) {
                    let k = choose|k: int| 0 <= k < earlier.len() && earlier[k] == list.last();
                    assert(list[k] == list[list.len() - 1]);
                }
            }
            let all = kept.push(list.last());
            assert(!all.contains(item)) by {
                if all.contains(item) {
                    let k = choose|k: int| 0 <= k < all.len() && all[k] == item;
                    assert(kept[k] == item);
                }
            }
            if !list.contains(item) {
                assert(!earlier.contains(item)) by {
                    if earlier.contains(item) {
                        let k = choose|k: int| 0 <= k < earlier.len() && earlier[k] == item;
                        assert(list[k] == item);
                    }
                }
                assert(all =~= list);
            }
            assert forall|at: int| 0 <= at < list.len() && list[at] == item implies all
                == #[trigger] list.remove(at) by {
                assert(at < earlier.len());
                assert(earlier[at] == item);
                assert(kept == earlier.remove(at));
                assert(earlier.remove(at).push(list.last()) =~= list.remove(at));
            }
        }
    }
}

/// How opening the streams went.
#[verifier::ext_equal]
pub struct PumpRun {
    pub state: ServiceView,
    pub pumped: Seq<Option<Seq<char>>>,
    /// The hosts whose stream was opened.
    pub opened: Seq<Option<Seq<char>>>,
    /// This machine's refusal, which is the whole stream's.
    pub failure: Option<FailureView>,
}

/// One host's stream is opened, where somebody listens and it is not open
/// already. A refusal of this machine's backend is the answer; one of another
/// host is noted, because the rest of the stream is still worth having.
pub open spec fn opening_pump(
    run: PumpRun,
    later: ServiceView,
    idle: bool,
    host: Option<Seq<char>>,
) -> PumpRun {
    if idle || run.pumped.contains(host) {
        run
    } else {
        let (asked, reply) = replay::subscribe(run.state, later, host);
        match reply {
            Ok(()) => PumpRun {
                state: asked,
                pumped: run.pumped.push(host),
                opened: run.opened.push(host),
                ..run
            },
            Err(cause) => match host {
                None => PumpRun { state: asked, failure: Some(FailureView::Message(cause)), ..run },
                Some(name) => PumpRun {
                    state: ServiceView {
                        status_errors: service::with_status_error(
                            asked.status_errors,
                            name,
                            "status updates are off: "@ + cause,
                        ),
                        ..asked
                    },
                    ..run
                },
            },
        }
    }
}

/// Each host's stream is opened in turn, until this machine's is refused.
pub open spec fn opening_pumps(
    run: PumpRun,
    later: ServiceView,
    idle: bool,
    hosts: Seq<Option<Seq<char>>>,
) -> PumpRun
    decreases hosts.len(),
{
    if hosts.len() == 0 {
        run
    } else {
        let before = opening_pumps(run, later, idle, hosts.drop_last());
        if before.failure is Some {
            before
        } else {
            opening_pump(before, later, idle, hosts.last())
        }
    }
}

proof fn lemma_opening_pumps_settled(
    run: PumpRun,
    now: ServiceView,
    later: ServiceView,
    idle: bool,
    hosts: Seq<Option<Seq<char>>>,
)
    requires
        opening_pumps(run, now, idle, hosts).state.log.is_prefix_of(now.log),
        now.log.is_prefix_of(later.log),
    ensures
        run.state.log.is_prefix_of(opening_pumps(run, now, idle, hosts).state.log),
        opening_pumps(run, now, idle, hosts) == opening_pumps(run, later, idle, hosts),
    decreases hosts.len(),
{
    if hosts.len() > 0 {
        let before = opening_pumps(run, now, idle, hosts.drop_last());
        lemma_opening_pumps_settled(run, now, later, idle, hosts.drop_last());
        if before.failure is None && !idle && !before.pumped.contains(hosts.last()) {
            let n = before.state.log.len() as int;
            assert(now.log[n] == later.log[n]);
        }
    }
}

proof fn lemma_opening_pumps_stops(
    run: PumpRun,
    later: ServiceView,
    idle: bool,
    hosts: Seq<Option<Seq<char>>>,
    n: int,
)
    requires
        0 <= n <= hosts.len(),
        opening_pumps(run, later, idle, hosts.take(n)).failure is Some,
    ensures
        opening_pumps(run, later, idle, hosts) == opening_pumps(run, later, idle, hosts.take(n)),
    decreases hosts.len(),
{
    if n == hosts.len() {
        assert(hosts.take(n) =~= hosts);
    } else {
        assert(hosts.drop_last().take(n) =~= hosts.take(n));
        lemma_opening_pumps_stops(run, later, idle, hosts.drop_last(), n);
    }
}

/// The streams that were opened, each to be forwarded by a pump, and this
/// machine's refusal where there was one.
pub struct OpenedPumps {
    pub pumps: Vec<Pump>,
    pub failure: Option<Failure>,
}

/// Whether a pump forwards what its host's backend answered with in one of the
/// steps.
pub open spec fn is_stream_of<B: SessionBackend>(steps: Seq<Step<B>>, pump: Pump) -> bool {
    exists|j: int|
        0 <= j < steps.len() && is_stream_at(#[trigger] steps[j], pump)
}

/// Whether a pump forwards what its host's backend answered with in this step.
pub open spec fn is_stream_at<B: SessionBackend>(step: Step<B>, pump: Pump) -> bool {
    &&& step matches Step::Asked { exchange, before, after }
    &&& exchange.host() == text::opt(pump.remote_host)
    &&& call_ensures(calls::subscribe_events::<B>, (before,), (after, Ok(pump.events)))
}

impl<B: SessionBackend> WorkspaceLifecycleService<B> {
    /// Opens the stream of every host that has not got one open already. To be
    /// asked after a subscription, and after anything that may have reached a
    /// new host.
    pub fn ensure_pumps(&mut self, pumps: &mut EventPumps) -> (opened: OpenedPumps)
        requires
            old(self).wf(),
            old(pumps).wf(),
        ensures
            final(self).wf(),
            final(pumps).wf(),
            final(self).continues(old(self)),
            final(pumps)@.fanout == old(pumps)@.fanout,
            final(pumps)@.generation == old(pumps)@.generation,
            forall|k: int|
                0 <= k < opened.pumps@.len() ==> is_stream_of(
                    final(self).history().skip(old(self).history().len() as int),
                    #[trigger] opened.pumps@[k],
                ),
            ({
                let run = opening_pumps(
                    PumpRun {
                        state: old(self)@,
                        pumped: old(pumps)@.pumped,
                        opened: Seq::empty(),
                        failure: None,
                    },
                    final(self)@,
                    is_unheard(old(pumps)@.fanout),
                    old(self)@.hosts,
                );
                &&& run.state == final(self)@
                &&& run.pumped == final(pumps)@.pumped
                &&& opened.pumps.deep_view() == run.opened.map_values(
                    |host: Option<Seq<char>>| (host, old(pumps)@.generation),
                )
                &&& match opened.failure {
                    Some(failure) => run.failure == Some(failure@),
                    None => run.failure is None,
                }
            }),
    {
        let idle = pumps.fanout.is_idle();
        let hosts = self.known_hosts();
        let ghost all = hosts.deep_view();
        let ghost start = PumpRun {
            state: self@,
            pumped: pumps@.pumped,
            opened: Seq::empty(),
            failure: None,
        };
        let ghost generation = pumps.generation;
        let ghost named = |host: Option<Seq<char>>| (host, generation);
        let ghost mut done: Seq<Option<Seq<char>>> = Seq::empty();
        let mut opened: Vec<Pump> = Vec::new();
        let mut i: usize = 0;
        proof {
            assert(all.take(0).len() == 0);
            assert(opened.deep_view() =~= done.map_values(named));
        }
        while i < hosts.len()
            invariant
                i <= hosts.len(),
                all == hosts.deep_view(),
                self.wf(),
                self.continues(old(self)),
                forall|k: int|
                    0 <= k < opened@.len() ==> is_stream_of(
                        self.history().skip(old(self).history().len() as int),
                        #[trigger] opened@[k],
                    ),
                self@.hosts == all,
                all == old(self)@.hosts,
                start == (PumpRun {
                    state: old(self)@,
                    pumped: old(pumps)@.pumped,
                    opened: Seq::empty(),
                    failure: None,
                }),
                idle == is_unheard(old(pumps)@.fanout),
                pumps@.fanout == old(pumps)@.fanout,
                pumps.wf(),
                pumps@.generation == generation,
                pumps.generation == generation,
                old(pumps)@.generation == generation,
                named == (|host: Option<Seq<char>>| (host, generation)),
                opened.deep_view() == done.map_values(named),
                opening_pumps(start, self@, idle, all.take(i as int)) == (PumpRun {
                    state: self@,
                    pumped: pumps@.pumped,
                    opened: done,
                    failure: None,
                }),
            decreases hosts.len() - i,
        {
            let ghost before = self@;
            let ghost had = pumps@.pumped;
            let ghost opened_before = opened.deep_view();
            let ghost done_before = done;
            let ghost past = old(self).history().len() as int;
            let ghost steps = self.history();
            let ghost streams = opened@;
            proof {
                assert(all.take(i + 1).drop_last() =~= all.take(i as int));
                assert(all.take(i + 1).last() == text::opt(hosts[i as int]));
                assert(all[i as int] == text::opt(hosts[i as int]));
            }
            let host = text::borrowed(&hosts[i]);
            let known = pumps.find(host) < pumps.pumped.len();
            assert(known == had.contains(text::opt(hosts[i as int])));
            if !idle && !known {
                let reply = self.ask_subscribe(i);
                proof {
                    assert forall|k: int| 0 <= k < streams.len() implies is_stream_of(
                        self.history().skip(past),
                        #[trigger] streams[k],
                    ) by {
                        let j = choose|j: int|
                            0 <= j < steps.skip(past).len() && is_stream_at(
                                #[trigger] steps.skip(past)[j],
                                streams[k],
                            );
                        assert(self.history().skip(past)[j] == steps.skip(past)[j]);
                    }
                    lemma_opening_pumps_settled(start, before, self@, idle, all.take(i as int));
                }
                match reply {
                    Ok(events) => {
                        let owned = text::owned(host);
                        pumps.pumped.push(owned);
                        let pump = Pump {
                            remote_host: text::owned(host),
                            events,
                            generation: pumps.generation,
                        };
                        opened.push(pump);
                        proof {
                            let last = steps.len() - past;
                            assert(self.history().skip(past)[last]
                                == self.history()[steps.len() as int]);
                            assert(is_stream_at(self.history().skip(past)[last], pump));
                            assert(pumps@.pumped =~= had.push(text::opt(hosts[i as int])));
                            done = done.push(text::opt(hosts[i as int]));
                            assert(opened.deep_view() =~= opened_before.push(pump.deep_view()));
                            assert(done.map_values(named) =~= done_before.map_values(named).push(
                                named(text::opt(hosts[i as int])),
                            ));
                        }
                    },
                    Err(cause) => match host {
                        None => {
                            proof {
                                lemma_opening_pumps_stops(start, self@, idle, all, i + 1);
                            }
                            return OpenedPumps {
                                pumps: opened,
                                failure: Some(Failure::Message(cause)),
                            };
                        },
                        Some(name) => {
                            let ghost asked = self@;
                            self.record_status_error(name, cause.as_str());
                            proof {
                                lemma_opening_pumps_settled(
                                    start,
                                    before,
                                    self@,
                                    idle,
                                    all.take(i as int),
                                );
                            }
                        },
                    },
                }
            }
            i = i + 1;
        }
        assert(all.take(all.len() as int) =~= all);
        OpenedPumps { pumps: opened, failure: None }
    }
}

/// Two subscribers never become two connections: a host that is being forwarded
/// is not asked for its stream again, and nothing is asked while nobody listens.
pub proof fn law_a_host_is_pumped_once(
    run: PumpRun,
    later: ServiceView,
    idle: bool,
    host: Option<Seq<char>>,
)
    requires
        idle || run.pumped.contains(host),
    ensures
        opening_pump(run, later, idle, host) == run,
{
}

} // verus!
