//! The sending ends of the streams, and what was put into them.
//!
//! The record of what was put into a stream is kept here and nowhere else: only
//! the call that puts a message into a channel adds to it.

use smol::channel::{Receiver, Sender};
use vstd::prelude::*;

verus! {

/// Who listens: the number it got when it came, and the sending end of its
/// channel.
#[verifier::reject_recursive_types(T)]
pub struct Listener<T> {
    pub number: nat,
    pub sender: Sender<T>,
}

/// One message put into a listener's channel, and whether the channel took it.
#[verifier::ext_equal]
#[verifier::reject_recursive_types(T)]
pub struct Told<T: View> {
    pub listener: Listener<T>,
    pub message: T::V,
    pub taken: bool,
}

/// What [`Outlets`] holds.
#[verifier::ext_equal]
#[verifier::reject_recursive_types(T)]
pub struct OutletsView<T: View> {
    pub listeners: Seq<Listener<T>>,
    /// How many came so far.
    pub came: nat,
    /// Everything put into a channel so far.
    pub told: Seq<Told<T>>,
}

#[verifier::reject_recursive_types(T)]
struct Outlet<T> {
    sender: Sender<T>,
    listener: Ghost<nat>,
}

/// The sending ends of one kind of stream. Dropping the receiving end is how a
/// listener leaves.
#[verifier::reject_recursive_types(T)]
pub struct Outlets<T: View> {
    outlets: Vec<Outlet<T>>,
    came: Ghost<nat>,
    told: Ghost<Seq<Told<T>>>,
}

impl<T: View> View for Outlets<T> {
    type V = OutletsView<T>;

    closed spec fn view(&self) -> OutletsView<T> {
        OutletsView {
            listeners: self.outlets@.map_values(
                |outlet: Outlet<T>| Listener { number: outlet.listener@, sender: outlet.sender },
            ),
            came: self.came@,
            told: self.told@,
        }
    }
}

/// Makes a channel that holds any number of messages, by
/// `smol::channel::unbounded`. Nothing is claimed of the two ends.
#[verifier::external_body]
fn open_channel<T>() -> (ends: (Sender<T>, Receiver<T>)) {
    smol::channel::unbounded()
}

/// Whether these are the two ends of one channel, as it was made.
pub closed spec fn are_ends<T>(sender: Sender<T>, receiver: Receiver<T>) -> bool {
    call_ensures(open_channel::<T>, (), (sender, receiver))
}

/// Whether what a listener is told goes into the channel that the receiver
/// reads.
pub open spec fn hears<T: View>(outlets: OutletsView<T>, receiver: Receiver<T>) -> bool {
    exists|k: int|
        0 <= k < outlets.listeners.len() && are_ends(
            (#[trigger] outlets.listeners[k]).sender,
            receiver,
        )
}

/// Whether a message was put into the channel that the receiver reads, later
/// than the first so many.
pub open spec fn was_told<T: View>(
    outlets: OutletsView<T>,
    past: nat,
    receiver: Receiver<T>,
    message: T::V,
) -> bool {
    exists|j: int|
        past <= j < outlets.told.len() && (#[trigger] outlets.told[j]).message == message
            && are_ends(outlets.told[j].listener.sender, receiver)
}

/// One more listener, at the end of a channel.
pub open spec fn with_listener<T: View>(
    outlets: OutletsView<T>,
    sender: Sender<T>,
) -> OutletsView<T> {
    OutletsView {
        listeners: outlets.listeners.push(Listener { number: outlets.came, sender }),
        came: outlets.came + 1,
        ..outlets
    }
}

/// Another listener, in the place of any there was.
pub open spec fn taken_over<T: View>(
    outlets: OutletsView<T>,
    sender: Sender<T>,
) -> OutletsView<T> {
    OutletsView {
        listeners: seq![Listener { number: outlets.came, sender }],
        came: outlets.came + 1,
        ..outlets
    }
}

/// Puts a message into one listener's channel, by
/// `smol::channel::Sender::try_send`, and answers whether the channel took it.
/// Claimed is that this is what is recorded: the message, into that channel,
/// once. The call only borrows the sending end, so the ends stay. Whether it is taken depends on whether the receiving end is still
/// there, so nothing is claimed of the answer.
#[verifier::external_body]
fn try_send<T: View>(outlets: &mut Outlets<T>, at: usize, message: T) -> (taken: bool)
    requires
        at < old(outlets)@.listeners.len(),
    ensures
        final(outlets)@ == (OutletsView {
            told: old(outlets)@.told.push(
                Told { listener: old(outlets)@.listeners[at as int], message: message@, taken },
            ),
            ..old(outlets)@
        }),
{
    outlets.outlets[at].sender.try_send(message).is_ok()
}

/// Those of the listeners that took what they were told.
pub open spec fn that_took<T>(
    listeners: Seq<Listener<T>>,
    answers: Seq<bool>,
) -> Seq<Listener<T>>
    decreases listeners.len(),
{
    if listeners.len() == 0 {
        Seq::empty()
    } else {
        let earlier = that_took(listeners.drop_last(), answers.drop_last());
        if answers.last() {
            earlier.push(listeners.last())
        } else {
            earlier
        }
    }
}

/// The answers that a later record has for as many tellings as there are
/// listeners.
pub open spec fn answers_in<T: View>(
    before: OutletsView<T>,
    later: OutletsView<T>,
) -> Seq<bool> {
    Seq::new(before.listeners.len(), |k: int| later.told[before.told.len() + k].taken)
}

/// Every listener is told the same once, in turn, and those that are gone are
/// forgotten.
pub open spec fn telling_all<T: View>(
    before: OutletsView<T>,
    later: OutletsView<T>,
    message: T::V,
) -> OutletsView<T> {
    let answers = answers_in(before, later);
    OutletsView {
        listeners: that_took(before.listeners, answers),
        told: before.told + Seq::new(
            before.listeners.len(),
            |k: int| Told { listener: before.listeners[k], message, taken: answers[k] },
        ),
        ..before
    }
}

/// The first listener is told, where there is one, and forgotten if it is gone.
pub open spec fn telling_one<T: View>(
    before: OutletsView<T>,
    later: OutletsView<T>,
    message: T::V,
) -> OutletsView<T> {
    if before.listeners.len() == 0 {
        before
    } else {
        let taken = later.told[before.told.len() as int].taken;
        OutletsView {
            listeners: if taken {
                before.listeners
            } else {
                before.listeners.drop_first()
            },
            told: before.told.push(Told { listener: before.listeners[0], message, taken }),
            ..before
        }
    }
}

impl<T: View> Outlets<T> {
    pub fn new() -> (outlets: Self)
        ensures
            outlets@ == (OutletsView::<T> {
                listeners: Seq::empty(),
                came: 0,
                told: Seq::empty(),
            }),
    {
        let outlets = Outlets { outlets: Vec::new(), came: Ghost(0), told: Ghost(Seq::empty()) };
        assert(outlets@.listeners =~= Seq::<Listener<T>>::empty());
        outlets
    }

    pub fn is_empty(&self) -> (empty: bool)
        ensures
            empty == (self@.listeners.len() == 0),
    {
        self.outlets.len() == 0
    }

    /// One more listener, beside those there are: its channel is a new one, of
    /// which the receiving end is handed back.
    pub fn listen(&mut self) -> (receiver: Receiver<T>)
        ensures
            exists|sender: Sender<T>| #[trigger]
                are_ends(sender, receiver) && final(self)@ == with_listener(old(self)@, sender),
            hears(final(self)@, receiver),
    {
        let ghost before = self@;
        let (sender, receiver) = open_channel();
        let ghost number = self.came@;
        let ghost end = sender;
        self.outlets.push(Outlet { sender, listener: Ghost(number) });
        proof {
            self.came@ = self.came@ + 1;
            assert(are_ends(end, receiver));
            assert(self@ =~= with_listener(before, end));
            assert(self@.listeners[before.listeners.len() as int].sender == end);
        }
        receiver
    }

    /// A listener that takes the place of all there were, as [`Self::listen`]
    /// makes one.
    pub fn take_over(&mut self) -> (receiver: Receiver<T>)
        ensures
            exists|sender: Sender<T>| #[trigger]
                are_ends(sender, receiver) && final(self)@ == taken_over(old(self)@, sender),
            hears(final(self)@, receiver),
    {
        let ghost before = self@;
        self.outlets = Vec::new();
        let ghost emptied = self@;
        assert(emptied.listeners =~= Seq::<Listener<T>>::empty());
        let receiver = self.listen();
        proof {
            let sender = choose|sender: Sender<T>| #[trigger]
                are_ends(sender, receiver) && self@ == with_listener(emptied, sender);
            assert(self@ =~= taken_over(before, sender));
        }
        receiver
    }

    fn forget(&mut self, at: usize)
        requires
            at < old(self)@.listeners.len(),
        ensures
            final(self)@ == (OutletsView {
                listeners: old(self)@.listeners.remove(at as int),
                ..old(self)@
            }),
    {
        let ghost before = self@.listeners;
        let _ = self.outlets.remove(at);
        assert(self@.listeners =~= before.remove(at as int));
    }

    /// Tells the listener of a stream that has one at most.
    pub fn tell(&mut self, message: T)
        ensures
            final(self)@ == telling_one(old(self)@, final(self)@, message@),
    {
        if !self.is_empty() {
            let taken = try_send(self, 0, message);
            if !taken {
                self.forget(0);
                assert(self@.listeners =~= old(self)@.listeners.drop_first());
            }
        }
    }
}

impl Outlets<()> {
    /// Tells every listener once, and forgets those that are gone.
    pub fn tell_all(&mut self)
        ensures
            final(self)@ == telling_all(old(self)@, final(self)@, ()),
    {
        let ghost before = self@;
        let ghost total = before.listeners.len();
        let ghost mut done: int = 0;
        let ghost mut answers: Seq<bool> = Seq::empty();
        let mut at: usize = 0;
        assert(self@.listeners =~= that_took(before.listeners.take(0), answers)
            + before.listeners.skip(0));
        assert(self@.told =~= before.told + Seq::new(
            0,
            |k: int| Told { listener: before.listeners[k], message: (), taken: answers[k] },
        ));
        while at < self.outlets.len()
            invariant
                0 <= done <= total,
                total == before.listeners.len(),
                answers.len() == done,
                self@.listeners.len() == self.outlets@.len(),
                at == that_took(before.listeners.take(done), answers).len(),
                self@.listeners == that_took(before.listeners.take(done), answers)
                    + before.listeners.skip(done),
                self@.came == before.came,
                self@.told == before.told + Seq::new(
                    done as nat,
                    |k: int|
                        Told { listener: before.listeners[k], message: (), taken: answers[k] },
                ),
            decreases total - done,
        {
            let ghost kept = that_took(before.listeners.take(done), answers);
            let ghost told = self@.told;
            let ghost earlier = answers;
            assert(self@.listeners[at as int] == before.listeners[done]);
            let taken = try_send(self, at, ());
            proof {
                answers = answers.push(taken);
                assert(before.listeners.take(done + 1).drop_last() =~= before.listeners.take(done));
                assert(answers.drop_last() =~= earlier);
                done = done + 1;
                assert(self@.told =~= before.told + Seq::new(
                    done as nat,
                    |k: int|
                        Told { listener: before.listeners[k], message: (), taken: answers[k] },
                ));
            }
            if taken {
                at = at + 1;
                assert(self@.listeners =~= that_took(before.listeners.take(done), answers)
                    + before.listeners.skip(done));
            } else {
                self.forget(at);
                assert(self@.listeners =~= that_took(before.listeners.take(done), answers)
                    + before.listeners.skip(done));
            }
        }
        proof {
            assert(done == total);
            assert(before.listeners.take(total as int) =~= before.listeners);
            assert(answers =~= answers_in(before, self@));
            assert(before.listeners.skip(total as int).len() == 0);
            assert(self@.listeners =~= that_took(before.listeners, answers));
            assert(self@.told =~= telling_all(before, self@, ()).told);
        }
    }
}

proof fn lemma_that_took_keeps<T>(listeners: Seq<Listener<T>>, answers: Seq<bool>, k: int)
    requires
        listeners.len() == answers.len(),
        0 <= k < listeners.len(),
        answers[k],
    ensures
        that_took(listeners, answers).contains(listeners[k]),
    decreases listeners.len(),
{
    let earlier = that_took(listeners.drop_last(), answers.drop_last());
    if k == listeners.len() - 1 {
        assert(that_took(listeners, answers)[earlier.len() as int] == listeners[k]);
    } else {
        lemma_that_took_keeps(listeners.drop_last(), answers.drop_last(), k);
        let j = choose|j: int| 0 <= j < earlier.len() && earlier[j] == listeners[k];
        assert(that_took(listeners, answers)[j] == listeners[k]);
    }
}

/// Another listener silences nobody.
pub proof fn law_another_listener_silences_nobody<T: View>(
    outlets: OutletsView<T>,
    sender: Sender<T>,
    receiver: Receiver<T>,
)
    requires
        hears(outlets, receiver),
    ensures
        hears(with_listener(outlets, sender), receiver),
{
    let k = choose|k: int|
        0 <= k < outlets.listeners.len() && are_ends(
            (#[trigger] outlets.listeners[k]).sender,
            receiver,
        );
    assert(with_listener(outlets, sender).listeners[k] == outlets.listeners[k]);
}

/// Who hears a stream of many listeners gets what all are told, and hears on
/// unless its channel did not take it.
pub proof fn law_every_listener_is_told<T: View>(
    before: OutletsView<T>,
    later: OutletsView<T>,
    message: T::V,
    receiver: Receiver<T>,
)
    requires
        hears(before, receiver),
    ensures
        was_told(telling_all(before, later, message), before.told.len(), receiver, message),
        (forall|k: int|
            0 <= k < before.listeners.len() && are_ends(
                (#[trigger] before.listeners[k]).sender,
                receiver,
            ) ==> answers_in(before, later)[k]) ==> hears(
            telling_all(before, later, message),
            receiver,
        ),
{
    let after = telling_all(before, later, message);
    let answers = answers_in(before, later);
    let k = choose|k: int|
        0 <= k < before.listeners.len() && are_ends(
            (#[trigger] before.listeners[k]).sender,
            receiver,
        );
    assert(after.told[before.told.len() + k].listener == before.listeners[k]);
    if answers[k] {
        lemma_that_took_keeps(before.listeners, answers, k);
        let j = choose|j: int|
            0 <= j < after.listeners.len() && after.listeners[j] == before.listeners[k];
        assert(are_ends(after.listeners[j].sender, receiver));
    }
}

/// The one who hears a stream that has one listener at most is told what the
/// stream carries, and hears on unless its channel did not take it.
pub proof fn law_the_one_listener_is_told<T: View>(
    before: OutletsView<T>,
    later: OutletsView<T>,
    message: T::V,
    receiver: Receiver<T>,
)
    requires
        before.listeners.len() <= 1,
        hears(before, receiver),
    ensures
        was_told(telling_one(before, later, message), before.told.len(), receiver, message),
        telling_one(before, later, message).told.last().taken ==> hears(
            telling_one(before, later, message),
            receiver,
        ),
{
    let after = telling_one(before, later, message);
    assert(after.told[before.told.len() as int].listener == before.listeners[0]);
    assert(are_ends(before.listeners[0].sender, receiver));
    if after.told.last().taken {
        assert(after.listeners[0] == before.listeners[0]);
    }
}

} // verus!
