//! Waiting for the other peer to be connected and subscribed.

use crate::peer::PeerId;
use crate::text::same_text;
use vstd::prelude::*;

verus! {

/// How long the other peer may take to be ready, in nanoseconds.
pub const DIAL_READY_TIMEOUT_NANOS: u128 = 20_000_000_000;

/// What happens while the other peer is waited for.
pub enum DialEvent {
    /// A connection to a peer was established.
    Connected(PeerId),
    /// A peer subscribed to a topic.
    Subscribed(PeerId, String),
    /// Anything else.
    Other,
}

/// What to do while the other peer is waited for.
#[derive(Clone, Copy, Debug, PartialEq, Eq, Structural)]
pub enum DialStep {
    /// The peer is connected and subscribed.
    Ready,
    /// Give up.
    TimedOut,
    /// Wait for an event.
    Await,
}

impl DialStep {
    /// What is shown of a step that ends in failure.
    pub open spec fn shown(self) -> Option<Seq<char>> {
        match self {
            DialStep::TimedOut => Some("dial timeout"@),
            _ => None,
        }
    }

    /// What is shown of a step that ends in failure.
    pub fn failure(self) -> (r: Option<&'static str>)
        ensures
            match self.shown() {
                Some(text) => r is Some && r->0@ == text,
                None => r is None,
            },
    {
        match self {
            DialStep::TimedOut => Some("dial timeout"),
            _ => None,
        }
    }
}

/// What is known of the other peer.
pub struct DialProgress {
    peer: PeerId,
    topic: String,
    connected: bool,
    subscribed: bool,
}

/// What is known of the other peer.
pub struct DialState {
    pub peer: Seq<u8>,
    pub topic: Seq<char>,
    pub connected: bool,
    pub subscribed: bool,
}

impl View for DialProgress {
    type V = DialState;

    closed spec fn view(&self) -> DialState {
        DialState {
            peer: self.peer@,
            topic: self.topic@,
            connected: self.connected,
            subscribed: self.subscribed,
        }
    }
}

impl DialState {
    /// Whether an event is the connection that is waited for.
    pub open spec fn is_connection(self, event: DialEvent) -> bool {
        event matches DialEvent::Connected(peer) && peer@ == self.peer
    }

    /// Whether an event is the subscription that is waited for.
    pub open spec fn is_subscription(self, event: DialEvent) -> bool {
        event matches DialEvent::Subscribed(peer, topic) && peer@ == self.peer && topic@
            == self.topic
    }

    /// What is known after an event.
    pub open spec fn after(self, event: DialEvent) -> DialState {
        DialState {
            connected: self.connected || self.is_connection(event),
            subscribed: self.subscribed || self.is_subscription(event),
            ..self
        }
    }

    /// What is known after some events.
    pub open spec fn after_all(self, events: Seq<DialEvent>) -> DialState
        decreases events.len(),
    {
        if events.len() == 0 {
            self
        } else {
            self.after_all(events.drop_last()).after(events.last())
        }
    }

    /// What to do.
    pub open spec fn step(self, waited_nanos: u128, timeout_nanos: u128) -> DialStep {
        if self.connected && self.subscribed {
            DialStep::Ready
        } else if waited_nanos > timeout_nanos {
            DialStep::TimedOut
        } else {
            DialStep::Await
        }
    }
}

impl DialProgress {
    /// Nothing is known of the peer yet.
    pub fn new(peer: PeerId, topic: String) -> (r: DialProgress)
        ensures
            r@ == (DialState {
                peer: peer@,
                topic: topic@,
                connected: false,
                subscribed: false,
            }),
    {
        DialProgress { peer, topic, connected: false, subscribed: false }
    }

    /// What to do after so many nanoseconds.
    pub fn step(&self, waited_nanos: u128, timeout_nanos: u128) -> (r: DialStep)
        ensures
            r == self@.step(waited_nanos, timeout_nanos),
    {
        if self.connected && self.subscribed {
            DialStep::Ready
        } else if waited_nanos > timeout_nanos {
            DialStep::TimedOut
        } else {
            DialStep::Await
        }
    }

    /// Notes an event.
    pub fn note(&mut self, event: DialEvent)
        ensures
            final(self)@ == old(self)@.after(event),
    {
        match event {
            DialEvent::Connected(peer) => {
                if peer.same(&self.peer) {
                    self.connected = true;
                }
            },
            DialEvent::Subscribed(peer, topic) => {
                if peer.same(&self.peer) && same_text(topic.as_str(), self.topic.as_str()) {
                    self.subscribed = true;
                }
            },
            DialEvent::Other => {},
        }
    }
}

/// The other peer is ready exactly when both its connection and its subscription to the topic
/// came, in whichever order and whatever came besides; then time does not matter.
pub proof fn law_ready_when_connected_and_subscribed(
    start: DialState,
    events: Seq<DialEvent>,
    waited_nanos: u128,
    timeout_nanos: u128,
)
    requires
        !start.connected,
        !start.subscribed,
    ensures
        start.after_all(events).step(waited_nanos, timeout_nanos) == DialStep::Ready <==> {
            &&& exists|i: int|
                0 <= i < events.len() && #[trigger] start.is_connection(events[i])
            &&& exists|i: int|
                0 <= i < events.len() && #[trigger] start.is_subscription(events[i])
        },
{
    lemma_after_all(start, events);
}

proof fn lemma_after_all(start: DialState, events: Seq<DialEvent>)
    requires
        !start.connected,
        !start.subscribed,
    ensures
        start.after_all(events).peer == start.peer,
        start.after_all(events).topic == start.topic,
        start.after_all(events).connected <==> exists|i: int|
            0 <= i < events.len() && #[trigger] start.is_connection(events[i]),
        start.after_all(events).subscribed <==> exists|i: int|
            0 <= i < events.len() && #[trigger] start.is_subscription(events[i]),
    decreases events.len(),
{
    if events.len() > 0 {
        let front = events.drop_last();
        let last = events.len() - 1;
        lemma_after_all(start, front);
        let before = start.after_all(front);
        assert(before.is_connection(events.last()) == start.is_connection(events[last]));
        assert(before.is_subscription(events.last()) == start.is_subscription(events[last]));
        if before.connected {
            let i = choose|i: int| 0 <= i < front.len() && #[trigger] start.is_connection(front[i]);
            assert(start.is_connection(events[i]));
        }
        if before.subscribed {
            let i = choose|i: int|
                0 <= i < front.len() && #[trigger] start.is_subscription(front[i]);
            assert(start.is_subscription(events[i]));
        }
        assert forall|i: int|
            0 <= i < events.len() && #[trigger] start.is_connection(
                events[i],
            ) implies start.after_all(events).connected by {
            if i < last {
                assert(start.is_connection(front[i]));
            }
        }
        assert forall|i: int|
            0 <= i < events.len() && #[trigger] start.is_subscription(
                events[i],
            ) implies start.after_all(events).subscribed by {
            if i < last {
                assert(start.is_subscription(front[i]));
            }
        }
    }
}

/// Whether some events hold a connection to this peer.
pub open spec fn connection_came(events: Seq<DialEvent>, peer: Seq<u8>) -> bool {
    exists|i: int|
        #![trigger events[i]]
        0 <= i < events.len() && (events[i] matches DialEvent::Connected(p) && p@ == peer)
}

/// Whether some events hold a subscription of this peer to this topic.
pub open spec fn subscription_came(
    events: Seq<DialEvent>,
    peer: Seq<u8>,
    topic: Seq<char>,
) -> bool {
    exists|i: int|
        #![trigger events[i]]
        0 <= i < events.len() && (events[i] matches DialEvent::Subscribed(p, t) && p@ == peer && t@
            == topic)
}

/// Whatever came, in whichever order: the peer is ready once both its connection and its
/// subscription to the topic came, however long that took. Until then it is waited for, with
/// only one of the two as with neither, and it is given up exactly once more time went by than
/// is allowed, which is 20 seconds.
pub proof fn law_given_up_only_when_time_is_up(
    start: DialState,
    events: Seq<DialEvent>,
    waited_nanos: u128,
    timeout_nanos: u128,
)
    requires
        !start.connected,
        !start.subscribed,
    ensures
        ({
            let ready = connection_came(events, start.peer) && subscription_came(
                events,
                start.peer,
                start.topic,
            );
            let step = start.after_all(events).step(waited_nanos, timeout_nanos);
            &&& step == DialStep::Ready <==> ready
            &&& step == DialStep::TimedOut <==> !ready && waited_nanos > timeout_nanos
            &&& step == DialStep::Await <==> !ready && waited_nanos <= timeout_nanos
        }),
        DIAL_READY_TIMEOUT_NANOS == 20 * 1_000_000_000,
{
    lemma_after_all(start, events);
    let after = start.after_all(events);
    if after.connected {
        let i = choose|i: int| 0 <= i < events.len() && #[trigger] start.is_connection(events[i]);
        assert(events[i] is Connected);
    }
    if after.subscribed {
        let i = choose|i: int| 0 <= i < events.len() && #[trigger] start.is_subscription(events[i]);
        assert(events[i] is Subscribed);
    }
    if connection_came(events, start.peer) {
        let i = choose|i: int|
            #![trigger events[i]]
            0 <= i < events.len() && (events[i] matches DialEvent::Connected(p) && p@
                == start.peer);
        assert(start.is_connection(events[i]));
    }
    if subscription_came(events, start.peer, start.topic) {
        let i = choose|i: int|
            #![trigger events[i]]
            0 <= i < events.len() && (events[i] matches DialEvent::Subscribed(p, t) && p@
                == start.peer && t@ == start.topic);
        assert(start.is_subscription(events[i]));
    }
}

/// An event changes what is known of the peer only for the better, and never which peer and
/// which topic are waited for.
pub proof fn law_readiness_is_not_lost(
    start: DialState,
    events: Seq<DialEvent>,
    more: DialEvent,
    waited_nanos: u128,
    timeout_nanos: u128,
)
    requires
        start.after_all(events).step(waited_nanos, timeout_nanos) == DialStep::Ready,
    ensures
        start.after_all(events.push(more)).step(waited_nanos, timeout_nanos) == DialStep::Ready,
        start.after_all(events.push(more)).peer == start.after_all(events).peer,
        start.after_all(events.push(more)).topic == start.after_all(events).topic,
{
    assert(events.push(more).drop_last() =~= events);
}

/// A step that gives up is shown as a timeout, and no other step is shown.
pub proof fn law_only_giving_up_is_shown(step: DialStep)
    ensures
        step.shown() == (if step == DialStep::TimedOut {
            Some("dial timeout"@)
        } else {
            None
        }),
{
}

} // verus!
