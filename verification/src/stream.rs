//! The queue of messages between the event sources and one component.

use std::collections::VecDeque;
use vstd::prelude::*;

verus! {

/// What a stream has seen: every message it accepted, in the order of the
/// sends, how many of them were handed out, and whether its loop still runs.
pub struct StreamView<M> {
    pub sent: Seq<M>,
    pub delivered: nat,
    pub open: bool,
}

impl<M> StreamView<M> {
    /// A stream nothing was sent to, with a running loop.
    pub open spec fn fresh() -> Self {
        StreamView { sent: Seq::empty(), delivered: 0, open: true }
    }

    /// The messages that wait for delivery, oldest first. A closed stream
    /// delivers nothing any more.
    pub open spec fn pending(self) -> Seq<M> {
        if self.open && self.delivered <= self.sent.len() {
            self.sent.skip(self.delivered as int)
        } else {
            Seq::empty()
        }
    }

    /// Whether a message can be handed out.
    pub open spec fn ready(self) -> bool {
        self.open && self.delivered < self.sent.len()
    }

    /// The message that is handed out next.
    pub open spec fn front(self) -> M
        recommends
            self.ready(),
    {
        self.sent[self.delivered as int]
    }

    /// The stream after a send: an open stream queues the message behind all
    /// earlier ones, a closed one drops it.
    pub open spec fn accept(self, msg: M) -> Self {
        if self.open {
            StreamView { sent: self.sent.push(msg), ..self }
        } else {
            self
        }
    }

    /// The stream after its front message was handed out.
    pub open spec fn advance(self) -> Self {
        StreamView { delivered: self.delivered + 1, ..self }
    }

    /// The stream after its loop was torn down.
    pub open spec fn shut(self) -> Self {
        StreamView { open: false, ..self }
    }

    /// `later` is this stream after some sends and nothing else: no message
    /// was handed out, dropped or reordered, and the loop is as it was.
    pub open spec fn grows_to(self, later: Self) -> bool {
        &&& later.open == self.open
        &&& later.delivered == self.delivered
        &&& self.sent.is_prefix_of(later.sent)
        &&& !self.open ==> later.sent == self.sent
    }
}

/// A typed queue of messages for one consumer.
///
/// `send` never blocks and never fails. Messages leave in the order in which
/// they came. Once the stream is closed, whatever is sent to it is dropped.
pub struct EventStream<M> {
    queue: VecDeque<M>,
    open: bool,
    past: Ghost<Seq<M>>,
}

impl<M> View for EventStream<M> {
    type V = StreamView<M>;

    closed spec fn view(&self) -> StreamView<M> {
        StreamView {
            sent: self.past@ + self.queue@,
            delivered: self.past@.len(),
            open: self.open,
        }
    }
}

impl<M> EventStream<M> {
    /// A new stream: open, and empty.
    pub fn new() -> (stream: Self)
        ensures
            stream@ == StreamView::<M>::fresh(),
    {
        let stream = EventStream { queue: VecDeque::new(), open: true, past: Ghost(Seq::empty()) };
        assert(stream@.sent =~= Seq::<M>::empty());
        stream
    }

    /// What the stream holds always.
    pub proof fn lemma_delivered_bound(&self)
        ensures
            self@.delivered <= self@.sent.len(),
    {
    }

    /// Queues `msg` behind the messages sent before it. On a closed stream
    /// this does nothing.
    pub fn send(&mut self, msg: M)
        ensures
            final(self)@ == old(self)@.accept(msg),
    {
        if self.open {
            self.queue.push_back(msg);
            assert(self@.sent =~= old(self)@.sent.push(msg));
        }
    }

    /// Whether the loop that drains this stream still runs.
    pub fn is_open(&self) -> (open: bool)
        ensures
            open == self@.open,
    {
        self.open
    }

    /// The number of messages that wait for delivery.
    pub fn len(&self) -> (count: usize)
        ensures
            count == self@.pending().len(),
    {
        if self.open {
            self.queue.len()
        } else {
            0
        }
    }

    /// Whether no message waits for delivery.
    pub fn is_empty(&self) -> (empty: bool)
        ensures
            empty == !self@.ready(),
    {
        !self.open || self.queue.len() == 0
    }

    /// Tears the stream down: nothing is delivered from it any more, and later
    /// sends are dropped.
    pub fn close(&mut self)
        ensures
            final(self)@ == old(self)@.shut(),
    {
        self.open = false;
    }

    /// Takes the oldest waiting message out of the stream.
    pub(crate) fn take(&mut self) -> (msg: Option<M>)
        ensures
            old(self)@.ready() ==> msg == Some(old(self)@.front()) && final(self)@ == old(
                self,
            )@.advance(),
            !old(self)@.ready() ==> msg.is_none() && final(self)@ == old(self)@,
    {
        if !self.open {
            return None;
        }
        let ghost before = self.queue@;
        let msg = self.queue.pop_front();
        proof {
            if msg.is_some() {
                self.past@ = self.past@.push(before[0]);
                assert(self@.sent =~= old(self)@.sent);
            }
        }
        msg
    }
}

} // verus!
