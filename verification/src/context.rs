//! The execution context: the handle to the event loop, and what each
//! component is given to send messages and to schedule commands.

use crate::stream::{EventStream, StreamView};
use vstd::prelude::*;

verus! {

/// The state of the event loop: whether it runs, and for each component that
/// was registered, in the order of registration, whether the loop still
/// delivers to it.
pub struct RemoteView {
    pub running: bool,
    pub attached: Seq<bool>,
}

impl RemoteView {
    /// A running loop without components.
    pub open spec fn fresh() -> Self {
        RemoteView { running: true, attached: Seq::empty() }
    }

    /// Whether the loop delivers messages to the component `id`.
    pub open spec fn serves(self, id: int) -> bool {
        self.running && 0 <= id < self.attached.len() && self.attached[id]
    }

    /// The loop after one more component was registered.
    pub open spec fn register(self) -> Self {
        RemoteView { attached: self.attached.push(true), ..self }
    }

    /// The loop after the component `id` was torn down.
    pub open spec fn detach(self, id: int) -> Self {
        if 0 <= id < self.attached.len() {
            RemoteView { attached: self.attached.update(id, false), ..self }
        } else {
            self
        }
    }

    /// The loop after it was torn down.
    pub open spec fn quit(self) -> Self {
        RemoteView { running: false, ..self }
    }

    /// `later` is this loop after some components were registered and nothing
    /// else: it runs or not as before, and serves the earlier components as
    /// before.
    pub open spec fn grows_to(self, later: Self) -> bool {
        later.running == self.running && self.attached.is_prefix_of(later.attached)
    }
}

/// The handle to the one event loop of the application.
///
/// It is made once at startup and handed to every constructor. Components are
/// registered with it, and it is asked whether the loop still delivers to one.
pub struct Remote {
    running: bool,
    attached: Vec<bool>,
}

impl View for Remote {
    type V = RemoteView;

    closed spec fn view(&self) -> RemoteView {
        RemoteView { running: self.running, attached: self.attached@ }
    }
}

impl Remote {
    /// The handle to a loop that runs and has no component yet.
    pub fn new() -> (remote: Self)
        ensures
            remote@ == RemoteView::fresh(),
    {
        Remote { running: true, attached: Vec::new() }
    }

    /// Registers one more component and returns its number. The numbers count
    /// up from zero, so no two components of one loop share one.
    pub fn register(&mut self) -> (id: usize)
        ensures
            id == old(self)@.attached.len(),
            final(self)@ == old(self)@.register(),
    {
        let id = self.attached.len();
        self.attached.push(true);
        id
    }

    /// Tears the component `id` down: the loop delivers nothing to it any
    /// more. The other components are served as before.
    pub fn detach(&mut self, id: usize)
        ensures
            final(self)@ == old(self)@.detach(id as int),
    {
        if id < self.attached.len() {
            self.attached.set(id, false);
        }
    }

    /// Tears the loop down: it delivers nothing any more.
    pub fn quit(&mut self)
        ensures
            final(self)@ == old(self)@.quit(),
    {
        self.running = false;
    }

    /// Whether the loop runs.
    pub fn is_running(&self) -> (running: bool)
        ensures
            running == self@.running,
    {
        self.running
    }

    /// Whether the loop delivers messages to the component `id`.
    pub fn serves(&self, id: usize) -> (served: bool)
        ensures
            served == self@.serves(id as int),
    {
        self.running && id < self.attached.len() && self.attached[id]
    }

    /// The number of components that were registered.
    pub fn components(&self) -> (count: usize)
        ensures
            count == self@.attached.len(),
    {
        self.attached.len()
    }
}

/// The ticket of one scheduled command: the component that scheduled it, and
/// its number among that component's commands.
#[derive(Clone, Copy, Debug, PartialEq, Eq, Structural)]
pub struct Command {
    pub component: usize,
    pub serial: usize,
}

/// What a component's context holds: the component's number, its stream, and
/// for each command it scheduled, in the order of scheduling, whether the
/// result is still awaited.
pub struct RelmView<M> {
    pub id: int,
    pub stream: StreamView<M>,
    pub tickets: Seq<bool>,
}

impl<M> RelmView<M> {
    /// The context of the component `id` before anything happened.
    pub open spec fn fresh(id: int) -> Self {
        RelmView { id, stream: StreamView::fresh(), tickets: Seq::empty() }
    }

    /// Whether `command` was scheduled here and its result has not come yet.
    pub open spec fn awaits(self, command: Command) -> bool {
        &&& command.component == self.id
        &&& command.serial < self.tickets.len()
        &&& self.tickets[command.serial as int]
    }

    /// The context after a message was sent to the stream.
    pub open spec fn accept(self, msg: M) -> Self {
        RelmView { stream: self.stream.accept(msg), ..self }
    }

    /// The context after the front message was handed out.
    pub open spec fn advance(self) -> Self {
        RelmView { stream: self.stream.advance(), ..self }
    }

    /// The context after the stream was closed.
    pub open spec fn shut(self) -> Self {
        RelmView { stream: self.stream.shut(), ..self }
    }

    /// The context after one more command was scheduled.
    pub open spec fn schedule(self) -> Self {
        RelmView { tickets: self.tickets.push(true), ..self }
    }

    /// The context after the result of `command` came: if it was awaited, it
    /// is awaited no more and the result is sent to the stream; if not,
    /// nothing changes.
    pub open spec fn resolve(self, command: Command, result: M) -> Self {
        if self.awaits(command) {
            RelmView {
                stream: self.stream.accept(result),
                tickets: self.tickets.update(command.serial as int, false),
                ..self
            }
        } else {
            self
        }
    }

    /// `later` is this context after some sends, schedulings and results, and
    /// nothing else: no message was handed out or dropped, and no result is
    /// awaited again once it has come.
    pub open spec fn grows_to(self, later: Self) -> bool {
        &&& later.id == self.id
        &&& self.stream.grows_to(later.stream)
        &&& self.tickets.len() <= later.tickets.len()
        &&& forall|serial: int|
            0 <= serial < self.tickets.len() && later.tickets[serial] ==> self.tickets[serial]
    }
}

/// The result of a command comes once.
///
/// When the result of an awaited command comes, it is queued behind all that
/// was sent before, nothing is delivered by that, and the command is awaited
/// no more: a second result for it changes nothing.
pub proof fn lemma_result_comes_once<M>(relm: RelmView<M>, command: Command, first: M, second: M)
    ensures
        !relm.resolve(command, first).awaits(command),
        relm.resolve(command, first).resolve(command, second) == relm.resolve(command, first),
        relm.resolve(command, first).stream == if relm.awaits(command) {
            relm.stream.accept(first)
        } else {
            relm.stream
        },
        relm.resolve(command, first).stream.delivered == relm.stream.delivered,
{
}

/// To schedule a command sends nothing, and the new command is awaited until
/// its result comes. Commands scheduled one after the other have different
/// tickets.
pub proof fn lemma_schedule_awaits<M>(relm: RelmView<M>)
    requires
        0 <= relm.id <= usize::MAX,
        relm.tickets.len() < usize::MAX,
    ensures
        relm.schedule().stream == relm.stream,
        relm.schedule().awaits(
            Command { component: relm.id as usize, serial: relm.tickets.len() as usize },
        ),
        !relm.awaits(Command { component: relm.id as usize, serial: relm.tickets.len() as usize }),
        forall|command: Command| relm.awaits(command) ==> relm.schedule().awaits(command),
{
}

/// What a widget can do to its context only adds to it: a send, a scheduling
/// and a result each lead to a context that the earlier one grows to, and so
/// does any chain of them.
pub proof fn lemma_context_grows<M>(relm: RelmView<M>, msg: M, command: Command)
    ensures
        relm.grows_to(relm),
        relm.grows_to(relm.accept(msg)),
        relm.grows_to(relm.schedule()),
        relm.grows_to(relm.resolve(command, msg)),
        forall|middle: RelmView<M>, later: RelmView<M>|
            relm.grows_to(middle) && #[trigger] middle.grows_to(later) ==> relm.grows_to(later),
{
    assert(relm.stream.sent.is_prefix_of(relm.stream.sent));
    assert(relm.stream.sent.is_prefix_of(relm.stream.sent.push(msg)));
    assert forall|middle: RelmView<M>, later: RelmView<M>|
        relm.grows_to(middle) && #[trigger] middle.grows_to(later) implies relm.grows_to(
        later,
    ) by {
        assert(relm.stream.sent =~= later.stream.sent.subrange(0, relm.stream.sent.len() as int)) by {
            assert forall|i: int| 0 <= i < relm.stream.sent.len() implies relm.stream.sent[i]
                == later.stream.sent[i] by {
                assert(relm.stream.sent[i] == middle.stream.sent.subrange(
                    0,
                    relm.stream.sent.len() as int,
                )[i]);
                assert(middle.stream.sent[i] == later.stream.sent.subrange(
                    0,
                    middle.stream.sent.len() as int,
                )[i]);
            }
        }
        assert forall|serial: int|
            0 <= serial < relm.tickets.len() && later.tickets[serial] implies relm.tickets[serial] by {
            assert(middle.tickets[serial]);
        }
    }
}

/// The execution context of one component.
///
/// A widget sends messages to its own stream through it, and schedules
/// commands: work that runs elsewhere and whose result comes back as a
/// message.
pub struct Relm<M> {
    id: usize,
    stream: EventStream<M>,
    tickets: Vec<bool>,
}

impl<M> View for Relm<M> {
    type V = RelmView<M>;

    closed spec fn view(&self) -> RelmView<M> {
        RelmView { id: self.id as int, stream: self.stream@, tickets: self.tickets@ }
    }
}

impl<M> Relm<M> {
    /// The context of the component `id` around its stream.
    pub(crate) fn new(id: usize, stream: EventStream<M>) -> (relm: Self)
        ensures
            relm@ == (RelmView { id: id as int, stream: stream@, tickets: Seq::empty() }),
    {
        Relm { id, stream, tickets: Vec::new() }
    }

    /// The number of the component.
    pub fn id(&self) -> (id: usize)
        ensures
            id == self@.id,
    {
        self.id
    }

    /// The stream of the component.
    pub fn stream(&self) -> (stream: &EventStream<M>)
        ensures
            stream@ == self@.stream,
    {
        &self.stream
    }

    /// Sends `msg` to the component's stream.
    pub fn send(&mut self, msg: M)
        ensures
            final(self)@ == old(self)@.accept(msg),
    {
        self.stream.send(msg);
    }

    /// Schedules a command and returns its ticket. Nothing is sent: the result
    /// comes later, through `resolve`.
    pub fn schedule(&mut self) -> (command: Command)
        ensures
            command.component == old(self)@.id,
            command.serial == old(self)@.tickets.len(),
            final(self)@ == old(self)@.schedule(),
            final(self)@.awaits(command),
    {
        let command = Command { component: self.id, serial: self.tickets.len() };
        self.tickets.push(true);
        command
    }

    /// Whether `command` was scheduled here and its result has not come yet.
    pub fn awaits(&self, command: Command) -> (awaited: bool)
        ensures
            awaited == self@.awaits(command),
    {
        command.component == self.id && command.serial < self.tickets.len()
            && self.tickets[command.serial]
    }

    /// Takes the result of `command`. If the command is awaited, the result is
    /// sent to the stream, behind the messages sent before it, and the command
    /// is awaited no more. Otherwise the result is dropped. Returns whether
    /// the command was awaited.
    pub fn resolve(&mut self, command: Command, result: M) -> (awaited: bool)
        ensures
            awaited == old(self)@.awaits(command),
            final(self)@ == old(self)@.resolve(command, result),
    {
        if self.awaits(command) {
            self.tickets.set(command.serial, false);
            self.stream.send(result);
            true
        } else {
            false
        }
    }

    /// Takes the oldest waiting message out of the stream.
    pub(crate) fn take(&mut self) -> (msg: Option<M>)
        ensures
            old(self)@.stream.ready() ==> msg == Some(old(self)@.stream.front()) && final(self)@
                == old(self)@.advance(),
            !old(self)@.stream.ready() ==> msg.is_none() && final(self)@ == old(self)@,
    {
        self.stream.take()
    }

    /// Closes the stream.
    pub(crate) fn close(&mut self)
        ensures
            final(self)@ == old(self)@.shut(),
    {
        self.stream.close();
    }
}

} // verus!
