//! A running widget: its instance, its model and its context, and the loop
//! that hands the messages of its stream to it.

use crate::context::{Command, Relm, RelmView, Remote, RemoteView};
use crate::stream::{EventStream, StreamView};
use crate::widget::{DisplayVariant, Widget};
use vstd::prelude::*;

verus! {

/// The state of a component: the widget, its model, and its context.
pub struct ComponentView<W: Widget<M>, M: Clone + DisplayVariant> {
    pub widget: W,
    pub model: W::Model,
    pub relm: RelmView<M>,
}

impl<W: Widget<M>, M: Clone + DisplayVariant> ComponentView<W, M> {
    /// Whether the loop `remote` has a message to deliver to this component.
    pub open spec fn ready(self, remote: RemoteView) -> bool {
        remote.serves(self.relm.id) && self.relm.stream.ready()
    }

    /// The component after `msg` was sent to it.
    pub open spec fn accept(self, msg: M) -> Self {
        ComponentView { relm: self.relm.accept(msg), ..self }
    }

    /// The component after the result of `command` came.
    pub open spec fn resolve(self, command: Command, result: M) -> Self {
        ComponentView { relm: self.relm.resolve(command, result), ..self }
    }

    /// The component after it was torn down.
    pub open spec fn shut(self) -> Self {
        ComponentView { relm: self.relm.shut(), ..self }
    }

    /// One delivery with its inner values named: the front message is taken
    /// out of the stream and handed to `update`, which leaves the model `mid`;
    /// then `copy`, a clone of the message, is handed to `update_command`,
    /// which does what its relation says, or nothing where the widget keeps
    /// the provided method.
    pub open spec fn handles(self, mid: W::Model, copy: M, after: Self) -> bool {
        let event = self.relm.stream.front();
        let taken = self.relm.advance();
        &&& cloned(event, copy)
        &&& self.widget.updated(event, self.model, (after.widget, mid))
        &&& W::commanded(taken, copy, mid, (after.relm, after.model)) || (after.relm == taken
            && after.model == mid)
        &&& taken.grows_to(after.relm)
    }

    /// `after` is this component after one delivery.
    pub open spec fn steps_to(self, after: Self) -> bool {
        &&& self.relm.stream.ready()
        &&& exists|mid: W::Model, copy: M| #[trigger] self.handles(mid, copy, after)
    }

    /// `after` is this component after sends, schedulings and results that
    /// came from outside, without a delivery.
    pub open spec fn idles_to(self, after: Self) -> bool {
        &&& after.widget == self.widget
        &&& after.model == self.model
        &&& self.relm.grows_to(after.relm)
    }

    /// The context that `subscriptions` is called on: that of the next
    /// component of the loop `mid`, around the stream that `new` left, with
    /// no command scheduled.
    pub open spec fn base(stream: StreamView<M>, mid: RemoteView) -> RelmView<M> {
        RelmView { id: mid.attached.len() as int, stream, tickets: Seq::empty() }
    }

    /// How a component comes to be, with the inner values named: `new` is
    /// called once, on an empty stream, and leaves the stream `stream` and the
    /// loop `mid`; the component is registered; `subscriptions` is called.
    pub open spec fn starts(
        before: RemoteView,
        stream: StreamView<M>,
        mid: RemoteView,
        made: Self,
        after: RemoteView,
    ) -> bool {
        let base = Self::base(stream, mid);
        &&& W::created(StreamView::fresh(), before, (made.widget, made.model), stream, mid)
        &&& StreamView::<M>::fresh().grows_to(stream)
        &&& before.grows_to(mid)
        &&& after == mid.register()
        &&& W::subscribed(base, made.relm) || made.relm == base
        &&& base.grows_to(made.relm)
    }
}

/// Whether `trace` has a state at `k` and one after it.
pub open spec fn within<W: Widget<M>, M: Clone + DisplayVariant>(
    trace: Seq<ComponentView<W, M>>,
    k: int,
) -> bool {
    0 <= k < trace.len() - 1
}

/// Whether each state of `trace` comes from the one before it by one delivery.
pub open spec fn is_run<W: Widget<M>, M: Clone + DisplayVariant>(
    trace: Seq<ComponentView<W, M>>,
) -> bool {
    forall|k: int| 0 <= k < trace.len() - 1 ==> (#[trigger] trace[k]).steps_to(trace[k + 1])
}

/// Whether each state of `trace` comes from the one before it by one delivery
/// or by events from outside.
pub open spec fn is_history<W: Widget<M>, M: Clone + DisplayVariant>(
    trace: Seq<ComponentView<W, M>>,
) -> bool {
    forall|k: int|
        0 <= k < trace.len() - 1 ==> (#[trigger] trace[k]).steps_to(trace[k + 1])
            || trace[k].idles_to(trace[k + 1])
}

/// The messages that were handed to `update` along `trace`, in the order of
/// the deliveries.
pub open spec fn deliveries<W: Widget<M>, M: Clone + DisplayVariant>(
    trace: Seq<ComponentView<W, M>>,
) -> Seq<M>
    decreases trace.len(),
{
    if trace.len() <= 1 {
        Seq::empty()
    } else {
        let last = trace.len() - 2;
        if trace[last].steps_to(trace[last + 1]) {
            deliveries(trace.drop_last()).push(trace[last].relm.stream.front())
        } else {
            deliveries(trace.drop_last())
        }
    }
}

/// A running widget.
///
/// It owns the widget, the widget's model and the widget's stream. A parent
/// gets from it the container, to embed it, and sends messages to it; the
/// model is out of its reach.
pub struct Component<W: Widget<M>, M: Clone + DisplayVariant> {
    widget: W,
    model: W::Model,
    relm: Relm<M>,
}

impl<W: Widget<M>, M: Clone + DisplayVariant> View for Component<W, M> {
    type V = ComponentView<W, M>;

    closed spec fn view(&self) -> ComponentView<W, M> {
        ComponentView { widget: self.widget, model: self.model, relm: self.relm@ }
    }
}

impl<W: Widget<M>, M: Clone + DisplayVariant> Component<W, M> {
    /// Creates a component and registers it with the loop.
    ///
    /// `new` of the widget is called exactly once, on a stream of its own
    /// that is empty; then the component gets the next free number of the
    /// loop, and `subscriptions` is called once: the context of the component
    /// is what that call made of the fresh one.
    pub fn new(remote: &mut Remote) -> (component: Self)
        ensures
            exists|stream: StreamView<M>, mid: RemoteView| #[trigger]
                ComponentView::starts(old(remote)@, stream, mid, component@, final(remote)@),
            exists|stream: StreamView<M>, mid: RemoteView, relm: &mut Relm<M>|
                #![trigger
                    ComponentView::starts(old(remote)@, stream, mid, component@, final(remote)@),
                    call_ensures(W::subscriptions, (relm,), ())
                ]
                {
                    &&& ComponentView::starts(
                        old(remote)@,
                        stream,
                        mid,
                        component@,
                        final(remote)@,
                    )
                    &&& (*relm)@ == ComponentView::<W, M>::base(stream, mid)
                    &&& call_ensures(W::subscriptions, (relm,), ())
                    &&& (*final(relm))@ == component@.relm
                },
            old(remote)@.grows_to(final(remote)@),
            old(remote)@.attached.len() <= component@.relm.id < final(remote)@.attached.len(),
            final(remote)@.serves(component@.relm.id) == old(remote)@.running,
            component@.relm.stream.open,
            component@.relm.stream.delivered == 0,
    {
        let mut stream = EventStream::new();
        let (widget, model) = W::new(&mut stream, remote);
        let ghost sent = stream@;
        let ghost mid = remote@;
        let id = remote.register();
        let mut relm = Relm::new(id, stream);
        W::subscriptions(&mut relm);
        let component = Component { widget, model, relm };
        proof {
            assert(ComponentView::starts(old(remote)@, sent, mid, component@, remote@));
        }
        component
    }

    /// The number under which the loop knows this component.
    pub fn id(&self) -> (id: usize)
        ensures
            id == self@.relm.id,
    {
        self.relm.id()
    }

    /// The root widget of the component, for a parent to embed.
    pub fn container(&self) -> (container: &W::Container)
        ensures
            self@.widget.roots(*container),
            call_ensures(W::container, (&self@.widget,), container),
    {
        self.widget.container()
    }

    /// The stream of the component.
    pub fn stream(&self) -> (stream: &EventStream<M>)
        ensures
            stream@ == self@.relm.stream,
    {
        self.relm.stream()
    }

    /// Sends `msg` to the component: it is queued behind the messages sent
    /// before it. If the loop does not serve the component any more, or the
    /// component was torn down, nothing happens.
    pub fn send(&mut self, remote: &Remote, msg: M)
        ensures
            final(self)@ == if remote@.serves(old(self)@.relm.id) {
                old(self)@.accept(msg)
            } else {
                old(self)@
            },
    {
        if remote.serves(self.relm.id()) {
            self.relm.send(msg);
        }
    }

    /// Takes the result of a command that the widget scheduled. If the loop
    /// serves the component and the command is awaited, the result is queued
    /// as a message and the command is awaited no more; the message is
    /// delivered by a later `step`. Otherwise nothing happens. Returns
    /// whether the result was taken.
    pub fn resolve(&mut self, remote: &Remote, command: Command, result: M) -> (taken: bool)
        ensures
            taken == (remote@.serves(old(self)@.relm.id) && old(self)@.relm.awaits(command)),
            final(self)@ == if remote@.serves(old(self)@.relm.id) {
                old(self)@.resolve(command, result)
            } else {
                old(self)@
            },
    {
        if remote.serves(self.relm.id()) {
            self.relm.resolve(command, result)
        } else {
            false
        }
    }

    /// Tears the component down: the loop delivers nothing to it any more,
    /// and what is sent to it from now on is dropped.
    pub fn teardown(&mut self, remote: &mut Remote)
        ensures
            final(self)@ == old(self)@.shut(),
            final(remote)@ == old(remote)@.detach(old(self)@.relm.id),
    {
        remote.detach(self.relm.id());
        self.relm.close();
    }

    /// Delivers the oldest waiting message, if the loop serves the component
    /// and a message waits: the message is handed to `update`, and then a
    /// clone of it to `update_command`. What these send is queued behind the
    /// waiting messages. Returns whether a message was delivered.
    ///
    /// The context and the model afterwards are what one call of the widget's
    /// own `update_command` made of the context without the delivered message
    /// and of the model that `update` left.
    pub fn step(&mut self, remote: &Remote) -> (delivered: bool)
        ensures
            delivered == old(self)@.ready(remote@),
            delivered ==> old(self)@.steps_to(final(self)@),
            delivered ==> exists|mid: W::Model, copy: M, relm: &mut Relm<M>, model: &mut W::Model|
                #![trigger
                    old(self)@.handles(mid, copy, final(self)@),
                    call_ensures(W::update_command, (relm, copy, model), ())
                ]
                {
                    &&& old(self)@.handles(mid, copy, final(self)@)
                    &&& (*relm)@ == old(self)@.relm.advance()
                    &&& *model == mid
                    &&& call_ensures(W::update_command, (relm, copy, model), ())
                    &&& (*final(relm))@ == final(self)@.relm
                    &&& *final(model) == final(self)@.model
                },
            !delivered ==> final(self)@ == old(self)@,
    {
        if !remote.serves(self.relm.id()) {
            return false;
        }
        match self.relm.take() {
            None => false,
            Some(event) => {
                let copy = event.clone();
                self.widget.update(event, &mut self.model);
                let ghost mid = self.model;
                W::update_command(&mut self.relm, copy, &mut self.model);
                proof {
                    assert(old(self)@.handles(mid, copy, self@));
                }
                true
            },
        }
    }

    /// Delivers the messages that wait at the time of the call, oldest first,
    /// each as `step` does, with one call of `update_command` for each, and
    /// returns their number. What the handlers send meanwhile stays in the
    /// stream, for the next call.
    pub fn flush(&mut self, remote: &Remote) -> (count: usize)
        ensures
            count == if remote@.serves(old(self)@.relm.id) {
                old(self)@.relm.stream.pending().len()
            } else {
                0
            },
            exists|trace: Seq<ComponentView<W, M>>|
                {
                    &&& #[trigger] is_run(trace)
                    &&& trace.len() == count + 1
                    &&& trace[0] == old(self)@
                    &&& trace.last() == final(self)@
                    &&& forall|k: int| #[trigger]
                        within(trace, k) ==> exists|
                            mid: W::Model,
                            copy: M,
                            relm: &mut Relm<M>,
                            model: &mut W::Model,
                        |
                            #![trigger
                                trace[k].handles(mid, copy, trace[k + 1]),
                                call_ensures(W::update_command, (relm, copy, model), ())
                            ]
                            {
                                &&& trace[k].handles(mid, copy, trace[k + 1])
                                &&& (*relm)@ == trace[k].relm.advance()
                                &&& *model == mid
                                &&& call_ensures(W::update_command, (relm, copy, model), ())
                                &&& (*final(relm))@ == trace[k + 1].relm
                                &&& *final(model) == trace[k + 1].model
                            }
                },
            final(self)@.relm.stream.delivered == old(self)@.relm.stream.delivered + count,
            old(self)@.relm.stream.sent.is_prefix_of(final(self)@.relm.stream.sent),
    {
        let ghost mut trace = seq![self@];
        if !remote.serves(self.relm.id()) {
            assert(is_run(trace));
            return 0;
        }
        let stream = self.relm.stream();
        let count = stream.len();
        proof {
            stream.lemma_delivered_bound();
        }
        let mut done: usize = 0;
        while done < count
            invariant
                done <= count,
                remote@.serves(self@.relm.id),
                count == old(self)@.relm.stream.pending().len(),
                old(self)@.relm.stream.delivered <= old(self)@.relm.stream.sent.len(),
                self@.relm.stream.open == old(self)@.relm.stream.open,
                self@.relm.stream.delivered == old(self)@.relm.stream.delivered + done,
                old(self)@.relm.stream.sent.is_prefix_of(self@.relm.stream.sent),
                is_run(trace),
                trace.len() == done + 1,
                trace[0] == old(self)@,
                trace.last() == self@,
                forall|k: int| #[trigger]
                    within(trace, k) ==> exists|
                        mid: W::Model,
                        copy: M,
                        relm: &mut Relm<M>,
                        model: &mut W::Model,
                    |
                        #![trigger
                            trace[k].handles(mid, copy, trace[k + 1]),
                            call_ensures(W::update_command, (relm, copy, model), ())
                        ]
                        {
                            &&& trace[k].handles(mid, copy, trace[k + 1])
                            &&& (*relm)@ == trace[k].relm.advance()
                            &&& *model == mid
                            &&& call_ensures(W::update_command, (relm, copy, model), ())
                            &&& (*final(relm))@ == trace[k + 1].relm
                            &&& *final(model) == trace[k + 1].model
                        },
            decreases count - done,
        {
            let delivered = self.step(remote);
            assert(delivered);
            proof {
                let longer = trace.push(self@);
                assert forall|k: int| 0 <= k < longer.len() - 1 implies (#[trigger] longer[k]).steps_to(
                    longer[k + 1],
                ) by {
                    if k < trace.len() - 1 {
                        assert(trace[k].steps_to(trace[k + 1]));
                    }
                }
                assert forall|k: int| #[trigger] within(longer, k) implies exists|
                    mid: W::Model,
                    copy: M,
                    relm: &mut Relm<M>,
                    model: &mut W::Model,
                |
                    #![trigger
                        longer[k].handles(mid, copy, longer[k + 1]),
                        call_ensures(W::update_command, (relm, copy, model), ())
                    ]
                    {
                        &&& longer[k].handles(mid, copy, longer[k + 1])
                        &&& (*relm)@ == longer[k].relm.advance()
                        &&& *model == mid
                        &&& call_ensures(W::update_command, (relm, copy, model), ())
                        &&& (*final(relm))@ == longer[k + 1].relm
                        &&& *final(model) == longer[k + 1].model
                    } by {
                    if k < done {
                        assert(within(trace, k));
                        assert(longer[k] == trace[k] && longer[k + 1] == trace[k + 1]);
                    } else {
                        assert(longer[k] == trace.last() && longer[k + 1] == self@);
                    }
                }
                trace = longer;
            }
            done += 1;
        }
        count
    }
}

/// Creates a component of the widget type `W` for a parent: the component is
/// made and registered as `Component::new` does, and then its container, as
/// `container` of the widget gives it, is handed to `embed`, which puts it
/// into the widget tree of the parent. The parent keeps the component that is
/// returned.
pub fn add_widget<W, M, F>(remote: &mut Remote, embed: F) -> (component: Component<W, M>) where
    W: Widget<M>,
    M: Clone + DisplayVariant,
    F: FnOnce(&W::Container),

    requires
        forall|container: &W::Container| call_requires(embed, (container,)),
    ensures
        exists|stream: StreamView<M>, mid: RemoteView| #[trigger]
            ComponentView::starts(old(remote)@, stream, mid, component@, final(remote)@),
        exists|stream: StreamView<M>, mid: RemoteView, relm: &mut Relm<M>|
            #![trigger
                ComponentView::starts(old(remote)@, stream, mid, component@, final(remote)@),
                call_ensures(W::subscriptions, (relm,), ())
            ]
            {
                &&& ComponentView::starts(old(remote)@, stream, mid, component@, final(remote)@)
                &&& (*relm)@ == ComponentView::<W, M>::base(stream, mid)
                &&& call_ensures(W::subscriptions, (relm,), ())
                &&& (*final(relm))@ == component@.relm
            },
        old(remote)@.grows_to(final(remote)@),
        old(remote)@.attached.len() <= component@.relm.id < final(remote)@.attached.len(),
        final(remote)@.serves(component@.relm.id) == old(remote)@.running,
        component@.relm.stream.open,
        component@.relm.stream.delivered == 0,
        exists|container: W::Container|
            {
                &&& component@.widget.roots(container)
                &&& call_ensures(W::container, (&component@.widget,), &container)
                &&& #[trigger] call_ensures(embed, (&container,), ())
            },
{
    let component = Component::new(remote);
    embed(component.container());
    component
}

/// The messages are delivered in the order in which they were sent.
///
/// Take any two states of a component with deliveries, sends, schedulings and
/// results between them, from outside and from the handlers. Then all that
/// was sent before is still there, in its order, and the messages that were
/// handed to `update` meanwhile, in the order of the deliveries, are the
/// stretch of the sent messages between the two delivery counts.
pub proof fn lemma_delivery_order<W: Widget<M>, M: Clone + DisplayVariant>(
    trace: Seq<ComponentView<W, M>>,
)
    requires
        is_history(trace),
        trace.len() >= 1,
        trace[0].relm.stream.delivered <= trace[0].relm.stream.sent.len(),
    ensures
        trace[0].relm.stream.sent.is_prefix_of(trace.last().relm.stream.sent),
        trace.last().relm.stream.delivered == trace[0].relm.stream.delivered + deliveries(
            trace,
        ).len(),
        trace.last().relm.stream.delivered <= trace.last().relm.stream.sent.len(),
        deliveries(trace) == trace.last().relm.stream.sent.subrange(
            trace[0].relm.stream.delivered as int,
            trace.last().relm.stream.delivered as int,
        ),
    decreases trace.len(),
{
    if trace.len() > 1 {
        let shorter = trace.drop_last();
        let last = trace.len() - 2;
        assert forall|k: int| 0 <= k < shorter.len() - 1 implies (#[trigger] shorter[k]).steps_to(
            shorter[k + 1],
        ) || shorter[k].idles_to(shorter[k + 1]) by {
            assert(trace[k].steps_to(trace[k + 1]) || trace[k].idles_to(trace[k + 1]));
        }
        lemma_delivery_order(shorter);
        assert(shorter.last() == trace[last]);
        assert(trace[last].steps_to(trace[last + 1]) || trace[last].idles_to(trace[last + 1]));
        let was = trace[last].relm.stream;
        let now = trace.last().relm.stream;
        let first = trace[0].relm.stream.delivered as int;
        if trace[last].steps_to(trace[last + 1]) {
            assert(now.sent.subrange(first, now.delivered as int) =~= was.sent.subrange(
                first,
                was.delivered as int,
            ).push(was.front()));
            assert(deliveries(shorter) =~= was.sent.subrange(first, was.delivered as int));
            assert(deliveries(shorter) =~= now.sent.subrange(first, was.delivered as int));
        } else {
            assert(now.sent.subrange(first, now.delivered as int) =~= was.sent.subrange(
                first,
                was.delivered as int,
            ));
        }
    } else {
        assert(trace.last().relm.stream.sent.subrange(
            trace[0].relm.stream.delivered as int,
            trace.last().relm.stream.delivered as int,
        ) =~= Seq::<M>::empty());
    }
}

/// What is sent after the teardown has no effect.
///
/// Take any two states of a component whose stream is closed in the first,
/// with whatever between them. Then nothing was delivered, and the stream is
/// as it was: what was sent to it meanwhile was dropped.
pub proof fn lemma_closed_stream_is_inert<W: Widget<M>, M: Clone + DisplayVariant>(
    trace: Seq<ComponentView<W, M>>,
)
    requires
        is_history(trace),
        trace.len() >= 1,
        !trace[0].relm.stream.open,
    ensures
        deliveries(trace) == Seq::<M>::empty(),
        trace.last().relm.stream == trace[0].relm.stream,
        trace.last().widget == trace[0].widget,
        trace.last().model == trace[0].model,
    decreases trace.len(),
{
    if trace.len() > 1 {
        let shorter = trace.drop_last();
        let last = trace.len() - 2;
        assert forall|k: int| 0 <= k < shorter.len() - 1 implies (#[trigger] shorter[k]).steps_to(
            shorter[k + 1],
        ) || shorter[k].idles_to(shorter[k + 1]) by {
            assert(trace[k].steps_to(trace[k + 1]) || trace[k].idles_to(trace[k + 1]));
        }
        lemma_closed_stream_is_inert(shorter);
        assert(shorter.last() == trace[last]);
        assert(trace[last].steps_to(trace[last + 1]) || trace[last].idles_to(trace[last + 1]));
    }
}

/// A message that is sent to a closed stream, or to a component that its loop
/// does not serve, changes nothing and is never delivered.
pub proof fn lemma_send_after_teardown<W: Widget<M>, M: Clone + DisplayVariant>(
    component: ComponentView<W, M>,
    remote: RemoteView,
    msg: M,
)
    requires
        !component.relm.stream.open || !remote.serves(component.relm.id),
    ensures
        !component.relm.stream.open ==> component.accept(msg) == component,
        !component.ready(remote),
        !component.accept(msg).ready(remote),
{
}

/// Two components that were made one after the other for one loop are known
/// to it under different numbers, each has the widget and the model that its
/// own call of `new` made, and the loop serves both if it ran before.
pub proof fn lemma_siblings_are_distinct<W: Widget<M>, M: Clone + DisplayVariant>(
    start: RemoteView,
    first: ComponentView<W, M>,
    between: RemoteView,
    second: ComponentView<W, M>,
    end: RemoteView,
)
    requires
        exists|stream: StreamView<M>, mid: RemoteView| #[trigger]
            ComponentView::starts(start, stream, mid, first, between),
        exists|stream: StreamView<M>, mid: RemoteView| #[trigger]
            ComponentView::starts(between, stream, mid, second, end),
    ensures
        first.relm.id != second.relm.id,
        end.serves(first.relm.id) == start.running,
        end.serves(second.relm.id) == start.running,
        start.grows_to(end),
{
    let (stream1, mid1): (StreamView<M>, RemoteView) = choose|
        stream: StreamView<M>,
        mid: RemoteView,
    | #[trigger] ComponentView::starts(start, stream, mid, first, between);
    let (stream2, mid2): (StreamView<M>, RemoteView) = choose|
        stream: StreamView<M>,
        mid: RemoteView,
    | #[trigger] ComponentView::starts(between, stream, mid, second, end);
    assert(between.attached[first.relm.id] == mid2.attached.subrange(
        0,
        between.attached.len() as int,
    )[first.relm.id]);
    assert(start.attached =~= end.attached.subrange(0, start.attached.len() as int)) by {
        assert forall|i: int| 0 <= i < start.attached.len() implies start.attached[i]
            == end.attached[i] by {
            assert(start.attached[i] == mid1.attached.subrange(0, start.attached.len() as int)[i]);
            assert(between.attached[i] == mid2.attached.subrange(
                0,
                between.attached.len() as int,
            )[i]);
        }
    }
}

/// The teardown of one component leaves the others as they are: the loop
/// serves every other component as before.
pub proof fn lemma_teardown_spares_siblings(remote: RemoteView, gone: int, other: int)
    requires
        gone != other,
    ensures
        remote.detach(gone).serves(other) == remote.serves(other),
        !remote.detach(gone).serves(gone),
{
}

} // verus!
