//! What a widget type provides to run as a component.

use crate::context::{Relm, RelmView, Remote, RemoteView};
use crate::stream::{EventStream, StreamView};
use vstd::prelude::*;

verus! {

/// A message type names its variants, for diagnostics.
pub trait DisplayVariant {
    /// The name of the variant of this message.
    fn display_variant(&self) -> &'static str;
}

/// Trait to implement to manage widget's events.
///
/// Each method comes with a relation that says what the method may do. The
/// runtime states what it does to a component in terms of these relations.
/// As provided, the relations of `container`, `new` and `update` allow
/// everything, and an implementor that wants to reason about its components
/// states its own. Those of `subscriptions` and `update_command` say what the
/// provided methods do, which is nothing; an implementor that writes one of
/// these methods writes its relation too.
pub trait Widget<M: Clone + DisplayVariant>: Sized {
    type Container: Clone;

    type Model;

    /// What `container` may hand out.
    open spec fn roots(self, container: Self::Container) -> bool {
        true
    }

    /// What `new` may return, and what it may do to the stream and the loop.
    open spec fn created(
        stream: StreamView<M>,
        remote: RemoteView,
        made: (Self, Self::Model),
        stream_after: StreamView<M>,
        remote_after: RemoteView,
    ) -> bool {
        true
    }

    /// What `subscriptions` makes of the context. As provided: nothing, as
    /// the provided method.
    open spec fn subscribed(relm: RelmView<M>, after: RelmView<M>) -> bool {
        after == relm
    }

    /// What `update` may make of the widget and the model on `event`.
    open spec fn updated(self, event: M, model: Self::Model, after: (Self, Self::Model)) -> bool {
        true
    }

    /// What `update_command` makes of the context and the model on `event`.
    /// As provided: nothing, as the provided method.
    open spec fn commanded(
        relm: RelmView<M>,
        event: M,
        model: Self::Model,
        after: (RelmView<M>, Self::Model),
    ) -> bool {
        after.0 == relm && after.1 == model
    }

    /// Get the containing widget.
    fn container(&self) -> (container: &Self::Container)
        ensures
            self.roots(*container),
    ;

    /// Create the widget.
    ///
    /// It may send to the stream and register components of its own with the
    /// loop, and nothing else.
    fn new(stream: &mut EventStream<M>, remote: &mut Remote) -> (made: (Self, Self::Model))
        ensures
            Self::created(old(stream)@, old(remote)@, made, final(stream)@, final(remote)@),
            old(stream)@.grows_to(final(stream)@),
            old(remote)@.grows_to(final(remote)@),
    ;

    /// Connect the subscriptions.
    ///
    /// It may send to the stream and schedule commands, and nothing else. As
    /// provided it does nothing.
    fn subscriptions(relm: &mut Relm<M>)
        ensures
            Self::subscribed(old(relm)@, final(relm)@) || final(relm)@ == old(relm)@,
            old(relm)@.grows_to(final(relm)@),
        default_ensures
            final(relm)@ == old(relm)@,
    {
    }

    /// Method called when a message is received from an event.
    fn update(&mut self, event: M, model: &mut Self::Model)
        ensures
            old(self).updated(event, *old(model), (*final(self), *final(model))),
    ;

    /// Connect the commands when receiving an event.
    ///
    /// It may send to the stream, schedule commands and change the model, and
    /// nothing else. As provided it does nothing.
    fn update_command(relm: &mut Relm<M>, event: M, model: &mut Self::Model)
        ensures
            Self::commanded(old(relm)@, event, *old(model), (final(relm)@, *final(model))) || (
            final(relm)@ == old(relm)@ && *final(model) == *old(model)),
            old(relm)@.grows_to(final(relm)@),
        default_ensures
            final(relm)@ == old(relm)@,
            *final(model) == *old(model),
    {
    }
}

} // verus!
