//! A message-driven runtime for widget components.
//!
//! A component owns a widget, its model and an [`EventStream`] of typed
//! messages. Toolkit events are turned into messages and sent to the stream;
//! the component hands them, oldest first, to the widget's `update` and then to
//! its `update_command`. Long-running work is scheduled as a [`Command`] whose
//! result comes back as one more message.
//!
//! The state of the loop is passed explicitly: a [`Remote`] stands for the one
//! event loop of the application and every constructor takes it.
//!
//! The module [`attributes`] holds the bookkeeping of a declared view: the
//! roles of the items of a widget's `impl`, the properties that depend on the
//! fields of the model, and the widgets that have to be kept for `update`.

pub mod attributes;
pub mod component;
pub mod context;
pub mod stream;
pub mod widget;

pub use component::{add_widget, Component};
pub use context::{Command, Relm, Remote};
pub use stream::EventStream;
pub use widget::{DisplayVariant, Widget};
