use relm::{add_widget, Component, DisplayVariant, EventStream, Relm, Remote, Widget};
use std::cell::RefCell;
use std::rc::Rc;

#[derive(Clone)]
struct Handle {
    name: &'static str,
    seen: Rc<RefCell<Vec<&'static str>>>,
}

#[derive(Clone)]
enum Msg {
    Created,
    Subscribed,
    Ping,
}

impl DisplayVariant for Msg {
    fn display_variant(&self) -> &'static str {
        match self {
            Msg::Created => "Created",
            Msg::Subscribed => "Subscribed",
            Msg::Ping => "Ping",
        }
    }
}

struct Leaf {
    handle: Handle,
}

impl Widget<Msg> for Leaf {
    type Container = Handle;
    type Model = u32;

    fn container(&self) -> &Handle {
        &self.handle
    }

    fn new(stream: &mut EventStream<Msg>, _remote: &mut Remote) -> (Self, u32) {
        stream.send(Msg::Created);
        (Leaf { handle: Handle { name: "leaf", seen: Rc::new(RefCell::new(Vec::new())) } }, 0)
    }

    fn subscriptions(relm: &mut Relm<Msg>) {
        relm.send(Msg::Subscribed);
    }

    fn update(&mut self, event: Msg, model: &mut u32) {
        *model += 1;
        self.handle.seen.borrow_mut().push(event.display_variant());
    }
}

struct Parent {
    handle: Handle,
    first: Component<Leaf, Msg>,
    second: Component<Leaf, Msg>,
    tree: Rc<RefCell<Vec<&'static str>>>,
}

impl Widget<Msg> for Parent {
    type Container = Handle;
    type Model = ();

    fn container(&self) -> &Handle {
        &self.handle
    }

    fn new(_stream: &mut EventStream<Msg>, remote: &mut Remote) -> (Self, ()) {
        let tree = Rc::new(RefCell::new(Vec::new()));
        let first = add_widget::<Leaf, Msg, _>(remote, |child: &Handle| tree.borrow_mut().push(child.name));
        let second = add_widget::<Leaf, Msg, _>(remote, |child: &Handle| tree.borrow_mut().push(child.name));
        let handle = Handle { name: "parent", seen: Rc::new(RefCell::new(Vec::new())) };
        (Parent { handle, first, second, tree }, ())
    }

    fn update(&mut self, event: Msg, _model: &mut ()) {
        self.handle.seen.borrow_mut().push(event.display_variant());
    }
}

#[test]
fn new_is_called_once_and_then_subscriptions() {
    let mut remote = Remote::new();
    let mut leaf = Component::<Leaf, Msg>::new(&mut remote);
    assert_eq!(leaf.stream().len(), 2);
    assert_eq!(leaf.flush(&remote), 2);
    assert_eq!(*leaf.container().seen.borrow(), vec!["Created", "Subscribed"]);
    assert_eq!(remote.components(), 1);
    assert_eq!(leaf.id(), 0);
}

#[test]
fn add_widget_embeds_the_container_once() {
    let mut remote = Remote::new();
    let mut embedded: Vec<&'static str> = Vec::new();
    let leaf = add_widget::<Leaf, Msg, _>(&mut remote, |child: &Handle| embedded.push(child.name));
    assert_eq!(embedded, vec!["leaf"]);
    assert_eq!(leaf.container().name, "leaf");
    assert!(remote.serves(leaf.id()));
    assert_eq!(leaf.stream().len(), 2);
}

#[test]
fn children_are_registered_before_their_parent() {
    let mut remote = Remote::new();
    let parent = Component::<Parent, Msg>::new(&mut remote);
    assert_eq!(remote.components(), 3);
    assert_eq!(parent.id(), 2);
    assert!(remote.serves(0));
    assert!(remote.serves(1));
    assert!(remote.serves(2));
    assert_eq!(parent.stream().len(), 0);
    assert_eq!(parent.container().name, "parent");
}

#[test]
fn embedded_siblings_have_their_own_streams() {
    let mut remote = Remote::new();
    let (mut parent, _) = Parent::new(&mut EventStream::new(), &mut remote);
    assert_eq!(*parent.tree.borrow(), vec!["leaf", "leaf"]);
    assert_eq!(parent.first.id(), 0);
    assert_eq!(parent.second.id(), 1);
    assert_eq!(parent.first.flush(&remote), 2);
    parent.first.send(&remote, Msg::Ping);
    assert!(parent.first.step(&remote));
    assert_eq!(*parent.first.container().seen.borrow(), vec!["Created", "Subscribed", "Ping"]);
    assert_eq!(*parent.second.container().seen.borrow(), Vec::<&'static str>::new());
    assert_eq!(parent.second.stream().len(), 2);
    assert_eq!(parent.second.flush(&remote), 2);
    assert_eq!(*parent.second.container().seen.borrow(), vec!["Created", "Subscribed"]);
    assert_eq!(*parent.first.container().seen.borrow(), vec!["Created", "Subscribed", "Ping"]);
}

#[test]
fn a_context_alone_sends_and_schedules() {
    let mut remote = Remote::new();
    let leaf = Component::<Leaf, Msg>::new(&mut remote);
    assert_eq!(leaf.stream().len(), 2);
    assert!(leaf.stream().is_open());
    let mut second = Component::<Leaf, Msg>::new(&mut remote);
    assert_eq!(second.id(), 1);
    second.send(&remote, Msg::Ping);
    assert_eq!(second.stream().len(), 3);
    assert_eq!(leaf.stream().len(), 2);
}
