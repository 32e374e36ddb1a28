use relm::{Command, Component, DisplayVariant, EventStream, Remote, Widget};
use std::cell::RefCell;
use std::rc::Rc;

#[derive(Clone)]
struct Log {
    seen: Rc<RefCell<Vec<u32>>>,
}

#[derive(Clone)]
struct Msg(u32);

impl DisplayVariant for Msg {
    fn display_variant(&self) -> &'static str {
        "Msg"
    }
}

struct Recorder {
    log: Log,
}

impl Widget<Msg> for Recorder {
    type Container = Log;
    type Model = ();

    fn container(&self) -> &Log {
        &self.log
    }

    fn new(_stream: &mut EventStream<Msg>, _remote: &mut Remote) -> (Self, ()) {
        (Recorder { log: Log { seen: Rc::new(RefCell::new(Vec::new())) } }, ())
    }

    fn update(&mut self, event: Msg, _model: &mut ()) {
        self.log.seen.borrow_mut().push(event.0);
    }
}

fn seen(component: &Component<Recorder, Msg>) -> Vec<u32> {
    component.container().seen.borrow().clone()
}

#[test]
fn a_send_after_the_loop_quit_has_no_effect() {
    let mut remote = Remote::new();
    let mut recorder = Component::<Recorder, Msg>::new(&mut remote);
    recorder.send(&remote, Msg(1));
    assert!(recorder.step(&remote));
    remote.quit();
    assert!(!remote.is_running());
    assert!(!remote.serves(recorder.id()));
    recorder.send(&remote, Msg(2));
    assert_eq!(recorder.stream().len(), 0);
    assert!(!recorder.step(&remote));
    assert_eq!(recorder.flush(&remote), 0);
    assert_eq!(seen(&recorder), vec![1]);
}

#[test]
fn what_waits_when_the_loop_quits_is_not_delivered() {
    let mut remote = Remote::new();
    let mut recorder = Component::<Recorder, Msg>::new(&mut remote);
    recorder.send(&remote, Msg(1));
    recorder.send(&remote, Msg(2));
    remote.quit();
    assert!(!recorder.step(&remote));
    assert_eq!(recorder.flush(&remote), 0);
    assert_eq!(seen(&recorder), Vec::<u32>::new());
}

#[test]
fn a_send_after_the_teardown_is_dropped() {
    let mut remote = Remote::new();
    let mut recorder = Component::<Recorder, Msg>::new(&mut remote);
    recorder.send(&remote, Msg(1));
    recorder.teardown(&mut remote);
    assert!(!recorder.stream().is_open());
    assert!(recorder.stream().is_empty());
    assert_eq!(recorder.stream().len(), 0);
    recorder.send(&remote, Msg(2));
    assert_eq!(recorder.stream().len(), 0);
    assert!(!recorder.step(&remote));
    assert_eq!(seen(&recorder), Vec::<u32>::new());
    assert!(remote.is_running());
}

#[test]
fn a_teardown_spares_the_siblings() {
    let mut remote = Remote::new();
    let mut first = Component::<Recorder, Msg>::new(&mut remote);
    let mut second = Component::<Recorder, Msg>::new(&mut remote);
    first.teardown(&mut remote);
    assert!(!remote.serves(first.id()));
    assert!(remote.serves(second.id()));
    second.send(&remote, Msg(4));
    assert!(second.step(&remote));
    assert_eq!(seen(&second), vec![4]);
    assert_eq!(remote.components(), 2);
}

#[test]
fn a_result_after_the_loop_quit_is_dropped() {
    let mut remote = Remote::new();
    let mut recorder = Component::<Recorder, Msg>::new(&mut remote);
    remote.quit();
    let ticket = Command { component: recorder.id(), serial: 0 };
    assert!(!recorder.resolve(&remote, ticket, Msg(9)));
    assert_eq!(recorder.stream().len(), 0);
}

#[test]
fn a_loop_that_quit_serves_no_new_component() {
    let mut remote = Remote::new();
    remote.quit();
    let mut recorder = Component::<Recorder, Msg>::new(&mut remote);
    assert_eq!(remote.components(), 1);
    assert!(!remote.serves(recorder.id()));
    recorder.send(&remote, Msg(1));
    assert!(!recorder.step(&remote));
}

#[test]
fn an_unknown_component_is_not_served() {
    let mut remote = Remote::new();
    assert!(remote.is_running());
    assert_eq!(remote.components(), 0);
    assert!(!remote.serves(0));
    let id = remote.register();
    assert_eq!(id, 0);
    assert!(remote.serves(0));
    assert!(!remote.serves(1));
    remote.detach(5);
    assert!(remote.serves(0));
    remote.detach(0);
    assert!(!remote.serves(0));
}

#[test]
fn the_provided_methods_do_nothing() {
    let mut remote = Remote::new();
    let mut recorder = Component::<Recorder, Msg>::new(&mut remote);
    assert_eq!(recorder.stream().len(), 0);
    let ticket = Command { component: recorder.id(), serial: 0 };
    assert!(!recorder.resolve(&remote, ticket, Msg(0)));
    recorder.send(&remote, Msg(1));
    assert!(recorder.step(&remote));
    assert_eq!(recorder.stream().len(), 0);
    assert!(!recorder.resolve(&remote, ticket, Msg(0)));
    assert_eq!(seen(&recorder), vec![1]);
}
