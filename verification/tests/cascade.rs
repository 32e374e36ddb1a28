use relm::{Component, DisplayVariant, EventStream, Relm, Remote, Widget};
use std::cell::RefCell;
use std::rc::Rc;

#[derive(Clone)]
struct Log {
    seen: Rc<RefCell<Vec<char>>>,
}

#[derive(Clone)]
enum Msg {
    A,
    B,
    C,
}

impl DisplayVariant for Msg {
    fn display_variant(&self) -> &'static str {
        match self {
            Msg::A => "A",
            Msg::B => "B",
            Msg::C => "C",
        }
    }
}

struct Model {
    log: Vec<char>,
}

struct Cascade {
    shown: Log,
}

impl Widget<Msg> for Cascade {
    type Container = Log;
    type Model = Model;

    fn container(&self) -> &Log {
        &self.shown
    }

    fn new(_stream: &mut EventStream<Msg>, _remote: &mut Remote) -> (Self, Model) {
        (Cascade { shown: Log { seen: Rc::new(RefCell::new(Vec::new())) } }, Model { log: Vec::new() })
    }

    fn update(&mut self, event: Msg, model: &mut Model) {
        model.log.push(match event {
            Msg::A => 'A',
            Msg::B => 'B',
            Msg::C => 'C',
        });
        *self.shown.seen.borrow_mut() = model.log.clone();
    }

    fn update_command(relm: &mut Relm<Msg>, event: Msg, _model: &mut Model) {
        if let Msg::A = event {
            relm.send(Msg::C);
        }
    }
}

#[test]
fn a_message_sent_while_handling_comes_after_those_that_wait() {
    let mut remote = Remote::new();
    let mut cascade = Component::<Cascade, Msg>::new(&mut remote);
    cascade.send(&remote, Msg::A);
    cascade.send(&remote, Msg::B);
    let mut delivered = 0;
    loop {
        let batch = cascade.flush(&remote);
        if batch == 0 {
            break;
        }
        delivered += batch;
    }
    assert_eq!(delivered, 3);
    assert_eq!(*cascade.container().seen.borrow(), vec!['A', 'B', 'C']);
}

#[test]
fn a_message_sent_while_handling_is_not_handled_at_once() {
    let mut remote = Remote::new();
    let mut cascade = Component::<Cascade, Msg>::new(&mut remote);
    cascade.send(&remote, Msg::A);
    cascade.send(&remote, Msg::B);
    assert!(cascade.step(&remote));
    assert_eq!(*cascade.container().seen.borrow(), vec!['A']);
    assert_eq!(cascade.stream().len(), 2);
    assert!(cascade.step(&remote));
    assert_eq!(*cascade.container().seen.borrow(), vec!['A', 'B']);
    assert!(cascade.step(&remote));
    assert_eq!(*cascade.container().seen.borrow(), vec!['A', 'B', 'C']);
    assert!(!cascade.step(&remote));
}
