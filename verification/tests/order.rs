use relm::{Component, DisplayVariant, EventStream, Relm, Remote, Widget};
use std::cell::RefCell;
use std::rc::Rc;

#[derive(Clone)]
struct Log {
    seen: Rc<RefCell<Vec<u32>>>,
}

#[derive(Clone)]
enum Msg {
    Plain(u32),
    Echo(u32),
}

impl DisplayVariant for Msg {
    fn display_variant(&self) -> &'static str {
        match self {
            Msg::Plain(_) => "Plain",
            Msg::Echo(_) => "Echo",
        }
    }
}

struct Recorder {
    log: Log,
}

impl Widget<Msg> for Recorder {
    type Container = Log;
    type Model = usize;

    fn container(&self) -> &Log {
        &self.log
    }

    fn new(_stream: &mut EventStream<Msg>, _remote: &mut Remote) -> (Self, usize) {
        (Recorder { log: Log { seen: Rc::new(RefCell::new(Vec::new())) } }, 0)
    }

    fn update(&mut self, event: Msg, model: &mut usize) {
        *model += 1;
        match event {
            Msg::Plain(n) => self.log.seen.borrow_mut().push(n),
            Msg::Echo(n) => self.log.seen.borrow_mut().push(n),
        }
    }

    fn update_command(relm: &mut Relm<Msg>, event: Msg, _model: &mut usize) {
        if let Msg::Echo(n) = event {
            relm.send(Msg::Plain(n + 100));
        }
    }
}

fn seen(component: &Component<Recorder, Msg>) -> Vec<u32> {
    component.container().seen.borrow().clone()
}

#[test]
fn messages_are_delivered_in_send_order() {
    let mut remote = Remote::new();
    let mut recorder = Component::<Recorder, Msg>::new(&mut remote);
    let sent = vec![7, 3, 9, 3, 1, 8, 2];
    for n in &sent {
        recorder.send(&remote, Msg::Plain(*n));
    }
    assert_eq!(recorder.stream().len(), sent.len());
    assert_eq!(recorder.flush(&remote), sent.len());
    assert_eq!(seen(&recorder), sent);
}

#[test]
fn sends_between_steps_keep_their_place() {
    let mut remote = Remote::new();
    let mut recorder = Component::<Recorder, Msg>::new(&mut remote);
    recorder.send(&remote, Msg::Plain(1));
    recorder.send(&remote, Msg::Plain(2));
    assert!(recorder.step(&remote));
    recorder.send(&remote, Msg::Plain(3));
    assert!(recorder.step(&remote));
    assert!(recorder.step(&remote));
    assert!(!recorder.step(&remote));
    assert_eq!(seen(&recorder), vec![1, 2, 3]);
}

#[test]
fn a_step_delivers_one_message() {
    let mut remote = Remote::new();
    let mut recorder = Component::<Recorder, Msg>::new(&mut remote);
    recorder.send(&remote, Msg::Plain(5));
    recorder.send(&remote, Msg::Plain(6));
    assert!(recorder.step(&remote));
    assert_eq!(seen(&recorder), vec![5]);
    assert_eq!(recorder.stream().len(), 1);
}

#[test]
fn messages_from_handlers_wait_behind_the_queue() {
    let mut remote = Remote::new();
    let mut recorder = Component::<Recorder, Msg>::new(&mut remote);
    recorder.send(&remote, Msg::Echo(1));
    recorder.send(&remote, Msg::Echo(2));
    recorder.send(&remote, Msg::Plain(3));
    assert_eq!(recorder.flush(&remote), 3);
    assert_eq!(seen(&recorder), vec![1, 2, 3]);
    assert_eq!(recorder.stream().len(), 2);
    assert_eq!(recorder.flush(&remote), 2);
    assert_eq!(seen(&recorder), vec![1, 2, 3, 101, 102]);
    assert_eq!(recorder.flush(&remote), 0);
}

#[test]
fn a_handler_does_not_run_inside_another() {
    let mut remote = Remote::new();
    let mut recorder = Component::<Recorder, Msg>::new(&mut remote);
    recorder.send(&remote, Msg::Echo(1));
    assert!(recorder.step(&remote));
    assert_eq!(seen(&recorder), vec![1]);
    assert_eq!(recorder.stream().len(), 1);
    assert!(recorder.step(&remote));
    assert_eq!(seen(&recorder), vec![1, 101]);
}

#[test]
fn an_empty_stream_delivers_nothing() {
    let mut remote = Remote::new();
    let mut recorder = Component::<Recorder, Msg>::new(&mut remote);
    assert!(recorder.stream().is_empty());
    assert_eq!(recorder.stream().len(), 0);
    assert!(!recorder.step(&remote));
    assert_eq!(recorder.flush(&remote), 0);
    assert_eq!(seen(&recorder), Vec::<u32>::new());
}

#[test]
fn a_stream_alone_queues_what_is_sent() {
    let mut stream: EventStream<Msg> = EventStream::new();
    assert!(stream.is_open());
    assert!(stream.is_empty());
    stream.send(Msg::Plain(1));
    stream.send(Msg::Plain(2));
    assert_eq!(stream.len(), 2);
    assert!(!stream.is_empty());
    assert!(stream.is_open());
}
