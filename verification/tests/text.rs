use relm::{Component, DisplayVariant, EventStream, Remote, Widget};
use std::cell::RefCell;
use std::rc::Rc;

#[derive(Clone)]
struct Label {
    text: Rc<RefCell<String>>,
}

#[derive(Clone)]
enum TextMsg {
    Change(String),
}

impl DisplayVariant for TextMsg {
    fn display_variant(&self) -> &'static str {
        match self {
            TextMsg::Change(_) => "Change",
        }
    }
}

struct TextModel {
    content: String,
}

struct Text {
    label: Label,
}

impl Widget<TextMsg> for Text {
    type Container = Label;
    type Model = TextModel;

    fn container(&self) -> &Label {
        &self.label
    }

    fn new(_stream: &mut EventStream<TextMsg>, _remote: &mut Remote) -> (Self, TextModel) {
        let label = Label { text: Rc::new(RefCell::new(String::new())) };
        (Text { label }, TextModel { content: String::new() })
    }

    fn update(&mut self, event: TextMsg, model: &mut TextModel) {
        match event {
            TextMsg::Change(raw) => {
                model.content = raw.chars().rev().collect();
                *self.label.text.borrow_mut() = model.content.clone();
            }
        }
    }
}

#[test]
fn text_is_reversed_into_the_label() {
    let mut remote = Remote::new();
    let mut text = Component::<Text, TextMsg>::new(&mut remote);
    assert_eq!(*text.container().text.borrow(), "");
    text.send(&remote, TextMsg::Change(String::from("abc")));
    assert!(text.step(&remote));
    assert_eq!(*text.container().text.borrow(), "cba");
    assert!(!text.step(&remote));
    assert_eq!(*text.container().text.borrow(), "cba");
}

#[test]
fn later_text_replaces_earlier_text() {
    let mut remote = Remote::new();
    let mut text = Component::<Text, TextMsg>::new(&mut remote);
    text.send(&remote, TextMsg::Change(String::from("ab")));
    text.send(&remote, TextMsg::Change(String::from("xyz")));
    assert_eq!(text.flush(&remote), 2);
    assert_eq!(*text.container().text.borrow(), "zyx");
}

#[test]
fn variant_names_are_given() {
    assert_eq!(TextMsg::Change(String::new()).display_variant(), "Change");
}
