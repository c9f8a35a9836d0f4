use std::cell::RefCell;
use std::rc::Rc;

use sagacraft_rs::event_bus::{Canceller, Counter, Event, EventBus, EventHandler};
use sagacraft_rs::priorities::Priority;
use sagacraft_rs::strmap::StrMap;

struct Recorder {
    label: String,
    calls: Rc<RefCell<Vec<String>>>,
    cancels: bool,
}

impl Recorder {
    fn new(label: &str, calls: &Rc<RefCell<Vec<String>>>) -> Self {
        Recorder { label: label.to_string(), calls: Rc::clone(calls), cancels: false }
    }

    fn cancelling(label: &str, calls: &Rc<RefCell<Vec<String>>>) -> Self {
        Recorder { label: label.to_string(), calls: Rc::clone(calls), cancels: true }
    }
}

impl EventHandler for Recorder {
    fn handle(&mut self, event: &mut Event) {
        self.calls.borrow_mut().push(self.label.clone());
        if self.cancels {
            event.cancel();
        }
    }
}

struct Meddler {
    calls: Rc<RefCell<Vec<String>>>,
}

impl EventHandler for Meddler {
    fn handle(&mut self, event: &mut Event) {
        self.calls.borrow_mut().push("meddler".to_string());
        event.cancelled = true;
    }
}

enum Either {
    Plain(Recorder),
    Meddling(Meddler),
}

impl EventHandler for Either {
    fn handle(&mut self, event: &mut Event) {
        match self {
            Either::Plain(h) => h.handle(event),
            Either::Meddling(h) => h.handle(event),
        }
    }
}

#[test]
fn a_raised_flag_does_not_stop_an_event_that_cannot_be_cancelled() {
    let mut bus = EventBus::new(false);
    let calls: Rc<RefCell<Vec<String>>> = Rc::new(RefCell::new(Vec::new()));
    bus.subscribe("e", Either::Meddling(Meddler { calls: Rc::clone(&calls) }), Priority::Critical, "m");
    bus.subscribe("e", Either::Plain(Recorder::new("late", &calls)), Priority::Low, "l");
    bus.subscribe("*", Either::Plain(Recorder::new("all", &calls)), Priority::Low, "z");

    let ev = bus.publish("e", None, "test", false);
    assert!(!ev.is_cancelled());
    assert_eq!(
        calls.borrow().as_slice(),
        &["meddler".to_string(), "late".to_string(), "all".to_string()]
    );

    // on an event that can be cancelled the flag stops the others
    calls.borrow_mut().clear();
    let ev = bus.publish("e", None, "test", true);
    assert!(ev.is_cancelled());
    assert_eq!(calls.borrow().as_slice(), &["meddler".to_string()]);
}

#[test]
fn handlers_run_in_priority_order() {
    let mut bus = EventBus::new(false);
    let calls: Rc<RefCell<Vec<String>>> = Rc::new(RefCell::new(Vec::new()));

    bus.subscribe("game.test", Recorder::new("low", &calls), Priority::Low, "z");
    bus.subscribe("game.test", Recorder::new("high", &calls), Priority::High, "a");
    bus.subscribe("game.test", Recorder::new("critical", &calls), Priority::Critical, "b");

    let _ = bus.publish("game.test", None, "system", false);

    assert_eq!(
        calls.borrow().as_slice(),
        &["critical".to_string(), "high".to_string(), "low".to_string()]
    );
}

#[test]
fn cancellable_event_stops_processing() {
    let mut bus = EventBus::new(false);
    let calls: Rc<RefCell<Vec<String>>> = Rc::new(RefCell::new(Vec::new()));

    bus.subscribe("game.cancel", Recorder::cancelling("stopper", &calls), Priority::Critical, "stopper");
    bus.subscribe("game.cancel", Recorder::new("late", &calls), Priority::Low, "should_not_run");

    let ev = bus.publish("game.cancel", None, "system", true);
    assert!(ev.is_cancelled());
    assert_eq!(calls.borrow().as_slice(), &["stopper".to_string()]);
}

#[test]
fn order_does_not_depend_on_registration() {
    for flip in [false, true] {
        let mut bus = EventBus::new(false);
        let calls: Rc<RefCell<Vec<String>>> = Rc::new(RefCell::new(Vec::new()));
        if flip {
            bus.subscribe("e", Recorder::new("H2", &calls), Priority::Low, "z");
            bus.subscribe("e", Recorder::new("H1", &calls), Priority::Critical, "a");
        } else {
            bus.subscribe("e", Recorder::new("H1", &calls), Priority::Critical, "a");
            bus.subscribe("e", Recorder::new("H2", &calls), Priority::Low, "z");
        }
        let _ = bus.publish("e", None, "test", false);
        assert_eq!(calls.borrow().as_slice(), &["H1".to_string(), "H2".to_string()]);
    }
}

#[test]
fn ties_are_broken_by_subscriber() {
    let mut bus = EventBus::new(false);
    let calls: Rc<RefCell<Vec<String>>> = Rc::new(RefCell::new(Vec::new()));
    bus.subscribe("e", Recorder::new("zeta", &calls), Priority::Normal, "zeta");
    bus.subscribe("e", Recorder::new("alpha", &calls), Priority::Normal, "alpha");
    bus.subscribe("e", Recorder::new("mid", &calls), Priority::Normal, "mid");
    let _ = bus.publish("e", None, "test", false);
    assert_eq!(
        calls.borrow().as_slice(),
        &["alpha".to_string(), "mid".to_string(), "zeta".to_string()]
    );
}

#[test]
fn wildcards_interleave_with_specific() {
    let mut bus = EventBus::new(false);
    let calls: Rc<RefCell<Vec<String>>> = Rc::new(RefCell::new(Vec::new()));
    bus.subscribe("*", Recorder::new("wild-high", &calls), Priority::High, "w");
    bus.subscribe("e", Recorder::new("low", &calls), Priority::Low, "a");
    bus.subscribe("e", Recorder::new("critical", &calls), Priority::Critical, "a");
    bus.subscribe("*", Recorder::new("wild-low", &calls), Priority::Low, "b");
    bus.subscribe("other", Recorder::new("other", &calls), Priority::Critical, "a");
    let _ = bus.publish("e", None, "test", false);
    assert_eq!(
        calls.borrow().as_slice(),
        &[
            "critical".to_string(),
            "wild-high".to_string(),
            "low".to_string(),
            "wild-low".to_string()
        ]
    );
}

#[test]
fn cancel_stops_wildcards_too() {
    let mut bus = EventBus::new(false);
    let calls: Rc<RefCell<Vec<String>>> = Rc::new(RefCell::new(Vec::new()));
    bus.subscribe("e", Recorder::cancelling("stop", &calls), Priority::High, "s");
    bus.subscribe("*", Recorder::new("wild", &calls), Priority::Normal, "w");
    bus.subscribe("e", Recorder::new("late", &calls), Priority::Low, "l");
    let ev = bus.publish("e", None, "test", true);
    assert!(ev.is_cancelled());
    assert_eq!(calls.borrow().as_slice(), &["stop".to_string()]);
}

#[test]
fn non_cancellable_event_cannot_be_stopped() {
    let mut bus = EventBus::new(false);
    let calls: Rc<RefCell<Vec<String>>> = Rc::new(RefCell::new(Vec::new()));
    bus.subscribe("e", Recorder::cancelling("stop", &calls), Priority::Critical, "s");
    bus.subscribe("e", Recorder::new("late", &calls), Priority::Low, "l");
    let ev = bus.publish("e", None, "test", false);
    assert!(!ev.is_cancelled());
    assert_eq!(calls.borrow().as_slice(), &["stop".to_string(), "late".to_string()]);

    let mut e = Event::new("x", StrMap::new(), "src", false);
    e.cancel();
    assert!(!e.is_cancelled());
    let mut e = Event::new("x", StrMap::new(), "src", true);
    assert!(!e.is_cancelled());
    e.cancel();
    assert!(e.is_cancelled());
}

#[test]
fn history_keeps_the_last_entries() {
    let mut bus: EventBus<Counter> = EventBus::new(true);
    let _ = bus.publish("a", None, "s1", false);
    let _ = bus.publish("b", None, "s2", false);
    let _ = bus.publish("a", None, "s3", false);
    let _ = bus.publish("a", None, "s4", false);

    let all = bus.history(None, 10);
    assert_eq!(all.len(), 4);
    assert_eq!(all[0].source, "s1");
    assert_eq!(all[3].source, "s4");

    let last_two = bus.history(None, 2);
    assert_eq!(last_two.len(), 2);
    assert_eq!(last_two[0].source, "s3");
    assert_eq!(last_two[1].source, "s4");

    let only_a = bus.history(Some("a"), 2);
    assert_eq!(only_a.len(), 2);
    assert_eq!(only_a[0].source, "s3");
    assert_eq!(only_a[1].source, "s4");

    let only_b = bus.history(Some("b"), 5);
    assert_eq!(only_b.len(), 1);
    assert_eq!(only_b[0].name, "b");

    assert_eq!(bus.history(None, 0).len(), 0);

    bus.clear_history();
    assert_eq!(bus.history(None, 10).len(), 0);
}

#[test]
fn history_is_empty_when_disabled() {
    let mut bus: EventBus<Counter> = EventBus::new(false);
    let _ = bus.publish("a", None, "s1", false);
    assert_eq!(bus.history(None, 10).len(), 0);
    assert_eq!(bus.history(Some("a"), 10).len(), 0);
}

#[test]
fn published_event_carries_its_data() {
    let mut bus: EventBus<Counter> = EventBus::new(true);
    let mut data = StrMap::new();
    data.insert("room".to_string(), serde_json::Value::from(3));
    let ev = bus.publish("moved", Some(data), "player", true);
    assert_eq!(ev.name, "moved");
    assert_eq!(ev.source, "player");
    assert!(ev.cancellable);
    assert_eq!(ev.data.get("room"), Some(&serde_json::Value::from(3)));
    let logged = bus.history(None, 1);
    assert_eq!(logged[0].data.get("room"), Some(&serde_json::Value::from(3)));
}

#[test]
fn clearing_subscriptions_silences_the_bus() {
    let mut bus = EventBus::new(false);
    bus.subscribe("e", Canceller { seen: 0 }, Priority::Normal, "c");
    bus.subscribe("*", Canceller { seen: 0 }, Priority::Normal, "d");
    let ev = bus.publish("e", None, "t", true);
    assert!(ev.is_cancelled());
    bus.clear_all_subscriptions();
    let ev = bus.publish("e", None, "t", true);
    assert!(!ev.is_cancelled());
}

#[test]
fn built_in_handlers_count() {
    let mut c = Counter { seen: 0 };
    let mut e = Event::new("x", StrMap::new(), "s", true);
    c.handle(&mut e);
    c.handle(&mut e);
    assert_eq!(c.seen, 2);
    assert!(!e.is_cancelled());
    let mut k = Canceller { seen: u64::MAX };
    k.handle(&mut e);
    assert_eq!(k.seen, u64::MAX);
    assert!(e.is_cancelled());
}

#[test]
fn priority_ranks() {
    assert_eq!(Priority::Critical.rank(), 0);
    assert_eq!(Priority::High.rank(), 10);
    assert_eq!(Priority::Normal.rank(), 50);
    assert_eq!(Priority::Low.rank(), 100);
    assert_eq!(Priority::default(), Priority::Normal);
    assert!(Priority::Critical < Priority::Low);
}
