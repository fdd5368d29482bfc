use std::cell::RefCell;
use std::rc::Rc;

use ant_msgbus::{
    deregister, is_subscribed, publish, register, register_response_handler, response, send,
    send_any, send_response, subscribe, subscribe_str, subscribe_topic, subscriptions_count,
    unsubscribe, unsubscribe_str, BusError, MStr, MessageBus, MessageHandler,
    ShareableMessageHandler, Topic, TraderId, UUID4,
};

#[derive(Clone)]
struct Probe {
    name: &'static str,
    log: Rc<RefCell<Vec<&'static str>>>,
}

impl MessageHandler<String> for Probe {
    fn handle(&self, _message: &String) {
        self.log.borrow_mut().push(self.name);
    }
}

fn probe(name: &'static str, log: &Rc<RefCell<Vec<&'static str>>>) -> ShareableMessageHandler<Probe> {
    ShareableMessageHandler::new(name, Probe { name, log: log.clone() })
}

fn topic(s: &str) -> MStr<Topic> {
    MStr::topic(s).unwrap()
}

fn new_bus() -> MessageBus<Probe> {
    MessageBus::new(TraderId::new("TRADER-001"), UUID4::new(), None)
}

#[test]
fn new_bus_is_empty_and_named() {
    let bus = new_bus();
    assert_eq!(bus.name(), "MessageBus");
    assert_eq!(bus.trader_id().as_str(), "TRADER-001");
    assert!(!bus.has_backing());
    assert!(bus.subscriptions().is_empty());
    assert!(bus.endpoints().is_empty());
    assert!(bus.close().is_ok());
    let named: MessageBus<Probe> = MessageBus::new(TraderId::new("TRADER-002"), UUID4::new(), Some("Bus2"));
    assert_eq!(named.name(), "Bus2");
}

#[test]
fn delivery_order_is_priority_then_pattern_then_handler() {
    let log: Rc<RefCell<Vec<&'static str>>> = Rc::new(RefCell::new(Vec::new()));
    let mut bus = new_bus();
    subscribe(&mut bus, MStr::pattern("a.?"), probe("H1", &log), Some(5));
    subscribe(&mut bus, MStr::pattern("a.?"), probe("H2", &log), Some(10));
    subscribe(&mut bus, MStr::pattern("a.*"), probe("H3", &log), Some(5));
    let n = publish(&mut bus, topic("a.b"), &"m".to_string());
    assert_eq!(n, 3);
    assert_eq!(*log.borrow(), vec!["H2", "H3", "H1"]);
    let subs = bus.matching_subscriptions(topic("a.b"));
    let ids: Vec<&str> = subs.iter().map(|s| s.handler_id).collect();
    assert_eq!(ids, vec!["H2", "H3", "H1"]);
}

#[test]
fn equal_priority_and_pattern_orders_by_handler_id() {
    let log: Rc<RefCell<Vec<&'static str>>> = Rc::new(RefCell::new(Vec::new()));
    let mut bus = new_bus();
    subscribe(&mut bus, MStr::pattern("x"), probe("b", &log), None);
    subscribe(&mut bus, MStr::pattern("x"), probe("a", &log), None);
    publish(&mut bus, topic("x"), &"m".to_string());
    assert_eq!(*log.borrow(), vec!["a", "b"]);
}

#[test]
fn subscribing_twice_keeps_the_count() {
    let log: Rc<RefCell<Vec<&'static str>>> = Rc::new(RefCell::new(Vec::new()));
    let mut bus = new_bus();
    subscribe(&mut bus, MStr::pattern("data.*"), probe("H", &log), None);
    assert_eq!(subscriptions_count(&bus, "data.quotes").unwrap(), 1);
    subscribe(&mut bus, MStr::pattern("data.*"), probe("H", &log), Some(9));
    assert_eq!(subscriptions_count(&bus, "data.quotes").unwrap(), 1);
    assert_eq!(bus.subscriptions().len(), 1);
    assert_eq!(bus.subscriptions()[0].priority, 0);
}

#[test]
fn subscriptions_count_rejects_a_pattern_and_does_not_cache() {
    let log: Rc<RefCell<Vec<&'static str>>> = Rc::new(RefCell::new(Vec::new()));
    let mut bus = new_bus();
    subscribe(&mut bus, MStr::pattern("a.*"), probe("H", &log), None);
    assert!(subscriptions_count(&bus, "a.*").is_err());
    assert_eq!(subscriptions_count(&bus, "a.b").unwrap(), 1);
    assert_eq!(subscriptions_count(&bus, "b.a").unwrap(), 0);
    assert!(bus.has_subscribers(topic("a.b")));
    assert!(!bus.has_subscribers(topic("b.a")));
}

#[test]
fn subscribe_reaches_an_already_cached_topic() {
    let log: Rc<RefCell<Vec<&'static str>>> = Rc::new(RefCell::new(Vec::new()));
    let mut bus = new_bus();
    subscribe(&mut bus, MStr::pattern("orders.*"), probe("old", &log), None);
    assert_eq!(publish(&mut bus, topic("orders.filled"), &"1".to_string()), 1);
    subscribe(&mut bus, MStr::pattern("orders.?illed"), probe("new", &log), Some(1));
    assert_eq!(bus.subscriptions_count(topic("orders.filled")), 2);
    assert_eq!(publish(&mut bus, topic("orders.filled"), &"2".to_string()), 2);
    assert_eq!(*log.borrow(), vec!["old", "new", "old"]);
}

#[test]
fn unsubscribe_purges_the_cache() {
    let log: Rc<RefCell<Vec<&'static str>>> = Rc::new(RefCell::new(Vec::new()));
    let mut bus = new_bus();
    subscribe(&mut bus, MStr::pattern("orders.*"), probe("keep", &log), None);
    subscribe(&mut bus, MStr::pattern("orders.*"), probe("gone", &log), None);
    publish(&mut bus, topic("orders.new"), &"1".to_string());
    assert_eq!(*log.borrow(), vec!["gone", "keep"]);
    unsubscribe(&mut bus, MStr::pattern("orders.*"), probe("gone", &log));
    assert!(!is_subscribed(&bus, "orders.*", probe("gone", &log)));
    assert!(is_subscribed(&bus, "orders.*", probe("keep", &log)));
    log.borrow_mut().clear();
    assert_eq!(publish(&mut bus, topic("orders.new"), &"2".to_string()), 1);
    assert_eq!(*log.borrow(), vec!["keep"]);
    assert_eq!(bus.subscriptions_count(topic("orders.new")), 1);
}

#[test]
fn string_and_topic_forms_of_subscribe() {
    let log: Rc<RefCell<Vec<&'static str>>> = Rc::new(RefCell::new(Vec::new()));
    let mut bus = new_bus();
    subscribe_topic(&mut bus, topic("a.b"), probe("T", &log), None);
    subscribe_str(&mut bus, "a.*", probe("S", &log), Some(2));
    assert_eq!(bus.patterns(), vec!["a.b", "a.*"]);
    assert_eq!(bus.subscription_handler_ids(), vec!["T", "S"]);
    publish(&mut bus, topic("a.b"), &"m".to_string());
    assert_eq!(*log.borrow(), vec!["S", "T"]);
    unsubscribe_str(&mut bus, "a.*", probe("S", &log));
    assert_eq!(bus.patterns(), vec!["a.b"]);
}

#[test]
fn publish_without_subscribers_is_a_no_op() {
    let mut bus = new_bus();
    assert_eq!(publish(&mut bus, topic("nobody.listens"), &"m".to_string()), 0);
}

#[test]
fn send_to_unregistered_endpoint_is_dropped() {
    let log: Rc<RefCell<Vec<&'static str>>> = Rc::new(RefCell::new(Vec::new()));
    let bus = new_bus();
    let ep = MStr::endpoint("RiskEngine.execute").unwrap();
    assert!(!send(&bus, ep, "m".to_string()));
    assert!(!send_any(&bus, ep, &"m".to_string()));
    assert_eq!(log.borrow().len(), 0);
}

#[test]
fn send_after_register_delivers_once_per_call() {
    let log: Rc<RefCell<Vec<&'static str>>> = Rc::new(RefCell::new(Vec::new()));
    let mut bus = new_bus();
    let ep = MStr::endpoint("RiskEngine.execute").unwrap();
    register(&mut bus, ep, probe("risk", &log));
    assert!(bus.is_registered(ep));
    assert!(send(&bus, ep, "m".to_string()));
    assert_eq!(log.borrow().len(), 1);
    assert!(send_any(&bus, ep, &"m".to_string()));
    assert_eq!(log.borrow().len(), 2);
}

#[test]
fn register_replaces_in_place_and_deregister_keeps_order() {
    let log: Rc<RefCell<Vec<&'static str>>> = Rc::new(RefCell::new(Vec::new()));
    let mut bus = new_bus();
    let a = MStr::endpoint("A").unwrap();
    let b = MStr::endpoint("B").unwrap();
    let c = MStr::endpoint("C").unwrap();
    register(&mut bus, a, probe("a1", &log));
    register(&mut bus, b, probe("b", &log));
    register(&mut bus, c, probe("c", &log));
    register(&mut bus, a, probe("a2", &log));
    assert_eq!(bus.endpoints(), vec!["A", "B", "C"]);
    assert_eq!(bus.get_endpoint(a).unwrap().id(), "a2");
    send(&bus, a, "m".to_string());
    assert_eq!(*log.borrow(), vec!["a2"]);
    deregister(&mut bus, b);
    assert_eq!(bus.endpoints(), vec!["A", "C"]);
    assert!(!bus.is_registered(b));
    assert!(bus.get_endpoint(b).is_none());
    deregister(&mut bus, b);
    assert_eq!(bus.endpoints(), vec!["A", "C"]);
}

#[test]
fn correlation_id_takes_one_handler() {
    let log: Rc<RefCell<Vec<&'static str>>> = Rc::new(RefCell::new(Vec::new()));
    let mut bus = new_bus();
    let id = UUID4::new();
    assert!(register_response_handler(&mut bus, &id, probe("first", &log)).is_ok());
    assert_eq!(
        register_response_handler(&mut bus, &id, probe("second", &log)),
        Err(BusError::DuplicateCorrelationId)
    );
    assert_eq!(bus.get_response_handler(&id).unwrap().id(), "first");
}

#[test]
fn response_is_delivered_once() {
    let log: Rc<RefCell<Vec<&'static str>>> = Rc::new(RefCell::new(Vec::new()));
    let mut bus = new_bus();
    let id = UUID4::new();
    bus.register_response_handler(&id, probe("waiting", &log)).unwrap();
    assert!(send_response(&mut bus, &id, &"data".to_string()));
    assert_eq!(*log.borrow(), vec!["waiting"]);
    assert!(!send_response(&mut bus, &id, &"again".to_string()));
    assert!(!response(&mut bus, &id, &"again".to_string()));
    assert_eq!(log.borrow().len(), 1);
    assert!(bus.get_response_handler(&id).is_none());
}

#[test]
fn response_without_registration_is_dropped() {
    let log: Rc<RefCell<Vec<&'static str>>> = Rc::new(RefCell::new(Vec::new()));
    let mut bus = new_bus();
    bus.register_response_handler(&UUID4::new(), probe("other", &log)).unwrap();
    assert!(!response(&mut bus, &UUID4::new(), &"data".to_string()));
    assert_eq!(log.borrow().len(), 0);
}

#[test]
fn subscriptions_are_equal_by_pattern_and_handler() {
    let log: Rc<RefCell<Vec<&'static str>>> = Rc::new(RefCell::new(Vec::new()));
    let a = ant_msgbus::Subscription::new(MStr::pattern("a.*"), probe("H", &log), Some(1));
    let b = ant_msgbus::Subscription::new(MStr::pattern("a.*"), probe("H", &log), Some(9));
    let c = ant_msgbus::Subscription::new(MStr::pattern("a.*"), probe("G", &log), Some(1));
    assert!(a == b);
    assert!(a != c);
    assert!(b.precedes(&a));
    assert!(c.precedes(&a));
}
