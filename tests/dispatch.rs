use std::any::TypeId;
use std::cell::RefCell;
use std::rc::Rc;

use event_dispatcher::EventDispatcher;

struct Event;

struct Login {
    user: u32,
}

struct Logout {
    user: u32,
}

#[test]
fn it_works() {
    let event_count = RefCell::new(0);
    let mut dispatcher = EventDispatcher::new();
    dispatcher.add_listener(|_: &Event| *event_count.borrow_mut() += 1);

    dispatcher.dispatch(&Event);
    assert_eq!(*event_count.borrow(), 1);

    dispatcher.dispatch(&Event);
    assert_eq!(*event_count.borrow(), 2);
}

#[test]
fn counter_reaches_n_after_n_dispatches() {
    let mut count: u32 = 0;
    {
        let mut dispatcher = EventDispatcher::new();
        dispatcher.add_listener(|_: &Event| count += 1);
        for _ in 0..5 {
            dispatcher.dispatch(&Event);
        }
    }
    assert_eq!(count, 5);
}

#[test]
fn dispatch_without_listeners_is_no_op() {
    let seen = RefCell::new(0);
    let mut dispatcher = EventDispatcher::new();
    dispatcher.dispatch(&Event);
    dispatcher.dispatch(&Login { user: 1 });
    let called = dispatcher.dispatch_for(&TypeId::of::<Event>(), &Event);
    assert!(called.is_empty());
    dispatcher.add_listener(|_: &Event| *seen.borrow_mut() += 1);
    dispatcher.dispatch(&Login { user: 1 });
    assert_eq!(*seen.borrow(), 0);
    dispatcher.dispatch(&Event);
    assert_eq!(*seen.borrow(), 1);
}

#[test]
fn default_is_empty() {
    let mut dispatcher = EventDispatcher::default();
    let called = dispatcher.dispatch_for(&TypeId::of::<Event>(), &Event);
    assert!(called.is_empty());
}

#[test]
fn keys_are_distinct_across_types() {
    let mut dispatcher = EventDispatcher::new();
    let k1 = dispatcher.add_listener(|_: &Event| {});
    let k2 = dispatcher.add_listener(|_: &Login| {});
    dispatcher.remove_listener::<Event>(k1);
    let k3 = dispatcher.add_listener(|_: &Event| {});
    assert_ne!(k1, k2);
    assert_ne!(k1, k3);
    assert_ne!(k2, k3);
}

#[test]
fn dispatch_for_reports_the_listeners_called_in_order() {
    let mut dispatcher = EventDispatcher::new();
    let k1 = dispatcher.add_listener(|_: &Event| {});
    let other = dispatcher.add_listener(|_: &Login| {});
    let k2 = dispatcher.add_listener(|_: &Event| {});
    assert_eq!((k1.id(), other.id(), k2.id()), (0, 1, 2));
    let called = dispatcher.dispatch_for(&TypeId::of::<Event>(), &Event);
    assert_eq!(called, vec![k1.id(), k2.id()]);
    let logins = dispatcher.dispatch_for(&TypeId::of::<Login>(), &Login { user: 2 });
    assert_eq!(logins, vec![other.id()]);
    dispatcher.remove_listener::<Event>(k1);
    let called = dispatcher.dispatch_for(&TypeId::of::<Event>(), &Event);
    assert_eq!(called, vec![k2.id()]);
}

#[test]
fn two_listeners_both_run_in_registration_order() {
    let log: RefCell<Vec<u32>> = RefCell::new(Vec::new());
    let mut dispatcher = EventDispatcher::new();
    dispatcher.add_listener(|e: &Login| log.borrow_mut().push(e.user));
    dispatcher.add_listener(|e: &Login| log.borrow_mut().push(e.user + 100));
    dispatcher.dispatch(&Login { user: 7 });
    assert_eq!(*log.borrow(), vec![7, 107]);
}

#[test]
fn removed_listener_is_not_dispatched() {
    let log: RefCell<Vec<&str>> = RefCell::new(Vec::new());
    let mut dispatcher = EventDispatcher::new();
    let first = dispatcher.add_listener(|_: &Event| log.borrow_mut().push("first"));
    dispatcher.add_listener(|_: &Event| log.borrow_mut().push("second"));
    dispatcher.dispatch(&Event);
    dispatcher.remove_listener::<Event>(first);
    dispatcher.dispatch(&Event);
    assert_eq!(*log.borrow(), vec!["first", "second", "second"]);
}

#[test]
fn removing_an_unregistered_key_is_no_op() {
    let seen = RefCell::new(0);
    let mut dispatcher = EventDispatcher::new();
    let key = dispatcher.add_listener(|_: &Event| *seen.borrow_mut() += 1);
    let login_key = dispatcher.add_listener(|_: &Login| {});
    dispatcher.remove_listener::<Event>(login_key);
    dispatcher.remove_listener::<Logout>(key);
    dispatcher.dispatch(&Event);
    assert_eq!(*seen.borrow(), 1);
    dispatcher.remove_listener::<Event>(key);
    dispatcher.remove_listener::<Event>(key);
    dispatcher.dispatch(&Event);
    assert_eq!(*seen.borrow(), 1);
}

#[test]
fn same_layout_types_do_not_share_listeners() {
    let logins = RefCell::new(0);
    let logouts = RefCell::new(0);
    let mut dispatcher = EventDispatcher::new();
    dispatcher.add_listener(|_: &Login| *logins.borrow_mut() += 1);
    dispatcher.add_listener(|e: &Logout| *logouts.borrow_mut() += e.user);
    dispatcher.dispatch(&Login { user: 3 });
    dispatcher.dispatch(&Login { user: 3 });
    assert_eq!(*logins.borrow(), 2);
    assert_eq!(*logouts.borrow(), 0);
    dispatcher.dispatch(&Logout { user: 3 });
    assert_eq!(*logins.borrow(), 2);
    assert_eq!(*logouts.borrow(), 3);
}

#[test]
fn dispatch_for_runs_only_the_listeners_of_its_type() {
    let logins = RefCell::new(0);
    let mut dispatcher = EventDispatcher::new();
    let key = dispatcher.add_listener(|_: &Login| *logins.borrow_mut() += 1);
    let called = dispatcher.dispatch_for(&TypeId::of::<Logout>(), &Logout { user: 1 });
    assert!(called.is_empty());
    assert_eq!(*logins.borrow(), 0);
    let called = dispatcher.dispatch_for(&TypeId::of::<Login>(), &Login { user: 1 });
    assert_eq!(called, vec![key.id()]);
    assert_eq!(*logins.borrow(), 1);
}

#[test]
fn dropping_the_dispatcher_releases_listeners() {
    let resource = Rc::new(5u32);
    let mut dispatcher = EventDispatcher::new();
    let held = Rc::clone(&resource);
    dispatcher.add_listener(move |_: &Event| assert_eq!(*held, 5));
    let held_too = Rc::clone(&resource);
    dispatcher.add_listener(move |_: &Login| assert_eq!(*held_too, 5));
    dispatcher.dispatch(&Event);
    assert_eq!(Rc::strong_count(&resource), 3);
    drop(dispatcher);
    assert_eq!(Rc::strong_count(&resource), 1);
}

#[test]
fn removing_a_listener_releases_it() {
    let resource = Rc::new(5u32);
    let mut dispatcher = EventDispatcher::new();
    let held = Rc::clone(&resource);
    let key = dispatcher.add_listener(move |_: &Event| assert_eq!(*held, 5));
    assert_eq!(Rc::strong_count(&resource), 2);
    dispatcher.remove_listener::<Event>(key);
    assert_eq!(Rc::strong_count(&resource), 1);
}
