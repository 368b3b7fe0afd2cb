use scale_server::error::RelayError;
use scale_server::scale_listener::ScaleListener;

fn sorted(mut ids: Vec<usize>) -> Vec<usize> {
    ids.sort();
    ids
}

#[test]
fn new_listener_has_no_observers() {
    let listener = ScaleListener::new();
    assert_eq!(listener.observer_ids(), Vec::<usize>::new());
    assert_eq!(listener.next_observer_id(), 0);
}

#[test]
fn observer_ids_count_up_from_zero() {
    let mut listener = ScaleListener::new();
    let (first, _rx0) = listener.add_observer();
    let (second, _rx1) = listener.add_observer();
    assert_eq!(first, 0);
    assert_eq!(second, 1);
    assert_eq!(listener.next_observer_id(), 2);
    assert_eq!(sorted(listener.observer_ids()), vec![0, 1]);
}

#[test]
fn observer_ids_are_not_reused_after_removal() {
    let mut listener = ScaleListener::new();
    let (first, _rx0) = listener.add_observer();
    listener.remove_observer(&first);
    let (second, _rx1) = listener.add_observer();
    assert_eq!(second, 1);
    assert_eq!(listener.observer_ids(), vec![1]);
}

#[test]
fn remove_observer_is_idempotent() {
    let mut listener = ScaleListener::new();
    let (first, _rx0) = listener.add_observer();
    let (_second, _rx1) = listener.add_observer();
    listener.remove_observer(&first);
    listener.remove_observer(&first);
    listener.remove_observer(&99);
    assert_eq!(listener.observer_ids(), vec![1]);
}

#[test]
fn remove_observers_drops_each_named_id() {
    let mut listener = ScaleListener::new();
    let (_a, _rx0) = listener.add_observer();
    let (_b, _rx1) = listener.add_observer();
    let (_c, _rx2) = listener.add_observer();
    listener.remove_observers(&vec![2, 0, 0, 7]);
    assert_eq!(listener.observer_ids(), vec![1]);
    listener.remove_observers(&vec![]);
    assert_eq!(listener.observer_ids(), vec![1]);
}

#[test]
fn notify_reaches_every_observer() {
    let mut listener = ScaleListener::new();
    let (_a, rx0) = listener.add_observer();
    let (_b, rx1) = listener.add_observer();
    listener.notify_observers("5\u{2}12.34".to_string());
    listener.notify_observers("6\u{2}1".to_string());
    assert_eq!(rx0.try_recv().ok(), Some("5\u{2}12.34".to_string()));
    assert_eq!(rx0.try_recv().ok(), Some("6\u{2}1".to_string()));
    assert_eq!(rx0.try_recv().ok(), None);
    assert_eq!(rx1.try_recv().ok(), Some("5\u{2}12.34".to_string()));
    assert_eq!(rx1.try_recv().ok(), Some("6\u{2}1".to_string()));
    assert_eq!(sorted(listener.observer_ids()), vec![0, 1]);
}

#[test]
fn notify_drops_observers_whose_receiver_is_gone() {
    let mut listener = ScaleListener::new();
    let (_a, rx0) = listener.add_observer();
    let (_b, rx1) = listener.add_observer();
    drop(rx0);
    listener.notify_observers("x".to_string());
    assert_eq!(listener.observer_ids(), vec![1]);
    assert_eq!(rx1.try_recv().ok(), Some("x".to_string()));
    listener.notify_observers("y".to_string());
    assert_eq!(listener.observer_ids(), vec![1]);
    assert_eq!(listener.next_observer_id(), 2);
}

#[test]
fn removed_observer_gets_nothing() {
    let mut listener = ScaleListener::new();
    let (id, rx) = listener.add_observer();
    listener.remove_observer(&id);
    listener.notify_observers("late".to_string());
    assert!(rx.try_recv().is_err());
}

#[test]
fn datagram_is_decoded_and_published() {
    let mut listener = ScaleListener::new();
    let (_id, rx) = listener.add_observer();
    assert_eq!(listener.publish_datagram(b"5\x0212.34"), Ok(()));
    assert_eq!(rx.try_recv().ok(), Some("5\u{2}12.34".to_string()));
}

#[test]
fn undecodable_datagram_is_dropped() {
    let mut listener = ScaleListener::new();
    let (_id, rx) = listener.add_observer();
    assert_eq!(listener.publish_datagram(&[0x35, 0x02, 0xff]), Err(RelayError::UndecodableDatagram));
    assert!(rx.try_recv().is_err());
    assert_eq!(listener.observer_ids(), vec![0]);
}

#[test]
fn settle_drops_the_subscriptions_whose_send_failed() {
    let mut listener = ScaleListener::new();
    let (_a, _rx0) = listener.add_observer();
    let (_b, _rx1) = listener.add_observer();
    let (_c, _rx2) = listener.add_observer();
    listener.settle(&vec![(0, true), (1, false), (2, true)]);
    assert_eq!(sorted(listener.observer_ids()), vec![0, 2]);
    assert_eq!(listener.next_observer_id(), 3);
}

#[test]
fn settle_keeps_every_subscription_whose_send_went_through() {
    let mut listener = ScaleListener::new();
    let (_a, _rx0) = listener.add_observer();
    let (_b, _rx1) = listener.add_observer();
    listener.settle(&vec![(0, true), (1, true)]);
    listener.settle(&vec![]);
    assert_eq!(sorted(listener.observer_ids()), vec![0, 1]);
}

#[test]
fn settle_goes_by_a_failure_and_ignores_unknown_ids() {
    let mut listener = ScaleListener::new();
    let (_a, _rx0) = listener.add_observer();
    let (_b, _rx1) = listener.add_observer();
    listener.settle(&vec![(1, true), (1, false), (9, false)]);
    assert_eq!(listener.observer_ids(), vec![0]);
}

#[test]
fn notify_keeps_the_live_and_drops_the_dead() {
    let mut listener = ScaleListener::new();
    let (_a, rx0) = listener.add_observer();
    let (_b, rx1) = listener.add_observer();
    let (_c, rx2) = listener.add_observer();
    drop(rx1);
    listener.notify_observers("x".to_string());
    assert_eq!(sorted(listener.observer_ids()), vec![0, 2]);
    assert_eq!(rx0.try_recv().ok(), Some("x".to_string()));
    assert_eq!(rx2.try_recv().ok(), Some("x".to_string()));
}
