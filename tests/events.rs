use de_net::events::EventQueue;

#[test]
fn queued_events_are_replayed_in_order() {
    let mut queue = EventQueue::new();
    queue.enqueue_events(vec![1, 2]);
    queue.enqueue_events(Vec::new());
    queue.enqueue_events(vec![3]);
    assert_eq!(queue.resend_events(), vec![1, 2, 3]);
    assert!(queue.resend_events().is_empty());
}
