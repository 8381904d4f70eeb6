use jim::broker::Broker;

#[test]
fn a_second_subscription_is_not_sent() {
    let mut broker = Broker::new();
    assert!(!broker.is_subscribed("a"));
    assert!(broker.subscribe(&vec!["a".to_string()]));
    assert!(broker.is_subscribed("a"));
    assert!(!broker.subscribe(&vec!["a".to_string()]));
    // One new topic among known ones is enough.
    assert!(broker.subscribe(&vec!["a".to_string(), "b".to_string()]));
    assert!(!broker.subscribe(&vec!["b".to_string(), "a".to_string(), "b".to_string()]));
    assert!(broker.subscribe(&vec!["c".to_string(), "c".to_string()]));
    assert!(broker.is_subscribed("c"));
    assert!(!broker.subscribe(&vec![]));
}

#[test]
fn a_payload_goes_to_those_who_wait_for_its_topic() {
    let mut broker = Broker::new();
    broker.watch("a".to_string(), 1);
    broker.watch("b".to_string(), 2);
    broker.watch("a".to_string(), 3);
    assert_eq!(broker.deliver("c"), Vec::<u64>::new());
    assert_eq!(broker.deliver("a"), vec![1, 3]);
    // They wait no longer.
    assert_eq!(broker.deliver("a"), Vec::<u64>::new());
    assert_eq!(broker.deliver("b"), vec![2]);
    assert_eq!(broker.deliver("b"), Vec::<u64>::new());
}
