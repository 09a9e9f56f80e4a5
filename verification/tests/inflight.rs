use reliable_provider::inflight::InflightRegistry;

#[test]
fn first_caller_leads_and_later_callers_follow() {
    let mut registry = InflightRegistry::new();
    assert!(!registry.is_inflight("k"));
    let (leads, publisher, subscription) = registry.subscribe_or_create("k");
    assert!(leads);
    assert!(subscription.is_none());
    assert!(registry.is_inflight("k"));

    let (leads2, _publisher2, subscription2) = registry.subscribe_or_create("k");
    assert!(!leads2);
    let mut receiver = subscription2.unwrap();
    assert!(registry.is_inflight("k"));

    // What the leader publishes reaches the follower.
    publisher.send(Ok("shared".to_string())).unwrap();
    assert_eq!(receiver.try_recv().unwrap(), Ok("shared".to_string()));
}

#[test]
fn follower_publisher_is_the_leaders_channel() {
    let mut registry = InflightRegistry::new();
    let (_, leader_publisher, _) = registry.subscribe_or_create("k");
    let (_, follower_publisher, subscription) = registry.subscribe_or_create("k");
    assert!(leader_publisher.same_channel(&follower_publisher));
    let mut receiver = subscription.unwrap();
    follower_publisher.send(Err("failed".to_string())).unwrap();
    assert_eq!(receiver.try_recv().unwrap(), Err("failed".to_string()));
}

#[test]
fn other_keys_lead_their_own_flight() {
    let mut registry = InflightRegistry::new();
    let (a, pa, _) = registry.subscribe_or_create("a");
    let (b, pb, _) = registry.subscribe_or_create("b");
    assert!(a && b);
    assert!(!pa.same_channel(&pb));
}

#[test]
fn complete_ends_the_flight() {
    let mut registry = InflightRegistry::new();
    let (_, first, _) = registry.subscribe_or_create("k");
    registry.complete("k");
    assert!(!registry.is_inflight("k"));
    // Completing what is not in flight changes nothing.
    registry.complete("k");
    registry.complete("never");
    let (leads, second, subscription) = registry.subscribe_or_create("k");
    assert!(leads);
    assert!(subscription.is_none());
    assert!(!first.same_channel(&second));
}

#[test]
fn late_subscriber_sees_only_what_is_sent_after_it_joined() {
    let mut registry = InflightRegistry::new();
    let (_, publisher, _) = registry.subscribe_or_create("k");
    // Nobody listens yet: the outcome goes nowhere.
    assert!(publisher.send(Ok("early".to_string())).is_err());
    let (_, _, subscription) = registry.subscribe_or_create("k");
    let mut receiver = subscription.unwrap();
    assert!(receiver.try_recv().is_err());
    publisher.send(Ok("late".to_string())).unwrap();
    assert_eq!(receiver.try_recv().unwrap(), Ok("late".to_string()));
}
