use serial_support::errors::WebsocketSerialServerError;
use serial_support::messages::{SerialResponse, SubscriptionRequest};
use serial_support::sub_manager::SubscriptionManager;

fn should_get_msg(
    sub_manager: &mut SubscriptionManager,
    sub_id: &str,
    serial_resp: &SerialResponse,
    fail_tag: &str,
) {
    if let Some(resp) = sub_manager.take_message(&sub_id.to_string()) {
        assert_eq!(
            resp,
            serial_resp.clone(),
            "{} messages '{:?}' '{:?}' should be equal",
            fail_tag,
            resp,
            serial_resp.clone()
        )
    } else {
        panic!("{} should not have recieved anything", fail_tag);
    }
}

fn should_not_get_a_msg(sub_manager: &mut SubscriptionManager, sub_id: &str, fail_tag: &str) {
    if let Some(resp) = sub_manager.take_message(&sub_id.to_string()) {
        panic!(
            "{} should not have recieved anything, got {:?}",
            fail_tag, resp
        );
    }
}

fn sorted(mut names: Vec<String>) -> Vec<String> {
    names.sort();
    names
}

#[test]
fn test_subscriptions() {
    // manager
    let mut sub_manager = SubscriptionManager::new();
    // ports
    let ports = vec!["/dev/ttyUSB0", "/dev/ttyUSB1", "/dev/ttyUSB2"];
    let ports_set: Vec<String> = sorted(ports.clone().into_iter().map(|p| p.to_string()).collect());
    // subscriber1
    let sub1_id = "SUB1";
    let sub1_req = SubscriptionRequest {
        sub_id: sub1_id.to_string(),
    };
    // subscriber 2
    let sub2_id = "SUB2";
    let sub2_req = SubscriptionRequest {
        sub_id: sub2_id.to_string(),
    };
    // Add subscriber 1
    sub_manager.add_subscription(sub1_req);
    for port in ports.iter() {
        sub_manager
            .add_port(&sub1_id.to_string(), &port.to_string())
            .unwrap();
    }
    // Sub1 should be subscribed to all ports
    assert_eq!(
        sorted(sub_manager.subscribed_ports()),
        ports_set,
        "Port sets should be equal",
    );
    // Add subscriber2, but provide no ports
    sub_manager.add_subscription(sub2_req);
    // Broadcast a message to everyone
    let all_subscribers_msg = SerialResponse::Okay {
        msg: "Broadcast all!".to_string(),
    };
    let mut all_res = sub_manager.broadcast_message(all_subscribers_msg.clone());
    assert!(all_res.len() == 0, "There should be no errors");
    should_get_msg(&mut sub_manager, sub1_id, &all_subscribers_msg, "Subscriber 1");
    should_get_msg(&mut sub_manager, sub2_id, &all_subscribers_msg, "Subscriber 2");
    // Send message to one subscriber
    let sub1_msg = SerialResponse::Okay {
        msg: "Only subscriber 1 should see this!".to_string(),
    };
    sub_manager
        .send_message(&sub1_id.to_string(), sub1_msg.clone())
        .expect("Send to subscriber 1 should work!");
    should_get_msg(&mut sub_manager, sub1_id, &sub1_msg, "Subscriber 1");
    should_not_get_a_msg(&mut sub_manager, sub2_id, "Subscriber 2");
    // Send message to subscribers of a given port
    all_res = sub_manager.broadcast_message_for_port(&"/dev/ttyUSB2".to_string(), sub1_msg.clone());
    assert!(all_res.len() == 0, "There should be no errors");
    should_get_msg(&mut sub_manager, sub1_id, &sub1_msg, "Subscriber 1");
    should_not_get_a_msg(&mut sub_manager, sub2_id, "Subscriber 2");
    // unsubscribe sub1 from /dev/ttyUSB2
    sub_manager
        .remove_port(&sub1_id.to_string(), &"/dev/ttyUSB2".to_string())
        .expect("remvoving sub1 from port should not fail.");
    // No one should get message on ttyUSB2 now
    all_res = sub_manager.broadcast_message_for_port(&"/dev/ttyUSB2".to_string(), sub1_msg.clone());
    assert!(all_res.len() == 0, "There should be no errors");
    should_not_get_a_msg(&mut sub_manager, sub1_id, "Subscriber 1");
    should_not_get_a_msg(&mut sub_manager, sub2_id, "Subscriber 2");
}

fn name(text: &str) -> String {
    text.to_string()
}

fn registry(ids: &[&str]) -> SubscriptionManager {
    let mut subs = SubscriptionManager::new();
    for id in ids {
        subs.add_subscription(SubscriptionRequest { sub_id: id.to_string() });
    }
    subs
}

fn ok(msg: &str) -> SerialResponse {
    SerialResponse::Okay { msg: msg.to_string() }
}

#[test]
fn missing_subscription_is_reported() {
    let mut subs = registry(&["A"]);
    let missing = WebsocketSerialServerError::SubscriptionNotFound { subscription_id: name("B") };
    assert_eq!(subs.check_subscription_exists(&name("A")), Ok(()));
    assert_eq!(subs.check_subscription_exists(&name("B")), Err(missing.clone()));
    assert_eq!(subs.add_port(&name("B"), &name("p")), Err(missing.clone()));
    assert_eq!(subs.remove_port(&name("B"), &name("p")), Err(missing.clone()));
    assert_eq!(subs.send_message(&name("B"), ok("x")), Err(missing));
    assert_eq!(subs.subscribed_ports(), Vec::<String>::new());
}

#[test]
fn registration_is_idempotent() {
    let mut subs = registry(&["A"]);
    subs.add_port(&name("A"), &name("p")).unwrap();
    subs.send_message(&name("A"), ok("first")).unwrap();
    // registering again keeps the interest and the queue
    subs.add_subscription(SubscriptionRequest { sub_id: name("A") });
    assert_eq!(subs.subscription_ids(), vec![name("A")]);
    assert_eq!(subs.subscribed_ports(), vec![name("p")]);
    assert_eq!(subs.take_message(&name("A")), Some(ok("first")));
}

#[test]
fn interest_is_a_set() {
    let mut subs = registry(&["A", "B"]);
    subs.add_port(&name("A"), &name("p")).unwrap();
    subs.add_port(&name("A"), &name("p")).unwrap();
    subs.add_port(&name("B"), &name("p")).unwrap();
    subs.add_port(&name("B"), &name("q")).unwrap();
    assert_eq!(subs.subscribed_ports(), vec![name("p"), name("q")]);
    // one removal is enough, a second changes nothing
    subs.remove_port(&name("A"), &name("p")).unwrap();
    assert_eq!(subs.broadcast_message_for_port(&name("p"), ok("for p")), vec![]);
    assert_eq!(subs.take_message(&name("A")), None);
    assert_eq!(subs.take_message(&name("B")), Some(ok("for p")));
    subs.remove_port(&name("A"), &name("p")).unwrap();
    assert_eq!(subs.subscribed_ports(), vec![name("p"), name("q")]);
}

#[test]
fn remove_port_from_all_scrubs_every_interest() {
    let mut subs = registry(&["A", "B"]);
    subs.add_port(&name("A"), &name("p")).unwrap();
    subs.add_port(&name("B"), &name("p")).unwrap();
    subs.add_port(&name("B"), &name("q")).unwrap();
    subs.remove_port_from_all(&name("p"));
    assert_eq!(subs.subscribed_ports(), vec![name("q")]);
}

#[test]
fn clear_ports_of_one_or_of_all() {
    let mut subs = registry(&["A", "B"]);
    subs.add_port(&name("A"), &name("p")).unwrap();
    subs.add_port(&name("B"), &name("q")).unwrap();
    subs.clear_ports(Some(&name("A")));
    assert_eq!(subs.subscribed_ports(), vec![name("q")]);
    // an unknown id changes nothing
    subs.clear_ports(Some(&name("C")));
    assert_eq!(subs.subscribed_ports(), vec![name("q")]);
    subs.clear_ports(None);
    assert_eq!(subs.subscribed_ports(), Vec::<String>::new());
    assert_eq!(subs.subscription_ids(), vec![name("A"), name("B")]);
}

#[test]
fn messages_are_taken_oldest_first() {
    let mut subs = registry(&["A"]);
    subs.send_message(&name("A"), ok("one")).unwrap();
    subs.send_message(&name("A"), ok("two")).unwrap();
    assert_eq!(subs.take_message(&name("A")), Some(ok("one")));
    assert_eq!(subs.take_message(&name("A")), Some(ok("two")));
    assert_eq!(subs.take_message(&name("A")), None);
    assert_eq!(subs.take_message(&name("nobody")), None);
}

#[test]
fn send_to_a_disconnected_subscriber_fails_and_keeps_it() {
    let mut subs = registry(&["A", "B", "C"]);
    subs.add_port(&name("A"), &name("p")).unwrap();
    subs.add_port(&name("C"), &name("p")).unwrap();
    subs.disconnect(&name("A"));
    subs.disconnect(&name("C"));
    let gone_a = WebsocketSerialServerError::SubscriberSendError { subscription_id: name("A") };
    let gone_c = WebsocketSerialServerError::SubscriberSendError { subscription_id: name("C") };
    assert_eq!(subs.send_message(&name("A"), ok("x")), Err(gone_a.clone()));
    // failures come in the order of registration, for the interested only
    assert_eq!(subs.broadcast_message(ok("all")), vec![gone_a.clone(), gone_c.clone()]);
    subs.remove_port(&name("A"), &name("p")).unwrap();
    assert_eq!(subs.broadcast_message_for_port(&name("p"), ok("p")), vec![gone_c]);
    // nothing was queued for those that are gone, and none was removed
    assert_eq!(subs.take_message(&name("A")), None);
    assert_eq!(subs.take_message(&name("B")), Some(ok("all")));
    assert_eq!(subs.subscription_ids(), vec![name("A"), name("B"), name("C")]);
}

#[test]
fn end_subscription_removes_it() {
    let mut subs = registry(&["A", "B"]);
    subs.add_port(&name("A"), &name("p")).unwrap();
    subs.end_subscription(&name("A"));
    assert_eq!(subs.subscription_ids(), vec![name("B")]);
    assert_eq!(subs.subscribed_ports(), Vec::<String>::new());
    // ending it again changes nothing
    subs.end_subscription(&name("A"));
    assert_eq!(subs.subscription_ids(), vec![name("B")]);
}
