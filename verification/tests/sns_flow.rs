use smoqs::dict::Dict;
use smoqs::errors::MyError;
use smoqs::sns::{
    create_topic, delete_topic, get_topic_attributes, list_subscriptions,
    list_subscriptions_by_topic, list_topics, publish, set_topic_attributes, subscribe,
    unsubscribe,
};
use smoqs::sqs::{create_queue, receive_message_resume, send_message};
use smoqs::state::State;

fn new_state() -> State {
    State::new(3566, "ap-southeast-2", "000000000000")
}

fn form(pairs: &[(&str, &str)]) -> Dict {
    let mut d = Dict::new();
    for (k, v) in pairs {
        d.insert(k.to_string(), v.to_string());
    }
    d
}

fn count_occurrences(haystack: &str, needle: &str) -> usize {
    haystack.matches(needle).count()
}

#[test]
fn topic_publish_fans_out_to_subscribed_queue() {
    let mut state = new_state();
    create_topic(&form(&[("Name", "T1")]), &mut state).unwrap();
    let arn = state.get_topic_arn("T1");
    create_queue(&form(&[("QueueName", "Q2")]), &mut state).unwrap();
    let url = state.get_queue_url("Q2");

    subscribe(
        &form(&[
            ("TopicArn", arn.0.as_str()),
            ("Endpoint", url.as_str()),
            ("Protocol", "sqs"),
        ]),
        &mut state,
    )
    .unwrap();

    let published = publish(
        &form(&[("TopicArn", arn.0.as_str()), ("Message", "x")]),
        &mut state,
    )
    .unwrap();
    assert!(published.contains("<PublishResponse>"));
    assert!(published.contains("<MessageId>"));

    let got = receive_message_resume(&form(&[("QueueUrl", url.as_str())]), &mut state).unwrap();
    assert!(got.contains("<Body>x</Body>"));
}

#[test]
fn subscribe_twice_yields_one_subscription() {
    let mut state = new_state();
    create_topic(&form(&[("Name", "T1")]), &mut state).unwrap();
    let arn = state.get_topic_arn("T1");
    create_queue(&form(&[("QueueName", "Q1")]), &mut state).unwrap();
    let url = state.get_queue_url("Q1");
    let sub_form = form(&[
        ("TopicArn", arn.0.as_str()),
        ("Endpoint", url.as_str()),
        ("Protocol", "sqs"),
    ]);
    subscribe(&sub_form, &mut state).unwrap();
    subscribe(&sub_form, &mut state).unwrap();

    let listed =
        list_subscriptions_by_topic(&form(&[("TopicArn", arn.0.as_str())]), &state).unwrap();
    assert_eq!(count_occurrences(&listed, "<member>"), 1);
}

#[test]
fn publish_to_vanished_queue_still_succeeds() {
    let mut state = new_state();
    create_topic(&form(&[("Name", "T1")]), &mut state).unwrap();
    let arn = state.get_topic_arn("T1");
    create_queue(&form(&[("QueueName", "Gone")]), &mut state).unwrap();
    let url = state.get_queue_url("Gone");
    subscribe(
        &form(&[
            ("TopicArn", arn.0.as_str()),
            ("Endpoint", url.as_str()),
            ("Protocol", "sqs"),
        ]),
        &mut state,
    )
    .unwrap();
    smoqs::sqs::delete_queue(&form(&[("QueueUrl", url.as_str())]), &mut state).unwrap();

    // Best-effort delivery: the missing queue is skipped silently.
    let published = publish(
        &form(&[("TopicArn", arn.0.as_str()), ("Message", "x")]),
        &mut state,
    )
    .unwrap();
    assert!(published.contains("<MessageId>"));
}

#[test]
fn unsubscribe_removes_the_binding() {
    let mut state = new_state();
    create_topic(&form(&[("Name", "T1")]), &mut state).unwrap();
    let arn = state.get_topic_arn("T1");
    create_queue(&form(&[("QueueName", "Q1")]), &mut state).unwrap();
    let url = state.get_queue_url("Q1");
    subscribe(
        &form(&[
            ("TopicArn", arn.0.as_str()),
            ("Endpoint", url.as_str()),
            ("Protocol", "sqs"),
        ]),
        &mut state,
    )
    .unwrap();
    let sub_arn = state.topics[0].1.subscriptions[0].arn.clone();
    unsubscribe(&form(&[("SubscriptionArn", sub_arn.as_str())]), &mut state).unwrap();
    assert_eq!(state.topics[0].1.subscriptions.len(), 0);
    let listed = list_subscriptions(&Dict::new(), &state).unwrap();
    assert!(!listed.contains("<member>"));

    // After publishing, the unsubscribed queue stays empty.
    publish(
        &form(&[("TopicArn", arn.0.as_str()), ("Message", "x")]),
        &mut state,
    )
    .unwrap();
    assert_eq!(state.queues[0].1.messages.len(), 0);
}

#[test]
fn topic_attributes_roundtrip() {
    let mut state = new_state();
    create_topic(
        &form(&[("Name", "T1"), ("Attribute.1.Name", "DisplayName"), ("Attribute.1.Value", "T")]),
        &mut state,
    )
    .unwrap();
    let arn = state.get_topic_arn("T1");
    let got = get_topic_attributes(&form(&[("TopicArn", arn.0.as_str())]), &state).unwrap();
    assert!(got.contains("<Attribute><Name>DisplayName</Name><Value>T</Value></Attribute>"));

    set_topic_attributes(
        &form(&[
            ("TopicArn", arn.0.as_str()),
            ("Attribute.1.Name", "Policy"),
            ("Attribute.1.Value", "open"),
        ]),
        &mut state,
    )
    .unwrap();
    let got = get_topic_attributes(&form(&[("TopicArn", arn.0.as_str())]), &state).unwrap();
    assert!(got.contains("<Attribute><Name>Policy</Name><Value>open</Value></Attribute>"));
    assert!(!got.contains("DisplayName"));
}

#[test]
fn topic_lifecycle_and_listing() {
    let mut state = new_state();
    create_topic(&form(&[("Name", "T1")]), &mut state).unwrap();
    create_topic(&form(&[("Name", "T2")]), &mut state).unwrap();
    let listed = list_topics(&Dict::new(), &state).unwrap();
    assert!(listed.contains("arn:aws:sns:ap-southeast-2:000000000000:T1"));
    assert!(listed.contains("arn:aws:sns:ap-southeast-2:000000000000:T2"));

    let arn = state.get_topic_arn("T1");
    delete_topic(&form(&[("TopicArn", arn.0.as_str())]), &mut state).unwrap();
    assert_eq!(state.topics.len(), 1);
    let listed = list_topics(&Dict::new(), &state).unwrap();
    assert!(!listed.contains(":T1</TopicArn>"));
}

#[test]
fn sns_errors_name_their_causes() {
    let mut state = new_state();
    match create_topic(&Dict::new(), &mut state) {
        Err(MyError::MissingParameter(p)) => assert_eq!(p, "Name"),
        other => panic!("unexpected result: {:?}", other.map(|_| ())),
    }
    match get_topic_attributes(&form(&[("TopicArn", "nope")]), &state) {
        Err(MyError::TopicNotFound(t)) => assert_eq!(t, "nope"),
        other => panic!("unexpected result: {:?}", other.map(|_| ())),
    }
    match publish(&form(&[("TopicArn", "nope"), ("Message", "x")]), &mut state) {
        Err(MyError::TopicNotFound(t)) => assert_eq!(t, "nope"),
        other => panic!("unexpected result: {:?}", other.map(|_| ())),
    }
    match subscribe(&form(&[("TopicArn", "nope")]), &mut state) {
        Err(MyError::MissingParameter(p)) => assert_eq!(p, "Endpoint"),
        other => panic!("unexpected result: {:?}", other.map(|_| ())),
    }
}

#[test]
fn topic_values_are_escaped_at_the_markup_boundary() {
    let mut state = new_state();
    create_topic(
        &form(&[
            ("Name", "T<1>"),
            ("Attribute.1.Name", "Policy"),
            ("Attribute.1.Value", "a<b&c"),
        ]),
        &mut state,
    )
    .unwrap();
    let listed = list_topics(&Dict::new(), &state).unwrap();
    assert!(listed.contains("arn:aws:sns:ap-southeast-2:000000000000:T&lt;1&gt;"));
    assert!(!listed.contains("<TopicArn>arn:aws:sns:ap-southeast-2:000000000000:T<1>"));

    let arn = state.get_topic_arn("T<1>");
    let got = get_topic_attributes(&form(&[("TopicArn", arn.0.as_str())]), &state).unwrap();
    assert!(got.contains("<Attribute><Name>Policy</Name><Value>a&lt;b&amp;c</Value></Attribute>"));
}
