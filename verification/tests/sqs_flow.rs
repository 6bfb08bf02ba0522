use smoqs::dict::Dict;
use smoqs::errors::MyError;
use smoqs::sqs::{
    change_message_visibility, create_queue, delete_message, delete_queue, get_queue_attributes,
    list_queues, receive_message_resume, receive_message_start, send_message, ReceiveOutcome,
    set_queue_attributes,
};
use smoqs::state::State;

fn new_state() -> State {
    State::new(3566, "ap-southeast-2", "000000000000")
}

fn form(pairs: &[(&str, &str)]) -> Dict {
    let mut d = Dict::new();
    for (k, v) in pairs {
        d.insert(k.to_string(), v.to_string());
    }
    d
}

fn count_occurrences(haystack: &str, needle: &str) -> usize {
    haystack.matches(needle).count()
}

#[test]
fn queue_send_receive_delete_roundtrip() {
    let mut state = new_state();
    let out = create_queue(&form(&[("QueueName", "Q1")]), &mut state).unwrap();
    assert!(out.contains("<CreateQueueResponse>"));
    let url = state.get_queue_url("Q1");
    assert!(out.contains("Q1"));

    let sent = send_message(
        &form(&[("QueueUrl", url.as_str()), ("MessageBody", "hello")]),
        &mut state,
    )
    .unwrap();
    assert!(sent.contains("<MessageId>"));

    let got = receive_message_start(
        &form(&[("QueueUrl", url.as_str()), ("MaxNumberOfMessages", "1")]),
        &mut state,
    )
    .unwrap();
    let response = match got {
        ReceiveOutcome::Response(r) => r,
        ReceiveOutcome::Wait(_, _) => panic!("expected an immediate delivery"),
    };
    assert_eq!(count_occurrences(&response, "<Message>"), 1);
    assert!(response.contains("<Body>hello</Body>"));

    // The delivery is tracked in flight under a fresh, non-empty handle,
    // with its receive count bumped to one.
    assert_eq!(state.received_messages.len(), 1);
    let handle = state.received_messages[0].0 .0.clone();
    assert!(!handle.is_empty());
    assert_eq!(state.received_messages[0].1.message.receive_count, 1);
    assert!(response.contains(&handle));

    let deleted = delete_message(&form(&[("ReceiptHandle", handle.as_str())]), &mut state).unwrap();
    assert!(deleted.contains("<DeleteMessageResponse>"));
    assert_eq!(state.received_messages.len(), 0);

    let empty = receive_message_start(
        &form(&[("QueueUrl", url.as_str()), ("WaitTimeSeconds", "0")]),
        &mut state,
    )
    .unwrap();
    let response = match empty {
        ReceiveOutcome::Response(r) => r,
        ReceiveOutcome::Wait(_, _) => panic!("no wait was requested"),
    };
    assert_eq!(count_occurrences(&response, "<Message>"), 0);
}

#[test]
fn fifo_order_across_receives() {
    let mut state = new_state();
    create_queue(&form(&[("QueueName", "Q1")]), &mut state).unwrap();
    let url = state.get_queue_url("Q1");
    for body in ["first", "second", "third"] {
        send_message(
            &form(&[("QueueUrl", url.as_str()), ("MessageBody", body)]),
            &mut state,
        )
        .unwrap();
    }
    let got = receive_message_start(
        &form(&[("QueueUrl", url.as_str()), ("MaxNumberOfMessages", "2")]),
        &mut state,
    )
    .unwrap();
    let response = match got {
        ReceiveOutcome::Response(r) => r,
        ReceiveOutcome::Wait(_, _) => panic!("expected an immediate delivery"),
    };
    assert_eq!(count_occurrences(&response, "<Message>"), 2);
    let first = response.find("<Body>first</Body>").unwrap();
    let second = response.find("<Body>second</Body>").unwrap();
    assert!(first < second);
    assert!(!response.contains("<Body>third</Body>"));

    let got = receive_message_resume(&form(&[("QueueUrl", url.as_str())]), &mut state).unwrap();
    assert!(got.contains("<Body>third</Body>"));
}

#[test]
fn receive_count_clamps_out_of_range() {
    let mut state = new_state();
    create_queue(&form(&[("QueueName", "Q1")]), &mut state).unwrap();
    let url = state.get_queue_url("Q1");
    for body in ["a", "b", "c"] {
        send_message(
            &form(&[("QueueUrl", url.as_str()), ("MessageBody", body)]),
            &mut state,
        )
        .unwrap();
    }
    // An out-of-range MaxNumberOfMessages silently falls back to one.
    let got = receive_message_start(
        &form(&[("QueueUrl", url.as_str()), ("MaxNumberOfMessages", "50")]),
        &mut state,
    )
    .unwrap();
    let response = match got {
        ReceiveOutcome::Response(r) => r,
        ReceiveOutcome::Wait(_, _) => panic!("expected an immediate delivery"),
    };
    assert_eq!(count_occurrences(&response, "<Message>"), 1);
    assert!(response.contains("<Body>a</Body>"));
}

#[test]
fn send_message_reports_exact_digests() {
    let mut state = new_state();
    create_queue(&form(&[("QueueName", "Q1")]), &mut state).unwrap();
    let url = state.get_queue_url("Q1");
    let sent = send_message(
        &form(&[("QueueUrl", url.as_str()), ("MessageBody", "hello")]),
        &mut state,
    )
    .unwrap();
    // MD5("hello") and MD5 of the empty attribute byte sequence.
    assert!(sent.contains("<MD5OfMessageBody>5d41402abc4b2a76b9719d911017c592</MD5OfMessageBody>"));
    assert!(sent.contains(
        "<MD5OfMessageAttributes>d41d8cd98f00b204e9800998ecf8427e</MD5OfMessageAttributes>"
    ));
}

#[test]
fn delete_message_is_idempotent() {
    let mut state = new_state();
    create_queue(&form(&[("QueueName", "Q1")]), &mut state).unwrap();
    let url = state.get_queue_url("Q1");
    send_message(
        &form(&[("QueueUrl", url.as_str()), ("MessageBody", "x")]),
        &mut state,
    )
    .unwrap();
    let got = receive_message_start(&form(&[("QueueUrl", url.as_str())]), &mut state).unwrap();
    match got {
        ReceiveOutcome::Response(_) => {}
        ReceiveOutcome::Wait(_, _) => panic!("expected an immediate delivery"),
    }
    let handle = state.received_messages[0].0 .0.clone();
    delete_message(&form(&[("ReceiptHandle", handle.as_str())]), &mut state).unwrap();
    assert_eq!(state.received_messages.len(), 0);
    // A second delete and a later visibility change are silent no-ops.
    delete_message(&form(&[("ReceiptHandle", handle.as_str())]), &mut state).unwrap();
    assert_eq!(state.received_messages.len(), 0);
    change_message_visibility(
        &form(&[("ReceiptHandle", handle.as_str()), ("VisibilityTimeout", "60")]),
        &mut state,
    )
    .unwrap();
    assert_eq!(state.received_messages.len(), 0);
}

#[test]
fn expired_delivery_returns_to_its_queue() {
    let mut state = new_state();
    create_queue(&form(&[("QueueName", "Q1")]), &mut state).unwrap();
    let url = state.get_queue_url("Q1");
    send_message(
        &form(&[("QueueUrl", url.as_str()), ("MessageBody", "boomerang")]),
        &mut state,
    )
    .unwrap();
    let got = receive_message_start(&form(&[("QueueUrl", url.as_str())]), &mut state).unwrap();
    match got {
        ReceiveOutcome::Response(_) => {}
        ReceiveOutcome::Wait(_, _) => panic!("expected an immediate delivery"),
    }
    assert_eq!(state.received_messages.len(), 1);
    assert_eq!(state.queues[0].1.messages.len(), 0);

    // Far in the future every visibility window has elapsed.
    state.requeue_expired(u64::MAX);
    assert_eq!(state.received_messages.len(), 0);
    assert_eq!(state.queues[0].1.messages.len(), 1);

    let again = receive_message_resume(&form(&[("QueueUrl", url.as_str())]), &mut state).unwrap();
    assert!(again.contains("<Body>boomerang</Body>"));
    assert_eq!(state.received_messages[0].1.message.receive_count, 2);
}

#[test]
fn queue_attributes_roundtrip() {
    let mut state = new_state();
    create_queue(
        &form(&[
            ("QueueName", "Q1"),
            ("Attribute.1.Name", "VisibilityTimeout"),
            ("Attribute.1.Value", "45"),
        ]),
        &mut state,
    )
    .unwrap();
    let url = state.get_queue_url("Q1");
    let got = get_queue_attributes(&form(&[("QueueUrl", url.as_str())]), &state).unwrap();
    assert!(got.contains("<Attribute><Name>VisibilityTimeout</Name><Value>45</Value></Attribute>"));

    set_queue_attributes(
        &form(&[
            ("QueueUrl", url.as_str()),
            ("Attribute.1.Name", "DelaySeconds"),
            ("Attribute.1.Value", "5"),
        ]),
        &mut state,
    )
    .unwrap();
    let got = get_queue_attributes(&form(&[("QueueUrl", url.as_str())]), &state).unwrap();
    assert!(got.contains("<Attribute><Name>DelaySeconds</Name><Value>5</Value></Attribute>"));
    assert!(!got.contains("VisibilityTimeout"));
}

#[test]
fn create_queue_is_idempotent_on_name() {
    let mut state = new_state();
    create_queue(&form(&[("QueueName", "Q1")]), &mut state).unwrap();
    let out = create_queue(&form(&[("QueueName", "Q1")]), &mut state).unwrap();
    assert!(out.contains("<CreateQueueResponse>"));
    assert_eq!(state.queues.len(), 1);
}

#[test]
fn delete_queue_cascades_in_flight_records() {
    let mut state = new_state();
    create_queue(&form(&[("QueueName", "Q1")]), &mut state).unwrap();
    let url = state.get_queue_url("Q1");
    send_message(
        &form(&[("QueueUrl", url.as_str()), ("MessageBody", "x")]),
        &mut state,
    )
    .unwrap();
    receive_message_start(&form(&[("QueueUrl", url.as_str())]), &mut state).unwrap();
    assert_eq!(state.received_messages.len(), 1);
    delete_queue(&form(&[("QueueUrl", url.as_str())]), &mut state).unwrap();
    assert_eq!(state.queues.len(), 0);
    assert_eq!(state.received_messages.len(), 0);
}

#[test]
fn list_queues_lists_urls() {
    let mut state = new_state();
    create_queue(&form(&[("QueueName", "Q1")]), &mut state).unwrap();
    create_queue(&form(&[("QueueName", "Q2")]), &mut state).unwrap();
    let out = list_queues(&Dict::new(), &state).unwrap();
    assert!(out.contains("<QueueUrl>http://localhost:3566/000000000000/Q1</QueueUrl>"));
    assert!(out.contains("<QueueUrl>http://localhost:3566/000000000000/Q2</QueueUrl>"));
}

#[test]
fn errors_name_the_missing_pieces() {
    let mut state = new_state();
    match create_queue(&Dict::new(), &mut state) {
        Err(MyError::MissingParameter(p)) => assert_eq!(p, "QueueName"),
        other => panic!("unexpected result: {:?}", other.map(|_| ())),
    }
    let url = state.get_queue_url("NoSuchQueue");
    match get_queue_attributes(&form(&[("QueueUrl", url.as_str())]), &state) {
        Err(MyError::QueueNotFound(u)) => assert_eq!(u, url),
        other => panic!("unexpected result: {:?}", other.map(|_| ())),
    }
    match send_message(&form(&[("QueueUrl", url.as_str())]), &mut state) {
        Err(MyError::MissingParameter(p)) => assert_eq!(p, "MessageBody"),
        other => panic!("unexpected result: {:?}", other.map(|_| ())),
    }
    match receive_message_start(&form(&[("QueueUrl", url.as_str())]), &mut state) {
        Err(MyError::QueueNotFound(u)) => assert_eq!(u, url),
        other => panic!("unexpected result: {:?}", other.map(|_| ())),
    }
    match receive_message_start(&Dict::new(), &mut state) {
        Err(MyError::MissingParameter(p)) => assert_eq!(p, "QueueUrl"),
        other => panic!("unexpected result: {:?}", other.map(|_| ())),
    }
    let e = MyError::MissingParameter("QueueName".to_string());
    assert_eq!(e.message(), "Missing parameter: QueueName");
    let resp = e.get_error_response();
    assert!(resp.contains("<ErrorResponse>"));
    assert!(resp.contains("Missing parameter: QueueName"));
}
#[test]
fn two_deliveries_get_distinct_handles() {
    let mut state = new_state();
    create_queue(&form(&[("QueueName", "Q1")]), &mut state).unwrap();
    let url = state.get_queue_url("Q1");
    for body in ["one", "two"] {
        send_message(
            &form(&[("QueueUrl", url.as_str()), ("MessageBody", body)]),
            &mut state,
        )
        .unwrap();
    }
    let got = receive_message_start(
        &form(&[("QueueUrl", url.as_str()), ("MaxNumberOfMessages", "2")]),
        &mut state,
    )
    .unwrap();
    match got {
        ReceiveOutcome::Response(_) => {}
        ReceiveOutcome::Wait(_, _) => panic!("expected an immediate delivery"),
    }
    assert_eq!(state.received_messages.len(), 2);
    let h1 = state.received_messages[0].0 .0.clone();
    let h2 = state.received_messages[1].0 .0.clone();
    assert_ne!(h1, h2);
    // Each handle stays bound to its own delivery.
    assert_eq!(state.received_messages[0].1.message.content, "one");
    assert_eq!(state.received_messages[1].1.message.content, "two");
}

#[test]
fn visibility_change_keeps_the_record() {
    let mut state = new_state();
    create_queue(&form(&[("QueueName", "Q1")]), &mut state).unwrap();
    let url = state.get_queue_url("Q1");
    send_message(
        &form(&[("QueueUrl", url.as_str()), ("MessageBody", "x")]),
        &mut state,
    )
    .unwrap();
    receive_message_start(
        &form(&[("QueueUrl", url.as_str()), ("VisibilityTimeout", "600")]),
        &mut state,
    )
    .unwrap();
    // The window runs from the clock: at least the timeout from epoch zero.
    assert!(state.received_messages[0].1.expires >= 600);
    assert!(state.received_messages[0].1.has_expired(u64::MAX));
    assert!(!state.received_messages[0].1.has_expired(0));
    change_message_visibility(
        &form(&[
            ("ReceiptHandle", state.received_messages[0].0 .0.clone().as_str()),
            ("VisibilityTimeout", "0"),
        ]),
        &mut state,
    )
    .unwrap();
    assert_eq!(state.received_messages.len(), 1);
    assert_eq!(state.received_messages[0].1.message.content, "x");
}
