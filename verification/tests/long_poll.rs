use std::sync::Arc;
use std::time::{Duration, Instant};

use smoqs::dict::Dict;
use smoqs::sqs::{create_queue, receive_message_resume, receive_message_start, send_message, ReceiveOutcome};
use smoqs::state::State;
use tokio::sync::Mutex;

fn form(pairs: &[(&str, &str)]) -> Dict {
    let mut d = Dict::new();
    for (k, v) in pairs {
        d.insert(k.to_string(), v.to_string());
    }
    d
}

fn runtime() -> tokio::runtime::Runtime {
    tokio::runtime::Builder::new_multi_thread()
        .worker_threads(2)
        .enable_time()
        .build()
        .unwrap()
}

#[test]
fn long_poll_returns_early_when_a_message_arrives() {
    let rt = runtime();
    rt.block_on(async {
        let state = Arc::new(Mutex::new(State::new(3566, "r", "a")));
        let url;
        {
            let mut s = state.lock().await;
            create_queue(&form(&[("QueueName", "Q")]), &mut s).unwrap();
            url = s.get_queue_url("Q");
        }
        let started = Instant::now();
        let receive_form = form(&[("QueueUrl", url.as_str()), ("WaitTimeSeconds", "5")]);
        let outcome = {
            let mut s = state.lock().await;
            receive_message_start(&receive_form, &mut s).unwrap()
        };
        let (waiter, wait_seconds) = match outcome {
            ReceiveOutcome::Wait(w, secs) => (w, secs),
            ReceiveOutcome::Response(_) => panic!("the queue is empty, a wait was expected"),
        };
        assert_eq!(wait_seconds, 5);

        let publisher_state = state.clone();
        let publisher_url = url.clone();
        tokio::spawn(async move {
            tokio::time::sleep(Duration::from_secs(1)).await;
            let mut s = publisher_state.lock().await;
            send_message(
                &form(&[("QueueUrl", publisher_url.as_str()), ("MessageBody", "late")]),
                &mut s,
            )
            .unwrap();
        });

        let woken = tokio::time::timeout(Duration::from_secs(wait_seconds), waiter).await;
        assert!(woken.is_ok(), "the bell should ring before the deadline");
        let response = {
            let mut s = state.lock().await;
            receive_message_resume(&receive_form, &mut s).unwrap()
        };
        assert!(response.contains("<Body>late</Body>"));
        assert!(started.elapsed() < Duration::from_secs(5));
    });
}

#[test]
fn long_poll_times_out_on_a_silent_queue() {
    let rt = runtime();
    rt.block_on(async {
        let state = Arc::new(Mutex::new(State::new(3566, "r", "a")));
        let url;
        {
            let mut s = state.lock().await;
            create_queue(&form(&[("QueueName", "Q")]), &mut s).unwrap();
            url = s.get_queue_url("Q");
        }
        let started = Instant::now();
        let receive_form = form(&[("QueueUrl", url.as_str()), ("WaitTimeSeconds", "2")]);
        let outcome = {
            let mut s = state.lock().await;
            receive_message_start(&receive_form, &mut s).unwrap()
        };
        let waiter = match outcome {
            ReceiveOutcome::Wait(w, _) => w,
            ReceiveOutcome::Response(_) => panic!("the queue is empty, a wait was expected"),
        };
        let woken = tokio::time::timeout(Duration::from_secs(2), waiter).await;
        assert!(woken.is_err(), "nothing was sent, the wait should time out");
        let elapsed = started.elapsed();
        assert!(elapsed >= Duration::from_secs(2));
        assert!(elapsed < Duration::from_secs(4));
        let response = {
            let mut s = state.lock().await;
            receive_message_resume(&receive_form, &mut s).unwrap()
        };
        assert!(!response.contains("<Message>"));
    });
}

#[test]
fn wait_zero_answers_empty_at_once() {
    let mut state = State::new(3566, "r", "a");
    create_queue(&form(&[("QueueName", "Q")]), &mut state).unwrap();
    let url = state.get_queue_url("Q");
    let started = Instant::now();
    let outcome = receive_message_start(
        &form(&[("QueueUrl", url.as_str()), ("WaitTimeSeconds", "0")]),
        &mut state,
    )
    .unwrap();
    match outcome {
        ReceiveOutcome::Response(r) => assert!(!r.contains("<Message>")),
        ReceiveOutcome::Wait(_, _) => panic!("no wait was requested"),
    }
    assert!(started.elapsed() < Duration::from_secs(1));
}
