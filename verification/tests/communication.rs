use telegram_bot_gateway::contract::Response;
use telegram_bot_gateway::db::{JobStatus, Tx};
use telegram_bot_gateway::gateway::{
    ack, mute, read, register, send, subscribe, subscriptions, unsubscribe, valid_name, whoami,
};
use telegram_bot_gateway::model::{Delivery, ErrorKind, Error, Sender};

const CHAT: i64 = -100123;
const USER: i64 = 12345678;

fn topic_setup() -> (Tx, String) {
    let mut tx = Tx::new();
    tx.group(CHAT, "Project collaboration", true, true);
    let topic = tx.ensure_topic(CHAT, 7, "Design discussion", Some("hopeful_morse")).unwrap();
    register(&mut tx, Some("hopeful_morse"), 1_000).unwrap();
    register(&mut tx, Some("calm_turing"), 1_000).unwrap();
    (tx, topic)
}

fn user_says(tx: &mut Tx, topic: &str, text: &str, at: i64) -> i64 {
    tx.append(topic, None, Some(USER), text, at, None).unwrap()
}

fn page(r: Result<Response, Error>) -> (Vec<String>, Option<String>, i64) {
    match r.unwrap() {
        Response::Page { messages, next_cursor, remaining_count } => {
            (messages.into_iter().map(|m| m.msg_id).collect(), next_cursor, remaining_count)
        }
        other => panic!("not a page: {:?}", other),
    }
}

fn expect_error(r: Result<Response, Error>, kind: ErrorKind, message: &str) {
    match r {
        Err(e) => {
            assert!(e.kind == kind);
            assert_eq!(e.message, message);
        }
        Ok(v) => panic!("expected an error, got {:?}", v),
    }
}

#[test]
fn topic_id_names_chat_and_thread() {
    let (_tx, topic) = topic_setup();
    assert_eq!(topic, "t100123_7");
}

#[test]
fn agent_names_follow_the_pattern() {
    assert!(valid_name("hopeful_morse"));
    assert!(valid_name("A1_"));
    assert!(!valid_name(""));
    assert!(!valid_name("1abc"));
    assert!(!valid_name("_abc"));
    assert!(!valid_name("a-b"));
    assert!(!valid_name("ünicode"));
}

#[test]
fn registration_refuses_taken_and_malformed_names() {
    let (mut tx, _topic) = topic_setup();
    let before = tx.agents.len();
    expect_error(register(&mut tx, Some("hopeful_morse"), 5), ErrorKind::Conflict, "conflicting name or record");
    expect_error(
        register(&mut tx, Some("9lives"), 5),
        ErrorKind::Invalid,
        "name must match ^[A-Za-z][A-Za-z0-9_]*$",
    );
    assert_eq!(tx.agents.len(), before);
}

#[test]
fn registration_generates_a_name() {
    let mut tx = Tx::new();
    match register(&mut tx, None, 7).unwrap() {
        Response::Identity { name } => {
            assert!(name.starts_with("agent_"));
            assert_eq!(name.len(), 18);
            assert!(name[6..].chars().all(|c| c.is_ascii_hexdigit() && !c.is_ascii_uppercase()));
            assert!(valid_name(&name));
            assert_eq!(tx.agents[0].name, name);
            assert_eq!(tx.agents[0].last_seen, 7);
        }
        other => panic!("{:?}", other),
    }
    assert_eq!(tx.management.last().unwrap().kind, "register");
}

#[test]
fn whoami_names_the_agent() {
    match whoami("hopeful_morse") {
        Response::Identity { name } => assert_eq!(name, "hopeful_morse"),
        other => panic!("{:?}", other),
    }
}

#[test]
fn first_subscription_starts_after_the_latest_message() {
    let (mut tx, topic) = topic_setup();
    for i in 0..41 {
        user_says(&mut tx, &topic, &format!("message {i}"), 1_000);
    }
    subscribe(&mut tx, "hopeful_morse", &topic, false, 2_000).unwrap();
    match subscriptions(&tx, "hopeful_morse") {
        Response::Subscriptions { subscriptions } => {
            assert_eq!(subscriptions.len(), 1);
            assert_eq!(subscriptions[0].topic, topic);
            assert_eq!(subscriptions[0].last_acked_msg_id.as_deref(), Some("m41"));
            assert!(!subscriptions[0].muted);
        }
        other => panic!("{:?}", other),
    }
}

#[test]
fn resuming_keeps_progress_and_mute() {
    let (mut tx, topic) = topic_setup();
    user_says(&mut tx, &topic, "m1", 1);
    subscribe(&mut tx, "hopeful_morse", &topic, true, 2).unwrap();
    unsubscribe(&mut tx, "hopeful_morse", &topic, 3).unwrap();
    user_says(&mut tx, &topic, "Please check the test results", 4);
    subscribe(&mut tx, "hopeful_morse", &topic, false, 5).unwrap();
    let (ids, next, remaining) = page(read(&tx, "hopeful_morse", &topic, None, None, true));
    assert_eq!(ids, vec!["m2"]);
    assert_eq!(next.as_deref(), Some("m2"));
    assert_eq!(remaining, 0);
    match subscriptions(&tx, "hopeful_morse") {
        Response::Subscriptions { subscriptions } => {
            assert!(subscriptions[0].muted);
            assert_eq!(subscriptions[0].last_acked_msg_id.as_deref(), Some("m1"));
        }
        other => panic!("{:?}", other),
    }
}

#[test]
fn subscribing_to_an_unknown_topic_fails() {
    let (mut tx, _topic) = topic_setup();
    expect_error(subscribe(&mut tx, "hopeful_morse", "t1_2", false, 1), ErrorKind::Invalid, "unknown Topic");
    assert!(tx.subscriptions.is_empty());
}

#[test]
fn unread_pages_forward_from_the_boundary() {
    let (mut tx, topic) = topic_setup();
    user_says(&mut tx, &topic, "Help me check the project", 1);
    subscribe(&mut tx, "hopeful_morse", &topic, false, 2).unwrap();
    user_says(&mut tx, &topic, "Please release the latest version", 3);
    user_says(&mut tx, &topic, "Correction: do not release it yet", 4);
    user_says(&mut tx, &topic, "Only run the tests and report the results", 5);
    let (ids, next, remaining) = page(read(&tx, "hopeful_morse", &topic, None, Some(2), true));
    assert_eq!(ids, vec!["m2", "m3"]);
    assert_eq!(next.as_deref(), Some("m3"));
    assert_eq!(remaining, 1);
    let (ids, next, remaining) = page(read(&tx, "hopeful_morse", &topic, Some("m3"), None, true));
    assert_eq!(ids, vec!["m4"]);
    assert_eq!(next.as_deref(), Some("m4"));
    assert_eq!(remaining, 0);
    let (ids, next, remaining) = page(read(&tx, "hopeful_morse", &topic, Some("m4"), None, true));
    assert!(ids.is_empty());
    assert_eq!(next.as_deref(), Some("m4"));
    assert_eq!(remaining, 0);
    user_says(&mut tx, &topic, "Please attach the test report", 6);
    let (ids, _, _) = page(read(&tx, "hopeful_morse", &topic, Some("m4"), None, true));
    assert_eq!(ids, vec!["m5"]);
}

#[test]
fn history_pages_backward_from_the_latest() {
    let (mut tx, topic) = topic_setup();
    for t in ["one", "two", "three", "four"] {
        user_says(&mut tx, &topic, t, 1);
    }
    let (ids, next, remaining) = page(read(&tx, "calm_turing", &topic, None, Some(2), false));
    assert_eq!(ids, vec!["m4", "m3"]);
    assert_eq!(next.as_deref(), Some("m3"));
    assert_eq!(remaining, 2);
    let (ids, next, remaining) = page(read(&tx, "calm_turing", &topic, Some("m3"), Some(2), false));
    assert_eq!(ids, vec!["m2", "m1"]);
    assert_eq!(next.as_deref(), Some("m1"));
    assert_eq!(remaining, 0);
}

#[test]
fn an_empty_topic_has_no_cursor() {
    let (tx, topic) = topic_setup();
    let (ids, next, remaining) = page(read(&tx, "calm_turing", &topic, None, None, false));
    assert!(ids.is_empty());
    assert_eq!(next, None);
    assert_eq!(remaining, 0);
}

#[test]
fn unread_needs_a_subscription_and_history_does_not() {
    let (mut tx, topic) = topic_setup();
    user_says(&mut tx, &topic, "hello", 1);
    expect_error(
        read(&tx, "calm_turing", &topic, None, None, true),
        ErrorKind::Invalid,
        "Topic is not currently subscribed",
    );
    assert!(read(&tx, "calm_turing", &topic, None, None, false).is_ok());
}

#[test]
fn cursors_must_name_a_message_of_the_topic() {
    let (mut tx, topic) = topic_setup();
    let other = tx.ensure_topic(CHAT, 9, "Other", None).unwrap();
    user_says(&mut tx, &other, "elsewhere", 1);
    expect_error(read(&tx, "calm_turing", &topic, Some("m1"), None, false), ErrorKind::Invalid, "msg_id does not belong to this Topic");
    expect_error(read(&tx, "calm_turing", &topic, Some("1"), None, false), ErrorKind::Invalid, "invalid msg_id");
}

#[test]
fn messages_show_sender_time_and_quote() {
    let (mut tx, topic) = topic_setup();
    user_says(&mut tx, &topic, "Please review", 1_789_636_200_000);
    send(&mut tx, "calm_turing", &topic, "Review passed", Some("m1"), 1_789_636_260_000).unwrap();
    match read(&tx, "hopeful_morse", &topic, None, None, false).unwrap() {
        Response::Page { messages, .. } => {
            assert_eq!(messages[0].msg_id, "m2");
            assert_eq!(messages[0].content, "Review passed");
            assert_eq!(messages[0].quote_msg_id.as_deref(), Some("m1"));
            assert!(matches!(&messages[0].sender, Sender::Agent { name } if name == "calm_turing"));
            assert_eq!(messages[0].sent_at, "2026-09-17T09:11:00Z");
            assert!(matches!(messages[1].sender, Sender::User { user_id: USER }));
            assert_eq!(messages[1].quote_msg_id, None);
            assert_eq!(messages[1].sent_at, "2026-09-17T09:10:00Z");
        }
        other => panic!("{:?}", other),
    }
}

#[test]
fn send_commits_the_message_and_its_delivery() {
    let (mut tx, topic) = topic_setup();
    match send(&mut tx, "hopeful_morse", &topic, "Ready to collaborate", None, 9).unwrap() {
        Response::Sent { msg_id } => assert_eq!(msg_id, "m1"),
        other => panic!("{:?}", other),
    }
    assert_eq!(tx.messages[0].agent.as_deref(), Some("hopeful_morse"));
    assert_eq!(tx.outbox.len(), 1);
    let job = &tx.outbox[0];
    assert_eq!(job.kind, "send");
    assert_eq!(job.message, Some(1));
    assert_eq!(job.chat, CHAT);
    assert!(job.status == JobStatus::Pending);
    match &job.payload {
        Delivery::Send { text, thread, quote } => {
            assert_eq!(text, "hopeful_morse:\nReady to collaborate");
            assert_eq!(*thread, Some(7));
            assert_eq!(*quote, None);
        }
        other => panic!("{:?}", other),
    }
    assert_eq!(tx.management.last().unwrap().kind, "send");
}

#[test]
fn send_refuses_closed_topics() {
    let (mut tx, topic) = topic_setup();
    tx.close(&topic, true);
    expect_error(
        send(&mut tx, "hopeful_morse", &topic, "hello", None, 1),
        ErrorKind::Conflict,
        "Topic is closed or Group is unavailable",
    );
    assert!(tx.messages.is_empty() && tx.outbox.is_empty());
}

#[test]
fn send_refuses_empty_and_oversized_messages() {
    let (mut tx, topic) = topic_setup();
    let limit = "message must be nonempty and fit Telegram's 4096 UTF-16 unit limit including the Agent header";
    expect_error(send(&mut tx, "hopeful_morse", &topic, "", None, 1), ErrorKind::Invalid, limit);
    // "hopeful_morse:\n" is 15 units, so 4081 more fit exactly.
    let fits = "x".repeat(4081);
    assert!(send(&mut tx, "hopeful_morse", &topic, &fits, None, 1).is_ok());
    let over = "x".repeat(4082);
    expect_error(send(&mut tx, "hopeful_morse", &topic, &over, None, 1), ErrorKind::Invalid, limit);
    // An emoji takes two UTF-16 units.
    let emoji = format!("{}😀", "x".repeat(4080));
    expect_error(send(&mut tx, "hopeful_morse", &topic, &emoji, None, 1), ErrorKind::Invalid, limit);
    assert_eq!(tx.messages.len(), 1);
}

#[test]
fn send_checks_the_quote() {
    let (mut tx, topic) = topic_setup();
    expect_error(send(&mut tx, "hopeful_morse", &topic, "hi", Some("m0"), 1), ErrorKind::Invalid, "invalid msg_id");
    expect_error(
        send(&mut tx, "hopeful_morse", &topic, "hi", Some("m5"), 1),
        ErrorKind::Invalid,
        "msg_id does not belong to this Topic",
    );
    assert!(tx.messages.is_empty());
}

#[test]
fn ack_never_moves_back() {
    let (mut tx, topic) = topic_setup();
    subscribe(&mut tx, "hopeful_morse", &topic, false, 1).unwrap();
    for i in 0..6 {
        user_says(&mut tx, &topic, &format!("u{i}"), 1);
    }
    match ack(&mut tx, "hopeful_morse", &topic, "m5", 2).unwrap() {
        Response::Ack { last_acked_msg_id } => assert_eq!(last_acked_msg_id, "m5"),
        other => panic!("{:?}", other),
    }
    let queued = tx.outbox.len();
    match ack(&mut tx, "hopeful_morse", &topic, "m2", 3).unwrap() {
        Response::Ack { last_acked_msg_id } => assert_eq!(last_acked_msg_id, "m5"),
        other => panic!("{:?}", other),
    }
    assert_eq!(tx.outbox.len(), queued);
}

#[test]
fn ack_queues_hearts_for_the_pending_messages_it_passes() {
    let (mut tx, topic) = topic_setup();
    subscribe(&mut tx, "hopeful_morse", &topic, false, 1).unwrap();
    user_says(&mut tx, &topic, "one", 1);
    send(&mut tx, "hopeful_morse", &topic, "own", None, 1).unwrap();
    user_says(&mut tx, &topic, "three", 1);
    user_says(&mut tx, &topic, "four", 1);
    ack(&mut tx, "hopeful_morse", &topic, "m3", 2).unwrap();
    let hearts: Vec<Option<i64>> =
        tx.outbox.iter().filter(|o| o.kind == "reaction").map(|o| o.message).collect();
    assert_eq!(hearts, vec![Some(1), Some(3)]);
    assert!(tx.outbox.iter().filter(|o| o.kind == "reaction").all(|o| matches!(o.payload, Delivery::Heart { target: None })));
    assert_eq!(tx.subscriptions[0].acked, Some(3));
}

#[test]
fn ack_errors_leave_progress_unchanged() {
    let (mut tx, topic) = topic_setup();
    user_says(&mut tx, &topic, "one", 1);
    expect_error(ack(&mut tx, "hopeful_morse", &topic, "m1", 1), ErrorKind::Invalid, "Topic is not currently subscribed");
    subscribe(&mut tx, "hopeful_morse", &topic, false, 1).unwrap();
    expect_error(ack(&mut tx, "hopeful_morse", &topic, "x1", 1), ErrorKind::Invalid, "invalid msg_id");
    expect_error(ack(&mut tx, "hopeful_morse", &topic, "m9", 1), ErrorKind::Invalid, "msg_id does not belong to this Topic");
    assert_eq!(tx.subscriptions[0].acked, Some(1));
}

#[test]
fn mute_needs_an_active_subscription() {
    let (mut tx, topic) = topic_setup();
    expect_error(mute(&mut tx, "hopeful_morse", &topic, false, 1), ErrorKind::Invalid, "Topic is not currently subscribed");
    subscribe(&mut tx, "hopeful_morse", &topic, false, 1).unwrap();
    match mute(&mut tx, "hopeful_morse", &topic, false, 1).unwrap() {
        Response::Muted { topic: t, muted } => {
            assert_eq!(t, topic);
            assert!(muted);
        }
        other => panic!("{:?}", other),
    }
    match mute(&mut tx, "hopeful_morse", &topic, true, 1).unwrap() {
        Response::Muted { muted, .. } => assert!(!muted),
        other => panic!("{:?}", other),
    }
}
