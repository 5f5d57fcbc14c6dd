use telegram_bot_gateway::db::{schema_check, JobStatus, Tx, UserRow};
use telegram_bot_gateway::gateway::{ack, register, send, subscribe, Gateway};
use telegram_bot_gateway::json::Json;
use telegram_bot_gateway::model::Delivery;
use telegram_bot_gateway::telegram::{Event, Failure, Message, TopicEvent, Update};

const CHAT: i64 = -100123;
const ADMIN: i64 = 111;
const USER: i64 = 222;

fn setup() -> (Tx, String) {
    let mut tx = Tx::new();
    tx.group(CHAT, "Project collaboration", true, true);
    let topic = tx.ensure_topic(CHAT, 7, "Design discussion", Some("hopeful_morse")).unwrap();
    register(&mut tx, Some("hopeful_morse"), 0).unwrap();
    (tx, topic)
}

fn message(id: i64, user: i64, content: &str, thread: Option<i64>) -> Message {
    Message {
        id,
        chat: CHAT,
        title: "Project collaboration".to_string(),
        group: true,
        user,
        language: "en".to_string(),
        thread,
        date: 1_000,
        content: content.to_string(),
        quote: None,
        topic_event: None,
    }
}

fn update(id: i64, event: Event) -> Update {
    Update { id, raw: format!("{{\"update_id\":{id}}}"), event }
}

#[test]
fn sends_of_a_topic_go_out_in_order() {
    let (mut tx, topic) = setup();
    let gateway = Gateway::new(vec![]);
    send(&mut tx, "hopeful_morse", &topic, "first", None, 1).unwrap();
    send(&mut tx, "hopeful_morse", &topic, "second", None, 1).unwrap();
    let job = gateway.prepare_delivery(&mut tx, 10).unwrap().unwrap();
    assert_eq!(job.id, 1);
    assert_eq!(job.attempts, 0);
    assert!(tx.outbox[0].status == JobStatus::Inflight);
    assert_eq!(tx.outbox[0].attempts, 1);
    // The second waits while the first is not done.
    assert!(gateway.prepare_delivery(&mut tx, 20).unwrap().is_none());
    assert!(tx.outbox[1].status == JobStatus::Blocked);
    assert_eq!(tx.outbox[1].error.as_deref(), Some("waiting for earlier send in Topic"));
    assert_eq!(tx.outbox[1].next_attempt, 1_020);
    gateway.complete_delivery(&mut tx, job, Ok(Some(5001)), 30).unwrap();
    assert!(tx.outbox[0].status == JobStatus::Done);
    assert_eq!(tx.mapped(CHAT, 5001), Some(1));
    let next = gateway.prepare_delivery(&mut tx, 2_000).unwrap().unwrap();
    assert_eq!(next.id, 2);
}

#[test]
fn a_closed_topic_holds_its_sends() {
    let (mut tx, topic) = setup();
    let gateway = Gateway::new(vec![]);
    send(&mut tx, "hopeful_morse", &topic, "first", None, 1).unwrap();
    tx.close(&topic, true);
    assert!(gateway.prepare_delivery(&mut tx, 10).unwrap().is_none());
    assert_eq!(tx.outbox[0].error.as_deref(), Some("Topic closed or Group unavailable"));
    tx.close(&topic, false);
    assert_eq!(tx.outbox[0].next_attempt, 0);
    assert!(gateway.prepare_delivery(&mut tx, 10).unwrap().is_some());
}

#[test]
fn a_quote_waits_for_the_quoted_delivery() {
    let (mut tx, topic) = setup();
    let gateway = Gateway::new(vec![]);
    tx.append(&topic, None, Some(USER), "question", 1, None).unwrap();
    send(&mut tx, "hopeful_morse", &topic, "answer", Some("m1"), 1).unwrap();
    assert!(gateway.prepare_delivery(&mut tx, 10).unwrap().is_none());
    assert_eq!(tx.outbox[0].error.as_deref(), Some("waiting for quoted message delivery"));
    tx.map(CHAT, 900, 1);
    tx.map(CHAT, 800, 1);
    // Held for a second after each look.
    assert!(gateway.prepare_delivery(&mut tx, 1_009).unwrap().is_none());
    let job = gateway.prepare_delivery(&mut tx, 1_010).unwrap().unwrap();
    match job.payload {
        Delivery::Send { quote, .. } => assert_eq!(quote, Some(800)),
        other => panic!("{:?}", other),
    }
}

#[test]
fn a_receipt_waits_for_its_message() {
    let (mut tx, topic) = setup();
    let gateway = Gateway::new(vec![]);
    subscribe(&mut tx, "hopeful_morse", &topic, false, 1).unwrap();
    tx.append(&topic, None, Some(USER), "hello", 1, None).unwrap();
    ack(&mut tx, "hopeful_morse", &topic, "m1", 2).unwrap();
    assert!(gateway.prepare_delivery(&mut tx, 10).unwrap().is_none());
    assert_eq!(tx.outbox[0].error.as_deref(), Some("waiting for message delivery before receipt"));
    tx.map(CHAT, 4242, 1);
    let job = gateway.prepare_delivery(&mut tx, 1_010).unwrap().unwrap();
    assert!(matches!(job.payload, Delivery::Heart { target: Some(4242) }));
}

#[test]
fn a_rate_limit_holds_every_delivery() {
    let (mut tx, topic) = setup();
    let gateway = Gateway::new(vec![]);
    send(&mut tx, "hopeful_morse", &topic, "first", None, 1).unwrap();
    let job = gateway.prepare_delivery(&mut tx, 10_000).unwrap().unwrap();
    let limited = Failure { code: 429, retry_after: Some(30), detail: "Too Many Requests".to_string() };
    gateway.complete_delivery(&mut tx, job, Err(limited), 10_000).unwrap();
    assert!(tx.outbox[0].status == JobStatus::Pending);
    assert_eq!(tx.outbox[0].next_attempt, 40_000);
    assert_eq!(tx.meta("telegram_blocked_until").as_deref(), Some("40000"));
    assert!(gateway.prepare_delivery(&mut tx, 39_999).unwrap().is_none());
    assert!(gateway.prepare_delivery(&mut tx, 40_000).unwrap().is_some());
}

#[test]
fn a_refusal_holds_the_delivery_for_a_minute() {
    let (mut tx, topic) = setup();
    let gateway = Gateway::new(vec![]);
    send(&mut tx, "hopeful_morse", &topic, "first", None, 1).unwrap();
    let job = gateway.prepare_delivery(&mut tx, 0).unwrap().unwrap();
    let refused = Failure { code: 400, retry_after: Some(5), detail: "Bad Request: chat not found".to_string() };
    gateway.complete_delivery(&mut tx, job, Err(refused), 1_000).unwrap();
    assert!(tx.outbox[0].status == JobStatus::Blocked);
    assert_eq!(tx.outbox[0].next_attempt, 61_000);
    assert_eq!(tx.outbox[0].error.as_deref(), Some("Bad Request: chat not found"));
    assert_eq!(tx.meta("telegram_blocked_until"), None);
}

#[test]
fn other_failures_back_off_exponentially() {
    let (mut tx, topic) = setup();
    let gateway = Gateway::new(vec![]);
    send(&mut tx, "hopeful_morse", &topic, "first", None, 1).unwrap();
    for (round, delay) in [(0, 1), (1, 2), (2, 4)] {
        let job = gateway.prepare_delivery(&mut tx, 1_000_000 * (round + 1)).unwrap().unwrap();
        assert_eq!(job.attempts, round);
        let now = 1_000_000 * (round + 1);
        gateway.complete_delivery(&mut tx, job, Err(Failure::unanswered()), now).unwrap();
        assert_eq!(tx.outbox[0].next_attempt, now + delay * 1_000);
    }
    assert_eq!(tx.outbox[0].error.as_deref(), Some("Telegram connection failed or send outcome unknown"));
}

#[test]
fn restart_recovery_requeues_deliveries() {
    let (mut tx, topic) = setup();
    let gateway = Gateway::new(vec![]);
    send(&mut tx, "hopeful_morse", &topic, "first", None, 1).unwrap();
    send(&mut tx, "hopeful_morse", &topic, "second", None, 1).unwrap();
    gateway.prepare_delivery(&mut tx, 0).unwrap().unwrap();
    gateway.prepare_delivery(&mut tx, 0).unwrap();
    assert!(tx.outbox[1].status == JobStatus::Blocked);
    tx.recover();
    assert!(tx.outbox[0].status == JobStatus::Pending);
    assert!(tx.outbox[1].status == JobStatus::Blocked);
    assert_eq!(tx.outbox[1].next_attempt, 0);
}

#[test]
fn an_update_is_handled_once() {
    let (mut tx, topic) = setup();
    tx.users.push(UserRow { id: USER, trusted: true });
    let gateway = Gateway::new(vec![ADMIN]);
    let u = || update(10, Event::Message(message(77, USER, "hello", Some(7))));
    gateway.ingest(&mut tx, u(), 5).unwrap();
    assert_eq!(tx.messages.len(), 1);
    assert_eq!(tx.messages[0].topic, topic);
    assert_eq!(tx.messages[0].user, Some(USER));
    assert_eq!(tx.mapped(CHAT, 77), Some(1));
    assert_eq!(tx.updates[0].raw.as_deref(), Some("{\"update_id\":10}"));
    assert_eq!(tx.meta("offset").as_deref(), Some("11"));
    gateway.ingest(&mut tx, u(), 6).unwrap();
    assert_eq!(tx.messages.len(), 1);
    assert_eq!(tx.updates.len(), 1);
}

#[test]
fn untrusted_messages_are_ignored() {
    let (mut tx, _topic) = setup();
    let gateway = Gateway::new(vec![ADMIN]);
    gateway.ingest(&mut tx, update(3, Event::Message(message(1, USER, "hello", Some(7)))), 5).unwrap();
    assert!(tx.messages.is_empty());
    assert_eq!(tx.updates.len(), 1);
    assert_eq!(tx.updates[0].raw, None);
    assert_eq!(tx.meta("offset").as_deref(), Some("4"));
}

#[test]
fn the_general_thread_is_reserved() {
    let (mut tx, _topic) = setup();
    let gateway = Gateway::new(vec![ADMIN]);
    gateway.ingest(&mut tx, update(3, Event::Message(message(1, ADMIN, "hello", Some(1)))), 5).unwrap();
    gateway.ingest(&mut tx, update(4, Event::Message(message(2, ADMIN, "hello", None))), 5).unwrap();
    assert!(tx.messages.is_empty());
}

#[test]
fn manage_from_an_admin_connects_the_group() {
    let mut tx = Tx::new();
    let gateway = Gateway::new(vec![ADMIN]);
    let joined = Event::Membership { chat: CHAT, title: "Project collaboration".to_string(), actor: USER, present: true };
    gateway.ingest(&mut tx, update(1, joined), 1).unwrap();
    assert!(!tx.connected(CHAT));
    gateway.ingest(&mut tx, update(2, Event::Message(message(5, USER, "/manage", None))), 2).unwrap();
    assert!(!tx.connected(CHAT));
    gateway.ingest(&mut tx, update(3, Event::Message(message(6, ADMIN, "/manage@tbg_bot", None))), 3).unwrap();
    assert!(tx.connected(CHAT));
    let reply = tx.outbox.last().unwrap();
    assert_eq!(reply.kind, "management");
    assert_eq!(reply.message, None);
    match &reply.payload {
        Delivery::Send { text, .. } => assert_eq!(text, "Current location: Group\nAction scope: current Group"),
        other => panic!("{:?}", other),
    }
}

#[test]
fn whoami_is_answered_to_anyone() {
    let mut tx = Tx::new();
    let gateway = Gateway::new(vec![]);
    let mut m = message(1, 12345678, "/whoami", None);
    m.group = false;
    gateway.ingest(&mut tx, update(1, Event::Message(m)), 1).unwrap();
    match &tx.outbox[0].payload {
        Delivery::Send { text, .. } => assert_eq!(
            text,
            "user_id: 12345678\nIdentity: untrusted\nNo administrator is configured. Add this user_id to the Gateway's administrator list."
        ),
        other => panic!("{:?}", other),
    }
}

#[test]
fn topic_events_record_the_state() {
    let (mut tx, _topic) = setup();
    let gateway = Gateway::new(vec![ADMIN]);
    let mut created = message(1, USER, "", Some(9));
    created.topic_event = Some(TopicEvent::Created("Planning".to_string()));
    gateway.ingest(&mut tx, update(1, Event::Message(created)), 1).unwrap();
    let t = tx.topic("t100123_9").unwrap();
    assert_eq!(t.name, "Planning");
    assert!(!t.closed);
    let mut closed = message(2, USER, "", Some(9));
    closed.topic_event = Some(TopicEvent::Closed);
    gateway.ingest(&mut tx, update(2, Event::Message(closed)), 2).unwrap();
    assert!(tx.topic("t100123_9").unwrap().closed);
    assert_eq!(tx.management.last().unwrap().kind, "topic state");
    assert!(tx.messages.is_empty());
}

#[test]
fn leaving_a_group_makes_it_unavailable() {
    let (mut tx, topic) = setup();
    let gateway = Gateway::new(vec![ADMIN]);
    let left = Event::Membership { chat: CHAT, title: String::new(), actor: ADMIN, present: false };
    gateway.ingest(&mut tx, update(8, left), 1).unwrap();
    assert!(!tx.connected(CHAT));
    assert!(!tx.topic(&topic).unwrap().available);
    assert_eq!(tx.management.last().unwrap().detail.bool_at("present"), Some(false));
}

#[test]
fn quotes_of_telegram_messages_are_linked() {
    let (mut tx, topic) = setup();
    let gateway = Gateway::new(vec![ADMIN]);
    gateway.ingest(&mut tx, update(1, Event::Message(message(50, ADMIN, "first", Some(7)))), 1).unwrap();
    let mut reply = message(51, ADMIN, "second", Some(7));
    reply.quote = Some(50);
    gateway.ingest(&mut tx, update(2, Event::Message(reply)), 2).unwrap();
    assert_eq!(tx.messages[1].quote, Some(1));
    assert_eq!(tx.messages[1].topic, topic);
    let mut stray = message(52, ADMIN, "third", Some(7));
    stray.quote = Some(999);
    gateway.ingest(&mut tx, update(3, Event::Message(stray)), 3).unwrap();
    assert_eq!(tx.messages[2].quote, None);
}

#[test]
fn json_lookups() {
    let v = Json::Object(vec![("a".to_string(), Json::Int(1)), ("a".to_string(), Json::Int(2))]);
    assert_eq!(v.i64_at("a"), Some(1));
    assert!(v.member("b").is_null());
}

#[test]
fn loaded_tables_must_be_in_key_order() {
    let mut tx = Tx::new();
    assert!(tx.check());
    tx.users.push(UserRow { id: 7, trusted: true });
    tx.users.push(UserRow { id: 9, trusted: false });
    assert!(tx.check());
    tx.users.push(UserRow { id: 8, trusted: false });
    assert!(!tx.check());
}

#[test]
fn deliveries_never_count_negative_attempts() {
    let (mut tx, topic) = setup();
    send(&mut tx, "hopeful_morse", &topic, "Ready to collaborate", None, 1).unwrap();
    assert!(tx.check());
    tx.outbox[0].attempts = -1;
    assert!(!tx.check());
}

#[test]
fn a_newer_store_is_refused() {
    assert_eq!(schema_check(0).unwrap(), true);
    assert_eq!(schema_check(1).unwrap(), false);
    let e = schema_check(2).unwrap_err();
    assert_eq!(e.message, "database schema is newer than this Gateway");
}

#[test]
fn topics_need_a_known_group() {
    let mut tx = Tx::new();
    let e = tx.ensure_topic(CHAT, 7, "Design discussion", None).unwrap_err();
    assert_eq!(e.message, "database operation failed");
    assert!(tx.topics.is_empty());
    let (mut tx, _topic) = setup();
    assert!(tx.check());
    tx.groups.clear();
    assert!(!tx.check());
}
