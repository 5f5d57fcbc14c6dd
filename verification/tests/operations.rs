use telegram_bot_gateway::contract::{Agent, Command, Request, Response, Topic as TopicCommand};
use telegram_bot_gateway::db::Tx;
use telegram_bot_gateway::dispatch::Step;
use telegram_bot_gateway::gateway::{mentioned, register, send, subscribe, Gateway, WaitSlots};
use telegram_bot_gateway::management::{
    agent_list, group_list, topic_change_finish, topic_change_start, topic_create_finish, topic_create_start,
    topic_list, topic_show,
};
use telegram_bot_gateway::model::{Error, ErrorKind};
use telegram_bot_gateway::telegram::Failure;
use telegram_bot_gateway::wait::{ready_topics, wait_answer, wait_begin, wait_end, WaitEnd};

const CHAT: i64 = -100123;

fn setup() -> (Tx, String) {
    let mut tx = Tx::new();
    tx.group(CHAT, "Project collaboration", true, true);
    let topic = tx.ensure_topic(CHAT, 7, "Design discussion", Some("hopeful_morse")).unwrap();
    register(&mut tx, Some("hopeful_morse"), 0).unwrap();
    register(&mut tx, Some("calm_turing"), 0).unwrap();
    (tx, topic)
}

fn err_of<T: std::fmt::Debug>(r: Result<T, Error>) -> (ErrorKind, String) {
    match r {
        Err(e) => (e.kind, e.message),
        Ok(v) => panic!("expected an error, got {:?}", v),
    }
}

#[test]
fn agent_list_reports_activity() {
    let (tx, _topic) = setup();
    let mut waits = WaitSlots::new();
    assert!(waits.acquire("calm_turing"));
    match agent_list(&tx, &waits, 400_000) {
        Response::Agents { agents } => {
            assert_eq!(agents.len(), 2);
            assert_eq!(agents[0].name, "calm_turing");
            assert!(agents[0].waiting && agents[0].active);
            assert_eq!(agents[1].name, "hopeful_morse");
            assert!(!agents[1].waiting && !agents[1].active);
        }
        other => panic!("{:?}", other),
    }
    match agent_list(&tx, &WaitSlots::new(), 299_999) {
        Response::Agents { agents } => assert!(agents.iter().all(|a| a.active)),
        other => panic!("{:?}", other),
    }
}

#[test]
fn group_and_topic_listings() {
    let (mut tx, _topic) = setup();
    tx.group(-5, "Daily tasks", false, true);
    tx.ensure_topic(-5, 3, "Chores", None).unwrap();
    match group_list(&tx) {
        Response::Groups { groups } => {
            assert_eq!(groups.len(), 2);
            assert_eq!(groups[0].group, "-100123");
            assert!(groups[0].connected);
            assert_eq!(groups[1].group, "-5");
            assert!(!groups[1].connected);
        }
        other => panic!("{:?}", other),
    }
    match topic_list(&tx, Some("-5")).unwrap() {
        Response::Topics { topics } => {
            assert_eq!(topics.len(), 1);
            assert_eq!(topics[0].topic, "t5_3");
            assert_eq!(topics[0].name, "Chores");
            assert_eq!(topics[0].status, "active");
        }
        other => panic!("{:?}", other),
    }
    match topic_list(&tx, None).unwrap() {
        Response::Topics { topics } => assert_eq!(topics.len(), 2),
        other => panic!("{:?}", other),
    }
    assert_eq!(err_of(topic_list(&tx, Some("chat"))), (ErrorKind::Invalid, "invalid group".to_string()));
}

#[test]
fn topic_show_lists_subscribers() {
    let (mut tx, topic) = setup();
    subscribe(&mut tx, "hopeful_morse", &topic, false, 1).unwrap();
    subscribe(&mut tx, "calm_turing", &topic, false, 1).unwrap();
    match topic_show(&tx, &topic).unwrap() {
        Response::TopicDetail { topic: t, name, group, status, subscribers } => {
            assert_eq!(t, topic);
            assert_eq!(name, "Design discussion");
            assert_eq!(group, "-100123");
            assert_eq!(status, "active");
            assert_eq!(subscribers, vec!["calm_turing".to_string(), "hopeful_morse".to_string()]);
        }
        other => panic!("{:?}", other),
    }
    assert_eq!(err_of(topic_show(&tx, "t0_0")), (ErrorKind::Invalid, "unknown Topic".to_string()));
}

#[test]
fn topic_creation_records_intent_then_result() {
    let (mut tx, _topic) = setup();
    let chat = topic_create_start(&mut tx, "calm_turing", "-100123", "Release", 10).unwrap();
    assert_eq!(chat, CHAT);
    assert_eq!(tx.management.last().unwrap().kind, "topic/create intent");
    match topic_create_finish(&mut tx, "calm_turing", chat, "Release", Ok(42), 11).unwrap() {
        Response::TopicCreated { topic, name, status } => {
            assert_eq!(topic, "t100123_42");
            assert_eq!(name, "Release");
            assert_eq!(status, "active");
        }
        other => panic!("{:?}", other),
    }
    let t = tx.topic("t100123_42").unwrap();
    assert_eq!(t.owner.as_deref(), Some("calm_turing"));
    assert_eq!(tx.management.last().unwrap().kind, "topic/create result");
}

#[test]
fn topic_creation_checks_its_request() {
    let (mut tx, _topic) = setup();
    tx.group(-7, "Elsewhere", false, true);
    let audits = tx.management.len();
    assert_eq!(err_of(topic_create_start(&mut tx, "a", "x", "n", 1)), (ErrorKind::Invalid, "invalid group".to_string()));
    assert_eq!(
        err_of(topic_create_start(&mut tx, "a", "-100123", "", 1)),
        (ErrorKind::Invalid, "Topic name must contain 1–128 characters".to_string())
    );
    assert_eq!(
        err_of(topic_create_start(&mut tx, "a", "-100123", &"é".repeat(129), 1)),
        (ErrorKind::Invalid, "Topic name must contain 1–128 characters".to_string())
    );
    assert!(topic_create_start(&mut tx, "a", "-100123", &"é".repeat(128), 1).is_ok());
    assert_eq!(err_of(topic_create_start(&mut tx, "a", "-7", "n", 1)), (ErrorKind::Invalid, "Group is unavailable".to_string()));
    assert_eq!(tx.management.len(), audits + 1);
}

#[test]
fn a_failed_creation_is_recorded_as_unknown() {
    let (mut tx, _topic) = setup();
    let failure = Failure { code: 502, retry_after: None, detail: "Bad Gateway".to_string() };
    let e = topic_create_finish(&mut tx, "calm_turing", CHAT, "Release", Err(failure), 3).unwrap_err();
    assert!(e.kind == ErrorKind::Unavailable);
    assert_eq!(e.message, "Topic creation failed or outcome unknown; inspect Telegram before retrying");
    let row = tx.management.last().unwrap();
    assert_eq!(row.kind, "topic/create result");
    assert_eq!(row.detail.str_at("error").as_deref(), Some("Bad Gateway"));
    assert_eq!(row.detail.bool_at("outcome_unknown"), Some(true));
    assert_eq!(row.detail.i64_at("group"), Some(CHAT));
    assert_eq!(tx.topics.len(), 1);
}

#[test]
fn only_the_creator_closes_a_topic() {
    let (mut tx, topic) = setup();
    assert_eq!(
        err_of(topic_change_start(&mut tx, "calm_turing", &topic, true, 1)),
        (ErrorKind::Invalid, "only the Topic creator can manage this Topic".to_string())
    );
    let t = topic_change_start(&mut tx, "hopeful_morse", &topic, true, 1).unwrap();
    assert_eq!((t.chat, t.thread), (CHAT, 7));
    match topic_change_finish(&mut tx, &topic, true, Ok(()), 2).unwrap() {
        Response::TopicState { topic: id, status } => {
            assert_eq!(id, topic);
            assert_eq!(status, "closed");
        }
        other => panic!("{:?}", other),
    }
    assert!(tx.topics[0].closed);
    let refused = Failure { code: 400, retry_after: None, detail: "Bad Request".to_string() };
    let e = topic_change_finish(&mut tx, &topic, false, Err(refused), 3).unwrap_err();
    assert_eq!(e.message, "Topic state change failed or outcome unknown; inspect Telegram before retrying");
    assert_eq!(tx.management.last().unwrap().detail.bool_at("outcome_unknown"), Some(false));
    assert!(tx.topics[0].closed);
}

#[test]
fn changing_a_topic_needs_an_available_group() {
    let (mut tx, topic) = setup();
    tx.disconnect(CHAT);
    assert_eq!(
        err_of(topic_change_start(&mut tx, "hopeful_morse", &topic, true, 1)),
        (ErrorKind::Invalid, "Group is unavailable".to_string())
    );
}

#[test]
fn one_wait_per_agent() {
    let mut waits = WaitSlots::new();
    assert!(wait_begin(&mut waits, "hopeful_morse").is_ok());
    let e = wait_begin(&mut waits, "hopeful_morse").unwrap_err();
    assert!(e.kind == ErrorKind::Conflict);
    assert_eq!(e.message, "This Agent already has an active wait.");
    assert!(wait_begin(&mut waits, "calm_turing").is_ok());
    waits.release("hopeful_morse");
    assert!(!waits.has("hopeful_morse"));
    assert!(waits.has("calm_turing"));
    assert!(wait_begin(&mut waits, "hopeful_morse").is_ok());
}

#[test]
fn a_muted_wait_wakes_only_on_a_mention() {
    let (mut tx, topic) = setup();
    subscribe(&mut tx, "hopeful_morse", &topic, true, 1).unwrap();
    tx.append(&topic, None, Some(5), "I would like to release the latest version", 1, None).unwrap();
    tx.append(&topic, None, Some(5), "Correction: do not release it yet", 1, None).unwrap();
    assert!(ready_topics(&tx, "hopeful_morse", None).unwrap().is_empty());
    tx.append(&topic, None, Some(5), "@hopeful_morse Please only run the tests", 1, None).unwrap();
    let ready = ready_topics(&tx, "hopeful_morse", Some(&topic)).unwrap();
    assert_eq!(ready.len(), 1);
    assert_eq!(ready[0].topic, topic);
    assert_eq!(ready[0].trigger_msg_id, "m3");
    assert_eq!(ready[0].pending_count, 3);
}

#[test]
fn mentions_need_word_boundaries() {
    assert!(mentioned("@calm_turing please", "calm_turing"));
    assert!(mentioned("hi @calm_turing.", "calm_turing"));
    assert!(!mentioned("hi @calm_turing2", "calm_turing"));
    assert!(!mentioned("mail@calm_turing", "calm_turing"));
    assert!(!mentioned("calm_turing", "calm_turing"));
}

#[test]
fn own_messages_never_wake() {
    let (mut tx, topic) = setup();
    subscribe(&mut tx, "hopeful_morse", &topic, false, 1).unwrap();
    send(&mut tx, "hopeful_morse", &topic, "@hopeful_morse note to self", None, 2).unwrap();
    assert!(ready_topics(&tx, "hopeful_morse", None).unwrap().is_empty());
    tx.append(&topic, None, Some(5), "hello", 1, None).unwrap();
    let ready = ready_topics(&tx, "hopeful_morse", None).unwrap();
    assert_eq!(ready[0].trigger_msg_id, "m2");
    assert_eq!(ready[0].pending_count, 1);
}

#[test]
fn waiting_needs_subscriptions() {
    let (tx, topic) = setup();
    assert_eq!(
        err_of(ready_topics(&tx, "hopeful_morse", None)),
        (ErrorKind::Invalid, "no subscribed Topics to wait on".to_string())
    );
    assert_eq!(
        err_of(ready_topics(&tx, "hopeful_morse", Some(&topic))),
        (ErrorKind::Invalid, "Topic is not currently subscribed".to_string())
    );
}

#[test]
fn wait_answers_and_endings() {
    assert!(wait_answer(Ok(vec![]), false).is_none());
    match wait_answer(Ok(vec![]), true) {
        Some(Ok(Response::Wait { topics })) => assert!(topics.is_empty()),
        other => panic!("{:?}", other),
    }
    match wait_end(WaitEnd::Cancelled) {
        Err(e) => assert_eq!(e.message, "wait cancelled"),
        other => panic!("{:?}", other),
    }
    match wait_end(WaitEnd::Stopped) {
        Err(e) => assert!(e.kind == ErrorKind::Unavailable),
        other => panic!("{:?}", other),
    }
    assert!(matches!(wait_end(WaitEnd::TimedOut), Ok(Response::Wait { .. })));
}

#[test]
fn execute_needs_a_registered_agent() {
    let (mut tx, _topic) = setup();
    let mut gateway = Gateway::new(vec![]);
    let request = Request::new(Some("nobody".to_string()), Command::Whoami).unwrap();
    match gateway.execute(&mut tx, request, 5) {
        Step::Done(Err(e)) => assert_eq!(e.message, "unknown Agent"),
        other => panic!("{:?}", other),
    }
}

#[test]
fn execute_marks_the_agent_seen() {
    let (mut tx, _topic) = setup();
    let mut gateway = Gateway::new(vec![]);
    let request = Request::new(Some("calm_turing".to_string()), Command::Whoami).unwrap();
    match gateway.execute(&mut tx, request, 77) {
        Step::Done(Ok(Response::Identity { name })) => assert_eq!(name, "calm_turing"),
        other => panic!("{:?}", other),
    }
    assert_eq!(tx.agents[0].last_seen, 77);
}

#[test]
fn execute_hands_topic_creation_to_the_caller() {
    let (mut tx, _topic) = setup();
    let mut gateway = Gateway::new(vec![]);
    let create = Command::Topic(TopicCommand::Create { group: "-100123".to_string(), name: "Release".to_string() });
    let request = Request::new(Some("calm_turing".to_string()), create).unwrap();
    match gateway.execute(&mut tx, request, 5) {
        Step::CreateTopic { agent, chat, name } => {
            assert_eq!(agent, "calm_turing");
            assert_eq!(chat, CHAT);
            assert_eq!(name, "Release");
        }
        other => panic!("{:?}", other),
    }
}

#[test]
fn execute_takes_the_wait_slot() {
    let (mut tx, _topic) = setup();
    let mut gateway = Gateway::new(vec![]);
    let wait = || Request::new(Some("calm_turing".to_string()), Command::Wait { topic: None, timeout: Some(3) }).unwrap();
    assert!(matches!(gateway.execute(&mut tx, wait(), 5), Step::Wait { timeout: Some(3), .. }));
    match gateway.execute(&mut tx, wait(), 5) {
        Step::Done(Err(e)) => assert!(e.kind == ErrorKind::Conflict),
        other => panic!("{:?}", other),
    }
    assert!(gateway.waits.has("calm_turing"));
    let ended = gateway.end_wait(&mut tx, "calm_turing", Ok(Response::Wait { topics: vec![] }), 9);
    assert!(ended.is_ok());
    assert!(!gateway.waits.has("calm_turing"));
}

#[test]
fn execute_registers_without_an_agent() {
    let mut tx = Tx::new();
    let mut gateway = Gateway::new(vec![]);
    let request = Request::new(None, Command::Agent(Agent::Register { name: Some("calm_turing".to_string()) })).unwrap();
    match gateway.execute(&mut tx, request, 5) {
        Step::Done(Ok(Response::Identity { name })) => assert_eq!(name, "calm_turing"),
        other => panic!("{:?}", other),
    }
}
