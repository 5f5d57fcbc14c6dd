use telegram_bot_gateway::bot::{command, conversation, reply, Context};
use telegram_bot_gateway::client::{rejection, route_url, times_out, ClientError};
use telegram_bot_gateway::config::{check_client, check_server, TelegramConfig};
use telegram_bot_gateway::contract::{Agent, Command, Request, Route, Topic as TopicCommand};
use telegram_bot_gateway::json::Json;
use telegram_bot_gateway::model::{Delivery, msg_id, parse_msg, status_code, Error, ErrorKind};
use telegram_bot_gateway::telegram::{
    delivery_request, identity_of, method_url, reply_result, thread_of, updates_request, Event, TopicEvent, Update,
};
use telegram_bot_gateway::text::replace;

fn obj(members: Vec<(&str, Json)>) -> Json {
    Json::Object(members.into_iter().map(|(k, v)| (k.to_string(), v)).collect())
}

fn s(v: &str) -> Json {
    Json::Str(v.to_string())
}

#[test]
fn msg_ids_round_trip() {
    assert_eq!(msg_id(42), "m42");
    assert_eq!(parse_msg("m42").ok(), Some(42));
    assert_eq!(parse_msg(&msg_id(9_223_372_036_854_775_807)).ok(), Some(i64::MAX));
    for bad in ["42", "m0", "m-1", "m", "m+1x", "M1", "m99999999999999999999"] {
        let e = parse_msg(bad).unwrap_err();
        assert!(e.kind == ErrorKind::Invalid);
        assert_eq!(e.message, "invalid msg_id");
    }
    assert_eq!(parse_msg("m+7").ok(), Some(7));
}

#[test]
fn errors_map_to_http_statuses() {
    assert_eq!(status_code(&ErrorKind::Invalid), 400);
    assert_eq!(status_code(&ErrorKind::Conflict), 409);
    assert_eq!(status_code(&ErrorKind::Unavailable), 503);
    assert_eq!(status_code(&ErrorKind::NotFound), 404);
    assert_eq!(Error::conflict("x").text(), "x");
    assert!(Error::internal("y").kind == ErrorKind::Unavailable);
    assert!(Error::bad("z").kind == ErrorKind::Invalid);
}

#[test]
fn requests_are_checked() {
    assert_eq!(Request::new(None, Command::Whoami).unwrap_err(), "agent is required");
    assert!(Request::new(None, Command::Agent(Agent::Register { name: None })).is_ok());
    let zero = Command::Unread { topic: "t1_2".to_string(), cursor: None, limit: Some(0) };
    assert_eq!(Request::new(Some("a".to_string()), zero).unwrap_err(), "limit must be positive");
    let long = Command::Wait { topic: None, timeout: Some(u64::MAX) };
    assert_eq!(Request::new(Some("a".to_string()), long).unwrap_err(), "timeout is too large");
    let fine = Command::Wait { topic: None, timeout: Some(9_223_372_036_854_775) };
    assert!(Request::new(Some("a".to_string()), fine).is_ok());
}

#[test]
fn requests_decode_from_http() {
    let body = obj(vec![
        ("agent", s("hopeful_morse")),
        ("topic", s("t1_2")),
        ("content", s("@calm_turing Please review the result")),
        ("quote", s("m42")),
    ]);
    let r = Request::decode("send", &body).unwrap();
    assert_eq!(r.agent.as_deref(), Some("hopeful_morse"));
    match r.command {
        Command::Send { topic, content, quote } => {
            assert_eq!(topic, "t1_2");
            assert_eq!(content, "@calm_turing Please review the result");
            assert_eq!(quote.as_deref(), Some("m42"));
        }
        other => panic!("{:?}", other),
    }
    let r = Request::decode("agent/register", &obj(vec![("name", s("hopeful_morse"))])).unwrap();
    assert!(matches!(r.command, Command::Agent(Agent::Register { name: Some(ref n) }) if n == "hopeful_morse"));
    let r = Request::decode("topic/list", &obj(vec![("agent", s("a"))])).unwrap();
    assert!(matches!(r.command, Command::Topic(TopicCommand::List { group: None })));
}

#[test]
fn bad_requests_are_refused() {
    assert_eq!(Request::decode("whoami", &s("x")).unwrap_err(), "request must be an object");
    assert_eq!(
        Request::decode("send", &obj(vec![("agent", s("a")), ("topic", Json::Null)])).unwrap_err(),
        "parameters must not be null"
    );
    assert_eq!(Request::decode("whoami", &obj(vec![("agent", Json::Int(3))])).unwrap_err(), "agent must be a string");
    assert!(Request::decode("nope", &obj(vec![("agent", s("a"))])).unwrap_err().starts_with("invalid command"));
    assert!(Request::decode("send", &obj(vec![("agent", s("a")), ("topic", s("t"))])).is_err());
    assert!(Request::decode("whoami", &obj(vec![])).is_err());
}

#[test]
fn requests_round_trip_through_the_wire() {
    let commands = vec![
        Command::Whoami,
        Command::Subscriptions,
        Command::Agent(Agent::List),
        Command::Topic(TopicCommand::Create { group: "-100".to_string(), name: "Design".to_string() }),
        Command::Topic(TopicCommand::List { group: Some("-100".to_string()) }),
        Command::Unread { topic: "t1_2".to_string(), cursor: Some("m3".to_string()), limit: Some(2) },
        Command::History { topic: "t1_2".to_string(), cursor: None, limit: None },
        Command::Ack { topic: "t1_2".to_string(), through: "m4".to_string() },
        Command::Subscribe { topic: "t1_2".to_string(), muted: true },
        Command::Mute { topic: "t1_2".to_string(), off: false },
        Command::Wait { topic: None, timeout: Some(300) },
    ];
    for c in commands {
        let r = Request::new(Some("hopeful_morse".to_string()), c).unwrap();
        let (route, body) = r.wire();
        let back = Request::decode(&route, &body).unwrap();
        assert_eq!(back.agent.as_deref(), Some("hopeful_morse"));
        let (route2, _) = back.wire();
        assert_eq!(route, route2);
    }
    let r = Request::new(Some("a".to_string()), Command::Topic(TopicCommand::Close { topic: "t1_2".to_string() })).unwrap();
    assert_eq!(r.wire().0, "topic/close");
    assert_eq!(Route::named("group/list").unwrap().path(), "group/list");
    assert!(Route::named("group").is_none());
}

#[test]
fn the_bot_reads_commands() {
    assert_eq!(command("/manage@tbg_bot extra"), "/manage");
    assert_eq!(command("  /help"), "/help");
    assert_eq!(command("   "), "");
    assert_eq!(conversation("hopeful_morse", "Ready\nnow"), "hopeful_morse:\nReady\nnow");
}

#[test]
fn the_bot_answers_in_the_users_language() {
    let c = Context { user: 7, admin: true, trusted: true, initialized: true, group: false, topic: None, zh: true };
    assert_eq!(reply("/manage", c), "当前位置: private chat\n操作范围: global");
    let c = Context { user: 7, admin: false, trusted: false, initialized: true, group: false, topic: None, zh: false };
    assert_eq!(reply("/manage", c), "Use /whoami to obtain your identity and complete administrator setup.");
    let c = Context { user: 7, admin: false, trusted: true, initialized: true, group: true, topic: Some(3), zh: false };
    assert_eq!(reply("/manage", c), "Current location: Topic\nAction scope: current Topic");
    let c = Context { user: 7, admin: false, trusted: false, initialized: false, group: false, topic: None, zh: false };
    assert_eq!(reply("/help", c), "/help\n/whoami\n/manage");
}

#[test]
fn telegram_rejections_are_redacted() {
    let body = obj(vec![
        ("ok", Json::Bool(false)),
        ("error_code", Json::Int(429)),
        ("description", s("Too Many Requests for bot123:SECRET")),
        ("parameters", obj(vec![("retry_after", Json::Int(7))])),
    ]);
    let f = reply_result(200, body, "123:SECRET").unwrap_err();
    assert_eq!(f.code, 429);
    assert_eq!(f.retry_after, Some(7));
    assert_eq!(f.detail, "Too Many Requests for bot[redacted]");
    let f = reply_result(502, obj(vec![]), "123:SECRET").unwrap_err();
    assert_eq!(f.code, 502);
    assert_eq!(f.detail, "Telegram rejected request");
    let ok = reply_result(200, obj(vec![("ok", Json::Bool(true)), ("result", Json::Int(5))]), "123:SECRET").unwrap();
    // The token is replaced wherever it occurs, even in the generic text.
    assert_eq!(reply_result(500, obj(vec![]), "t").unwrap_err().detail, "Telegram rejec[redacted]ed reques[redacted]");
    assert!(matches!(ok, Json::Int(5)));
}

#[test]
fn replace_works_like_str_replace() {
    assert_eq!(replace("aaa", "aa", "b"), "aaa".replace("aa", "b"));
    assert_eq!(replace("abc", "", "-"), "abc".replace("", "-"));
    assert_eq!(replace("token in token", "token", "[redacted]"), "[redacted] in [redacted]");
}

#[test]
fn telegram_identity_and_threads() {
    let me = obj(vec![("id", Json::Int(99))]);
    assert_eq!(identity_of(&me, &obj(vec![("url", s(""))])).unwrap(), 99);
    let f = identity_of(&me, &obj(vec![("url", s("https://x"))])).unwrap_err();
    assert_eq!(f.code, 409);
    assert_eq!(f.detail, "existing webhook prevents polling; configuration was not changed");
    assert_eq!(identity_of(&obj(vec![]), &obj(vec![])).unwrap_err().detail, "missing Bot identity");
    assert_eq!(thread_of(&obj(vec![("message_thread_id", Json::Int(42))])).unwrap(), 42);
    assert_eq!(thread_of(&obj(vec![])).unwrap_err().detail, "missing Topic identifier");
    assert_eq!(method_url("https://api.telegram.org", "1:T", "getMe"), "https://api.telegram.org/bot1:T/getMe");
}

#[test]
fn telegram_requests() {
    let send = Delivery::Send { text: "hi".to_string(), thread: Some(7), quote: Some(3) };
    let (method, p) = delivery_request(-100, &send).unwrap();
    assert_eq!(method, "sendMessage");
    assert_eq!(p.i64_at("message_thread_id"), Some(7));
    assert_eq!(p.member("reply_parameters").i64_at("message_id"), Some(3));
    let (method, p) = delivery_request(-100, &Delivery::Heart { target: Some(5) }).unwrap();
    assert_eq!(method, "setMessageReaction");
    assert_eq!(p.i64_at("message_id"), Some(5));
    assert_eq!(delivery_request(-100, &Delivery::Heart { target: None }).unwrap_err().detail, "missing receipt target");
    let u = updates_request(Some(11));
    assert_eq!(u.i64_at("offset"), Some(11));
    assert_eq!(u.i64_at("timeout"), Some(25));
}

#[test]
fn updates_decode() {
    let v = obj(vec![
        ("update_id", Json::Int(5)),
        (
            "message",
            obj(vec![
                ("message_id", Json::Int(70)),
                ("date", Json::Int(1_789_636_200)),
                ("message_thread_id", Json::Int(7)),
                ("chat", obj(vec![("id", Json::Int(-100)), ("type", s("supergroup")), ("title", s("Team"))])),
                ("from", obj(vec![("id", Json::Int(42)), ("language_code", s("zh-hans"))])),
                ("photo", Json::Array(vec![])),
                ("caption", s("look")),
                ("reply_to_message", obj(vec![("message_id", Json::Int(60))])),
            ]),
        ),
    ]);
    let u = Update::decode(&v, "{raw}").unwrap();
    assert_eq!(u.id, 5);
    assert_eq!(u.raw, "{raw}");
    match u.event {
        Event::Message(m) => {
            assert_eq!(m.id, 70);
            assert_eq!(m.chat, -100);
            assert_eq!(m.title, "Team");
            assert!(m.group);
            assert_eq!(m.user, 42);
            assert_eq!(m.language, "zh-hans");
            assert_eq!(m.thread, Some(7));
            assert_eq!(m.date, 1_789_636_200_000);
            assert_eq!(m.content, "[photo] look");
            assert_eq!(m.quote, Some(60));
            assert!(m.topic_event.is_none());
        }
        other => panic!("{:?}", other),
    }
    let closed = obj(vec![
        ("update_id", Json::Int(6)),
        (
            "message",
            obj(vec![
                ("message_id", Json::Int(71)),
                ("date", Json::Int(1)),
                ("chat", obj(vec![("id", Json::Int(-100)), ("type", s("supergroup"))])),
                ("from", obj(vec![("id", Json::Int(42))])),
                ("forum_topic_closed", obj(vec![])),
            ]),
        ),
    ]);
    match Update::decode(&closed, "").unwrap().event {
        Event::Message(m) => assert!(matches!(m.topic_event, Some(TopicEvent::Closed))),
        other => panic!("{:?}", other),
    }
    assert_eq!(Update::decode(&obj(vec![]), "").unwrap_err().detail, "missing update_id");
}

#[test]
fn client_errors_read_as_text() {
    let e = ClientError::Transport { endpoint: "http://127.0.0.1:18473/v1/send".to_string(), detail: "refused".to_string() };
    assert_eq!(e.describe(), "http://127.0.0.1:18473/v1/send: refused");
    let e = rejection("http://h/v1/wait".to_string(), 409, &obj(vec![("error", s("This Agent already has an active wait."))]));
    assert_eq!(e.describe(), "http://h/v1/wait: HTTP 409: This Agent already has an active wait.");
    let e = rejection("u".to_string(), 500, &obj(vec![]));
    assert_eq!(e.describe(), "u: HTTP 500: Gateway rejected request");
    assert_eq!(route_url("http://127.0.0.1:18473", "topic/create"), "http://127.0.0.1:18473/v1/topic/create");
    assert!(times_out("send"));
    assert!(!times_out("wait"));
}

#[test]
fn configurations_are_checked() {
    assert!(check_client(18473).is_ok());
    assert_eq!(check_client(0).unwrap_err(), "port must be nonzero");
    let good = TelegramConfig { bot_token: "123:abc".to_string() };
    let blank = TelegramConfig { bot_token: " \t\n".to_string() };
    assert!(check_server(18473, &good).is_ok());
    let message = "listen requires a nonzero port and bot_token must not be empty";
    assert_eq!(check_server(0, &good).unwrap_err(), message);
    assert_eq!(check_server(18473, &blank).unwrap_err(), message);
}

fn members(body: &Json) -> Vec<(String, String)> {
    match body {
        Json::Object(m) => {
            let mut v: Vec<(String, String)> = m.iter().map(|(k, v)| (k.clone(), format!("{v:?}"))).collect();
            v.sort();
            v
        },
        _ => panic!("not an object"),
    }
}

#[test]
fn the_wire_object_holds_exactly_the_commands_members() {
    let r = Request::new(
        Some("hopeful_morse".to_string()),
        Command::Send {
            topic: "t1".to_string(),
            content: "@calm_turing Please review the result".to_string(),
            quote: Some("m42".to_string()),
        },
    )
    .unwrap();
    let (route, body) = r.wire();
    assert_eq!(route, "send");
    let expected = obj(vec![
        ("agent", s("hopeful_morse")),
        ("topic", s("t1")),
        ("content", s("@calm_turing Please review the result")),
        ("quote", s("m42")),
    ]);
    assert_eq!(members(&body), members(&expected));
    let r = Request::new(Some("a".to_string()), Command::Mute { topic: "t1".to_string(), off: false }).unwrap();
    assert_eq!(members(&r.wire().1), members(&obj(vec![("agent", s("a")), ("topic", s("t1")), ("off", Json::Bool(false))])));
}
