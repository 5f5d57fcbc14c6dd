//! The Bot API as the gateway speaks it: how a reply becomes a result or a failure, what each
//! request carries, and what an incoming update means.
use vstd::prelude::*;
use crate::json::{Json, int_value, lemma_members, member_of, text_value};
use crate::model::Delivery;
use crate::text::{owned, push_str, replace, replace_all, str_eq, clamp64, saturating_mul};

verus! {

/// Why a Bot API call did not succeed. Code 0 means no usable answer from Telegram.
#[derive(Debug)]
pub struct Failure {
    pub code: u16,
    pub retry_after: Option<i64>,
    pub detail: String,
}

/// A failure without a Telegram answer.
pub open spec fn is_invalid(f: Failure, detail: Seq<char>) -> bool {
    f.code == 0 && f.retry_after is None && f.detail@ == detail
}

impl Failure {
    pub fn invalid(detail: &str) -> (f: Self)
        ensures
            is_invalid(f, detail@),
    {
        Failure { code: 0, retry_after: None, detail: owned(detail) }
    }

    /// The failure of a call that got no answer: its outcome is unknown.
    pub fn unanswered() -> (f: Self)
        ensures
            is_invalid(f, "Telegram connection failed or send outcome unknown"@),
    {
        Failure::invalid("Telegram connection failed or send outcome unknown")
    }

    /// The failure of a call whose answer could not be read: its outcome is unknown.
    pub fn unreadable() -> (f: Self)
        ensures
            is_invalid(f, "Telegram response incomplete; outcome unknown"@),
    {
        Failure::invalid("Telegram response incomplete; outcome unknown")
    }
}

/// Where a Bot API method is called: the API's base, `/bot`, the token, `/`, the method.
pub fn method_url(base: &str, token: &str, method: &str) -> (s: String)
    ensures
        s@ == base@ + "/bot"@ + token@ + "/"@ + method@,
{
    let mut s = owned(base);
    crate::text::push_str(&mut s, "/bot");
    crate::text::push_str(&mut s, token);
    crate::text::push_str(&mut s, "/");
    crate::text::push_str(&mut s, method);
    s
}

// ---------------------------------------------------------------- replies

/// The text that replaces the token in what Telegram says.
pub open spec fn redacted(s: Seq<char>, token: Seq<char>) -> Seq<char> {
    replace_all(s, token, "[redacted]"@)
}

/// Telegram accepted the call: a status below 400 and `ok: true`.
pub open spec fn accepted(status: u16, body: Json) -> bool {
    status < 400 && body.at("ok"@).is_true()
}

/// The failure that a rejected call reports: Telegram's error code (truncated to 16 bits),
/// otherwise the HTTP status; its retry delay; and its description with the token hidden.
pub open spec fn rejection(f: Failure, status: u16, body: Json, token: Seq<char>) -> bool {
    &&& f.code == match body.at("error_code"@).u64_of() {
        Some(n) => n as u16,
        None => status,
    }
    &&& f.retry_after == body.at("parameters"@).at("retry_after"@).i64_of()
    &&& f.detail@ == redacted(
        match body.at("description"@).str_of() {
            Some(d) => d,
            None => "Telegram rejected request"@,
        },
        token,
    )
}

/// The outcome of a Bot API call from its HTTP status and JSON body: the `result` member on
/// success, the rejection otherwise.
pub fn reply_result(status: u16, body: Json, token: &str) -> (r: Result<Json, Failure>)
    ensures
        match r {
            Ok(v) => accepted(status, body) && v == body.at("result"@),
            Err(f) => !accepted(status, body) && rejection(f, status, body, token@),
        },
{
    if status >= 400 || !body.member("ok").true_value() {
        let code: u16 = match body.member("error_code").as_u64() {
            Some(n) => n as u16,
            None => status,
        };
        let retry_after = body.member("parameters").i64_at("retry_after");
        let description = match body.member("description").as_str() {
            Some(d) => replace(d, token, "[redacted]"),
            None => replace("Telegram rejected request", token, "[redacted]"),
        };
        return Err(Failure { code, retry_after, detail: description });
    }
    Ok(body.take("result"))
}

/// The Bot's id from `getMe` and `getWebhookInfo`: polling is refused while a webhook is set.
pub fn identity_of(me: &Json, webhook: &Json) -> (r: Result<i64, Failure>)
    ensures
        match r {
            Ok(id) => !webhook_set(*webhook) && me.at("id"@).i64_of() == Some(id),
            Err(f) => if webhook_set(*webhook) {
                f.code == 409 && f.retry_after is None && f.detail@
                    == "existing webhook prevents polling; configuration was not changed"@
            } else {
                me.at("id"@).i64_of() is None && is_invalid(f, "missing Bot identity"@)
            },
        },
{
    let set = match webhook.member("url").as_str() {
        Some(u) => !u.is_empty(),
        None => false,
    };
    if set {
        return Err(
            Failure {
                code: 409,
                retry_after: None,
                detail: owned("existing webhook prevents polling; configuration was not changed"),
            },
        );
    }
    match me.i64_at("id") {
        Some(id) => Ok(id),
        None => Err(Failure::invalid("missing Bot identity")),
    }
}

pub open spec fn webhook_set(webhook: Json) -> bool {
    match webhook.at("url"@).str_of() {
        Some(u) => u.len() > 0,
        None => false,
    }
}

/// The thread of a Topic that `createForumTopic` created.
pub fn thread_of(created: &Json) -> (r: Result<i64, Failure>)
    ensures
        match r {
            Ok(t) => created.at("message_thread_id"@).i64_of() == Some(t),
            Err(f) => created.at("message_thread_id"@).i64_of() is None && is_invalid(
                f,
                "missing Topic identifier"@,
            ),
        },
{
    match created.i64_at("message_thread_id") {
        Some(t) => Ok(t),
        None => Err(Failure::invalid("missing Topic identifier")),
    }
}

/// The call that closes or reopens a Topic.
pub fn topic_state_request(chat: i64, thread: i64, closed: bool) -> (r: (String, Json))
    ensures
        r.0@ == if closed {
            "closeForumTopic"@
        } else {
            "reopenForumTopic"@
        },
        r.1.at("chat_id"@) == Json::Int(chat),
        r.1.at("message_thread_id"@) == Json::Int(thread),
        r.1 matches Json::Object(f) && f@.len() == 2,
{
    let method = if closed {
        owned("closeForumTopic")
    } else {
        owned("reopenForumTopic")
    };
    let payload = Json::Object(
        vec![member_of("chat_id", int_value(chat)), member_of("message_thread_id", int_value(thread))],
    );
    proof {
        reveal_strlit("chat_id");
        reveal_strlit("message_thread_id");
        lemma_members(payload->Object_0@, "chat_id"@);
        lemma_members(payload->Object_0@, "message_thread_id"@);
        assert("chat_id"@.len() != "message_thread_id"@.len());
    }
    (method, payload)
}

/// The call that creates a Topic.
pub fn create_topic_request(chat: i64, name: &str) -> (r: (String, Json))
    ensures
        r.0@ == "createForumTopic"@,
        r.1.at("chat_id"@) == Json::Int(chat),
        r.1.at("name"@).str_of() == Some(name@),
        r.1 matches Json::Object(f) && f@.len() == 2,
{
    let payload = Json::Object(
        vec![member_of("chat_id", int_value(chat)), member_of("name", text_value(name))],
    );
    proof {
        reveal_strlit("chat_id");
        reveal_strlit("name");
        lemma_members(payload->Object_0@, "chat_id"@);
        lemma_members(payload->Object_0@, "name"@);
        assert("chat_id"@.len() != "name"@.len());
    }
    (owned("createForumTopic"), payload)
}

/// The call that performs a delivery: `sendMessage` (in the thread, replying to the quoted
/// Telegram message, where those are given) or a ❤ `setMessageReaction`.
pub fn delivery_request(chat: i64, delivery: &Delivery) -> (r: Result<(String, Json), Failure>)
    ensures
        match *delivery {
            Delivery::Send { text, thread, quote } => r is Ok && ({
                let (m, p) = r->Ok_0;
                &&& m@ == "sendMessage"@
                &&& p.at("chat_id"@) == Json::Int(chat)
                &&& p.at("text"@).str_of() == Some(text@)
                &&& p.at("message_thread_id"@) == match thread {
                    Some(t) => Json::Int(t),
                    None => Json::Null,
                }
                &&& match quote {
                    Some(q) => p.at("reply_parameters"@).at("message_id"@) == Json::Int(q),
                    None => p.get_spec("reply_parameters"@) is None,
                }
            }),
            Delivery::Heart { target } => match target {
                Some(t) => r is Ok && ({
                    let (m, p) = r->Ok_0;
                    &&& m@ == "setMessageReaction"@
                    &&& p.at("chat_id"@) == Json::Int(chat)
                    &&& p.at("message_id"@) == Json::Int(t)
                    &&& p.at("reaction"@) matches Json::Array(items) && items@.len() == 1
                        && items@[0].at("type"@).str_of() == Some("emoji"@)
                        && items@[0].at("emoji"@).str_of() == Some("❤"@)
                }),
                None => r is Err && is_invalid(r->Err_0, "missing receipt target"@),
            },
        },
{
    proof {
        reveal_strlit("chat_id");
        reveal_strlit("text");
        reveal_strlit("message_thread_id");
        reveal_strlit("reply_parameters");
        reveal_strlit("message_id");
        reveal_strlit("reaction");
        reveal_strlit("type");
        reveal_strlit("emoji");
        assert("chat_id"@.len() != "text"@.len());
        assert("chat_id"@.len() != "message_thread_id"@.len());
        assert("chat_id"@.len() != "reply_parameters"@.len());
        assert("text"@.len() != "message_thread_id"@.len());
        assert("text"@.len() != "reply_parameters"@.len());
        assert("message_thread_id"@.len() != "reply_parameters"@.len());
        assert("chat_id"@.len() != "message_id"@.len());
        assert("chat_id"@.len() != "reaction"@.len());
        assert("message_id"@.len() != "reaction"@.len());
        assert("type"@.len() != "emoji"@.len());
    }
    match delivery {
        Delivery::Send { text, thread, quote } => {
            let mut fields = vec![member_of("chat_id", int_value(chat)), member_of("text", text_value(text.as_str()))];
            match thread {
                Some(t) => fields.push(member_of("message_thread_id", int_value(*t))),
                None => {},
            }
            match quote {
                Some(q) => {
                    let reply = Json::Object(vec![member_of("message_id", int_value(*q))]);
                    proof {
                        lemma_members(reply->Object_0@, "message_id"@);
                    }
                    fields.push(member_of("reply_parameters", reply));
                },
                None => {},
            }
            proof {
                lemma_members(fields@, "chat_id"@);
                lemma_members(fields@, "text"@);
                lemma_members(fields@, "message_thread_id"@);
                lemma_members(fields@, "reply_parameters"@);
            }
            Ok((owned("sendMessage"), Json::Object(fields)))
        },
        Delivery::Heart { target } => match target {
            Some(t) => {
                let heart = Json::Object(
                    vec![member_of("type", text_value("emoji")), member_of("emoji", text_value("❤"))],
                );
                let items: Vec<Json> = vec![heart];
                let payload = Json::Object(
                    vec![
                        member_of("chat_id", int_value(chat)),
                        member_of("message_id", int_value(*t)),
                        member_of("reaction", Json::Array(items)),
                    ],
                );
                proof {
                    lemma_members(heart->Object_0@, "type"@);
                    lemma_members(heart->Object_0@, "emoji"@);
                    lemma_members(payload->Object_0@, "chat_id"@);
                    lemma_members(payload->Object_0@, "message_id"@);
                    lemma_members(payload->Object_0@, "reaction"@);
                }
                Ok((owned("setMessageReaction"), payload))
            },
            None => Err(Failure::invalid("missing receipt target")),
        },
    }
}

/// What a delivery returns from Telegram's result: the new message's id for a send.
pub fn delivery_result(delivery: &Delivery, result: &Json) -> (r: Result<Option<i64>, Failure>)
    ensures
        match *delivery {
            Delivery::Send { .. } => match result.at("message_id"@).i64_of() {
                Some(id) => r == Ok::<Option<i64>, Failure>(Some(id)),
                None => r is Err && is_invalid(
                    r->Err_0,
                    "missing message identifier; delivery outcome unknown"@,
                ),
            },
            Delivery::Heart { .. } => r == Ok::<Option<i64>, Failure>(None),
        },
{
    match delivery {
        Delivery::Send { .. } => match result.i64_at("message_id") {
            Some(id) => Ok(Some(id)),
            None => Err(Failure::invalid("missing message identifier; delivery outcome unknown")),
        },
        Delivery::Heart { .. } => Ok(None),
    }
}

/// The long poll for updates after `offset`.
pub fn updates_request(offset: Option<i64>) -> (r: Json)
    ensures
        r.at("timeout"@) == Json::Int(25),
        r.at("allowed_updates"@) matches Json::Array(items) && items@.len() == 2
            && items@[0].str_of() == Some("message"@) && items@[1].str_of() == Some("my_chat_member"@),
        r.at("offset"@) == match offset {
            Some(o) => Json::Int(o),
            None => Json::Null,
        },
{
    let kinds: Vec<Json> = vec![text_value("message"), text_value("my_chat_member")];
    let mut fields = vec![member_of("timeout", int_value(25)), member_of("allowed_updates", Json::Array(kinds))];
    match offset {
        Some(o) => fields.push(member_of("offset", int_value(o))),
        None => {},
    }
    proof {
        reveal_strlit("timeout");
        reveal_strlit("allowed_updates");
        reveal_strlit("offset");
        assert("timeout"@.len() != "allowed_updates"@.len());
        assert("timeout"@.len() != "offset"@.len());
        assert("allowed_updates"@.len() != "offset"@.len());
        lemma_members(fields@, "timeout"@);
        lemma_members(fields@, "allowed_updates"@);
        lemma_members(fields@, "offset"@);
    }
    Json::Object(fields)
}

} // verus!

verus! {

// ---------------------------------------------------------------- updates

/// One update from `getUpdates`, with the raw JSON text it arrived as.
#[derive(Debug)]
pub struct Update {
    pub id: i64,
    pub raw: String,
    pub event: Event,
}

#[derive(Debug)]
pub enum Event {
    Membership { chat: i64, title: String, actor: i64, present: bool },
    Message(Message),
    Other,
}

/// A message from a User, or a Topic service message.
#[derive(Debug)]
pub struct Message {
    pub id: i64,
    pub chat: i64,
    pub title: String,
    pub group: bool,
    pub user: i64,
    pub language: String,
    pub thread: Option<i64>,
    pub date: i64,
    pub content: String,
    pub quote: Option<i64>,
    pub topic_event: Option<TopicEvent>,
}

#[derive(Debug)]
pub enum TopicEvent {
    Created(String),
    Closed,
    Reopened,
}

pub open spec fn missing_id(key: Seq<char>) -> Seq<char> {
    "missing Telegram "@ + key
}

/// A chat's title, `Group` when it has none.
pub open spec fn title_of(chat: Json) -> Seq<char> {
    match chat.at("title"@).str_of() {
        Some(t) => t,
        None => "Group"@,
    }
}

/// A Topic service message: creation, closure or reopening.
pub open spec fn is_service(m: Json) -> bool {
    m.get_spec("forum_topic_created"@) is Some || m.get_spec("forum_topic_closed"@) is Some
        || m.get_spec("forum_topic_reopened"@) is Some
}

/// The User a message is attributed to; none for messages of bots, channels and anonymous
/// administrators. Service messages without a sender count as User 0.
pub open spec fn sender_of(m: Json) -> Option<i64> {
    if !is_service(m) && (m.get_spec("sender_chat"@) is Some || m.at("from"@).at("is_bot"@).is_true()) {
        None
    } else {
        match m.at("from"@).at("id"@).i64_of() {
            Some(u) => Some(u),
            None => if is_service(m) {
                Some(0)
            } else {
                None
            },
        }
    }
}

/// The first kind of attachment the message has, in the order photo, document, voice, video,
/// audio, sticker, animation, contact, location, poll.
pub open spec fn kind_of(m: Json) -> Seq<char> {
    if m.get_spec("photo"@) is Some {
        "photo"@
    } else if m.get_spec("document"@) is Some {
        "document"@
    } else if m.get_spec("voice"@) is Some {
        "voice"@
    } else if m.get_spec("video"@) is Some {
        "video"@
    } else if m.get_spec("audio"@) is Some {
        "audio"@
    } else if m.get_spec("sticker"@) is Some {
        "sticker"@
    } else if m.get_spec("animation"@) is Some {
        "animation"@
    } else if m.get_spec("contact"@) is Some {
        "contact"@
    } else if m.get_spec("location"@) is Some {
        "location"@
    } else if m.get_spec("poll"@) is Some {
        "poll"@
    } else {
        "unsupported message"@
    }
}

/// The text a message carries: its text, or a `[kind]` marker followed by any caption.
pub open spec fn content_of(m: Json) -> Seq<char> {
    match m.at("text"@).str_of() {
        Some(t) => t,
        None => {
            let caption = match m.at("caption"@).str_of() {
                Some(c) => c,
                None => ""@,
            };
            if caption.len() == 0 {
                "["@ + kind_of(m) + "]"@
            } else {
                "["@ + kind_of(m) + "] "@ + caption
            }
        },
    }
}

/// The Topic event of a service message.
pub open spec fn event_matches(e: Option<TopicEvent>, m: Json) -> bool {
    if m.get_spec("forum_topic_created"@) is Some {
        e matches Some(TopicEvent::Created(name)) && name@ == match m.at("forum_topic_created"@).at(
            "name"@,
        ).str_of() {
            Some(n) => n,
            None => ""@,
        }
    } else if m.get_spec("forum_topic_closed"@) is Some {
        e matches Some(TopicEvent::Closed)
    } else if m.get_spec("forum_topic_reopened"@) is Some {
        e matches Some(TopicEvent::Reopened)
    } else {
        e is None
    }
}

/// The message that `m` describes, sent by `user`.
pub open spec fn message_matches(x: Message, m: Json, user: i64) -> bool {
    &&& m.at("message_id"@).i64_of() == Some(x.id)
    &&& m.at("chat"@).at("id"@).i64_of() == Some(x.chat)
    &&& x.title@ == title_of(m.at("chat"@))
    &&& x.group == (m.at("chat"@).at("type"@).str_of() != Some("private"@))
    &&& x.user == user
    &&& x.language@ == match m.at("from"@).at("language_code"@).str_of() {
        Some(l) => l,
        None => ""@,
    }
    &&& x.thread == m.at("message_thread_id"@).i64_of()
    &&& x.date == clamp64(m.at("date"@).i64_of().unwrap() * 1000)
    &&& m.at("date"@).i64_of() is Some
    &&& x.content@ == content_of(m)
    &&& x.quote == m.at("reply_to_message"@).at("message_id"@).i64_of()
    &&& event_matches(x.topic_event, m)
}

/// Why `v` is not a usable update, if it is not.
pub open spec fn update_error(v: Json) -> Option<Seq<char>> {
    if v.at("update_id"@).i64_of() is None {
        Some("missing update_id"@)
    } else if v.get_spec("my_chat_member"@) is Some {
        let m = v.at("my_chat_member"@);
        if m.at("chat"@).at("id"@).i64_of() is None || m.at("from"@).at("id"@).i64_of() is None {
            Some(missing_id("id"@))
        } else {
            None
        }
    } else if v.get_spec("message"@) is Some {
        let m = v.at("message"@);
        if sender_of(m) is None {
            None
        } else if m.at("message_id"@).i64_of() is None {
            Some(missing_id("message_id"@))
        } else if m.at("chat"@).at("id"@).i64_of() is None {
            Some(missing_id("id"@))
        } else if m.at("date"@).i64_of() is None {
            Some(missing_id("date"@))
        } else {
            None
        }
    } else {
        None
    }
}

/// `u` is the update that `v` describes.
pub open spec fn update_matches(u: Update, v: Json, raw: Seq<char>) -> bool {
    &&& v.at("update_id"@).i64_of() == Some(u.id)
    &&& u.raw@ == raw
    &&& if v.get_spec("my_chat_member"@) is Some {
        let m = v.at("my_chat_member"@);
        u.event matches Event::Membership { chat, title, actor, present } && m.at("chat"@).at(
            "id"@,
        ).i64_of() == Some(chat) && title@ == title_of(m.at("chat"@)) && m.at("from"@).at(
            "id"@,
        ).i64_of() == Some(actor) && present == !(m.at("new_chat_member"@).at("status"@).str_of()
            == Some("left"@) || m.at("new_chat_member"@).at("status"@).str_of() == Some(
            "kicked"@,
        ))
    } else if v.get_spec("message"@) is Some {
        let m = v.at("message"@);
        match sender_of(m) {
            Some(user) => u.event matches Event::Message(x) && message_matches(x, m, user),
            None => u.event is Other,
        }
    } else {
        u.event is Other
    }
}

fn missing(key: &str) -> (f: Failure)
    ensures
        is_invalid(f, missing_id(key@)),
{
    let mut d = owned("missing Telegram ");
    push_str(&mut d, key);
    Failure { code: 0, retry_after: None, detail: d }
}

fn chat_title(chat: &Json) -> (t: String)
    ensures
        t@ == title_of(*chat),
{
    match chat.member("title").as_str() {
        Some(t) => owned(t),
        None => owned("Group"),
    }
}

fn service(m: &Json) -> (r: bool)
    ensures
        r == is_service(*m),
{
    m.has("forum_topic_created") || m.has("forum_topic_closed") || m.has("forum_topic_reopened")
}

fn sender(m: &Json) -> (r: Option<i64>)
    ensures
        r == sender_of(*m),
{
    let s = service(m);
    if !s && (m.has("sender_chat") || m.member("from").member("is_bot").true_value()) {
        return None;
    }
    match m.member("from").i64_at("id") {
        Some(u) => Some(u),
        None => if s {
            Some(0)
        } else {
            None
        },
    }
}

fn kind(m: &Json) -> (k: &'static str)
    ensures
        k@ == kind_of(*m),
{
    if m.has("photo") {
        "photo"
    } else if m.has("document") {
        "document"
    } else if m.has("voice") {
        "voice"
    } else if m.has("video") {
        "video"
    } else if m.has("audio") {
        "audio"
    } else if m.has("sticker") {
        "sticker"
    } else if m.has("animation") {
        "animation"
    } else if m.has("contact") {
        "contact"
    } else if m.has("location") {
        "location"
    } else if m.has("poll") {
        "poll"
    } else {
        "unsupported message"
    }
}

fn content(m: &Json) -> (c: String)
    ensures
        c@ == content_of(*m),
{
    match m.member("text").as_str() {
        Some(t) => owned(t),
        None => {
            let caption = match m.member("caption").as_str() {
                Some(c) => c,
                None => "",
            };
            let mut s = owned("[");
            push_str(&mut s, kind(m));
            if caption.is_empty() {
                push_str(&mut s, "]");
            } else {
                push_str(&mut s, "] ");
                push_str(&mut s, caption);
            }
            s
        },
    }
}

fn topic_event(m: &Json) -> (e: Option<TopicEvent>)
    ensures
        event_matches(e, *m),
{
    if m.has("forum_topic_created") {
        let name = match m.member("forum_topic_created").member("name").as_str() {
            Some(n) => owned(n),
            None => owned(""),
        };
        Some(TopicEvent::Created(name))
    } else if m.has("forum_topic_closed") {
        Some(TopicEvent::Closed)
    } else if m.has("forum_topic_reopened") {
        Some(TopicEvent::Reopened)
    } else {
        None
    }
}

impl Update {
    /// Reads one update; `raw` is the JSON text it arrived as.
    pub fn decode(value: &Json, raw: &str) -> (r: Result<Update, Failure>)
        ensures
            match r {
                Ok(u) => update_error(*value) is None && update_matches(u, *value, raw@),
                Err(f) => update_error(*value) == Some(f.detail@) && f.code == 0 && f.retry_after is None,
            },
    {
        let id = match value.i64_at("update_id") {
            Some(id) => id,
            None => return Err(Failure::invalid("missing update_id")),
        };
        let event = if value.has("my_chat_member") {
            let member = value.member("my_chat_member");
            let chat = match member.member("chat").i64_at("id") {
                Some(c) => c,
                None => return Err(missing("id")),
            };
            let title = chat_title(member.member("chat"));
            let actor = match member.member("from").i64_at("id") {
                Some(a) => a,
                None => return Err(missing("id")),
            };
            let present = match member.member("new_chat_member").member("status").as_str() {
                Some(s) => !(str_eq(s, "left") || str_eq(s, "kicked")),
                None => true,
            };
            Event::Membership { chat, title, actor, present }
        } else if value.has("message") {
            let message = value.member("message");
            match sender(message) {
                Some(user) => {
                    let topic_event = topic_event(message);
                    let content = content(message);
                    let id = match message.i64_at("message_id") {
                        Some(i) => i,
                        None => return Err(missing("message_id")),
                    };
                    let chat = match message.member("chat").i64_at("id") {
                        Some(c) => c,
                        None => return Err(missing("id")),
                    };
                    let title = chat_title(message.member("chat"));
                    let group = match message.member("chat").member("type").as_str() {
                        Some(t) => !str_eq(t, "private"),
                        None => true,
                    };
                    let language = match message.member("from").member("language_code").as_str() {
                        Some(l) => owned(l),
                        None => owned(""),
                    };
                    let thread = message.i64_at("message_thread_id");
                    let date = match message.i64_at("date") {
                        Some(d) => saturating_mul(d, 1000),
                        None => return Err(missing("date")),
                    };
                    let quote = message.member("reply_to_message").i64_at("message_id");
                    Event::Message(
                        Message {
                            id,
                            chat,
                            title,
                            group,
                            user,
                            language,
                            thread,
                            date,
                            content,
                            quote,
                            topic_event,
                        },
                    )
                },
                None => Event::Other,
            }
        } else {
            Event::Other
        };
        Ok(Update { id, raw: owned(raw), event })
    }
}

/// Reads a batch of updates; `raws[i]` is the JSON text of the `i`th.
pub fn decode_updates(result: &Json, raws: &Vec<String>) -> (r: Result<Vec<Update>, Failure>)
    requires
        result matches Json::Array(items) ==> items@.len() == raws@.len(),
    ensures
        match *result {
            Json::Array(items) => match r {
                Ok(us) => us@.len() == items@.len() && forall|i: int|
                    0 <= i < items@.len() ==> update_error(items@[i]) is None && update_matches(
                        #[trigger] us@[i],
                        items@[i],
                        raws@[i]@,
                    ),
                Err(f) => exists|i: int|
                    0 <= i < items@.len() && update_error(items@[i]) == Some(f.detail@) && (forall|
                        j: int,
                    | 0 <= j < i ==> update_error(#[trigger] items@[j]) is None) && f.code == 0,
            },
            _ => r is Err && is_invalid(r->Err_0, "invalid updates response"@),
        },
{
    match result {
        Json::Array(items) => {
            let mut out: Vec<Update> = Vec::new();
            for i in 0..items.len()
                invariant
                    *result == Json::Array(*items),
                    items@.len() == raws@.len(),
                    out@.len() == i,
                    forall|j: int|
                        #![trigger items@[j]]
                        #![trigger out@[j]]
                        0 <= j < i ==> update_error(items@[j]) is None && update_matches(
                            out@[j],
                            items@[j],
                            raws@[j]@,
                        ),
            {
                match Update::decode(&items[i], raws[i].as_str()) {
                    Ok(u) => out.push(u),
                    Err(f) => {
                        assert(forall|j: int| 0 <= j < i ==> update_error(#[trigger] items@[j]) is None);
                        assert(update_error(items@[i as int]) == Some(f.detail@));
                        assert(items@[i as int] == items[i as int]);
                        return Err(f);
                    },
                }
            }
            Ok(out)
        },
        _ => Err(Failure::invalid("invalid updates response")),
    }
}

} // verus!
