//! The command catalogue that Agents use, and its HTTP form: `POST /v1/<command path>` with
//! one JSON object whose members are the command's arguments and the `agent` name.
use vstd::prelude::*;
use crate::json::{Json, field_in, lemma_field_in_absent, lemma_field_in_append, lemma_field_in_index,
    lemma_field_in_present, lemma_members, member_of, text_value};
use crate::model::{GroupInfo, Message, Subscription, TopicInfo};
use crate::text::{owned, str_eq};

verus! {

#[derive(Debug)]
#[allow(inconsistent_fields)]
pub enum Command {
    Agent(Agent),
    Whoami,
    Group(Group),
    Topic(Topic),
    Send { topic: String, content: String, quote: Option<String> },
    Unread { topic: String, cursor: Option<String>, limit: Option<u32> },
    History { topic: String, cursor: Option<String>, limit: Option<u32> },
    Ack { topic: String, through: String },
    Subscribe { topic: String, muted: bool },
    Subscriptions,
    Unsubscribe { topic: String },
    Mute { topic: String, off: bool },
    Wait { topic: Option<String>, timeout: Option<u64> },
}

#[derive(Debug)]
pub enum Agent {
    Register { name: Option<String> },
    List,
}

#[derive(Debug)]
pub enum Group {
    List,
}

#[derive(Debug)]
#[allow(inconsistent_fields)]
pub enum Topic {
    List { group: Option<String> },
    Show { topic: String },
    Create { group: String, name: String },
    Close { topic: String },
    Reopen { topic: String },
}

/// A command and the Agent that issues it.
#[derive(Debug)]
pub struct Request {
    pub agent: Option<String>,
    pub command: Command,
}

/// The command paths of the HTTP interface.
#[derive(Debug, PartialEq, Eq, Structural, Clone, Copy)]
pub enum Route {
    AgentRegister,
    AgentList,
    Whoami,
    GroupList,
    TopicList,
    TopicShow,
    TopicCreate,
    TopicClose,
    TopicReopen,
    Send,
    Unread,
    History,
    Ack,
    Subscribe,
    Subscriptions,
    Unsubscribe,
    Mute,
    Wait,
}

/// How an argument is written in JSON.
#[derive(Debug, PartialEq, Eq, Structural, Clone, Copy)]
pub enum FieldKind {
    /// A required string.
    Text,
    /// An optional string.
    OptText,
    /// An optional count that fits `u32`.
    Count32,
    /// An optional count that fits `u64`.
    Count64,
    /// A flag; absent means false.
    Flag,
}

pub open spec fn route_text(r: Route) -> Seq<char> {
    match r {
        Route::AgentRegister => "agent/register"@,
        Route::AgentList => "agent/list"@,
        Route::Whoami => "whoami"@,
        Route::GroupList => "group/list"@,
        Route::TopicList => "topic/list"@,
        Route::TopicShow => "topic/show"@,
        Route::TopicCreate => "topic/create"@,
        Route::TopicClose => "topic/close"@,
        Route::TopicReopen => "topic/reopen"@,
        Route::Send => "send"@,
        Route::Unread => "unread"@,
        Route::History => "history"@,
        Route::Ack => "ack"@,
        Route::Subscribe => "subscribe"@,
        Route::Subscriptions => "subscriptions"@,
        Route::Unsubscribe => "unsubscribe"@,
        Route::Mute => "mute"@,
        Route::Wait => "wait"@,
    }
}

/// The kind of argument `key` is on route `r`, if the route takes it.
pub open spec fn kind_for(r: Route, key: Seq<char>) -> Option<FieldKind> {
    match r {
        Route::AgentRegister => if key == "name"@ {
            Some(FieldKind::OptText)
        } else {
            None
        },
        Route::TopicList => if key == "group"@ {
            Some(FieldKind::OptText)
        } else {
            None
        },
        Route::TopicShow | Route::TopicClose | Route::TopicReopen | Route::Unsubscribe => if key
            == "topic"@ {
            Some(FieldKind::Text)
        } else {
            None
        },
        Route::TopicCreate => if key == "group"@ || key == "name"@ {
            Some(FieldKind::Text)
        } else {
            None
        },
        Route::Send => if key == "topic"@ || key == "content"@ {
            Some(FieldKind::Text)
        } else if key == "quote"@ {
            Some(FieldKind::OptText)
        } else {
            None
        },
        Route::Unread | Route::History => if key == "topic"@ {
            Some(FieldKind::Text)
        } else if key == "cursor"@ {
            Some(FieldKind::OptText)
        } else if key == "limit"@ {
            Some(FieldKind::Count32)
        } else {
            None
        },
        Route::Ack => if key == "topic"@ || key == "through"@ {
            Some(FieldKind::Text)
        } else {
            None
        },
        Route::Subscribe => if key == "topic"@ {
            Some(FieldKind::Text)
        } else if key == "muted"@ {
            Some(FieldKind::Flag)
        } else {
            None
        },
        Route::Mute => if key == "topic"@ {
            Some(FieldKind::Text)
        } else if key == "off"@ {
            Some(FieldKind::Flag)
        } else {
            None
        },
        Route::Wait => if key == "topic"@ {
            Some(FieldKind::OptText)
        } else if key == "timeout"@ {
            Some(FieldKind::Count64)
        } else {
            None
        },
        _ => None,
    }
}

/// The arguments that route `r` requires.
pub open spec fn required(r: Route) -> Seq<Seq<char>> {
    match r {
        Route::TopicShow | Route::TopicClose | Route::TopicReopen | Route::Unsubscribe
        | Route::Subscribe | Route::Mute | Route::Unread | Route::History => seq!["topic"@],
        Route::TopicCreate => seq!["group"@, "name"@],
        Route::Send => seq!["topic"@, "content"@],
        Route::Ack => seq!["topic"@, "through"@],
        _ => seq![],
    }
}

/// `v` is a JSON value of the kind.
pub open spec fn typed(k: FieldKind, v: Json) -> bool {
    match k {
        FieldKind::Text | FieldKind::OptText => v is Str,
        FieldKind::Count32 => v matches Json::Int(n) && 0 <= n <= u32::MAX,
        FieldKind::Count64 => (v matches Json::Int(n) && n >= 0) || v is UInt,
        FieldKind::Flag => v is Bool,
    }
}

/// Every member but `agent` is an argument of the route, of the right kind, and every
/// required argument is present.
pub open spec fn arguments_fit(r: Route, body: Json) -> bool {
    &&& body is Object
    &&& forall|i: int|
        #![trigger body->Object_0@[i]]
        0 <= i < body->Object_0@.len() && body->Object_0@[i].0@ != "agent"@ ==> match kind_for(
            r,
            body->Object_0@[i].0@,
        ) {
            Some(k) => typed(k, body->Object_0@[i].1),
            None => false,
        }
    &&& forall|j: int|
        0 <= j < required(r).len() ==> body.get_spec(#[trigger] required(r)[j]) is Some
}

pub open spec fn text_arg(body: Json, k: Seq<char>, v: String) -> bool {
    body.at(k).str_of() == Some(v@)
}

pub open spec fn opt_text_arg(body: Json, k: Seq<char>, v: Option<String>) -> bool {
    match v {
        Some(s) => body.at(k).str_of() == Some(s@),
        None => body.get_spec(k) is None,
    }
}

pub open spec fn u64_json(n: u64) -> Json {
    if n <= i64::MAX {
        Json::Int(n as i64)
    } else {
        Json::UInt(n)
    }
}

pub open spec fn opt_u32_arg(body: Json, k: Seq<char>, v: Option<u32>) -> bool {
    match v {
        Some(n) => body.get_spec(k) == Some(Json::Int(n as i64)),
        None => body.get_spec(k) is None,
    }
}

pub open spec fn opt_u64_arg(body: Json, k: Seq<char>, v: Option<u64>) -> bool {
    match v {
        Some(n) => body.get_spec(k) is Some && body.at(k).u64_of() == Some(n),
        None => body.get_spec(k) is None,
    }
}

/// A flag argument: absent means false.
pub open spec fn flag_arg(body: Json, k: Seq<char>, v: bool) -> bool {
    match body.get_spec(k) {
        Some(x) => x == Json::Bool(v),
        None => !v,
    }
}

/// The route of a command.
pub open spec fn route_of(c: Command) -> Route {
    match c {
        Command::Agent(Agent::Register { .. }) => Route::AgentRegister,
        Command::Agent(Agent::List) => Route::AgentList,
        Command::Whoami => Route::Whoami,
        Command::Group(Group::List) => Route::GroupList,
        Command::Topic(Topic::List { .. }) => Route::TopicList,
        Command::Topic(Topic::Show { .. }) => Route::TopicShow,
        Command::Topic(Topic::Create { .. }) => Route::TopicCreate,
        Command::Topic(Topic::Close { .. }) => Route::TopicClose,
        Command::Topic(Topic::Reopen { .. }) => Route::TopicReopen,
        Command::Send { .. } => Route::Send,
        Command::Unread { .. } => Route::Unread,
        Command::History { .. } => Route::History,
        Command::Ack { .. } => Route::Ack,
        Command::Subscribe { .. } => Route::Subscribe,
        Command::Subscriptions => Route::Subscriptions,
        Command::Unsubscribe { .. } => Route::Unsubscribe,
        Command::Mute { .. } => Route::Mute,
        Command::Wait { .. } => Route::Wait,
    }
}

/// The command's arguments are the body's members.
pub open spec fn arguments_of(c: Command, body: Json) -> bool {
    match c {
        Command::Agent(Agent::Register { name }) => opt_text_arg(body, "name"@, name),
        Command::Topic(Topic::List { group }) => opt_text_arg(body, "group"@, group),
        Command::Topic(Topic::Show { topic }) => text_arg(body, "topic"@, topic),
        Command::Topic(Topic::Create { group, name }) => text_arg(body, "group"@, group) && text_arg(
            body,
            "name"@,
            name,
        ),
        Command::Topic(Topic::Close { topic }) => text_arg(body, "topic"@, topic),
        Command::Topic(Topic::Reopen { topic }) => text_arg(body, "topic"@, topic),
        Command::Send { topic, content, quote } => text_arg(body, "topic"@, topic) && text_arg(
            body,
            "content"@,
            content,
        ) && opt_text_arg(body, "quote"@, quote),
        Command::Unread { topic, cursor, limit } => text_arg(body, "topic"@, topic) && opt_text_arg(
            body,
            "cursor"@,
            cursor,
        ) && opt_u32_arg(body, "limit"@, limit),
        Command::History { topic, cursor, limit } => text_arg(body, "topic"@, topic)
            && opt_text_arg(body, "cursor"@, cursor) && opt_u32_arg(body, "limit"@, limit),
        Command::Ack { topic, through } => text_arg(body, "topic"@, topic) && text_arg(
            body,
            "through"@,
            through,
        ),
        Command::Subscribe { topic, muted } => text_arg(body, "topic"@, topic) && flag_arg(
            body,
            "muted"@,
            muted,
        ),
        Command::Unsubscribe { topic } => text_arg(body, "topic"@, topic),
        Command::Mute { topic, off } => text_arg(body, "topic"@, topic) && flag_arg(body, "off"@, off),
        Command::Wait { topic, timeout } => opt_text_arg(body, "topic"@, topic) && opt_u64_arg(
            body,
            "timeout"@,
            timeout,
        ),
        _ => true,
    }
}

/// Why `Request::new` refuses a request, if it does.
pub open spec fn request_problem(agent: Option<String>, c: Command) -> Option<Seq<char>> {
    if !(c matches Command::Agent(Agent::Register { .. })) && agent is None {
        Some("agent is required"@)
    } else if c matches Command::Unread { limit: Some(0), .. } {
        Some("limit must be positive"@)
    } else if c matches Command::History { limit: Some(0), .. } {
        Some("limit must be positive"@)
    } else if c matches Command::Wait { timeout: Some(t), .. } && t > i64::MAX / 1000 {
        Some("timeout is too large"@)
    } else {
        None
    }
}

/// No member of the object is `null`.
pub open spec fn no_nulls(body: Json) -> bool {
    forall|i: int| 0 <= i < body->Object_0@.len() ==> !(#[trigger] body->Object_0@[i].1 is Null)
}

/// The Agent named by the body: absent, or a string.
pub open spec fn agent_arg(body: Json, agent: Option<String>) -> bool {
    match agent {
        Some(a) => body.at("agent"@).str_of() == Some(a@),
        None => body.get_spec("agent"@) is None,
    }
}

/// Why the body of a request on `route` is not a command, if it is not.
pub open spec fn decode_problem(route: Seq<char>, body: Json) -> Option<Seq<char>> {
    if !(body is Object) {
        Some("request must be an object"@)
    } else if !no_nulls(body) {
        Some("parameters must not be null"@)
    } else if body.get_spec("agent"@) is Some && !(body.at("agent"@) is Str) {
        Some("agent must be a string"@)
    } else {
        None
    }
}

impl Request {
    pub fn new(agent: Option<String>, command: Command) -> (r: Result<Request, String>)
        ensures
            match r {
                Ok(req) => request_problem(agent, command) is None && req.agent == agent
                    && req.command == command,
                Err(e) => request_problem(agent, command) == Some(e@),
            },
    {
        let is_register = match &command {
            Command::Agent(Agent::Register { .. }) => true,
            _ => false,
        };
        if !is_register && agent.is_none() {
            return Err(owned("agent is required"));
        }
        let problem = match &command {
            Command::Unread { limit: Some(0), .. } => 1u8,
            Command::History { limit: Some(0), .. } => 1u8,
            Command::Wait { timeout: Some(t), .. } => if *t > 9_223_372_036_854_775u64 {
                2u8
            } else {
                0u8
            },
            _ => 0u8,
        };
        if problem == 1 {
            return Err(owned("limit must be positive"));
        }
        if problem == 2 {
            return Err(owned("timeout is too large"));
        }
        Ok(Request { agent, command })
    }
}

/// The first characters and lengths of the argument names, which tell them apart.
proof fn lemma_argument_names()
    ensures
        "agent"@.len() == 5 && "agent"@[0] == 'a' && "agent"@[1] == 'g',
        "name"@.len() == 4 && "name"@[0] == 'n' && "name"@[1] == 'a',
        "group"@.len() == 5 && "group"@[0] == 'g' && "group"@[1] == 'r',
        "topic"@.len() == 5 && "topic"@[0] == 't' && "topic"@[1] == 'o',
        "content"@.len() == 7 && "content"@[0] == 'c' && "content"@[1] == 'o',
        "quote"@.len() == 5 && "quote"@[0] == 'q' && "quote"@[1] == 'u',
        "cursor"@.len() == 6 && "cursor"@[0] == 'c' && "cursor"@[1] == 'u',
        "limit"@.len() == 5 && "limit"@[0] == 'l' && "limit"@[1] == 'i',
        "through"@.len() == 7 && "through"@[0] == 't' && "through"@[1] == 'h',
        "muted"@.len() == 5 && "muted"@[0] == 'm' && "muted"@[1] == 'u',
        "off"@.len() == 3 && "off"@[0] == 'o' && "off"@[1] == 'f',
        "timeout"@.len() == 7 && "timeout"@[0] == 't' && "timeout"@[1] == 'i',
{
    reveal_strlit("agent");
    reveal_strlit("name");
    reveal_strlit("group");
    reveal_strlit("topic");
    reveal_strlit("content");
    reveal_strlit("quote");
    reveal_strlit("cursor");
    reveal_strlit("limit");
    reveal_strlit("through");
    reveal_strlit("muted");
    reveal_strlit("off");
    reveal_strlit("timeout");
}

/// The route that a command path names.
pub open spec fn route_named(route: Seq<char>) -> Option<Route> {
    if route == "agent/register"@ {
        Some(Route::AgentRegister)
    } else if route == "agent/list"@ {
        Some(Route::AgentList)
    } else if route == "whoami"@ {
        Some(Route::Whoami)
    } else if route == "group/list"@ {
        Some(Route::GroupList)
    } else if route == "topic/list"@ {
        Some(Route::TopicList)
    } else if route == "topic/show"@ {
        Some(Route::TopicShow)
    } else if route == "topic/create"@ {
        Some(Route::TopicCreate)
    } else if route == "topic/close"@ {
        Some(Route::TopicClose)
    } else if route == "topic/reopen"@ {
        Some(Route::TopicReopen)
    } else if route == "send"@ {
        Some(Route::Send)
    } else if route == "unread"@ {
        Some(Route::Unread)
    } else if route == "history"@ {
        Some(Route::History)
    } else if route == "ack"@ {
        Some(Route::Ack)
    } else if route == "subscribe"@ {
        Some(Route::Subscribe)
    } else if route == "subscriptions"@ {
        Some(Route::Subscriptions)
    } else if route == "unsubscribe"@ {
        Some(Route::Unsubscribe)
    } else if route == "mute"@ {
        Some(Route::Mute)
    } else if route == "wait"@ {
        Some(Route::Wait)
    } else {
        None
    }
}

/// The body is a command on the route that the path names.
pub open spec fn command_fits(route: Seq<char>, body: Json) -> bool {
    match route_named(route) {
        Some(r) => arguments_fit(r, body),
        None => false,
    }
}

/// What an undecodable body is answered.
pub open spec fn invalid_command_text() -> Seq<char> {
    "invalid command: arguments do not match the command"@
}

/// The two commands are the same, argument by argument.
pub open spec fn same_command(a: Command, b: Command) -> bool {
    match (a, b) {
        (Command::Agent(Agent::Register { name: x }), Command::Agent(Agent::Register { name: y })) => same_opt(x, y),
        (Command::Agent(Agent::List), Command::Agent(Agent::List)) => true,
        (Command::Whoami, Command::Whoami) => true,
        (Command::Group(Group::List), Command::Group(Group::List)) => true,
        (Command::Topic(Topic::List { group: x }), Command::Topic(Topic::List { group: y })) => same_opt(x, y),
        (Command::Topic(Topic::Show { topic: x }), Command::Topic(Topic::Show { topic: y })) => x@ == y@,
        (Command::Topic(Topic::Create { group: g1, name: n1 }), Command::Topic(Topic::Create { group: g2, name: n2 })) =>
            g1@ == g2@ && n1@ == n2@,
        (Command::Topic(Topic::Close { topic: x }), Command::Topic(Topic::Close { topic: y })) => x@ == y@,
        (Command::Topic(Topic::Reopen { topic: x }), Command::Topic(Topic::Reopen { topic: y })) => x@ == y@,
        (Command::Send { topic: t1, content: c1, quote: q1 }, Command::Send { topic: t2, content: c2, quote: q2 }) =>
            t1@ == t2@ && c1@ == c2@ && same_opt(q1, q2),
        (Command::Unread { topic: t1, cursor: c1, limit: l1 }, Command::Unread { topic: t2, cursor: c2, limit: l2 }) =>
            t1@ == t2@ && same_opt(c1, c2) && l1 == l2,
        (Command::History { topic: t1, cursor: c1, limit: l1 }, Command::History { topic: t2, cursor: c2, limit: l2 }) =>
            t1@ == t2@ && same_opt(c1, c2) && l1 == l2,
        (Command::Ack { topic: t1, through: h1 }, Command::Ack { topic: t2, through: h2 }) => t1@ == t2@ && h1@ == h2@,
        (Command::Subscribe { topic: t1, muted: m1 }, Command::Subscribe { topic: t2, muted: m2 }) => t1@ == t2@ && m1 == m2,
        (Command::Subscriptions, Command::Subscriptions) => true,
        (Command::Unsubscribe { topic: x }, Command::Unsubscribe { topic: y }) => x@ == y@,
        (Command::Mute { topic: t1, off: o1 }, Command::Mute { topic: t2, off: o2 }) => t1@ == t2@ && o1 == o2,
        (Command::Wait { topic: t1, timeout: w1 }, Command::Wait { topic: t2, timeout: w2 }) => same_opt(t1, t2) && w1 == w2,
        _ => false,
    }
}

pub open spec fn same_opt(a: Option<String>, b: Option<String>) -> bool {
    match (a, b) {
        (Some(x), Some(y)) => x@ == y@,
        (None, None) => true,
        _ => false,
    }
}

/// No two members of the object share a name.
pub open spec fn unique_keys(body: Json) -> bool {
    forall|i: int, j: int|
        0 <= i < body->Object_0@.len() && 0 <= j < body->Object_0@.len() && i != j
            ==> #[trigger] body->Object_0@[i].0@ != #[trigger] body->Object_0@[j].0@
}

/// The command's flags are written out, `false` included.
pub open spec fn flags_written(c: Command, body: Json) -> bool {
    match c {
        Command::Subscribe { muted, .. } => body.get_spec("muted"@) == Some(Json::Bool(muted)),
        Command::Mute { off, .. } => body.get_spec("off"@) == Some(Json::Bool(off)),
        _ => true,
    }
}

/// `route` and `body` are the HTTP form of the request: the command's path, and an object
/// holding exactly its arguments (absent optional ones left out, flags written out) and the
/// Agent's name, each member once.
pub open spec fn wire_form(req: Request, route: Seq<char>, body: Json) -> bool {
    &&& route == route_text(route_of(req.command))
    &&& body is Object
    &&& no_nulls(body)
    &&& unique_keys(body)
    &&& arguments_fit(route_of(req.command), body)
    &&& arguments_of(req.command, body)
    &&& flags_written(req.command, body)
    &&& agent_arg(body, req.agent)
}

/// `req` is what the HTTP form `route`, `body` asks for.
pub open spec fn decoded_form(req: Request, route: Seq<char>, body: Json) -> bool {
    &&& decode_problem(route, body) is None
    &&& command_fits(route, body)
    &&& route_named(route) == Some(route_of(req.command))
    &&& arguments_of(req.command, body)
    &&& agent_arg(body, req.agent)
    &&& request_problem(req.agent, req.command) is None
}

impl Route {
    pub fn named(route: &str) -> (r: Option<Route>)
        ensures
            r == route_named(route@),
    {
        if str_eq(route, "agent/register") {
            Some(Route::AgentRegister)
        } else if str_eq(route, "agent/list") {
            Some(Route::AgentList)
        } else if str_eq(route, "whoami") {
            Some(Route::Whoami)
        } else if str_eq(route, "group/list") {
            Some(Route::GroupList)
        } else if str_eq(route, "topic/list") {
            Some(Route::TopicList)
        } else if str_eq(route, "topic/show") {
            Some(Route::TopicShow)
        } else if str_eq(route, "topic/create") {
            Some(Route::TopicCreate)
        } else if str_eq(route, "topic/close") {
            Some(Route::TopicClose)
        } else if str_eq(route, "topic/reopen") {
            Some(Route::TopicReopen)
        } else if str_eq(route, "send") {
            Some(Route::Send)
        } else if str_eq(route, "unread") {
            Some(Route::Unread)
        } else if str_eq(route, "history") {
            Some(Route::History)
        } else if str_eq(route, "ack") {
            Some(Route::Ack)
        } else if str_eq(route, "subscribe") {
            Some(Route::Subscribe)
        } else if str_eq(route, "subscriptions") {
            Some(Route::Subscriptions)
        } else if str_eq(route, "unsubscribe") {
            Some(Route::Unsubscribe)
        } else if str_eq(route, "mute") {
            Some(Route::Mute)
        } else if str_eq(route, "wait") {
            Some(Route::Wait)
        } else {
            None
        }
    }

    pub fn path(&self) -> (s: &'static str)
        ensures
            s@ == route_text(*self),
    {
        match self {
            Route::AgentRegister => "agent/register",
            Route::AgentList => "agent/list",
            Route::Whoami => "whoami",
            Route::GroupList => "group/list",
            Route::TopicList => "topic/list",
            Route::TopicShow => "topic/show",
            Route::TopicCreate => "topic/create",
            Route::TopicClose => "topic/close",
            Route::TopicReopen => "topic/reopen",
            Route::Send => "send",
            Route::Unread => "unread",
            Route::History => "history",
            Route::Ack => "ack",
            Route::Subscribe => "subscribe",
            Route::Subscriptions => "subscriptions",
            Route::Unsubscribe => "unsubscribe",
            Route::Mute => "mute",
            Route::Wait => "wait",
        }
    }
}

/// The kind of argument `key` is on the route.
fn kind_of_key(r: Route, key: &str) -> (k: Option<FieldKind>)
    ensures
        k == kind_for(r, key@),
{
    match r {
        Route::AgentRegister => if str_eq(key, "name") {
            Some(FieldKind::OptText)
        } else {
            None
        },
        Route::TopicList => if str_eq(key, "group") {
            Some(FieldKind::OptText)
        } else {
            None
        },
        Route::TopicShow | Route::TopicClose | Route::TopicReopen | Route::Unsubscribe => if str_eq(
            key,
            "topic",
        ) {
            Some(FieldKind::Text)
        } else {
            None
        },
        Route::TopicCreate => if str_eq(key, "group") || str_eq(key, "name") {
            Some(FieldKind::Text)
        } else {
            None
        },
        Route::Send => if str_eq(key, "topic") || str_eq(key, "content") {
            Some(FieldKind::Text)
        } else if str_eq(key, "quote") {
            Some(FieldKind::OptText)
        } else {
            None
        },
        Route::Unread | Route::History => if str_eq(key, "topic") {
            Some(FieldKind::Text)
        } else if str_eq(key, "cursor") {
            Some(FieldKind::OptText)
        } else if str_eq(key, "limit") {
            Some(FieldKind::Count32)
        } else {
            None
        },
        Route::Ack => if str_eq(key, "topic") || str_eq(key, "through") {
            Some(FieldKind::Text)
        } else {
            None
        },
        Route::Subscribe => if str_eq(key, "topic") {
            Some(FieldKind::Text)
        } else if str_eq(key, "muted") {
            Some(FieldKind::Flag)
        } else {
            None
        },
        Route::Mute => if str_eq(key, "topic") {
            Some(FieldKind::Text)
        } else if str_eq(key, "off") {
            Some(FieldKind::Flag)
        } else {
            None
        },
        Route::Wait => if str_eq(key, "topic") {
            Some(FieldKind::OptText)
        } else if str_eq(key, "timeout") {
            Some(FieldKind::Count64)
        } else {
            None
        },
        _ => None,
    }
}

fn is_typed(k: FieldKind, v: &Json) -> (b: bool)
    ensures
        b == typed(k, *v),
{
    match k {
        FieldKind::Text | FieldKind::OptText => match v {
            Json::Str(_) => true,
            _ => false,
        },
        FieldKind::Count32 => match v {
            Json::Int(n) => 0 <= *n && *n <= 0xffff_ffff,
            _ => false,
        },
        FieldKind::Count64 => match v {
            Json::Int(n) => *n >= 0,
            Json::UInt(_) => true,
            _ => false,
        },
        FieldKind::Flag => match v {
            Json::Bool(_) => true,
            _ => false,
        },
    }
}

/// Whether the body's members are the route's arguments.
fn fits(r: Route, body: &Json) -> (b: bool)
    ensures
        b == arguments_fit(r, *body),
{
    match body {
        Json::Object(fields) => {
            for i in 0..fields.len()
                invariant
                    *body == Json::Object(*fields),
                    forall|j: int|
                        #![trigger fields@[j]]
                        0 <= j < i && fields@[j].0@ != "agent"@ ==> match kind_for(r, fields@[j].0@) {
                            Some(k) => typed(k, fields@[j].1),
                            None => false,
                        },
            {
                if !str_eq(fields[i].0.as_str(), "agent") {
                    match kind_of_key(r, fields[i].0.as_str()) {
                        Some(k) => if !is_typed(k, &fields[i].1) {
                            return false;
                        },
                        None => return false,
                    }
                }
            }
            let present = match r {
                Route::TopicShow | Route::TopicClose | Route::TopicReopen | Route::Unsubscribe
                | Route::Subscribe | Route::Mute | Route::Unread | Route::History => body.has("topic"),
                Route::TopicCreate => body.has("group") && body.has("name"),
                Route::Send => body.has("topic") && body.has("content"),
                Route::Ack => body.has("topic") && body.has("through"),
                _ => true,
            };
            proof {
                reveal_strlit("topic");
                reveal_strlit("group");
                reveal_strlit("name");
                reveal_strlit("content");
                reveal_strlit("through");
                let req = required(r);
                if present {
                    assert forall|j: int| 0 <= j < req.len() implies body.get_spec(#[trigger] req[j]) is Some by {
                    }
                } else {
                    if req.len() == 1 {
                        assert(body.get_spec(req[0]) is None);
                    } else {
                        assert(body.get_spec(req[0]) is None || body.get_spec(req[1]) is None);
                    }
                }
            }
            present
        },
        _ => false,
    }
}

fn text_member(r: Route, body: &Json, k: &str) -> (s: String)
    requires
        arguments_fit(r, *body),
        k@ != "agent"@,
        kind_for(r, k@) == Some(FieldKind::Text),
        body.get_spec(k@) is Some,
    ensures
        body.at(k@).str_of() == Some(s@),
{
    proof {
        lemma_member_kind(r, *body, k@);
    }
    match body.member(k).as_str() {
        Some(x) => owned(x),
        None => owned(""),
    }
}

fn opt_text_member(r: Route, body: &Json, k: &str) -> (s: Option<String>)
    requires
        arguments_fit(r, *body),
        k@ != "agent"@,
        kind_for(r, k@) == Some(FieldKind::OptText),
    ensures
        opt_text_arg(*body, k@, s),
{
    if body.has(k) {
        proof {
            lemma_member_kind(r, *body, k@);
        }
    }
    match body.get(k) {
        Some(v) => match v.as_str() {
            Some(x) => Some(owned(x)),
            None => None,
        },
        None => None,
    }
}

fn flag_member(r: Route, body: &Json, k: &str) -> (b: bool)
    requires
        arguments_fit(r, *body),
        k@ != "agent"@,
        kind_for(r, k@) == Some(FieldKind::Flag),
    ensures
        flag_arg(*body, k@, b),
{
    if body.has(k) {
        proof {
            lemma_member_kind(r, *body, k@);
        }
    }
    match body.get(k) {
        Some(v) => match v.as_bool() {
            Some(b) => b,
            None => false,
        },
        None => false,
    }
}

fn u32_member(r: Route, body: &Json, k: &str) -> (n: Option<u32>)
    requires
        arguments_fit(r, *body),
        k@ != "agent"@,
        kind_for(r, k@) == Some(FieldKind::Count32),
    ensures
        opt_u32_arg(*body, k@, n),
{
    if body.has(k) {
        proof {
            lemma_member_kind(r, *body, k@);
        }
    }
    match body.get(k) {
        Some(v) => match v {
            Json::Int(x) => Some(*x as u32),
            _ => None,
        },
        None => None,
    }
}

fn u64_member(r: Route, body: &Json, k: &str) -> (n: Option<u64>)
    requires
        arguments_fit(r, *body),
        k@ != "agent"@,
        kind_for(r, k@) == Some(FieldKind::Count64),
    ensures
        opt_u64_arg(*body, k@, n),
{
    if body.has(k) {
        proof {
            lemma_member_kind(r, *body, k@);
        }
    }
    match body.get(k) {
        Some(v) => match v {
            Json::Int(x) => Some(*x as u64),
            Json::UInt(x) => Some(*x),
            _ => None,
        },
        None => None,
    }
}

/// A member of an object that fits the route: its kind is the route's kind for its key.
proof fn lemma_member_kind(r: Route, body: Json, k: Seq<char>)
    requires
        arguments_fit(r, body),
        k != "agent"@,
        body.get_spec(k) is Some,
    ensures
        kind_for(r, k) is Some,
        typed(kind_for(r, k).unwrap(), body.at(k)),
{
    let f = body->Object_0@;
    lemma_field_in_index(f, k);
    let i = choose|i: int| 0 <= i < f.len() && f[i].0@ == k && field_in(f, k) == Some(f[i].1);
    assert(f[i].0@ != "agent"@);
}

/// The command that a fitting body describes.
fn command_from(r: Route, body: &Json) -> (c: Command)
    requires
        arguments_fit(r, *body),
    ensures
        route_of(c) == r,
        arguments_of(c, *body),
{
    proof {
        lemma_argument_names();
        let req = required(r);
        if req.len() > 0 {
            assert(body.get_spec(req[0]) is Some);
        }
        if req.len() > 1 {
            assert(body.get_spec(req[1]) is Some);
        }
    }
    match r {
        Route::AgentRegister => Command::Agent(Agent::Register { name: opt_text_member(r, body, "name") }),
        Route::AgentList => Command::Agent(Agent::List),
        Route::Whoami => Command::Whoami,
        Route::GroupList => Command::Group(Group::List),
        Route::TopicList => Command::Topic(Topic::List { group: opt_text_member(r, body, "group") }),
        Route::TopicShow => Command::Topic(Topic::Show { topic: text_member(r, body, "topic") }),
        Route::TopicCreate => Command::Topic(
            Topic::Create { group: text_member(r, body, "group"), name: text_member(r, body, "name") },
        ),
        Route::TopicClose => Command::Topic(Topic::Close { topic: text_member(r, body, "topic") }),
        Route::TopicReopen => Command::Topic(Topic::Reopen { topic: text_member(r, body, "topic") }),
        Route::Send => Command::Send {
            topic: text_member(r, body, "topic"),
            content: text_member(r, body, "content"),
            quote: opt_text_member(r, body, "quote"),
        },
        Route::Unread => Command::Unread {
            topic: text_member(r, body, "topic"),
            cursor: opt_text_member(r, body, "cursor"),
            limit: u32_member(r, body, "limit"),
        },
        Route::History => Command::History {
            topic: text_member(r, body, "topic"),
            cursor: opt_text_member(r, body, "cursor"),
            limit: u32_member(r, body, "limit"),
        },
        Route::Ack => Command::Ack {
            topic: text_member(r, body, "topic"),
            through: text_member(r, body, "through"),
        },
        Route::Subscribe => Command::Subscribe {
            topic: text_member(r, body, "topic"),
            muted: flag_member(r, body, "muted"),
        },
        Route::Subscriptions => Command::Subscriptions,
        Route::Unsubscribe => Command::Unsubscribe { topic: text_member(r, body, "topic") },
        Route::Mute => Command::Mute { topic: text_member(r, body, "topic"), off: flag_member(r, body, "off") },
        Route::Wait => Command::Wait {
            topic: opt_text_member(r, body, "topic"),
            timeout: u64_member(r, body, "timeout"),
        },
    }
}

fn no_null_members(body: &Json) -> (b: bool)
    requires
        body is Object,
    ensures
        b == no_nulls(*body),
{
    match body {
        Json::Object(fields) => {
            for i in 0..fields.len()
                invariant
                    *body == Json::Object(*fields),
                    forall|j: int| 0 <= j < i ==> !(#[trigger] fields@[j].1 is Null),
            {
                if fields[i].1.is_null() {
                    return false;
                }
            }
            true
        },
        _ => true,
    }
}

impl Request {
    /// Reads a request from its HTTP form: the command path and the JSON body.
    pub fn decode(route: &str, body: &Json) -> (r: Result<Request, String>)
        ensures
            match r {
                Ok(req) => decoded_form(req, route@, *body),
                Err(e) => match decode_problem(route@, *body) {
                    Some(p) => e@ == p,
                    None => if command_fits(route@, *body) {
                        exists|c: Command, a: Option<String>|
                            route_named(route@) == Some(route_of(c)) && arguments_of(c, *body) && agent_arg(
                                *body,
                                a,
                            ) && request_problem(a, c) == Some(e@)
                    } else {
                        e@ == invalid_command_text()
                    },
                },
            },
    {
        match body {
            Json::Object(_) => {},
            _ => return Err(owned("request must be an object")),
        }
        if !no_null_members(body) {
            return Err(owned("parameters must not be null"));
        }
        let agent = match body.get("agent") {
            Some(v) => match v.as_str() {
                Some(a) => Some(owned(a)),
                None => return Err(owned("agent must be a string")),
            },
            None => None,
        };
        let r = match Route::named(route) {
            Some(r) => r,
            None => return Err(owned("invalid command: arguments do not match the command")),
        };
        if !fits(r, body) {
            return Err(owned("invalid command: arguments do not match the command"));
        }
        let command = command_from(r, body);
        let ghost c = command;
        let ghost a = agent;
        match Request::new(agent, command) {
            Ok(req) => Ok(req),
            Err(e) => {
                assert(route_named(route@) == Some(route_of(c)) && arguments_of(c, *body) && agent_arg(*body, a)
                    && request_problem(a, c) == Some(e@));
                Err(e)
            },
        }
    }
}

fn push_text(fields: &mut Vec<(String, Json)>, k: &str, v: &String)
    ensures
        final(fields)@.len() == old(fields)@.len() + 1,
        final(fields)@.drop_last() == old(fields)@,
        final(fields)@.last().0@ == k@,
        final(fields)@.last().1.str_of() == Some(v@),
        final(fields)@.last().1 is Str,
{
    fields.push(member_of(k, text_value(v.as_str())));
}

fn push_opt_text(fields: &mut Vec<(String, Json)>, k: &str, v: &Option<String>)
    ensures
        match v {
            Some(x) => final(fields)@.len() == old(fields)@.len() + 1 && final(fields)@.drop_last() == old(fields)@
                && final(fields)@.last().0@ == k@ && final(fields)@.last().1.str_of() == Some(x@)
                && final(fields)@.last().1 is Str,
            None => final(fields)@ == old(fields)@,
        },
{
    match v {
        Some(x) => fields.push(member_of(k, text_value(x.as_str()))),
        None => {},
    }
}

fn push_member(fields: &mut Vec<(String, Json)>, k: &str, v: Json)
    ensures
        final(fields)@.len() == old(fields)@.len() + 1,
        final(fields)@.drop_last() == old(fields)@,
        final(fields)@.last().0@ == k@,
        final(fields)@.last().1 == v,
{
    fields.push(member_of(k, v));
}

fn u64_json_value(n: u64) -> (v: Json)
    ensures
        v == u64_json(n),
{
    if n <= 0x7fff_ffff_ffff_ffff {
        Json::Int(n as i64)
    } else {
        Json::UInt(n)
    }
}

impl Request {
    /// The HTTP form of the request: the command path and a body holding the command's
    /// arguments (absent options left out, flags written out) and the Agent's name.
    pub fn wire(&self) -> (r: (String, Json))
        ensures
            wire_form(*self, r.0@, r.1),
    {
        let route = command_route(&self.command);
        let mut fields: Vec<(String, Json)> = Vec::new();
        match &self.command {
            Command::Agent(Agent::Register { name }) => push_opt_text(&mut fields, "name", name),
            Command::Topic(Topic::List { group }) => push_opt_text(&mut fields, "group", group),
            Command::Topic(Topic::Show { topic }) => push_text(&mut fields, "topic", topic),
            Command::Topic(Topic::Create { group, name }) => {
                push_text(&mut fields, "group", group);
                push_text(&mut fields, "name", name);
            },
            Command::Topic(Topic::Close { topic }) => push_text(&mut fields, "topic", topic),
            Command::Topic(Topic::Reopen { topic }) => push_text(&mut fields, "topic", topic),
            Command::Send { topic, content, quote } => {
                push_text(&mut fields, "topic", topic);
                push_text(&mut fields, "content", content);
                push_opt_text(&mut fields, "quote", quote);
            },
            Command::Unread { topic, cursor, limit } => {
                push_text(&mut fields, "topic", topic);
                push_opt_text(&mut fields, "cursor", cursor);
                match limit {
                    Some(n) => push_member(&mut fields, "limit", Json::Int(*n as i64)),
                    None => {},
                }
            },
            Command::History { topic, cursor, limit } => {
                push_text(&mut fields, "topic", topic);
                push_opt_text(&mut fields, "cursor", cursor);
                match limit {
                    Some(n) => push_member(&mut fields, "limit", Json::Int(*n as i64)),
                    None => {},
                }
            },
            Command::Ack { topic, through } => {
                push_text(&mut fields, "topic", topic);
                push_text(&mut fields, "through", through);
            },
            Command::Subscribe { topic, muted } => {
                push_text(&mut fields, "topic", topic);
                push_member(&mut fields, "muted", Json::Bool(*muted));
            },
            Command::Unsubscribe { topic } => push_text(&mut fields, "topic", topic),
            Command::Mute { topic, off } => {
                push_text(&mut fields, "topic", topic);
                push_member(&mut fields, "off", Json::Bool(*off));
            },
            Command::Wait { topic, timeout } => {
                push_opt_text(&mut fields, "topic", topic);
                match timeout {
                    Some(n) => push_member(&mut fields, "timeout", u64_json_value(*n)),
                    None => {},
                }
            },
            _ => {},
        }
        let ghost args = fields@;
        proof {
            lemma_argument_names();
            assert(args.len() <= 3);
            assert forall|i: int|
                #![trigger args[i]]
                0 <= i < args.len() implies args[i].0@ != "agent"@ && match kind_for(route, args[i].0@) {
                    Some(k) => typed(k, args[i].1),
                    None => false,
                } by {
            }
            assert forall|i: int, j: int| 0 <= i < j < args.len() implies #[trigger] args[i].0@
                != #[trigger] args[j].0@ by {
            }
            assert forall|j: int| 0 <= j < required(route).len() implies exists|i: int|
                0 <= i < args.len() && args[i].0@ == #[trigger] required(route)[j] by {
                if j == 0 {
                    assert(args[0].0@ == required(route)[j]);
                } else {
                    assert(args[1].0@ == required(route)[j]);
                }
            }
        }
        push_opt_text(&mut fields, "agent", &self.agent);
        let body = Json::Object(fields);
        proof {
            assert(body->Object_0@.take(args.len() as int) == args);
            lemma_wire_object(route, args, self.agent, body);
            lemma_members(args, "name"@);
            lemma_members(args, "group"@);
            lemma_members(args, "topic"@);
            lemma_members(args, "content"@);
            lemma_members(args, "quote"@);
            lemma_members(args, "cursor"@);
            lemma_members(args, "limit"@);
            lemma_members(args, "through"@);
            lemma_members(args, "muted"@);
            lemma_members(args, "off"@);
            lemma_members(args, "timeout"@);
        }
        (owned(route.path()), body)
    }
}

/// The route of a command.
pub fn command_route(c: &Command) -> (r: Route)
    ensures
        r == route_of(*c),
{
    match c {
        Command::Agent(Agent::Register { .. }) => Route::AgentRegister,
        Command::Agent(Agent::List) => Route::AgentList,
        Command::Whoami => Route::Whoami,
        Command::Group(Group::List) => Route::GroupList,
        Command::Topic(Topic::List { .. }) => Route::TopicList,
        Command::Topic(Topic::Show { .. }) => Route::TopicShow,
        Command::Topic(Topic::Create { .. }) => Route::TopicCreate,
        Command::Topic(Topic::Close { .. }) => Route::TopicClose,
        Command::Topic(Topic::Reopen { .. }) => Route::TopicReopen,
        Command::Send { .. } => Route::Send,
        Command::Unread { .. } => Route::Unread,
        Command::History { .. } => Route::History,
        Command::Ack { .. } => Route::Ack,
        Command::Subscribe { .. } => Route::Subscribe,
        Command::Subscriptions => Route::Subscriptions,
        Command::Unsubscribe { .. } => Route::Unsubscribe,
        Command::Mute { .. } => Route::Mute,
        Command::Wait { .. } => Route::Wait,
    }
}

/// The object of the argument members `args` followed by the Agent's name, if any, fits
/// the route and names the Agent; lookups of any other key see `args` alone.
proof fn lemma_wire_object(r: Route, args: Seq<(String, Json)>, agent: Option<String>, body: Json)
    requires
        body is Object,
        body->Object_0@.len() == args.len() + if agent is Some { 1int } else { 0int },
        body->Object_0@.take(args.len() as int) == args,
        agent is Some ==> body->Object_0@.last().0@ == "agent"@ && body->Object_0@.last().1 is Str
            && body->Object_0@.last().1.str_of() == Some(agent.unwrap()@),
        forall|i: int|
            #![trigger args[i]]
            0 <= i < args.len() ==> args[i].0@ != "agent"@ && match kind_for(r, args[i].0@) {
                Some(k) => typed(k, args[i].1),
                None => false,
            },
        forall|j: int|
            0 <= j < required(r).len() ==> exists|i: int|
                0 <= i < args.len() && args[i].0@ == #[trigger] required(r)[j],
        forall|i: int, j: int| 0 <= i < j < args.len() ==> #[trigger] args[i].0@ != #[trigger] args[j].0@,
    ensures
        unique_keys(body),
        arguments_fit(r, body),
        no_nulls(body),
        agent_arg(body, agent),
        forall|k: Seq<char>| k != "agent"@ ==> #[trigger] body.get_spec(k) == field_in(args, k),
{
    let f = body->Object_0@;
    let tail = f.skip(args.len() as int);
    assert(f == args + tail);
    assert forall|i: int, j: int| 0 <= i < f.len() && 0 <= j < f.len() && i != j implies #[trigger] f[i].0@
        != #[trigger] f[j].0@ by {
        if i < args.len() && j < args.len() {
            assert(f[i] == args[i] && f[j] == args[j]);
        } else if i < args.len() {
            assert(f[i] == args[i] && f[j] == f.last());
        } else if j < args.len() {
            assert(f[j] == args[j] && f[i] == f.last());
        }
    }
    assert forall|i: int| 0 <= i < tail.len() implies (#[trigger] tail[i]).0@ == "agent"@ by {
        assert(tail[i] == f.last());
    }
    assert forall|k: Seq<char>| k != "agent"@ implies #[trigger] body.get_spec(k) == field_in(args, k) by {
        lemma_field_in_append(args, tail, k);
        lemma_field_in_absent(tail, k);
    }
    assert forall|i: int|
        #![trigger f[i]]
        0 <= i < f.len() && f[i].0@ != "agent"@ implies match kind_for(r, f[i].0@) {
            Some(k) => typed(k, f[i].1),
            None => false,
        } by {
        if i >= args.len() {
            assert(f[i] == f.last());
        } else {
            assert(f[i] == args[i]);
        }
    }
    assert forall|j: int| 0 <= j < required(r).len() implies body.get_spec(#[trigger] required(r)[j]) is Some by {
        let i = choose|i: int| 0 <= i < args.len() && args[i].0@ == required(r)[j];
        assert(f[i] == args[i]);
        lemma_field_in_present(f, required(r)[j], i);
    }
    assert forall|i: int| 0 <= i < f.len() implies !(#[trigger] f[i].1 is Null) by {
        if i >= args.len() {
            assert(f[i] == f.last());
        } else {
            assert(f[i] == args[i]);
        }
    }
    assert forall|i: int| 0 <= i < args.len() implies (#[trigger] args[i]).0@ != "agent"@ by {
    }
    lemma_field_in_absent(args, "agent"@);
    lemma_field_in_append(args, tail, "agent"@);
    if agent is Some {
        assert(tail.len() == 1 && tail[0] == f.last());
        reveal_with_fuel(field_in, 2);
    } else {
        assert(tail.len() == 0);
    }
}

/// The lengths and telling characters of the command paths.
proof fn lemma_route_names()
    ensures
        "agent/register"@.len() == 14 && "agent/register"@[0] == 'a' && "agent/register"@[6] == 'r',
        "agent/list"@.len() == 10 && "agent/list"@[0] == 'a' && "agent/list"@[6] == 'l',
        "whoami"@.len() == 6 && "whoami"@[0] == 'w',
        "group/list"@.len() == 10 && "group/list"@[0] == 'g' && "group/list"@[6] == 'l',
        "topic/list"@.len() == 10 && "topic/list"@[0] == 't' && "topic/list"@[6] == 'l',
        "topic/show"@.len() == 10 && "topic/show"@[0] == 't' && "topic/show"@[6] == 's',
        "topic/create"@.len() == 12 && "topic/create"@[0] == 't' && "topic/create"@[6] == 'c',
        "topic/close"@.len() == 11 && "topic/close"@[0] == 't' && "topic/close"@[6] == 'c',
        "topic/reopen"@.len() == 12 && "topic/reopen"@[0] == 't' && "topic/reopen"@[6] == 'r',
        "send"@.len() == 4 && "send"@[0] == 's',
        "unread"@.len() == 6 && "unread"@[0] == 'u',
        "history"@.len() == 7 && "history"@[0] == 'h' && "history"@[6] == 'y',
        "ack"@.len() == 3 && "ack"@[0] == 'a',
        "subscribe"@.len() == 9 && "subscribe"@[0] == 's' && "subscribe"@[6] == 'i',
        "subscriptions"@.len() == 13 && "subscriptions"@[0] == 's' && "subscriptions"@[6] == 'i',
        "unsubscribe"@.len() == 11 && "unsubscribe"@[0] == 'u' && "unsubscribe"@[6] == 'c',
        "mute"@.len() == 4 && "mute"@[0] == 'm',
        "wait"@.len() == 4 && "wait"@[0] == 'w',
{
    reveal_strlit("agent/register");
    reveal_strlit("agent/list");
    reveal_strlit("whoami");
    reveal_strlit("group/list");
    reveal_strlit("topic/list");
    reveal_strlit("topic/show");
    reveal_strlit("topic/create");
    reveal_strlit("topic/close");
    reveal_strlit("topic/reopen");
    reveal_strlit("send");
    reveal_strlit("unread");
    reveal_strlit("history");
    reveal_strlit("ack");
    reveal_strlit("subscribe");
    reveal_strlit("subscriptions");
    reveal_strlit("unsubscribe");
    reveal_strlit("mute");
    reveal_strlit("wait");
}

/// Each route's path names that route.
pub proof fn lemma_route_named(r: Route)
    ensures
        route_named(route_text(r)) == Some(r),
{
    lemma_route_names();
}

/// Two commands on the same route with the same arguments are the same command.
pub proof fn lemma_arguments_determine(a: Command, b: Command, body: Json)
    requires
        route_of(a) == route_of(b),
        arguments_of(a, body),
        arguments_of(b, body),
    ensures
        same_command(a, b),
{
}

/// Decoding the HTTP form of a valid request gives that request back: the body passes every
/// check, fits the command that the path names, and any request it decodes to is the one
/// that was encoded, argument by argument; no such request is refused by `Request::new`.
pub proof fn lemma_wire_round_trip(req: Request, route: Seq<char>, body: Json)
    requires
        request_problem(req.agent, req.command) is None,
        wire_form(req, route, body),
    ensures
        decode_problem(route, body) is None,
        command_fits(route, body),
        forall|back: Request|
            decoded_form(back, route, body) ==> same_command(back.command, req.command) && same_opt(
                back.agent,
                req.agent,
            ),
        forall|c: Command, a: Option<String>|
            route_named(route) == Some(route_of(c)) && arguments_of(c, body) && agent_arg(body, a)
                ==> request_problem(a, c) is None,
{
    lemma_route_named(route_of(req.command));
    assert forall|back: Request| decoded_form(back, route, body) implies same_command(
        back.command,
        req.command,
    ) && same_opt(back.agent, req.agent) by {
        lemma_arguments_determine(back.command, req.command, body);
    }
    assert forall|c: Command, a: Option<String>|
        route_named(route) == Some(route_of(c)) && arguments_of(c, body) && agent_arg(body, a)
            implies request_problem(a, c) is None by {
        lemma_arguments_determine(c, req.command, body);
    }
}

/// An Agent as `agent list` shows it.
#[derive(Debug)]
pub struct AgentStatus {
    pub name: String,
    pub active: bool,
    pub waiting: bool,
}

/// A Topic that ends a wait: its first message that may wake the Agent and how many
/// messages are pending.
#[derive(Debug)]
pub struct ReadyTopic {
    pub topic: String,
    pub trigger_msg_id: String,
    pub pending_count: usize,
}

/// What a command answers.
#[derive(Debug)]
#[allow(inconsistent_fields)]
pub enum Response {
    Identity { name: String },
    Agents { agents: Vec<AgentStatus> },
    Groups { groups: Vec<GroupInfo> },
    Topics { topics: Vec<TopicInfo> },
    TopicDetail { topic: String, name: String, group: String, status: String, subscribers: Vec<String> },
    TopicCreated { topic: String, name: String, status: String },
    TopicState { topic: String, status: String },
    Topic { topic: String },
    Subscriptions { subscriptions: Vec<Subscription> },
    Muted { topic: String, muted: bool },
    Sent { msg_id: String },
    Page { messages: Vec<Message>, next_cursor: Option<String>, remaining_count: i64 },
    Ack { last_acked_msg_id: String },
    Wait { topics: Vec<ReadyTopic> },
}

} // verus!
