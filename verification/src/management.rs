//! Agent and Topic management: the listings, a Topic's details, and the creation, closing
//! and reopening of Topics. A Topic change calls Telegram in the middle, so each change is
//! two steps: one that checks the request and records the intent before the call, and one
//! that takes the call's outcome and records the result.
use vstd::prelude::*;
use crate::contract::{AgentStatus, Response};
use crate::db::{
    Tx, ensured, has_group, is_storage_failure, group_usable, has_place, info_of, is_conflict, is_unknown_topic, joined, place_index,
    set_closed, status_string, status_text, subscribers_of, topic_key, topic_of, topic_row, topics_in,
};
use crate::gateway::{WaitSlots, logged};
use crate::json::{Json, lemma_members, member_of, text_value};
use crate::model::{Error, ErrorKind, Result, Topic, is_error};
use crate::telegram::Failure;
use crate::text::{chars_of, int_text, opt_string, opt_text, owned, parse_i64, parse_int};

verus! {

/// An Agent is active while it waits, and for five minutes after it was last seen.
pub open spec fn is_active(waiting: bool, seen: i64, now: i64) -> bool {
    waiting || seen > now - 300_000
}

/// What `agent/list` answers.
pub open spec fn agent_list_outcome(tx: Tx, waits: WaitSlots, now: i64, r: Response) -> bool {
    r matches Response::Agents { agents } && agents@.len() == tx.agents@.len() && forall|i: int|
        0 <= i < agents@.len() ==> {
            let a = tx.agents@[i];
            &&& (#[trigger] agents@[i]).name@ == a.name@
            &&& agents@[i].waiting == waits.holds(a.name@)
            &&& agents@[i].active == is_active(agents@[i].waiting, a.last_seen, now)
        }
}

/// `agent/list`: every Agent by name, whether it waits, and whether it is active.
pub fn agent_list(tx: &Tx, waits: &WaitSlots, now: i64) -> (r: Response)
    ensures
        agent_list_outcome(*tx, *waits, now, r),
{
    let list = tx.agents();
    let mut agents: Vec<AgentStatus> = Vec::new();
    for i in 0..list.len()
        invariant
            list@.len() == tx.agents@.len(),
            forall|k: int|
                0 <= k < list@.len() ==> (#[trigger] list@[k]).0@ == tx.agents@[k].name@ && list@[k].1
                    == tx.agents@[k].last_seen,
            agents@.len() == i,
            forall|k: int|
                0 <= k < i ==> {
                    let a = tx.agents@[k];
                    &&& (#[trigger] agents@[k]).name@ == a.name@
                    &&& agents@[k].waiting == waits.holds(a.name@)
                    &&& agents@[k].active == is_active(agents@[k].waiting, a.last_seen, now)
                },
    {
        let waiting = waits.has(list[i].0.as_str());
        let seen: i128 = list[i].1 as i128;
        let active = waiting || seen > now as i128 - 300_000;
        agents.push(AgentStatus { name: owned(list[i].0.as_str()), active, waiting });
    }
    Response::Agents { agents }
}

/// What `group/list` answers.
pub open spec fn group_list_outcome(tx: Tx, r: Response) -> bool {
    r matches Response::Groups { groups } && groups@.len() == tx.groups@.len() && forall|i: int|
        0 <= i < groups@.len() ==> {
            let g = tx.groups@[i];
            &&& (#[trigger] groups@[i]).group@ == int_text(g.chat as int)
            &&& groups@[i].name@ == g.name@
            &&& groups@[i].connected == g.connected
            &&& groups@[i].available == g.available
        }
}

/// `group/list`: every Group by chat.
pub fn group_list(tx: &Tx) -> (r: Response)
    ensures
        group_list_outcome(*tx, r),
{
    Response::Groups { groups: tx.groups() }
}

pub open spec fn is_bad_group(e: Error) -> bool {
    is_error(e, ErrorKind::Invalid, "invalid group"@)
}

/// The chat that an optional Group argument names.
pub open spec fn group_filter(group: Option<Seq<char>>) -> Option<i64> {
    match group {
        Some(g) => parse_int(g),
        None => None,
    }
}

/// Parses a Group argument as `i64::from_str` does.
fn parse_group(group: &str) -> (r: Result<i64>)
    ensures
        match r {
            Ok(chat) => parse_int(group@) == Some(chat),
            Err(e) => parse_int(group@) is None && is_bad_group(e),
        },
{
    let v = chars_of(group);
    match parse_i64(v.as_slice()) {
        Some(chat) => Ok(chat),
        None => Err(Error::bad("invalid group")),
    }
}

/// What `topic/list` answers.
pub open spec fn topic_list_outcome(tx: Tx, group: Option<Seq<char>>, r: Result<Response>) -> bool {
    match r {
        Ok(resp) => {
            &&& (group matches Some(g) ==> parse_int(g) is Some)
            &&& resp matches Response::Topics { topics } && topics@.len() == topics_in(
                tx.topics@,
                group_filter(group),
            ).len() && forall|i: int|
                0 <= i < topics@.len() ==> info_of(
                    #[trigger] topics@[i],
                    topics_in(tx.topics@, group_filter(group))[i],
                )
        },
        Err(e) => group matches Some(g) && parse_int(g) is None && is_bad_group(e),
    }
}

/// `topic/list`: the Topics of one Group, or of all Groups, by id.
pub fn topic_list(tx: &Tx, group: Option<&str>) -> (r: Result<Response>)
    ensures
        topic_list_outcome(*tx, opt_text(group), r),
{
    let chat = match group {
        Some(g) => match parse_group(g) {
            Ok(chat) => Some(chat),
            Err(e) => return Err(e),
        },
        None => None,
    };
    Ok(Response::Topics { topics: tx.topics(chat) })
}

/// What `topic/show` answers.
pub open spec fn topic_show_outcome(tx: Tx, id: Seq<char>, r: Result<Response>) -> bool {
    match r {
        Ok(resp) => match joined(tx.topics@, tx.groups@, id) {
            Some((row, _g)) => resp matches Response::TopicDetail { topic, name, group, status, subscribers }
                && topic@ == row.id@ && name@ == row.name@ && group@ == int_text(row.chat as int)
                && status@ == status_text(row.closed) && subscribers@.len() == subscribers_of(
                tx.subscriptions@,
                id,
            ).len() && forall|i: int|
                0 <= i < subscribers@.len() ==> (#[trigger] subscribers@[i])@ == subscribers_of(
                    tx.subscriptions@,
                    id,
                )[i].agent@,
            None => false,
        },
        Err(e) => joined(tx.topics@, tx.groups@, id) is None && is_unknown_topic(e),
    }
}

/// `topic/show`: a known Topic's id, name, Group, status and active subscribers.
pub fn topic_show(tx: &Tx, id: &str) -> (r: Result<Response>)
    requires
        tx.wf(),
    ensures
        topic_show_outcome(*tx, id@, r),
{
    let t = match tx.topic(id) {
        Ok(t) => t,
        Err(e) => return Err(e),
    };
    let mut group = String::new();
    crate::text::push_int(&mut group, t.chat);
    Ok(
        Response::TopicDetail {
            topic: t.id,
            name: t.name,
            group,
            status: status_string(t.closed),
            subscribers: tx.subscribers(id),
        },
    )
}

// ---------------------------------------------------------------- Telegram failures

/// A failed Telegram call may still have taken effect: no HTTP answer came, or a server
/// error did.
pub open spec fn outcome_unknown(code: u16) -> bool {
    code == 0 || code >= 500
}

/// The members of an object.
pub open spec fn members(d: Json) -> Seq<(String, Json)> {
    match d {
        Json::Object(fields) => fields@,
        _ => Seq::empty(),
    }
}

/// `new` records that a Topic operation's Telegram call failed: `context`, then the error's
/// text and whether the outcome is unknown. Nothing else changes.
pub open spec fn failure_logged(
    old: Tx,
    new: Tx,
    operation: Seq<char>,
    now: i64,
    context: Seq<(String, Json)>,
    f: Failure,
) -> bool {
    let d = new.management@.last().detail;
    let n = context.len() as int;
    &&& logged(old, new, operation, now)
    &&& (Tx { management: new.management, ..old }) == new
    &&& d is Object
    &&& members(d).len() == n + 2
    &&& members(d).take(n) == context
    &&& members(d)[n].0@ == "error"@
    &&& members(d)[n].1.str_of() == Some(f.detail@)
    &&& members(d)[n + 1].0@ == "outcome_unknown"@
    &&& members(d)[n + 1].1 == Json::Bool(outcome_unknown(f.code))
}

/// Records the failure of a Topic operation's Telegram call.
fn management_failure(tx: &mut Tx, operation: &str, context: Vec<(String, Json)>, error: &Failure, now: i64)
    ensures
        failure_logged(*old(tx), *final(tx), operation@, now, context@, *error),
{
    let ghost ctx = context@;
    let mut fields = context;
    fields.push(member_of("error", text_value(error.detail.as_str())));
    fields.push(member_of("outcome_unknown", Json::Bool(error.code == 0 || error.code >= 500)));
    let ghost f = fields@;
    tx.audit(operation, Json::Object(fields), now);
    assert(f.take(ctx.len() as int) == ctx);
    assert(tx.management@.drop_last() == old(tx).management@);
}

// ---------------------------------------------------------------- topic/create

/// A Topic name holds 1 to 128 characters.
pub open spec fn name_fits(name: Seq<char>) -> bool {
    1 <= name.len() <= 128
}

pub open spec fn is_bad_topic_name(e: Error) -> bool {
    is_error(e, ErrorKind::Invalid, "Topic name must contain 1–128 characters"@)
}

pub open spec fn is_unavailable_group(e: Error) -> bool {
    is_error(e, ErrorKind::Invalid, "Group is unavailable"@)
}

/// What the first step of `topic/create` does and answers.
pub open spec fn create_started(old: Tx, new: Tx, agent: Seq<char>, group: Seq<char>, name: Seq<char>, now: i64, r: Result<i64>) -> bool {
    match r {
        Ok(chat) => {
            let d = new.management@.last().detail;
            &&& parse_int(group) == Some(chat)
            &&& name_fits(name)
            &&& group_usable(old.groups@, chat)
            &&& logged(old, new, "topic/create intent"@, now)
            &&& (Tx { management: new.management, ..old }) == new
            &&& d.at("agent"@).str_of() == Some(agent)
            &&& d.at("group"@) == Json::Int(chat)
            &&& d.at("name"@).str_of() == Some(name)
        },
        Err(e) => new == old && if parse_int(group) is None {
            is_bad_group(e)
        } else if !name_fits(name) {
            is_bad_topic_name(e)
        } else {
            !group_usable(old.groups@, parse_int(group).unwrap()) && is_unavailable_group(e)
        },
    }
}

/// The first step of `topic/create`: checks the request and records the intent. It returns
/// the Group's chat, where Telegram's `createForumTopic` then creates the Topic.
pub fn topic_create_start(tx: &mut Tx, agent: &str, group: &str, name: &str, now: i64) -> (r: Result<i64>)
    requires
        old(tx).wf(),
    ensures
        final(tx).wf(),
        create_started(*old(tx), *final(tx), agent@, group@, name@, now, r),
{
    let chat = match parse_group(group) {
        Ok(chat) => chat,
        Err(e) => return Err(e),
    };
    let count = chars_of(name).len();
    if count == 0 || count > 128 {
        return Err(Error::bad("Topic name must contain 1–128 characters"));
    }
    if !tx.connected(chat) {
        return Err(Error::bad("Group is unavailable"));
    }
    let detail = Json::Object(
        vec![member_of("agent", text_value(agent)), member_of("group", Json::Int(chat)), member_of("name", text_value(name))],
    );
    proof {
        reveal_strlit("agent");
        reveal_strlit("group");
        reveal_strlit("name");
        assert("agent"@[0] != "group"@[0] && "agent"@[0] != "name"@[0] && "group"@[0] != "name"@[0]);
        lemma_members(detail->Object_0@, "agent"@);
        lemma_members(detail->Object_0@, "group"@);
        lemma_members(detail->Object_0@, "name"@);
    }
    tx.audit("topic/create intent", detail, now);
    assert(tx.management@.drop_last() == old(tx).management@);
    Ok(chat)
}

pub open spec fn is_creation_unknown(e: Error) -> bool {
    is_error(
        e,
        ErrorKind::Unavailable,
        "Topic creation failed or outcome unknown; inspect Telegram before retrying"@,
    )
}

/// The context of a failed creation: the Group, the name and the Agent.
pub open spec fn creation_context(ctx: Seq<(String, Json)>, chat: i64, name: Seq<char>, agent: Seq<char>) -> bool {
    &&& ctx.len() == 3
    &&& ctx[0].0@ == "group"@ && ctx[0].1 == Json::Int(chat)
    &&& ctx[1].0@ == "name"@ && ctx[1].1.str_of() == Some(name)
    &&& ctx[2].0@ == "agent"@ && ctx[2].1.str_of() == Some(agent)
}

/// The second step of `topic/create`, given what Telegram answered: the new thread, or the
/// failure. On success the Topic is recorded, owned by the Agent; a failure is recorded and
/// reported, since the Topic may or may not exist in Telegram.
pub fn topic_create_finish(
    tx: &mut Tx,
    agent: &str,
    chat: i64,
    name: &str,
    created: core::result::Result<i64, Failure>,
    now: i64,
) -> (r: Result<Response>)
    requires
        old(tx).wf(),
    ensures
        final(tx).wf(),
        match created {
            Err(f) => r matches Err(e) && is_creation_unknown(e) && (exists|ctx: Seq<(String, Json)>|
                creation_context(ctx, chat, name@, agent@) && failure_logged(
                    *old(tx),
                    *final(tx),
                    "topic/create result"@,
                    now,
                    ctx,
                    f,
                )),
            Ok(thread) => match r {
                Ok(resp) => {
                    &&& resp matches Response::TopicCreated { topic, name: n, status } && topic@ == topic_key(
                        chat,
                        thread,
                    ) && n@ == name@ && status@ == "active"@
                    &&& exists|mid: Tx|
                        ensured(old(tx).topics@, mid.topics@, chat, thread, name@, Some(agent@)) && (Tx {
                            topics: mid.topics,
                            ..*old(tx)
                        }) == mid && (Tx { management: final(tx).management, ..mid }) == *final(tx)
                            && logged(mid, *final(tx), "topic/create result"@, now)
                            && final(tx).management@.last().detail.at("topic"@).str_of() == Some(
                            topic_key(chat, thread),
                        )
                },
                Err(e) => *final(tx) == *old(tx) && !has_place(old(tx).topics@, chat, thread) && if topic_row(
                    old(tx).topics@,
                    topic_key(chat, thread),
                ) is Some {
                    is_conflict(e)
                } else {
                    !has_group(old(tx).groups@, chat) && is_storage_failure(e)
                },
            },
        },
{
    match created {
        Err(f) => {
            let context = vec![
                member_of("group", Json::Int(chat)),
                member_of("name", text_value(name)),
                member_of("agent", text_value(agent)),
            ];
            let ghost ctx = context@;
            management_failure(tx, "topic/create result", context, &f, now);
            proof {
                assert(creation_context(ctx, chat, name@, agent@));
            }
            Err(Error::internal("Topic creation failed or outcome unknown; inspect Telegram before retrying"))
        },
        Ok(thread) => {
            let id = match tx.ensure_topic(chat, thread, name, Some(agent)) {
                Ok(id) => id,
                Err(e) => return Err(e),
            };
            let ghost mid = *tx;
            let detail = Json::Object(vec![member_of("topic", text_value(id.as_str()))]);
            proof {
                lemma_members(detail->Object_0@, "topic"@);
            }
            tx.audit("topic/create result", detail, now);
            assert(tx.management@.drop_last() == mid.management@);
            assert(ensured(old(tx).topics@, mid.topics@, chat, thread, name@, Some(agent@)));
            assert((Tx { topics: mid.topics, ..*old(tx) }) == mid);
            assert((Tx { management: tx.management, ..mid }) == *tx);
            assert(logged(mid, *tx, "topic/create result"@, now));
            assert(tx.management@.last().detail.at("topic"@).str_of() == Some(topic_key(chat, thread)));
            Ok(Response::TopicCreated { topic: id, name: owned(name), status: status_string(false) })
        },
    }
}

// ---------------------------------------------------------------- topic/close, topic/reopen

pub open spec fn is_not_owner(e: Error) -> bool {
    is_error(e, ErrorKind::Invalid, "only the Topic creator can manage this Topic"@)
}

/// What the first step of `topic/close` and `topic/reopen` does and answers.
pub open spec fn change_started(old: Tx, new: Tx, agent: Seq<char>, id: Seq<char>, close: bool, now: i64, r: Result<Topic>) -> bool {
    match r {
        Ok(t) => match joined(old.topics@, old.groups@, id) {
            Some((row, g)) => {
                let d = new.management@.last().detail;
                &&& topic_of(t, row, g)
                &&& opt_string(row.owner) == Some(agent)
                &&& g.connected && g.available
                &&& logged(old, new, "topic/state intent"@, now)
                &&& (Tx { management: new.management, ..old }) == new
                &&& d.at("topic"@).str_of() == Some(id)
                &&& d.at("closed"@) == Json::Bool(close)
            },
            None => false,
        },
        Err(e) => new == old && match joined(old.topics@, old.groups@, id) {
            None => is_unknown_topic(e),
            Some((row, g)) => if opt_string(row.owner) != Some(agent) {
                is_not_owner(e)
            } else {
                !(g.connected && g.available) && is_unavailable_group(e)
            },
        },
    }
}

/// The first step of `topic/close` and `topic/reopen`: only the Topic's creator may change
/// it, and only while its Group is available. It records the intent and returns the Topic,
/// whose chat and thread Telegram's call then names.
pub fn topic_change_start(tx: &mut Tx, agent: &str, id: &str, close: bool, now: i64) -> (r: Result<Topic>)
    requires
        old(tx).wf(),
    ensures
        final(tx).wf(),
        change_started(*old(tx), *final(tx), agent@, id@, close, now, r),
{
    let t = match tx.topic(id) {
        Ok(t) => t,
        Err(e) => return Err(e),
    };
    let owner_ok = match &t.owner {
        Some(o) => crate::text::str_eq(o.as_str(), agent),
        None => false,
    };
    if !owner_ok {
        return Err(Error::bad("only the Topic creator can manage this Topic"));
    }
    if !t.available {
        return Err(Error::bad("Group is unavailable"));
    }
    let detail = Json::Object(vec![member_of("topic", text_value(id)), member_of("closed", Json::Bool(close))]);
    proof {
        reveal_strlit("topic");
        reveal_strlit("closed");
        assert("topic"@[0] != "closed"@[0]);
        lemma_members(detail->Object_0@, "topic"@);
        lemma_members(detail->Object_0@, "closed"@);
    }
    tx.audit("topic/state intent", detail, now);
    assert(tx.management@.drop_last() == old(tx).management@);
    Ok(t)
}

pub open spec fn is_change_unknown(e: Error) -> bool {
    is_error(
        e,
        ErrorKind::Unavailable,
        "Topic state change failed or outcome unknown; inspect Telegram before retrying"@,
    )
}

/// The context of a failed state change: the Topic and the requested state.
pub open spec fn change_context(ctx: Seq<(String, Json)>, id: Seq<char>, close: bool) -> bool {
    &&& ctx.len() == 2
    &&& ctx[0].0@ == "topic"@ && ctx[0].1.str_of() == Some(id)
    &&& ctx[1].0@ == "closed"@ && ctx[1].1 == Json::Bool(close)
}

/// The second step of `topic/close` and `topic/reopen`, given what Telegram answered. On
/// success the Topic takes the new state; a failure is recorded and reported.
pub fn topic_change_finish(
    tx: &mut Tx,
    id: &str,
    close: bool,
    changed: core::result::Result<(), Failure>,
    now: i64,
) -> (r: Result<Response>)
    requires
        old(tx).wf(),
    ensures
        final(tx).wf(),
        match changed {
            Err(f) => r matches Err(e) && is_change_unknown(e) && (exists|ctx: Seq<(String, Json)>|
                change_context(ctx, id@, close) && failure_logged(
                    *old(tx),
                    *final(tx),
                    "topic/state result"@,
                    now,
                    ctx,
                    f,
                )),
            Ok(()) => {
                let d = final(tx).management@.last().detail;
                &&& r matches Ok(resp) && resp matches Response::TopicState { topic, status } && topic@ == id@
                    && status@ == status_text(close)
                &&& exists|mid: Tx|
                    set_closed(*old(tx), mid, id@, close) && (Tx { management: final(tx).management, ..mid })
                        == *final(tx) && logged(mid, *final(tx), "topic/state result"@, now)
                &&& d.at("topic"@).str_of() == Some(id@)
                &&& d.at("closed"@) == Json::Bool(close)
            },
        },
{
    match changed {
        Err(f) => {
            let context = vec![member_of("topic", text_value(id)), member_of("closed", Json::Bool(close))];
            let ghost ctx = context@;
            management_failure(tx, "topic/state result", context, &f, now);
            proof {
                assert(change_context(ctx, id@, close));
            }
            Err(Error::internal("Topic state change failed or outcome unknown; inspect Telegram before retrying"))
        },
        Ok(()) => {
            tx.close(id, close);
            let ghost mid = *tx;
            let detail = Json::Object(vec![member_of("topic", text_value(id)), member_of("closed", Json::Bool(close))]);
            proof {
                reveal_strlit("topic");
                reveal_strlit("closed");
                assert("topic"@[0] != "closed"@[0]);
                lemma_members(detail->Object_0@, "topic"@);
                lemma_members(detail->Object_0@, "closed"@);
            }
            tx.audit("topic/state result", detail, now);
            assert(tx.management@.drop_last() == mid.management@);
            Ok(Response::TopicState { topic: owned(id), status: status_string(close) })
        },
    }
}

} // verus!
