//! One request of an Agent, from the command to its answer. A command is one transaction on
//! the store, except where Telegram or a wait stands in the middle: then the request becomes
//! a step that the caller performs before it finishes the command.
use vstd::prelude::*;
use crate::contract::{Agent, Command, Group, Request, Response, Topic as TopicCommand, request_problem};
use crate::db::{AgentRow, Tx, agent_exists, is_unknown_agent};
use crate::gateway::{
    Gateway, WaitSlots, ack, ack_outcome, mute, mute_outcome, read, read_outcome, register, register_outcome,
    send, send_outcome, subscribe, subscribe_outcome, subscriptions, subscriptions_outcome, unsubscribe,
    unsubscribe_outcome, whoami,
};
use crate::management::{
    agent_list, agent_list_outcome, change_started, create_started, group_list, group_list_outcome,
    topic_change_start, topic_create_start, topic_list, topic_list_outcome, topic_show, topic_show_outcome,
};
use crate::model::{Error, ErrorKind, Result, Topic, is_error, now};
use crate::text::{opt_string, opt_text, owned};
use crate::wait::wait_begin;

verus! {

/// What a request asks of its caller.
#[derive(Debug)]
#[allow(inconsistent_fields)]
pub enum Step {
    /// The answer.
    Done(Result<Response>),
    /// Create Topic `name` in Telegram chat `chat`, then finish with `topic_create_finish`.
    CreateTopic { agent: String, chat: i64, name: String },
    /// Close (or reopen) the Topic in Telegram, then finish with `topic_change_finish`.
    ChangeTopic { agent: String, topic: Topic, close: bool },
    /// Wait for a message that wakes the Agent, on one Topic or on all its subscriptions, for
    /// at most `timeout` seconds; the wait slot is taken.
    Wait { agent: String, topic: Option<String>, timeout: Option<u64> },
}

/// `new` is `old` with Agent `agent` seen at `now`.
pub open spec fn seen_at(old: Tx, new: Tx, agent: Seq<char>, now: i64) -> bool {
    &&& exists|p: int|
        0 <= p < old.agents@.len() && old.agents@[p].name@ == agent && new.agents@ == old.agents@.update(
            p,
            AgentRow { name: old.agents@[p].name, last_seen: now },
        )
    &&& (Tx { agents: new.agents, ..old }) == new
}

/// A successful command marks its Agent as seen; its answer stands, unless the Agent is gone.
pub open spec fn settled(mid: Tx, new: Tx, agent: Seq<char>, now: i64, r0: Result<Response>, r: Result<Response>) -> bool {
    match r0 {
        Ok(_) => if agent_exists(mid.agents@, agent) {
            r == r0 && seen_at(mid, new, agent, now)
        } else {
            r matches Err(e) && is_unknown_agent(e) && new == mid
        },
        Err(_) => r == r0 && new == mid,
    }
}

/// Finishes a command: a success marks the Agent as seen.
pub fn settle(tx: &mut Tx, agent: &str, r0: Result<Response>, now: i64) -> (r: Result<Response>)
    requires
        old(tx).wf(),
    ensures
        final(tx).wf(),
        settled(*old(tx), *final(tx), agent@, now, r0, r),
{
    match r0 {
        Ok(resp) => match tx.seen(agent, now) {
            Ok(()) => Ok(resp),
            Err(e) => Err(e),
        },
        Err(e) => Err(e),
    }
}

/// What a request of a known Agent does and answers.
pub open spec fn agent_request(
    old: Tx,
    new: Tx,
    waits: WaitSlots,
    waits_after: WaitSlots,
    agent: Seq<char>,
    c: Command,
    now: i64,
    s: Step,
) -> bool {
    match c {
        Command::Wait { topic, timeout } => if waits.holds(agent) {
            s matches Step::Done(r) && r matches Err(e) && is_error(
                e,
                ErrorKind::Conflict,
                "This Agent already has an active wait."@,
            ) && new == old && waits_after == waits
        } else {
            &&& s matches Step::Wait { agent: a, topic: t, timeout: d } && a@ == agent && opt_string(t)
                == opt_string(topic) && d == timeout
            &&& new == old
            &&& waits_after.holds(agent)
            &&& forall|n: Seq<char>| n != agent ==> waits_after.holds(n) == waits.holds(n)
        },
        Command::Topic(TopicCommand::Create { group, name }) => exists|r0: Result<i64>|
            #![trigger create_started(old, new, agent, group@, name@, now, r0)]
            create_started(old, new, agent, group@, name@, now, r0) && waits_after == waits && match r0 {
                Ok(chat) => s matches Step::CreateTopic { agent: a, chat: c2, name: n } && a@ == agent && c2
                    == chat && n@ == name@,
                Err(e) => s matches Step::Done(r) && r == Err::<Response, Error>(e),
            },
        Command::Topic(TopicCommand::Close { topic }) => exists|r0: Result<Topic>|
            #![trigger change_started(old, new, agent, topic@, true, now, r0)]
            change_started(old, new, agent, topic@, true, now, r0) && waits_after == waits && match r0 {
                Ok(t) => s matches Step::ChangeTopic { agent: a, topic: t2, close } && a@ == agent && t2 == t
                    && close,
                Err(e) => s matches Step::Done(r) && r == Err::<Response, Error>(e),
            },
        Command::Topic(TopicCommand::Reopen { topic }) => exists|r0: Result<Topic>|
            #![trigger change_started(old, new, agent, topic@, false, now, r0)]
            change_started(old, new, agent, topic@, false, now, r0) && waits_after == waits && match r0 {
                Ok(t) => s matches Step::ChangeTopic { agent: a, topic: t2, close } && a@ == agent && t2 == t
                    && !close,
                Err(e) => s matches Step::Done(r) && r == Err::<Response, Error>(e),
            },
        _ => {
            &&& waits_after == waits
            &&& s matches Step::Done(r) && exists|mid: Tx, r0: Result<Response>|
                #![trigger answer_of(old, mid, waits, agent, c, now, r0)]
                answer_of(old, mid, waits, agent, c, now, r0) && settled(mid, new, agent, now, r0, r)
        },
    }
}

/// What a command answered within one transaction does (`old` to `mid`) and answers.
pub open spec fn answer_of(old: Tx, mid: Tx, waits: WaitSlots, agent: Seq<char>, c: Command, now: i64, r: Result<Response>) -> bool {
    match c {
        Command::Whoami => mid == old && (r matches Ok(Response::Identity { name }) && name@ == agent),
        Command::Subscriptions => mid == old && (r matches Ok(resp) && subscriptions_outcome(old, agent, resp)),
        Command::Subscribe { topic, muted } => subscribe_outcome(old, mid, agent, topic@, muted, now, r),
        Command::Unsubscribe { topic } => unsubscribe_outcome(old, mid, agent, topic@, now, r),
        Command::Mute { topic, off } => mute_outcome(old, mid, agent, topic@, off, now, r),
        Command::Ack { topic, through } => ack_outcome(old, mid, agent, topic@, through@, now, r),
        Command::Unread { topic, cursor, limit } => mid == old && read_outcome(
            old,
            agent,
            topic@,
            opt_string(cursor),
            limit,
            true,
            r,
        ),
        Command::History { topic, cursor, limit } => mid == old && read_outcome(
            old,
            agent,
            topic@,
            opt_string(cursor),
            limit,
            false,
            r,
        ),
        Command::Send { topic, content, quote } => send_outcome(old, mid, agent, topic@, content@, opt_string(quote), now, r),
        Command::Agent(Agent::List) => mid == old && (r matches Ok(resp) && agent_list_outcome(old, waits, now, resp)),
        Command::Group(Group::List) => mid == old && (r matches Ok(resp) && group_list_outcome(old, resp)),
        Command::Topic(TopicCommand::List { group }) => mid == old && topic_list_outcome(old, opt_string(group), r),
        Command::Topic(TopicCommand::Show { topic }) => mid == old && topic_show_outcome(old, topic@, r),
        _ => false,
    }
}

/// The text of an optional string, borrowed.
fn opt_str(o: &Option<String>) -> (r: Option<&str>)
    ensures
        opt_text(r) == opt_string(*o),
{
    match o {
        Some(s) => Some(s.as_str()),
        None => None,
    }
}

/// What a request does and answers at time `now`: one that `Request::new` refuses is refused
/// with the same reason and changes nothing; registration needs no Agent; every other command
/// needs a registered one. The administrators never change.
pub open spec fn executed(old: Tx, new: Tx, g: Gateway, g2: Gateway, request: Request, now: i64, s: Step) -> bool {
    &&& g2.admins == g.admins
    &&& match request_problem(request.agent, request.command) {
        Some(p) => s matches Step::Done(r) && r matches Err(e) && is_error(e, ErrorKind::Invalid, p) && new == old
            && g2.waits == g.waits,
        None => valid_request(old, new, g, g2, request, now, s),
    }
}

/// What a request that `Request::new` accepts does and answers.
pub open spec fn valid_request(old: Tx, new: Tx, g: Gateway, g2: Gateway, request: Request, now: i64, s: Step) -> bool {
    match request.command {
        Command::Agent(Agent::Register { name }) => {
            &&& g2.waits == g.waits
            &&& s matches Step::Done(r) && register_outcome(old, new, opt_string(name), now, r)
        },
        _ => {
            let agent = request.agent.unwrap()@;
            if !agent_exists(old.agents@, agent) {
                &&& s matches Step::Done(r) && r matches Err(e) && is_unknown_agent(e)
                &&& new == old
                &&& g2.waits == g.waits
            } else {
                agent_request(old, new, g.waits, g2.waits, agent, request.command, now, s)
            }
        },
    }
}

impl Gateway {
    /// Carries out a request. One that `Request::new` refuses is refused the same way.
    /// Registration needs no Agent; every other command needs a registered one, and one that
    /// succeeds marks its Agent as seen.
    pub fn execute(&mut self, tx: &mut Tx, request: Request, now: i64) -> (s: Step)
        requires
            old(tx).wf(),
        ensures
            final(tx).wf(),
            executed(*old(tx), *final(tx), *old(self), *final(self), request, now, s),
    {
        let ghost given = request;
        let request = match Request::new(request.agent, request.command) {
            Ok(r) => r,
            Err(m) => return Step::Done(Err(Error::bad(m.as_str()))),
        };
        assert(request == given);
        let Request { agent, command } = request;
        if let Command::Agent(Agent::Register { name }) = &command {
            return Step::Done(register(tx, opt_str(name), now));
        }
        let agent = match agent {
            Some(a) => a,
            None => {
                assert(false);
                return Step::Done(Err(Error::bad("agent is required")));
            },
        };
        let a = agent.as_str();
        match tx.require_agent(a) {
            Ok(()) => {},
            Err(e) => return Step::Done(Err(e)),
        }
        let ghost old_tx = *tx;
        match command {
            Command::Wait { topic, timeout } => {
                return match wait_begin(&mut self.waits, a) {
                    Ok(()) => Step::Wait { agent: owned(a), topic, timeout },
                    Err(e) => Step::Done(Err(e)),
                };
            },
            Command::Topic(TopicCommand::Create { group, name }) => {
                return match topic_create_start(tx, a, group.as_str(), name.as_str(), now) {
                    Ok(chat) => Step::CreateTopic { agent: owned(a), chat, name },
                    Err(e) => Step::Done(Err(e)),
                };
            },
            Command::Topic(TopicCommand::Close { topic }) => {
                return match topic_change_start(tx, a, topic.as_str(), true, now) {
                    Ok(t) => Step::ChangeTopic { agent: owned(a), topic: t, close: true },
                    Err(e) => Step::Done(Err(e)),
                };
            },
            Command::Topic(TopicCommand::Reopen { topic }) => {
                return match topic_change_start(tx, a, topic.as_str(), false, now) {
                    Ok(t) => Step::ChangeTopic { agent: owned(a), topic: t, close: false },
                    Err(e) => Step::Done(Err(e)),
                };
            },
            _ => {},
        }
        let r0: Result<Response> = match &command {
            Command::Whoami => Ok(whoami(a)),
            Command::Subscriptions => Ok(subscriptions(tx, a)),
            Command::Subscribe { topic, muted } => subscribe(tx, a, topic.as_str(), *muted, now),
            Command::Unsubscribe { topic } => unsubscribe(tx, a, topic.as_str(), now),
            Command::Mute { topic, off } => mute(tx, a, topic.as_str(), *off, now),
            Command::Ack { topic, through } => ack(tx, a, topic.as_str(), through.as_str(), now),
            Command::Unread { topic, cursor, limit } => read(tx, a, topic.as_str(), opt_str(cursor), *limit, true),
            Command::History { topic, cursor, limit } => read(tx, a, topic.as_str(), opt_str(cursor), *limit, false),
            Command::Send { topic, content, quote } => send(tx, a, topic.as_str(), content.as_str(), opt_str(quote), now),
            Command::Agent(Agent::List) => Ok(agent_list(tx, &self.waits, now)),
            Command::Group(Group::List) => Ok(group_list(tx)),
            Command::Topic(TopicCommand::List { group }) => topic_list(tx, opt_str(group)),
            Command::Topic(TopicCommand::Show { topic }) => topic_show(tx, topic.as_str()),
            _ => {
                assert(false);
                Err(Error::bad("unsupported management command"))
            },
        };
        let ghost mid = *tx;
        assert(answer_of(old_tx, mid, self.waits, agent@, command, now, r0));
        let r = settle(tx, a, r0, now);
        Step::Done(r)
    }

    /// Ends a wait: frees the Agent's wait slot; an answer marks the Agent as seen.
    pub fn end_wait(&mut self, tx: &mut Tx, agent: &str, r0: Result<Response>, now: i64) -> (r: Result<Response>)
        requires
            old(tx).wf(),
        ensures
            final(tx).wf(),
            final(self).admins == old(self).admins,
            !final(self).waits.holds(agent@),
            forall|n: Seq<char>| n != agent@ ==> final(self).waits.holds(n) == old(self).waits.holds(n),
            settled(*old(tx), *final(tx), agent@, now, r0, r),
    {
        self.waits.release(agent);
        settle(tx, agent, r0, now)
    }

    /// Carries out a request at the current time.
    pub fn handle(&mut self, tx: &mut Tx, request: Request) -> (s: Step)
        requires
            old(tx).wf(),
        ensures
            final(tx).wf(),
            exists|t: i64| executed(*old(tx), *final(tx), *old(self), *final(self), request, t, s),
    {
        let t = now();
        self.execute(tx, request, t)
    }
}

} // verus!
