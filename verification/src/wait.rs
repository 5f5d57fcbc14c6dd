//! Waking a waiting Agent. A wait looks at the Agent's subscriptions, or at one of them,
//! after every change to the store; it ends as soon as one Topic holds a pending message that
//! wakes the Agent, when its time runs out, or when it is cancelled.
use vstd::prelude::*;
use crate::contract::{ReadyTopic, Response};
use crate::db::{MessageRow, Tx, active_sub, is_not_subscribed, lemma_subs_of_active, pending_of, subs_of};
use crate::gateway::{WaitSlots, mentioned, mentions};
use crate::model::{Error, ErrorKind, Result, is_error, msg_id, msg_text};
use crate::text::owned;

verus! {

/// A pending message wakes the Agent, unless the subscription is muted and the message does
/// not mention the Agent.
pub open spec fn wakes(content: Seq<char>, muted: bool, agent: Seq<char>) -> bool {
    !muted || mentions(content, agent)
}

/// The first of the pending messages that wakes the Agent.
pub open spec fn first_wake(p: Seq<MessageRow>, muted: bool, agent: Seq<char>) -> Option<i64>
    decreases p.len(),
{
    if p.len() == 0 {
        None
    } else if wakes(p[0].content@, muted, agent) {
        Some(p[0].id)
    } else {
        first_wake(p.skip(1), muted, agent)
    }
}

/// The Topics that a wait watches: the one given, or every active subscription's.
pub open spec fn watched(tx: Tx, agent: Seq<char>, topic: Option<Seq<char>>) -> Seq<Seq<char>> {
    match topic {
        Some(t) => seq![t],
        None => subs_of(tx.subscriptions@, agent).map_values(|s: crate::db::SubRow| s.topic@),
    }
}

/// Of the Topics `ts`, in order, those with a message that wakes the Agent: each with that
/// first message and the number of pending messages.
pub open spec fn ready_in(tx: Tx, agent: Seq<char>, ts: Seq<Seq<char>>) -> Seq<(Seq<char>, i64, nat)>
    decreases ts.len(),
{
    if ts.len() == 0 {
        Seq::empty()
    } else {
        let rest = ready_in(tx, agent, ts.drop_last());
        let t = ts.last();
        let s = active_sub(tx.subscriptions@, agent, t).unwrap();
        let p = pending_of(tx.messages@, agent, t, s.acked.unwrap_or(0));
        match first_wake(p, s.muted, agent) {
            Some(id) => rest.push((t, id, p.len())),
            None => rest,
        }
    }
}

/// How a ready Topic is reported.
pub open spec fn reports(r: ReadyTopic, x: (Seq<char>, i64, nat)) -> bool {
    &&& r.topic@ == x.0
    &&& r.trigger_msg_id@ == msg_text(x.1 as int)
    &&& r.pending_count == x.2
}

pub open spec fn is_nothing_to_wait_on(e: Error) -> bool {
    is_error(e, ErrorKind::Invalid, "no subscribed Topics to wait on"@)
}

/// The first pending message that wakes the Agent, from `(id, text)` pairs.
fn first_waking(pend: &Vec<(i64, String)>, p: Ghost<Seq<MessageRow>>, muted: bool, agent: &str) -> (r: Option<i64>)
    requires
        pend@.len() == p@.len(),
        forall|k: int| 0 <= k < p@.len() ==> (#[trigger] pend@[k]).0 == p@[k].id && pend@[k].1@ == p@[k].content@,
    ensures
        r == first_wake(p@, muted, agent@),
{
    let n = pend.len();
    assert(p@.skip(0) =~= p@);
    for i in 0..n
        invariant
            n == p@.len(),
            pend@.len() == p@.len(),
            forall|k: int| 0 <= k < p@.len() ==> (#[trigger] pend@[k]).0 == p@[k].id && pend@[k].1@ == p@[k].content@,
            first_wake(p@, muted, agent@) == first_wake(p@.skip(i as int), muted, agent@),
    {
        let ghost rest = p@.skip(i as int);
        assert(rest[0] == p@[i as int]);
        assert(rest.skip(1) == p@.skip(i + 1));
        if !muted || mentioned(pend[i].1.as_str(), agent) {
            return Some(pend[i].0);
        }
    }
    assert(p@.skip(n as int).len() == 0);
    None
}

/// One look at the store for a waiting Agent: the watched Topics that hold a message that
/// wakes it, in order.
pub fn ready_topics(tx: &Tx, agent: &str, topic: Option<&str>) -> (r: Result<Vec<ReadyTopic>>)
    requires
        tx.wf(),
    ensures
        match r {
            Ok(v) => {
                let ts = watched(*tx, agent@, crate::text::opt_text(topic));
                &&& (topic matches Some(t) ==> active_sub(tx.subscriptions@, agent@, t@) is Some)
                &&& ts.len() > 0
                &&& v@.len() == ready_in(*tx, agent@, ts).len()
                &&& forall|i: int| 0 <= i < v@.len() ==> reports(#[trigger] v@[i], ready_in(*tx, agent@, ts)[i])
            },
            Err(e) => match topic {
                Some(t) => active_sub(tx.subscriptions@, agent@, t@) is None && is_not_subscribed(e),
                None => subs_of(tx.subscriptions@, agent@).len() == 0 && is_nothing_to_wait_on(e),
            },
        },
{
    let ghost ts = watched(*tx, agent@, crate::text::opt_text(topic));
    let mut names: Vec<String> = Vec::new();
    match topic {
        Some(t) => {
            match tx.sub(agent, t) {
                Ok(_) => {},
                Err(e) => return Err(e),
            }
            names.push(owned(t));
            assert(names@.map_values(|s: String| s@) =~= ts);
        },
        None => {
            let subs = tx.subs(agent);
            for i in 0..subs.len()
                invariant
                    subs@.len() == subs_of(tx.subscriptions@, agent@).len(),
                    forall|k: int|
                        0 <= k < subs@.len() ==> (#[trigger] subs@[k]).topic@ == subs_of(
                            tx.subscriptions@,
                            agent@,
                        )[k].topic@,
                    names@.len() == i,
                    forall|k: int| 0 <= k < i ==> (#[trigger] names@[k])@ == subs@[k].topic@,
            {
                names.push(owned(subs[i].topic.as_str()));
            }
            assert(names@.map_values(|s: String| s@) =~= ts);
        },
    }
    if names.len() == 0 {
        return Err(Error::bad("no subscribed Topics to wait on"));
    }
    let mut ready: Vec<ReadyTopic> = Vec::new();
    for i in 0..names.len()
        invariant
            tx.wf(),
            names@.map_values(|s: String| s@) == ts,
            ts == watched(*tx, agent@, crate::text::opt_text(topic)),
            topic matches Some(t) ==> active_sub(tx.subscriptions@, agent@, t@) is Some,
            ready@.len() == ready_in(*tx, agent@, ts.take(i as int)).len(),
            forall|k: int| 0 <= k < ready@.len() ==> reports(#[trigger] ready@[k], ready_in(*tx, agent@, ts.take(i as int))[k]),
    {
        let name = names[i].as_str();
        assert(names@.map_values(|s: String| s@).len() == names@.len());
        assert(names@.map_values(|s: String| s@)[i as int] == name@);
        assert(ts[i as int] == name@);
        proof {
            if topic is None {
                let l = subs_of(tx.subscriptions@, agent@);
                assert(ts == l.map_values(|s: crate::db::SubRow| s.topic@));
                assert(i < l.len());
                lemma_subs_of_active(tx.subscriptions@, agent@, i as int);
                assert(ts[i as int] == l[i as int].topic@);
            }
        }
        let (acked, muted) = match tx.sub(agent, name) {
            Ok(x) => x,
            Err(_) => {
                assert(false);
                return Err(Error::bad("Topic is not currently subscribed"));
            },
        };
        let pend = tx.pending(agent, name, acked);
        let ghost p = pending_of(tx.messages@, agent@, name@, acked.unwrap_or(0));
        let first = first_waking(&pend, Ghost(p), muted, agent);
        assert(ts.take(i + 1).drop_last() == ts.take(i as int));
        assert(ts.take(i + 1).last() == name@);
        match first {
            Some(id) => {
                ready.push(ReadyTopic { topic: owned(name), trigger_msg_id: msg_id(id), pending_count: pend.len() });
            },
            None => {},
        }
    }
    assert(ts.take(names@.len() as int) == ts);
    Ok(ready)
}

/// Starts a wait: refused while the Agent already waits.
pub fn wait_begin(waits: &mut WaitSlots, agent: &str) -> (r: Result<()>)
    ensures
        final(waits).holds(agent@),
        forall|n: Seq<char>| n != agent@ ==> final(waits).holds(n) == old(waits).holds(n),
        match r {
            Ok(()) => !old(waits).holds(agent@),
            Err(e) => old(waits).holds(agent@) && *final(waits) == *old(waits) && is_error(
                e,
                ErrorKind::Conflict,
                "This Agent already has an active wait."@,
            ),
        },
{
    if waits.acquire(agent) {
        Ok(())
    } else {
        Err(Error::conflict("This Agent already has an active wait."))
    }
}

/// What a wait does after one look at the store: answer with the ready Topics, answer with
/// none once its time has run out, pass on an error, or keep waiting (`None`).
pub fn wait_answer(ready: Result<Vec<ReadyTopic>>, expired: bool) -> (r: Option<Result<Response>>)
    ensures
        match ready {
            Err(e) => r == Some(Err::<Response, Error>(e)),
            Ok(v) => if v@.len() > 0 {
                r matches Some(Ok(Response::Wait { topics })) && topics@ == v@
            } else if expired {
                r matches Some(Ok(Response::Wait { topics })) && topics@.len() == 0
            } else {
                r is None
            },
        },
{
    match ready {
        Err(e) => Some(Err(e)),
        Ok(v) => if v.len() > 0 {
            Some(Ok(Response::Wait { topics: v }))
        } else if expired {
            Some(Ok(Response::Wait { topics: Vec::new() }))
        } else {
            None
        },
    }
}

/// How a wait can end without a look at the store.
#[derive(Debug)]
pub enum WaitEnd {
    /// The request was cancelled.
    Cancelled,
    /// The store stopped announcing changes.
    Stopped,
    /// The wait's time ran out.
    TimedOut,
}

/// The answer of a wait that ends without a look at the store.
pub fn wait_end(end: WaitEnd) -> (r: Result<Response>)
    ensures
        match end {
            WaitEnd::Cancelled => r matches Err(e) && is_error(e, ErrorKind::Invalid, "wait cancelled"@),
            WaitEnd::Stopped => r matches Err(e) && is_error(e, ErrorKind::Unavailable, "database notifications stopped"@),
            WaitEnd::TimedOut => r matches Ok(Response::Wait { topics }) && topics@.len() == 0,
        },
{
    match end {
        WaitEnd::Cancelled => Err(Error::bad("wait cancelled")),
        WaitEnd::Stopped => Err(Error::internal("database notifications stopped")),
        WaitEnd::TimedOut => Ok(Response::Wait { topics: Vec::new() }),
    }
}

} // verus!
