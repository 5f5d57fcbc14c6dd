//! What the Gateway does for Agents and Users: registration, subscriptions, reading,
//! sending, acknowledging, waking, Topic management, the handling of Telegram updates and
//! the delivery queue. Each operation is one transaction on the store; where a Telegram call
//! or a wait stands in the middle, the operation is split into the steps around it.
use vstd::prelude::*;
use crate::contract::Response;
use crate::db::{agent_exists, is_conflict, lemma_pending_sorted, lemma_queued_push, JobStatus, MessageRow, OutboxRow, SubRow, Tx, in_topic, is_foreign_message, is_storage_failure,
    pending_of, queued, active_sub, has_sub, is_not_subscribed, is_unknown_topic, joined, listing_of,
    sub_index, subs_of, subscribed, scope, page_len, page_row, message_of};
use crate::json::{Json, lemma_members, member_of, text_value};
use crate::model::{Delivery, Error, ErrorKind, Result, is_error, msg_id, msg_number, msg_text, parse_msg};
use crate::bot::{conversation, conversation_text};
use crate::text::{opt_string, opt_text, push_char, utf16_len, utf16_units, chars_of, is_ascii_letter, is_word, ascii_letter, word_char, owned, str_eq};

verus! {

/// An Agent name: an ASCII letter, then ASCII letters, digits or underscores.
pub open spec fn is_valid_name(s: Seq<char>) -> bool {
    s.len() > 0 && is_ascii_letter(s[0]) && forall|i: int| 1 <= i < s.len() ==> is_word(#[trigger] s[i])
}

pub fn valid_name(s: &str) -> (r: bool)
    ensures
        r == is_valid_name(s@),
{
    let v = chars_of(s);
    if v.len() == 0 || !ascii_letter(v[0]) {
        return false;
    }
    for i in 1..v.len()
        invariant
            v@ == s@,
            forall|j: int| 1 <= j < i ==> is_word(#[trigger] v@[j]),
    {
        if !word_char(v[i]) {
            return false;
        }
    }
    true
}

/// `content` mentions `name` at position `i`: an `@` not preceded by a name character,
/// followed by `name` and then by no name character.
pub open spec fn mention_at(content: Seq<char>, name: Seq<char>, i: int) -> bool {
    &&& 0 <= i < content.len()
    &&& content[i] == '@'
    &&& (i == 0 || !is_word(content[i - 1]))
    &&& i + 1 + name.len() <= content.len()
    &&& content.subrange(i + 1, i + 1 + name.len()) == name
    &&& (i + 1 + name.len() == content.len() || !is_word(content[i + 1 + name.len()]))
}

/// `content` mentions `@name`.
pub open spec fn mentions(content: Seq<char>, name: Seq<char>) -> bool {
    exists|i: int| mention_at(content, name, i)
}

pub fn mentioned(content: &str, name: &str) -> (r: bool)
    ensures
        r == mentions(content@, name@),
{
    let c = chars_of(content);
    let m = chars_of(name);
    let n = c.len();
    let k = m.len();
    for i in 0..n
        invariant
            c@ == content@,
            m@ == name@,
            n == c@.len(),
            k == m@.len(),
            forall|j: int| 0 <= j < i ==> !mention_at(c@, m@, j),
    {
        if c[i] == '@' && (i == 0 || !word_char(c[i - 1])) && k <= n - i - 1 {
            let mut same = true;
            let mut p: usize = 0;
            while p < k
                invariant
                    c@ == content@,
                    m@ == name@,
                    n == c@.len(),
                    k == m@.len(),
                    i + 1 + k <= n,
                    p <= k,
                    same == forall|q: int| 0 <= q < p ==> c@[i + 1 + q] == m@[q],
                decreases k - p,
            {
                if c[i + 1 + p] != m[p] {
                    same = false;
                }
                p = p + 1;
            }
            if same && (i + 1 + k == n || !word_char(c[i + 1 + k])) {
                assert(c@.subrange(i + 1, i + 1 + k as int) =~= m@);
                assert(mention_at(c@, m@, i as int));
                return true;
            }
            proof {
                if !same {
                    let q = choose|q: int| 0 <= q < k && c@[i + 1 + q] != m@[q];
                    assert(c@.subrange(i + 1, i + 1 + k as int)[q] != m@[q]);
                }
            }
        }
    }
    false
}

// ---------------------------------------------------------------- waits

/// The Agents with a wait in progress; one wait per Agent.
#[derive(Debug)]
pub struct WaitSlots {
    names: Vec<String>,
}

impl WaitSlots {
    /// Whether Agent `name` has a wait in progress.
    pub closed spec fn holds(&self, name: Seq<char>) -> bool {
        exists|i: int| 0 <= i < self.names@.len() && self.names@[i]@ == name
    }

    pub fn new() -> (w: WaitSlots)
        ensures
            forall|n: Seq<char>| !w.holds(n),
    {
        WaitSlots { names: Vec::new() }
    }

    fn find(&self, name: &str) -> (r: Option<usize>)
        ensures
            match r {
                Some(i) => i < self.names@.len() && self.names@[i as int]@ == name@,
                None => !self.holds(name@),
            },
    {
        for i in 0..self.names.len()
            invariant
                forall|j: int| 0 <= j < i ==> self.names@[j]@ != name@,
        {
            if str_eq(self.names[i].as_str(), name) {
                return Some(i);
            }
        }
        None
    }

    /// Whether Agent `name` has a wait in progress.
    pub fn has(&self, name: &str) -> (r: bool)
        ensures
            r == self.holds(name@),
    {
        self.find(name).is_some()
    }

    /// Starts a wait for the Agent; false, and nothing changes, while one is in progress.
    pub fn acquire(&mut self, name: &str) -> (r: bool)
        ensures
            r == !old(self).holds(name@),
            !r ==> *final(self) == *old(self),
            final(self).holds(name@),
            forall|n: Seq<char>| n != name@ ==> final(self).holds(n) == old(self).holds(n),
    {
        match self.find(name) {
            Some(_) => false,
            None => {
                let ghost before = self.names@;
                self.names.push(owned(name));
                proof {
                    let after = self.names@;
                    assert(after[after.len() - 1]@ == name@);
                    assert forall|n: Seq<char>| n != name@ implies self.holds(n) == old(self).holds(n) by {
                        if old(self).holds(n) {
                            let i = choose|i: int| 0 <= i < before.len() && before[i]@ == n;
                            assert(after[i] == before[i]);
                        }
                        if self.holds(n) {
                            let i = choose|i: int| 0 <= i < after.len() && after[i]@ == n;
                            assert(i < before.len());
                            assert(after[i] == before[i]);
                        }
                    }
                }
                true
            },
        }
    }

    /// Ends the Agent's wait.
    pub fn release(&mut self, name: &str)
        ensures
            !final(self).holds(name@),
            forall|n: Seq<char>| n != name@ ==> final(self).holds(n) == old(self).holds(n),
    {
        loop
            invariant
                forall|n: Seq<char>| n != name@ ==> self.holds(n) == old(self).holds(n),
            decreases self.names@.len(),
        {
            match self.find(name) {
                Some(i) => {
                    let ghost before = self.names@;
                    self.names.remove(i);
                    proof {
                        let after = self.names@;
                        assert forall|n: Seq<char>| n != name@ implies self.holds(n) == old(self).holds(n) by {
                            if exists|j: int| 0 <= j < before.len() && before[j]@ == n {
                                let j = choose|j: int| 0 <= j < before.len() && before[j]@ == n;
                                assert(j != i);
                                if j < i {
                                    assert(after[j] == before[j]);
                                } else {
                                    assert(after[j - 1] == before[j]);
                                }
                            }
                            if exists|j: int| 0 <= j < after.len() && after[j]@ == n {
                                let j = choose|j: int| 0 <= j < after.len() && after[j]@ == n;
                                if j < i {
                                    assert(after[j] == before[j]);
                                } else {
                                    assert(after[j] == before[j + 1]);
                                }
                            }
                        }
                    }
                },
                None => return,
            }
        }
    }

    /// The names of the Agents with a wait in progress.
    pub fn waiting(&self) -> (r: Vec<String>)
        ensures
            forall|n: Seq<char>| self.holds(n) <==> exists|j: int| 0 <= j < r@.len() && r@[j]@ == n,
    {
        let mut r: Vec<String> = Vec::new();
        for i in 0..self.names.len()
            invariant
                r@.len() == i,
                forall|j: int| 0 <= j < i ==> (#[trigger] r@[j])@ == self.names@[j]@,
        {
            r.push(owned(self.names[i].as_str()));
        }
        proof {
            assert forall|n: Seq<char>| self.holds(n) <==> exists|j: int| 0 <= j < r@.len() && r@[j]@ == n by {
                if self.holds(n) {
                    let i = choose|i: int| 0 <= i < self.names@.len() && self.names@[i]@ == n;
                    assert(r@[i]@ == n);
                }
            }
        }
        r
    }
}

/// The Gateway's state besides the store: the administrators' Telegram user ids and the
/// Agents that wait.
#[derive(Debug)]
pub struct Gateway {
    pub admins: Vec<i64>,
    pub waits: WaitSlots,
}

impl Gateway {
    pub fn new(admins: Vec<i64>) -> (g: Gateway)
        ensures
            g.admins@ == admins@,
            forall|n: Seq<char>| !g.waits.holds(n),
    {
        Gateway { admins, waits: WaitSlots::new() }
    }
}

// ---------------------------------------------------------------- audit

/// `new` records one more management event than `old`, of this kind, at `now`.
pub open spec fn logged(old: Tx, new: Tx, kind: Seq<char>, now: i64) -> bool {
    &&& new.management@.len() == old.management@.len() + 1
    &&& new.management@.drop_last() == old.management@
    &&& new.management@.last().kind@ == kind
    &&& new.management@.last().time == now
}

/// `new` records one more management event than `old`: of this kind, at `now`, naming the
/// Agent and the Topic.
pub open spec fn audited(old: Tx, new: Tx, kind: Seq<char>, now: i64, agent: Seq<char>, topic: Seq<char>) -> bool {
    &&& logged(old, new, kind, now)
    &&& new.management@.last().detail.at("agent"@).str_of() == Some(agent)
    &&& new.management@.last().detail.at("topic"@).str_of() == Some(topic)
}

/// Records a request of an Agent on a Topic.
fn audit_request(tx: &mut Tx, kind: &str, agent: &str, topic: &str, now: i64)
    ensures
        audited(*old(tx), *final(tx), kind@, now, agent@, topic@),
        (Tx { management: final(tx).management, ..*old(tx) }) == *final(tx),
{
    let detail = Json::Object(vec![member_of("agent", text_value(agent)), member_of("topic", text_value(topic))]);
    proof {
        reveal_strlit("agent");
        reveal_strlit("topic");
        assert("agent"@[0] != "topic"@[0]);
        lemma_members(detail->Object_0@, "agent"@);
        lemma_members(detail->Object_0@, "topic"@);
    }
    tx.audit(kind, detail, now);
    assert(final(tx).management@.drop_last() == old(tx).management@);
}

// ---------------------------------------------------------------- communication

/// `whoami`: the Agent's own name.
pub fn whoami(agent: &str) -> (r: Response)
    ensures
        r matches Response::Identity { name } && name@ == agent@,
{
    Response::Identity { name: owned(agent) }
}

/// What `subscriptions` answers.
pub open spec fn subscriptions_outcome(tx: Tx, agent: Seq<char>, r: Response) -> bool {
    r matches Response::Subscriptions { subscriptions } && subscriptions@.len() == subs_of(
        tx.subscriptions@,
        agent,
    ).len() && forall|i: int|
        0 <= i < subscriptions@.len() ==> listing_of(
            #[trigger] subscriptions@[i],
            subs_of(tx.subscriptions@, agent)[i],
        )
}

/// `subscriptions`: the Agent's active subscriptions.
pub fn subscriptions(tx: &Tx, agent: &str) -> (r: Response)
    ensures
        subscriptions_outcome(*tx, agent@, r),
{
    Response::Subscriptions { subscriptions: tx.subs(agent) }
}

/// What `subscribe` does and answers.
pub open spec fn subscribe_outcome(old: Tx, new: Tx, agent: Seq<char>, topic: Seq<char>, muted: bool, now: i64, r: Result<Response>) -> bool {
    match r {
        Ok(resp) => {
            &&& resp matches Response::Topic { topic: t } && t@ == topic
            &&& exists|mid: Tx|
                subscribed(old, mid, agent, topic, muted) && (Tx {
                    management: new.management,
                    ..mid
                }) == new && audited(mid, new, "subscribe"@, now, agent, topic)
        },
        Err(e) => joined(old.topics@, old.groups@, topic) is None && is_unknown_topic(e)
            && new == old,
    }
}

/// `subscribe`: subscribes the Agent to a known Topic, or renews its subscription.
pub fn subscribe(tx: &mut Tx, agent: &str, topic: &str, muted: bool, now: i64) -> (r: Result<Response>)
    requires
        old(tx).wf(),
    ensures
        final(tx).wf(),
        subscribe_outcome(*old(tx), *final(tx), agent@, topic@, muted, now, r),
{
    match tx.subscribe(agent, topic, muted) {
        Ok(()) => {},
        Err(e) => return Err(e),
    }
    let ghost mid = *tx;
    audit_request(tx, "subscribe", agent, topic, now);
    Ok(Response::Topic { topic: owned(topic) })
}

/// What `unsubscribe` does and answers.
pub open spec fn unsubscribe_outcome(old: Tx, new: Tx, agent: Seq<char>, topic: Seq<char>, now: i64, r: Result<Response>) -> bool {
    match r {
        Ok(resp) => {
            &&& resp matches Response::Topic { topic: t } && t@ == topic
            &&& joined(old.topics@, old.groups@, topic) is Some
            &&& (Tx { subscriptions: new.subscriptions, management: new.management, ..old })
                == new
            &&& if has_sub(old.subscriptions@, agent, topic) {
                let k = sub_index(old.subscriptions@, agent, topic);
                new.subscriptions@ == old.subscriptions@.update(
                    k,
                    SubRow { active: false, ..old.subscriptions@[k] },
                )
            } else {
                new.subscriptions@ == old.subscriptions@
            }
            &&& audited(old, new, "unsubscribe"@, now, agent, topic)
        },
        Err(e) => joined(old.topics@, old.groups@, topic) is None && is_unknown_topic(e)
            && new == old,
    }
}

/// `unsubscribe`: ends the subscription to a known Topic, keeping its progress.
pub fn unsubscribe(tx: &mut Tx, agent: &str, topic: &str, now: i64) -> (r: Result<Response>)
    requires
        old(tx).wf(),
    ensures
        final(tx).wf(),
        unsubscribe_outcome(*old(tx), *final(tx), agent@, topic@, now, r),
{
    match tx.unsubscribe(agent, topic) {
        Ok(()) => {},
        Err(e) => return Err(e),
    }
    audit_request(tx, "unsubscribe", agent, topic, now);
    Ok(Response::Topic { topic: owned(topic) })
}

/// What `mute` does and answers.
pub open spec fn mute_outcome(old: Tx, new: Tx, agent: Seq<char>, topic: Seq<char>, off: bool, now: i64, r: Result<Response>) -> bool {
    match r {
        Ok(resp) => {
            &&& resp matches Response::Muted { topic: t, muted } && t@ == topic && muted == !off
            &&& active_sub(old.subscriptions@, agent, topic) is Some
            &&& (Tx { subscriptions: new.subscriptions, management: new.management, ..old })
                == new
            &&& ({
                let k = sub_index(old.subscriptions@, agent, topic);
                new.subscriptions@ == old.subscriptions@.update(
                    k,
                    SubRow { muted: !off, ..old.subscriptions@[k] },
                )
            })
            &&& audited(old, new, "mute"@, now, agent, topic)
        },
        Err(e) => active_sub(old.subscriptions@, agent, topic) is None && is_not_subscribed(e)
            && new == old,
    }
}

/// `mute`: mutes an active subscription, or unmutes it with `off`.
pub fn mute(tx: &mut Tx, agent: &str, topic: &str, off: bool, now: i64) -> (r: Result<Response>)
    requires
        old(tx).wf(),
    ensures
        final(tx).wf(),
        mute_outcome(*old(tx), *final(tx), agent@, topic@, off, now, r),
{
    let muted = !off;
    match tx.mute(agent, topic, muted) {
        Ok(()) => {},
        Err(e) => return Err(e),
    }
    audit_request(tx, "mute", agent, topic, now);
    Ok(Response::Muted { topic: owned(topic), muted })
}

/// The boundary after acknowledging through `n`: the later of the old boundary and `n`.
pub open spec fn ack_boundary(acked: Option<i64>, n: i64) -> i64 {
    match acked {
        Some(a) => if a > n {
            a
        } else {
            n
        },
        None => n,
    }
}

/// The pending messages that an acknowledgement through `n` covers: those after the old
/// boundary up to `n`, other participants' only.
pub open spec fn covered(msgs: Seq<MessageRow>, a: Seq<char>, t: Seq<char>, floor: i64, n: i64, id: i64) -> bool {
    exists|j: int|
        #![trigger pending_of(msgs, a, t, floor)[j]]
        0 <= j < pending_of(msgs, a, t, floor).len() && pending_of(msgs, a, t, floor)[j].id == id && id <= n
}

/// Row `o` is a heart receipt for message `id` in `chat`.
pub open spec fn heart_row(o: OutboxRow, id: i64, chat: i64) -> bool {
    &&& o.kind@ == "reaction"@
    &&& o.message == Some(id)
    &&& o.chat == chat
    &&& o.payload == Delivery::Heart { target: None }
    &&& o.status == JobStatus::Pending
}

/// Row `o` is the heart receipt of a message that an acknowledgement through `n` covers.
pub open spec fn receipt(o: OutboxRow, msgs: Seq<MessageRow>, a: Seq<char>, t: Seq<char>, floor: i64, n: i64, chat: i64) -> bool {
    &&& o.message is Some
    &&& covered(msgs, a, t, floor, n, o.message.unwrap())
    &&& heart_row(o, o.message.unwrap(), chat)
}

/// When `ack` is refused: a malformed message id, no active subscription, a message of
/// another Topic, or, where the boundary would move, a Topic without an available Group or
/// no room left for the heart receipts.
pub open spec fn ack_fails(old: Tx, agent: Seq<char>, topic: Seq<char>, through: Seq<char>) -> bool {
    ||| msg_number(through) is None
    ||| active_sub(old.subscriptions@, agent, topic) is None
    ||| !in_topic(old.messages@, topic, msg_number(through).unwrap())
    ||| ({
        let s = active_sub(old.subscriptions@, agent, topic).unwrap();
        &&& s.acked != Some(ack_boundary(s.acked, msg_number(through).unwrap()))
        &&& (joined(old.topics@, old.groups@, topic) is None || old.outbox@.len() + pending_of(
            old.messages@,
            agent,
            topic,
            s.acked.unwrap_or(0),
        ).len() >= 0x7fff_ffff_ffff_fffe)
    })
}

/// What `ack` does and answers.
pub open spec fn ack_outcome(old: Tx, new: Tx, agent: Seq<char>, topic: Seq<char>, through: Seq<char>, now: i64, r: Result<Response>) -> bool {
    &&& (r is Err <==> ack_fails(old, agent, topic, through))
    &&& match r {
        Ok(resp) => {
            let n = msg_number(through).unwrap();
            let s = active_sub(old.subscriptions@, agent, topic).unwrap();
            let b = ack_boundary(s.acked, n);
            let k = sub_index(old.subscriptions@, agent, topic);
            &&& msg_number(through) is Some
            &&& active_sub(old.subscriptions@, agent, topic) is Some
            &&& in_topic(old.messages@, topic, n)
            &&& resp matches Response::Ack { last_acked_msg_id } && last_acked_msg_id@ == msg_text(b as int)
            &&& audited(old, new, "ack"@, now, agent, topic)
            &&& if s.acked == Some(b) {
                (Tx { management: new.management, ..old }) == new
            } else {
                &&& (Tx {
                    management: new.management,
                    subscriptions: new.subscriptions,
                    outbox: new.outbox,
                    ..old
                }) == new
                &&& new.subscriptions@ == old.subscriptions@.update(
                    k,
                    SubRow { acked: Some(b), ..old.subscriptions@[k] },
                )
                &&& joined(old.topics@, old.groups@, topic) is Some
                &&& new.outbox@.take(old.outbox@.len() as int) == old.outbox@
                &&& forall|id: i64|
                    covered(old.messages@, agent, topic, s.acked.unwrap_or(0), n, id) ==> queued(
                        new.outbox@,
                        "reaction"@,
                        Some(id),
                    )
                &&& forall|j: int|
                    old.outbox@.len() <= j < new.outbox@.len() ==> receipt(
                        #[trigger] new.outbox@[j],
                        old.messages@,
                        agent,
                        topic,
                        s.acked.unwrap_or(0),
                        n,
                        joined(old.topics@, old.groups@, topic).unwrap().0.chat,
                    )
            }
        },
        Err(e) => new == old && if msg_number(through) is None {
            is_error(e, ErrorKind::Invalid, "invalid msg_id"@)
        } else if active_sub(old.subscriptions@, agent, topic) is None {
            is_not_subscribed(e)
        } else if !in_topic(old.messages@, topic, msg_number(through).unwrap()) {
            is_foreign_message(e)
        } else if joined(old.topics@, old.groups@, topic) is None {
            is_unknown_topic(e)
        } else {
            is_storage_failure(e)
        },
    }
}

/// `ack`: acknowledges the Agent's subscription through a message of the Topic. The boundary
/// never moves back; when it moves, every pending message that it passes gets a heart
/// receipt in the same transaction.
pub fn ack(tx: &mut Tx, agent: &str, topic: &str, through: &str, now: i64) -> (r: Result<Response>)
    requires
        old(tx).wf(),
    ensures
        final(tx).wf(),
        ack_outcome(*old(tx), *final(tx), agent@, topic@, through@, now, r),
{
    let n = match parse_msg(through) {
        Ok(n) => n,
        Err(e) => return Err(e),
    };
    let (acked, _) = match tx.sub(agent, topic) {
        Ok(x) => x,
        Err(e) => return Err(e),
    };
    match tx.message_in(topic, n) {
        Ok(()) => {},
        Err(e) => return Err(e),
    }
    let boundary = match acked {
        Some(a) => if a > n {
            a
        } else {
            n
        },
        None => n,
    };
    let moved = match acked {
        Some(a) => a != boundary,
        None => true,
    };
    if moved {
        let t = match tx.topic(topic) {
            Ok(t) => t,
            Err(e) => return Err(e),
        };
        let pend = tx.pending(agent, topic, acked);
        proof {
            lemma_pending_sorted(tx.messages@, agent@, topic@, acked.unwrap_or(0));
        }
        if tx.outbox.len() as u64 + pend.len() as u64 >= 0x7fff_ffff_ffff_fffe {
            return Err(Error::internal("database operation failed"));
        }
        let ghost start = *tx;
        let ghost p = pending_of(start.messages@, agent@, topic@, acked.unwrap_or(0));
        let mut j: usize = 0;
        while j < pend.len()
            invariant
                tx.wf(),
                (Tx { outbox: tx.outbox, ..start }) == *tx,
                p == pending_of(start.messages@, agent@, topic@, acked.unwrap_or(0)),
                pend@.len() == p.len(),
                forall|q: int| 0 <= q < p.len() ==> (#[trigger] pend@[q]).0 == p[q].id,
                forall|q1: int, q2: int| 0 <= q1 < q2 < p.len() ==> p[q1].id < p[q2].id,
                j <= pend@.len(),
                tx.outbox@.len() <= start.outbox@.len() + j,
                tx.outbox@.len() >= start.outbox@.len(),
                start.outbox@.len() + pend@.len() < 0x7fff_ffff_ffff_fffe,
                tx.outbox@.take(start.outbox@.len() as int) == start.outbox@,
                forall|q: int| 0 <= q < j && p[q].id <= n ==> queued(tx.outbox@, "reaction"@, Some(p[q].id)),
                forall|x: int|
                    start.outbox@.len() <= x < tx.outbox@.len() ==> receipt(
                        #[trigger] tx.outbox@[x],
                        start.messages@,
                        agent@,
                        topic@,
                        acked.unwrap_or(0),
                        n,
                        t.chat,
                    ),
            ensures
                j == pend@.len() || p[j as int].id > n,
                j <= pend@.len(),
            decreases pend@.len() - j,
        {
            let id = pend[j].0;
            if id > n {
                break;
            }
            let ghost before = tx.outbox@;
            match tx.enqueue("reaction", Some(id), t.chat, Delivery::Heart { target: None }) {
                Ok(()) => {},
                Err(e) => return Err(e),
            }
            proof {
                let after = tx.outbox@;
                if after != before {
                    let x = after.last();
                    assert(after == before.push(x));
                    lemma_queued_push(before, x, "reaction"@, Some(id));
                    assert forall|q: int| 0 <= q < j && p[q].id <= n implies queued(after, "reaction"@, Some(p[q].id)) by {
                        lemma_queued_push(before, x, "reaction"@, Some(p[q].id));
                    }
                    assert(after.take(start.outbox@.len() as int) =~= before.take(start.outbox@.len() as int));
                    assert(covered(start.messages@, agent@, topic@, acked.unwrap_or(0), n, id)) by {
                        assert(pend@[j as int].0 == p[j as int].id);
                        assert(pending_of(start.messages@, agent@, topic@, acked.unwrap_or(0))[j as int].id == id);
                    }
                    assert(receipt(x, start.messages@, agent@, topic@, acked.unwrap_or(0), n, t.chat));
                    assert forall|y: int| start.outbox@.len() <= y < after.len() implies receipt(
                        #[trigger] after[y],
                        start.messages@,
                        agent@,
                        topic@,
                        acked.unwrap_or(0),
                        n,
                        t.chat,
                    ) by {
                        if y < before.len() {
                            assert(after[y] == before[y]);
                        } else {
                            assert(after[y] == x);
                        }
                    }
                }
            }
            j = j + 1;
        }
        proof {
            assert forall|id: i64| covered(start.messages@, agent@, topic@, acked.unwrap_or(0), n, id) implies queued(
                tx.outbox@,
                "reaction"@,
                Some(id),
            ) by {
                let q = choose|q: int| 0 <= q < p.len() && p[q].id == id && id <= n;
                if j < pend@.len() && q >= j {
                    if q > j {
                        assert(p[j as int].id < p[q].id);
                    }
                }
            }
            assert(t.chat == joined(start.topics@, start.groups@, topic@).unwrap().0.chat);
        }
        let ghost queue = tx.outbox@;
        tx.set_ack(agent, topic, boundary);
        assert(tx.outbox@ == queue);
    }
    audit_request(tx, "ack", agent, topic, now);
    Ok(Response::Ack { last_acked_msg_id: msg_id(boundary) })
}


/// How many messages a page may hold: the requested limit, 20 by default.
pub open spec fn page_limit(limit: Option<u32>) -> i64 {
    match limit {
        Some(l) => l as i64,
        None => 20,
    }
}

/// Where a read starts: after (or, reading history, before) the given cursor; reading
/// unread messages without a cursor, after the subscription's boundary; reading history
/// without a cursor, from the newest message.
pub open spec fn read_start(subs: Seq<SubRow>, agent: Seq<char>, topic: Seq<char>, cursor: Option<Seq<char>>, forward: bool) -> Option<i64> {
    match cursor {
        Some(c) => msg_number(c),
        None => if forward {
            active_sub(subs, agent, topic).unwrap().acked
        } else {
            None
        },
    }
}

/// A read succeeds: the Topic is known, an unread read has an active subscription, and a
/// cursor names a message of the Topic.
pub open spec fn readable(tx: Tx, agent: Seq<char>, topic: Seq<char>, cursor: Option<Seq<char>>, forward: bool) -> bool {
    &&& joined(tx.topics@, tx.groups@, topic) is Some
    &&& (forward ==> active_sub(tx.subscriptions@, agent, topic) is Some)
    &&& (cursor matches Some(c) ==> msg_number(c) is Some && in_topic(tx.messages@, topic, msg_number(c).unwrap()))
}

/// What `unread` and `history` answer.
pub open spec fn read_outcome(tx: Tx, agent: Seq<char>, topic: Seq<char>, cursor: Option<Seq<char>>, limit: Option<u32>, forward: bool, r: Result<Response>) -> bool {
    match r {
        Ok(resp) => {
            let c = read_start(tx.subscriptions@, agent, topic, cursor, forward);
            let s = scope(tx.messages@, topic, c, forward);
            let n = page_len(s.len() as int, page_limit(limit));
            &&& readable(tx, agent, topic, cursor, forward)
            &&& resp matches Response::Page { messages, next_cursor, remaining_count }
            &&& messages@.len() == n
            &&& forall|k: int| 0 <= k < n ==> message_of(#[trigger] messages@[k], page_row(s, forward, k))
            &&& remaining_count == s.len() - n
            &&& opt_string(next_cursor) == if n > 0 {
                Some(msg_text(page_row(s, forward, n - 1).id as int))
            } else {
                match c {
                    Some(i) => Some(msg_text(i as int)),
                    None => None,
                }
            }
        },
        Err(e) => !readable(tx, agent, topic, cursor, forward) && if joined(
            tx.topics@,
            tx.groups@,
            topic,
        ) is None {
            is_unknown_topic(e)
        } else if forward && active_sub(tx.subscriptions@, agent, topic) is None {
            is_not_subscribed(e)
        } else if msg_number(cursor.unwrap()) is None {
            is_error(e, ErrorKind::Invalid, "invalid msg_id"@)
        } else {
            is_foreign_message(e)
        },
    }
}

/// `unread` (reading forward) and `history` (reading backward): a page of the Topic's
/// messages past the start, the cursor to continue from, and how many messages remain.
pub fn read(tx: &Tx, agent: &str, topic: &str, cursor: Option<&str>, limit: Option<u32>, forward: bool) -> (r: Result<Response>)
    requires
        tx.wf(),
    ensures
        read_outcome(*tx, agent@, topic@, opt_text(cursor), limit, forward, r),
{
    match tx.topic(topic) {
        Ok(_) => {},
        Err(e) => return Err(e),
    }
    let base = if forward {
        match tx.sub(agent, topic) {
            Ok((acked, _)) => acked,
            Err(e) => return Err(e),
        }
    } else {
        None
    };
    let start = match cursor {
        Some(c) => {
            let id = match parse_msg(c) {
                Ok(id) => id,
                Err(e) => return Err(e),
            };
            match tx.message_in(topic, id) {
                Ok(()) => {},
                Err(e) => return Err(e),
            }
            Some(id)
        },
        None => base,
    };
    let lim: i64 = match limit {
        Some(l) => l as i64,
        None => 20,
    };
    let (messages, remaining) = tx.messages(topic, start, forward, lim);
    let next_cursor = if messages.len() > 0 {
        Some(owned(messages[messages.len() - 1].msg_id.as_str()))
    } else {
        match start {
            Some(i) => Some(msg_id(i)),
            None => None,
        }
    };
    Ok(Response::Page { messages, next_cursor, remaining_count: remaining })
}

/// The largest message a send accepts: its Telegram text, with the Agent header, fits in
/// 4096 UTF-16 code units.
pub open spec fn fits_telegram(agent: Seq<char>, content: Seq<char>) -> bool {
    content.len() > 0 && utf16_len(conversation_text(agent, content)) <= 4096
}

pub open spec fn is_closed_topic(e: Error) -> bool {
    is_error(e, ErrorKind::Conflict, "Topic is closed or Group is unavailable"@)
}

pub open spec fn is_bad_content(e: Error) -> bool {
    is_error(
        e,
        ErrorKind::Invalid,
        "message must be nonempty and fit Telegram's 4096 UTF-16 unit limit including the Agent header"@,
    )
}

/// What `send` does and answers.
pub open spec fn send_outcome(old: Tx, new: Tx, agent: Seq<char>, topic: Seq<char>, content: Seq<char>, quote: Option<Seq<char>>, now: i64, r: Result<Response>) -> bool {
    match r {
        Ok(resp) => {
            let (row, g) = joined(old.topics@, old.groups@, topic).unwrap();
            let id: int = old.messages@.len() as int + 1;
            let q = match quote {
                Some(x) => msg_number(x),
                None => None,
            };
            &&& joined(old.topics@, old.groups@, topic) is Some
            &&& !row.closed && g.connected && g.available
            &&& fits_telegram(agent, content)
            &&& (quote matches Some(x) ==> msg_number(x) is Some && in_topic(old.messages@, topic, msg_number(x).unwrap()))
            &&& resp matches Response::Sent { msg_id } && msg_id@ == msg_text(id)
            &&& new.messages@ == old.messages@.push(new.messages@.last())
            &&& new.messages@.last().id == id
            &&& new.messages@.last().topic@ == topic
            &&& new.messages@.last().agent matches Some(a) && a@ == agent
            &&& new.messages@.last().user is None
            &&& new.messages@.last().content@ == content
            &&& new.messages@.last().sent_at == now
            &&& new.messages@.last().quote == q
            &&& if queued(old.outbox@, "send"@, Some(id as i64)) {
                new.outbox@ == old.outbox@
            } else {
                &&& new.outbox@ == old.outbox@.push(new.outbox@.last())
                &&& new.outbox@.last().kind@ == "send"@
                &&& new.outbox@.last().message == Some(id as i64)
                &&& new.outbox@.last().chat == row.chat
                &&& new.outbox@.last().status == JobStatus::Pending
                &&& new.outbox@.last().payload matches Delivery::Send { text, thread, quote: None }
                    && text@ == conversation_text(agent, content) && thread == Some(row.thread)
            }
            &&& exists|mid: Tx|
                (Tx { messages: new.messages, outbox: new.outbox, ..old }) == mid
                    && (Tx { management: new.management, ..mid }) == new
                    && audited(mid, new, "send"@, now, agent, topic)
        },
        Err(e) => new == old && match joined(old.topics@, old.groups@, topic) {
            None => is_unknown_topic(e),
            Some((row, g)) => if row.closed || !(g.connected && g.available) {
                is_closed_topic(e)
            } else if !fits_telegram(agent, content) {
                is_bad_content(e)
            } else if quote matches Some(x) && msg_number(x) is None {
                is_error(e, ErrorKind::Invalid, "invalid msg_id"@)
            } else if quote matches Some(x) && !in_topic(old.messages@, topic, msg_number(x).unwrap()) {
                is_foreign_message(e)
            } else {
                &&& old.messages@.len() + 1 >= i64::MAX || old.outbox@.len() + 1 >= i64::MAX
                &&& is_storage_failure(e)
            },
        },
    }
}

/// `send`: appends the Agent's message to an open Topic of an available Group and queues its
/// delivery to Telegram, in one transaction.
pub fn send(tx: &mut Tx, agent: &str, topic: &str, content: &str, quote: Option<&str>, now: i64) -> (r: Result<Response>)
    requires
        old(tx).wf(),
    ensures
        final(tx).wf(),
        send_outcome(*old(tx), *final(tx), agent@, topic@, content@, opt_text(quote), now, r),
{
    let t = match tx.topic(topic) {
        Ok(t) => t,
        Err(e) => return Err(e),
    };
    if t.closed || !t.available {
        return Err(Error::conflict("Topic is closed or Group is unavailable"));
    }
    let text = conversation(agent, content);
    let units = utf16_units(chars_of(text.as_str()).as_slice());
    if chars_of(content).len() == 0 || units > 4096 {
        return Err(
            Error::bad(
                "message must be nonempty and fit Telegram's 4096 UTF-16 unit limit including the Agent header",
            ),
        );
    }
    let q = match quote {
        Some(x) => {
            let id = match parse_msg(x) {
                Ok(id) => id,
                Err(e) => return Err(e),
            };
            match tx.message_in(topic, id) {
                Ok(()) => {},
                Err(e) => return Err(e),
            }
            Some(id)
        },
        None => None,
    };
    if tx.messages.len() as u64 >= 0x7fff_ffff_ffff_fffe || tx.outbox.len() as u64 >= 0x7fff_ffff_ffff_fffe {
        return Err(Error::internal("database operation failed"));
    }
    let id = match tx.append(topic, Some(agent), None, content, now, q) {
        Ok(id) => id,
        Err(e) => return Err(e),
    };
    match tx.enqueue("send", Some(id), t.chat, Delivery::Send { text, thread: Some(t.thread), quote: None }) {
        Ok(()) => {},
        Err(e) => return Err(e),
    }
    let ghost mid = *tx;
    audit_request(tx, "send", agent, topic, now);
    Ok(Response::Sent { msg_id: msg_id(id) })
}

// ---------------------------------------------------------------- registration

/// A lowercase hexadecimal digit.
pub open spec fn is_lower_hex(c: char) -> bool {
    ('0' <= c && c <= '9') || ('a' <= c && c <= 'f')
}

/// `uuid::Uuid::new_v4().simple().to_string()`: a random version-4 UUID in its simple form,
/// which the `uuid` crate writes as its 16 bytes in 32 lowercase hexadecimal digits. Which
/// digits come back is chance; only their form is stated.
#[verifier::external_body]
fn random_hex() -> (s: String)
    ensures
        s@.len() == 32,
        forall|i: int| 0 <= i < 32 ==> is_lower_hex(#[trigger] s@[i]),
{
    uuid::Uuid::new_v4().simple().to_string()
}

/// Twelve lowercase hexadecimal digits: the suffix of a generated Agent name.
pub open spec fn is_name_suffix(hex: Seq<char>) -> bool {
    hex.len() == 12 && forall|i: int| 0 <= i < 12 ==> is_lower_hex(#[trigger] hex[i])
}

/// The name of an Agent that registers without one: `agent_` and the first 12 digits of a
/// random identifier.
pub open spec fn generated_name(hex: Seq<char>) -> Seq<char> {
    "agent_"@ + hex.take(12)
}

/// The name that registration gives an Agent from a random identifier's digits.
pub fn generated(hex: &str) -> (s: String)
    requires
        hex@.len() >= 12,
    ensures
        s@ == generated_name(hex@),
{
    let v = chars_of(hex);
    let mut s = owned("agent_");
    let ghost start = s@;
    for i in 0..12
        invariant
            v@ == hex@,
            v@.len() >= 12,
            s@ == start + v@.take(i as int),
    {
        push_char(&mut s, v[i]);
        assert(v@.take(i + 1) == v@.take(i as int).push(v@[i as int]));
    }
    s
}

/// Every generated name is a valid Agent name.
pub proof fn lemma_generated_valid(hex: Seq<char>)
    requires
        hex.len() >= 12,
        forall|i: int| 0 <= i < 12 ==> is_lower_hex(#[trigger] hex[i]),
    ensures
        is_valid_name(generated_name(hex)),
{
    reveal_strlit("agent_");
    let g = generated_name(hex);
    assert forall|i: int| 1 <= i < g.len() implies is_word(#[trigger] g[i]) by {
        if i >= 6 {
            assert(g[i] == hex[i - 6]);
        }
    }
}

pub open spec fn is_bad_name(e: Error) -> bool {
    is_error(e, ErrorKind::Invalid, "name must match ^[A-Za-z][A-Za-z0-9_]*$"@)
}

/// `new` is `old` after Agent `name` registers at `now`: the Agent joins the table, first
/// seen at `now`, and the registration is recorded.
pub open spec fn registered(old: Tx, new: Tx, name: Seq<char>, now: i64) -> bool {
    &&& !agent_exists(old.agents@, name)
    &&& exists|mid: Tx, p: int|
        0 <= p <= old.agents@.len() && (Tx { agents: mid.agents, ..old }) == mid && mid.agents@
            == old.agents@.insert(p, mid.agents@[p]) && mid.agents@[p].name@ == name
            && mid.agents@[p].last_seen == now && (Tx { management: new.management, ..mid }) == new
            && logged(mid, new, "register"@, now)
            && new.management@.last().detail.at("agent"@).str_of() == Some(name)
}

/// Registers Agent `name`: refused when the name is malformed or taken.
pub fn register_named(tx: &mut Tx, name: &str, now: i64) -> (r: Result<Response>)
    requires
        old(tx).wf(),
    ensures
        final(tx).wf(),
        match r {
            Ok(resp) => {
                &&& is_valid_name(name@)
                &&& resp matches Response::Identity { name: n } && n@ == name@
                &&& registered(*old(tx), *final(tx), name@, now)
            },
            Err(e) => *final(tx) == *old(tx) && if !is_valid_name(name@) {
                is_bad_name(e)
            } else {
                agent_exists(old(tx).agents@, name@) && is_conflict(e)
            },
        },
{
    if !valid_name(name) {
        return Err(Error::bad("name must match ^[A-Za-z][A-Za-z0-9_]*$"));
    }
    match tx.register(name, now) {
        Ok(()) => {},
        Err(e) => return Err(e),
    }
    let ghost mid = *tx;
    let detail = Json::Object(vec![member_of("agent", text_value(name))]);
    proof {
        lemma_members(detail->Object_0@, "agent"@);
    }
    tx.audit("register", detail, now);
    assert(tx.management@.drop_last() == mid.management@);
    Ok(Response::Identity { name: owned(name) })
}

/// What `agent/register` does and answers.
pub open spec fn register_outcome(old: Tx, new: Tx, name: Option<Seq<char>>, now: i64, r: Result<Response>) -> bool {
    match name {
        Some(n) => match r {
            Ok(resp) => {
                &&& is_valid_name(n)
                &&& resp matches Response::Identity { name: g } && g@ == n
                &&& registered(old, new, n, now)
            },
            Err(e) => new == old && if !is_valid_name(n) {
                is_bad_name(e)
            } else {
                agent_exists(old.agents@, n) && is_conflict(e)
            },
        },
        None => match r {
            Ok(resp) => resp matches Response::Identity { name: g } && is_valid_name(g@) && (exists|
                hex: Seq<char>,
            | is_name_suffix(hex) && g@ == "agent_"@ + hex) && registered(old, new, g@, now),
            Err(e) => new == old && is_conflict(e) && exists|hex: Seq<char>|
                is_name_suffix(hex) && agent_exists(old.agents@, "agent_"@ + hex),
        },
    }
}

/// `agent/register`: registers the Agent under the given name, or under a generated one.
pub fn register(tx: &mut Tx, name: Option<&str>, now: i64) -> (r: Result<Response>)
    requires
        old(tx).wf(),
    ensures
        final(tx).wf(),
        register_outcome(*old(tx), *final(tx), opt_text(name), now, r),
{
    match name {
        Some(n) => register_named(tx, n, now),
        None => {
            let hex = random_hex();
            let g = generated(hex.as_str());
            proof {
                lemma_generated_valid(hex@);
                assert(is_name_suffix(hex@.take(12)));
            }
            register_named(tx, g.as_str(), now)
        },
    }
}

} // verus!
