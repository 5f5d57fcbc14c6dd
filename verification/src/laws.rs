//! What holds of the Gateway across operations: consumption progress never moves back and
//! survives leaving a Topic, pending messages are other participants' messages after the
//! boundary, reading pages continue where they stopped, an update is handled once, and the
//! delivery queue keeps a Topic's sends in order and always waits before a retry, only one
//! wait runs per Agent and it reports each Topic's earliest waking message, a first
//! subscription starts at its Topic's newest message, conversation never renames a Topic, a
//! Bot removed from a Group leaves it unusable, and a failure report never holds the Bot
//! token.
use vstd::prelude::*;
use crate::contract::{Request, Response, request_problem};
use crate::dispatch::{Step, executed};
use crate::gateway::Gateway;
use crate::model::{ErrorKind, is_error};
use crate::db::{MessageRow, TopicRow, Tx, ensured, has_link, group_usable, has_place, latest_in, place_index, subscribed, topic_key, agent_exists, in_topic, past, active_sub, has_sub, has_update, messages_numbered, pending_of, scope, sub_index, sub_row};
use crate::delivery::{Verdict, is_refusal, retry_delay, row_verdict, two_to};
use crate::gateway::{ack_boundary, ack_outcome, audited, logged, subscribe_outcome, unsubscribe_outcome};
use crate::ingest::{conversed, group_cleared, ingested, membership_done, offset_after, quoted};
use crate::model::{Delivery, msg_number, msg_text};
use crate::telegram::{Event, Failure, Message, Update, update_matches};
use crate::json::Json;
use crate::wait::{first_wake, ready_in, wakes};
use crate::text::opt_string;
use crate::text::replace_all;

verus! {

/// An acknowledgement through a message of the Topic, by an Agent with an active
/// subscription to it, succeeds (while the delivery queue has room for the heart receipts),
/// leaves the boundary at the later of the old boundary and the acknowledged message, and
/// answers with that boundary: a repeated or older acknowledgement never moves it back.
pub proof fn law_ack_never_moves_back(
    old: Tx,
    new: Tx,
    agent: Seq<char>,
    topic: Seq<char>,
    through: Seq<char>,
    now: i64,
    r: crate::model::Result<Response>,
)
    requires
        old.wf(),
        new.wf(),
        msg_number(through) matches Some(n) && in_topic(old.messages@, topic, n),
        active_sub(old.subscriptions@, agent, topic) matches Some(s) && old.outbox@.len() + pending_of(
            old.messages@,
            agent,
            topic,
            s.acked.unwrap_or(0),
        ).len() < 0x7fff_ffff_ffff_fffe,
        ack_outcome(old, new, agent, topic, through, now, r),
    ensures
        r is Ok,
        active_sub(old.subscriptions@, agent, topic) is Some,
        active_sub(new.subscriptions@, agent, topic) is Some,
        ({
            let before = active_sub(old.subscriptions@, agent, topic).unwrap().acked;
            let after = active_sub(new.subscriptions@, agent, topic).unwrap().acked;
            &&& after == Some(ack_boundary(before, msg_number(through).unwrap()))
            &&& after.unwrap() >= msg_number(through).unwrap()
            &&& (before matches Some(b) ==> after.unwrap() >= b)
            &&& r->Ok_0 matches Response::Ack { last_acked_msg_id } && last_acked_msg_id@ == msg_text(
                after.unwrap() as int,
            )
        }),
{
    crate::db::lemma_sub_joined(old, agent, topic);
    let s = active_sub(old.subscriptions@, agent, topic).unwrap();
    let b = ack_boundary(s.acked, msg_number(through).unwrap());
    let k = sub_index(old.subscriptions@, agent, topic);
    if s.acked != Some(b) {
        assert(new.subscriptions@[k].agent@ == agent && new.subscriptions@[k].topic@ == topic);
        crate::db::lemma_sub_row(new.subscriptions@, k);
    }
}

/// A repeated or older acknowledgement, through a message of the Topic at or before the
/// boundary of an active subscription, succeeds, answers the current boundary and leaves the
/// subscriptions as they are.
pub proof fn law_older_ack_keeps_boundary(
    old: Tx,
    new: Tx,
    agent: Seq<char>,
    topic: Seq<char>,
    through: Seq<char>,
    now: i64,
    r: crate::model::Result<Response>,
    boundary: i64,
)
    requires
        old.wf(),
        msg_number(through) matches Some(n) && n <= boundary && in_topic(old.messages@, topic, n),
        active_sub(old.subscriptions@, agent, topic) matches Some(s) && s.acked == Some(boundary),
        ack_outcome(old, new, agent, topic, through, now, r),
    ensures
        r matches Ok(Response::Ack { last_acked_msg_id }) && last_acked_msg_id@ == msg_text(boundary as int),
        new.subscriptions == old.subscriptions,
        new.messages == old.messages,
        new.outbox == old.outbox,
{
}

/// Leaving a Topic and subscribing again keeps the consumption boundary; the subscription is
/// muted if it was, or if the new subscription asks for it.
pub proof fn law_resume_keeps_progress(
    t0: Tx,
    t1: Tx,
    t2: Tx,
    agent: Seq<char>,
    topic: Seq<char>,
    muted: bool,
    now1: i64,
    now2: i64,
    r1: crate::model::Result<Response>,
    r2: crate::model::Result<Response>,
)
    requires
        t0.wf(),
        t1.wf(),
        t2.wf(),
        has_sub(t0.subscriptions@, agent, topic),
        r1 is Ok,
        r2 is Ok,
        unsubscribe_outcome(t0, t1, agent, topic, now1, r1),
        subscribe_outcome(t1, t2, agent, topic, muted, now2, r2),
    ensures
        active_sub(t2.subscriptions@, agent, topic) is Some,
        active_sub(t2.subscriptions@, agent, topic).unwrap().acked == sub_row(t0.subscriptions@, agent, topic).unwrap().acked,
        active_sub(t2.subscriptions@, agent, topic).unwrap().muted == (muted || sub_row(
            t0.subscriptions@,
            agent,
            topic,
        ).unwrap().muted),
{
    let k = sub_index(t0.subscriptions@, agent, topic);
    assert(t1.subscriptions@[k].agent@ == agent && t1.subscriptions@[k].topic@ == topic);
    crate::db::lemma_sub_row(t1.subscriptions@, k);
}

/// The pending messages of Agent `a` in Topic `t` past boundary `floor` are messages of that
/// Topic, after the boundary, that the Agent did not write, in increasing order.
pub proof fn law_pending_is_others_after_boundary(msgs: Seq<MessageRow>, a: Seq<char>, t: Seq<char>, floor: i64)
    requires
        messages_numbered(msgs),
    ensures
        forall|i: int|
            0 <= i < pending_of(msgs, a, t, floor).len() ==> {
                let m = #[trigger] pending_of(msgs, a, t, floor)[i];
                &&& m.topic@ == t
                &&& m.id > floor
                &&& (m.agent is None || m.agent.unwrap()@ != a)
            },
        forall|i: int, j: int|
            0 <= i < j < pending_of(msgs, a, t, floor).len() ==> pending_of(msgs, a, t, floor)[i].id < pending_of(
                msgs,
                a,
                t,
                floor,
            )[j].id,
    decreases msgs.len(),
{
    crate::db::lemma_pending_sorted(msgs, a, t, floor);
    if msgs.len() > 0 {
        let front = msgs.drop_last();
        assert forall|i: int| 0 <= i < front.len() implies #[trigger] front[i].id == i + 1 by {
            assert(front[i] == msgs[i]);
        }
        law_pending_is_others_after_boundary(front, a, t, floor);
    }
}

/// A send that goes out has no unfinished earlier send of its Topic, which is open in an
/// available Group: a Topic's sends reach Telegram in order.
pub proof fn law_sends_go_out_in_order(tx: Tx, o: crate::db::OutboxRow)
    requires
        row_verdict(tx, o) is Claim,
        o.payload is Send,
        o.message is Some,
    ensures
        ({
            let m = tx.messages@[o.message.unwrap() - 1];
            let (row, g) = crate::db::joined(tx.topics@, tx.groups@, m.topic@).unwrap();
            &&& 1 <= o.message.unwrap() <= tx.messages@.len()
            &&& g.connected && g.available && !row.closed
            &&& !crate::db::earlier_send_exists(tx.outbox@, tx.messages@, row.id@, o.id)
        }),
{
}

/// A failed delivery always waits at least a second before the next attempt: a minute after
/// Telegram refused it, what Telegram asked for after a rate limit, and otherwise twice as
/// long after each attempt, up to 256 seconds.
pub proof fn law_retry_waits(f: Failure, attempts: i64)
    requires
        attempts >= 0,
    ensures
        retry_delay(f, attempts) >= 1,
        is_refusal(f.code) ==> retry_delay(f, attempts) == 60,
        !is_refusal(f.code) && f.retry_after is Some && f.retry_after.unwrap() >= 1 ==> retry_delay(f, attempts)
            == f.retry_after.unwrap(),
        !is_refusal(f.code) && f.retry_after is None && attempts >= 8 ==> retry_delay(f, attempts) == 256,
        !is_refusal(f.code) && f.retry_after is None && attempts < 8 ==> retry_delay(f, (attempts + 1) as i64) == 2
            * retry_delay(f, attempts),
{
    reveal_with_fuel(two_to, 9);
    if attempts < 8 {
        crate::delivery::lemma_two_to_grows(attempts as nat, 8);
        crate::delivery::lemma_two_to_grows((attempts + 1) as nat, 8);
    }
}

/// Telegram may hand an update out again: once handled, the same update only moves the
/// offset.
pub proof fn law_update_handled_once(t0: Tx, t1: Tx, t2: Tx, admins: Seq<i64>, u: Update, now1: i64, now2: i64)
    requires
        ingested(t0, t1, admins, u, now1, Ok(())),
        ingested(t1, t2, admins, u, now2, Ok(())),
    ensures
        offset_after(t1, t2, u.id),
{
}

/// The messages past a cursor are messages of the conversation, by increasing id.
proof fn lemma_scope_rows(msgs: Seq<MessageRow>, t: Seq<char>, c: Option<i64>, forward: bool)
    requires
        messages_numbered(msgs),
    ensures
        forall|i: int|
            0 <= i < scope(msgs, t, c, forward).len() ==> 1 <= (#[trigger] scope(msgs, t, c, forward)[i]).id
                <= msgs.len() && past(scope(msgs, t, c, forward)[i], t, c, forward),
        forall|i: int, j: int|
            0 <= i < j < scope(msgs, t, c, forward).len() ==> scope(msgs, t, c, forward)[i].id < scope(
                msgs,
                t,
                c,
                forward,
            )[j].id,
    decreases msgs.len(),
{
    if msgs.len() > 0 {
        let front = msgs.drop_last();
        assert forall|i: int| 0 <= i < front.len() implies #[trigger] front[i].id == i + 1 by {
            assert(front[i] == msgs[i]);
        }
        lemma_scope_rows(front, t, c, forward);
        assert(msgs[msgs.len() - 1].id == msgs.len());
    }
}

/// Where two cursors agree on every message, they select the same messages.
proof fn lemma_scope_same(msgs: Seq<MessageRow>, t: Seq<char>, c1: Option<i64>, c2: Option<i64>, forward: bool)
    requires
        forall|i: int| 0 <= i < msgs.len() ==> past(#[trigger] msgs[i], t, c1, forward) == past(msgs[i], t, c2, forward),
    ensures
        scope(msgs, t, c1, forward) == scope(msgs, t, c2, forward),
    decreases msgs.len(),
{
    if msgs.len() > 0 {
        let front = msgs.drop_last();
        assert forall|i: int| 0 <= i < front.len() implies past(#[trigger] front[i], t, c1, forward) == past(
            front[i],
            t,
            c2,
            forward,
        ) by {
            assert(front[i] == msgs[i]);
        }
        lemma_scope_same(front, t, c1, c2, forward);
        assert(msgs.last() == msgs[msgs.len() - 1]);
    }
}

/// Reading forward past the last message selects nothing.
proof fn lemma_scope_after_end(msgs: Seq<MessageRow>, t: Seq<char>, x: i64)
    requires
        messages_numbered(msgs),
        msgs.len() <= x,
    ensures
        scope(msgs, t, Some(x), true).len() == 0,
    decreases msgs.len(),
{
    if msgs.len() > 0 {
        let front = msgs.drop_last();
        assert forall|i: int| 0 <= i < front.len() implies #[trigger] front[i].id == i + 1 by {
            assert(front[i] == msgs[i]);
        }
        lemma_scope_after_end(front, t, x);
        assert(msgs[msgs.len() - 1].id == msgs.len());
    }
}

/// Reading forward (`unread`) from the `next_cursor` of a page of `n` messages selects
/// exactly the messages after that page, as many as the page's `remaining_count` said.
pub proof fn law_unread_pages_continue(msgs: Seq<MessageRow>, t: Seq<char>, c: Option<i64>, n: int)
    requires
        messages_numbered(msgs),
        0 < n <= scope(msgs, t, c, true).len(),
    ensures
        scope(msgs, t, Some(scope(msgs, t, c, true)[n - 1].id), true) == scope(msgs, t, c, true).skip(n),
        scope(msgs, t, Some(scope(msgs, t, c, true)[n - 1].id), true).len() == scope(msgs, t, c, true).len() - n,
    decreases msgs.len(),
{
    let s = scope(msgs, t, c, true);
    let front = msgs.drop_last();
    let last = msgs.last();
    assert forall|i: int| 0 <= i < front.len() implies #[trigger] front[i].id == i + 1 by {
        assert(front[i] == msgs[i]);
    }
    assert(msgs[msgs.len() - 1].id == msgs.len());
    let rest = scope(front, t, c, true);
    lemma_scope_rows(front, t, c, true);
    if past(last, t, c, true) {
        if n - 1 < rest.len() {
            law_unread_pages_continue(front, t, c, n);
            assert(s[n - 1] == rest[n - 1]);
            assert(s.skip(n) =~= rest.skip(n).push(last));
        } else {
            assert(s[n - 1] == last);
            lemma_scope_after_end(front, t, last.id);
            assert(s.skip(n) =~= Seq::<MessageRow>::empty());
        }
    } else {
        assert(s == rest);
        law_unread_pages_continue(front, t, c, n);
    }
}

/// Reading backward (`history`) from the `next_cursor` of a page of `n` messages selects
/// exactly the messages before that page, as many as the page's `remaining_count` said.
pub proof fn law_history_pages_continue(msgs: Seq<MessageRow>, t: Seq<char>, c: Option<i64>, n: int)
    requires
        messages_numbered(msgs),
        0 < n <= scope(msgs, t, c, false).len(),
    ensures
        ({
            let s = scope(msgs, t, c, false);
            &&& scope(msgs, t, Some(s[s.len() - n].id), false) == s.take(s.len() - n)
            &&& scope(msgs, t, Some(s[s.len() - n].id), false).len() == s.len() - n
        }),
    decreases msgs.len(),
{
    let s = scope(msgs, t, c, false);
    let front = msgs.drop_last();
    let last = msgs.last();
    assert forall|i: int| 0 <= i < front.len() implies #[trigger] front[i].id == i + 1 by {
        assert(front[i] == msgs[i]);
    }
    assert(msgs[msgs.len() - 1].id == msgs.len());
    let rest = scope(front, t, c, false);
    lemma_scope_rows(front, t, c, false);
    if past(last, t, c, false) {
        if n == 1 {
            assert(s[s.len() - 1] == last);
            assert forall|i: int| 0 <= i < front.len() implies past(#[trigger] front[i], t, Some(last.id), false)
                == past(front[i], t, c, false) by {
                assert(front[i].id == i + 1);
            }
            lemma_scope_same(front, t, Some(last.id), c, false);
            assert(s.take(s.len() - 1) =~= rest);
        } else {
            law_history_pages_continue(front, t, c, n - 1);
            assert(s[s.len() - n] == rest[rest.len() - (n - 1)]);
            assert(s.take(s.len() - n) =~= rest.take(rest.len() - (n - 1)));
        }
    } else {
        assert(s == rest);
        law_history_pages_continue(front, t, c, n);
    }
}

/// `t` occurs in `s`.
pub open spec fn occurs(s: Seq<char>, t: Seq<char>) -> bool {
    exists|i: int| 0 <= i && i + t.len() <= s.len() && #[trigger] s.subrange(i, i + t.len()) == t
}

/// A prefix of a replacement's result is the text's own prefix, or holds the `[` of a
/// replacement.
proof fn lemma_replaced_prefix(s: Seq<char>, pat: Seq<char>, m: int)
    requires
        pat.len() > 0,
        0 <= m <= replace_all(s, pat, "[redacted]"@).len(),
    ensures
        (m <= s.len() && replace_all(s, pat, "[redacted]"@).take(m) == s.take(m)) || exists|j: int|
            0 <= j < m && replace_all(s, pat, "[redacted]"@)[j] == '[',
    decreases s.len(),
{
    reveal_strlit("[redacted]");
    let out = replace_all(s, pat, "[redacted]"@);
    if m > 0 && s.len() > 0 {
        if pat.len() <= s.len() && s.take(pat.len() as int) == pat {
            assert(out[0] == '[');
        } else {
            let tail = replace_all(s.skip(1), pat, "[redacted]"@);
            assert(out == seq![s[0]] + tail);
            lemma_replaced_prefix(s.skip(1), pat, m - 1);
            if m - 1 <= s.skip(1).len() && tail.take(m - 1) == s.skip(1).take(m - 1) {
                assert forall|k: int| 0 <= k < m implies out[k] == s[k] by {
                    if k > 0 {
                        assert(tail.take(m - 1)[k - 1] == s.skip(1).take(m - 1)[k - 1]);
                    }
                }
                assert(out.take(m) =~= s.take(m));
            } else {
                let j = choose|j: int| 0 <= j < m - 1 && tail[j] == '[';
                assert(out[j + 1] == '[');
            }
        }
    } else if m == 0 {
        assert(out.take(0) =~= s.take(0));
    }
}

/// What a failed Bot API call reports never holds the Bot token, for a token without square
/// brackets that is not part of the word "redacted": every occurrence is replaced by
/// `[redacted]`, and no new one can form around a replacement.
pub proof fn law_token_redacted(s: Seq<char>, token: Seq<char>)
    requires
        token.len() > 0,
        forall|i: int| 0 <= i < token.len() ==> #[trigger] token[i] != '[' && token[i] != ']',
        !occurs("redacted"@, token),
    ensures
        !occurs(crate::telegram::redacted(s, token), token),
    decreases s.len(),
{
    reveal_strlit("[redacted]");
    reveal_strlit("redacted");
    let r = "[redacted]"@;
    let out = replace_all(s, token, r);
    let p = token.len() as int;
    if s.len() == 0 {
        return;
    }
    if p <= s.len() && s.take(p) == token {
        let tail = replace_all(s.skip(p), token, r);
        law_token_redacted(s.skip(p), token);
        assert(out == r + tail);
        if occurs(out, token) {
            let i = choose|i: int| 0 <= i && i + p <= out.len() && #[trigger] out.subrange(i, i + p) == token;
            if i + p <= r.len() {
                if i == 0 {
                    assert(token[0] == out[0]);
                } else if i + p == r.len() {
                    assert(token[p - 1] == out[r.len() - 1]);
                } else {
                    assert(out.subrange(i, i + p) =~= "redacted"@.subrange(i - 1, i - 1 + p));
                }
            } else if i < r.len() {
                assert(token[r.len() - 1 - i] == out[r.len() - 1]);
            } else {
                assert(tail.subrange(i - r.len(), i - r.len() + p) =~= out.subrange(i, i + p));
            }
        }
    } else {
        let tail = replace_all(s.skip(1), token, r);
        law_token_redacted(s.skip(1), token);
        assert(out == seq![s[0]] + tail);
        if occurs(out, token) {
            let i = choose|i: int| 0 <= i && i + p <= out.len() && #[trigger] out.subrange(i, i + p) == token;
            if i == 0 {
                lemma_replaced_prefix(s, token, p);
                if p <= s.len() && out.take(p) == s.take(p) {
                    assert(out.subrange(0, p) =~= out.take(p));
                } else {
                    let j = choose|j: int| 0 <= j < p && out[j] == '[';
                    assert(token[j] == out[j]);
                }
            } else {
                assert(tail.subrange(i - 1, i - 1 + p) =~= out.subrange(i, i + p));
            }
        }
    }
}

/// Only one wait runs per Agent: while a registered Agent has a wait in progress, another
/// wait request of that Agent is refused, with a conflict unless the request itself is
/// malformed, and the store and every Agent's wait slot, the running wait's included, stay
/// as they are.
pub proof fn law_one_wait_per_agent(old: Tx, new: Tx, g: Gateway, g2: Gateway, request: Request, now: i64, s: Step)
    requires
        executed(old, new, g, g2, request, now, s),
        request.command is Wait,
        request.agent matches Some(a) && agent_exists(old.agents@, a@) && g.waits.holds(a@),
    ensures
        s matches Step::Done(r) && r matches Err(e) && match request_problem(request.agent, request.command) {
            Some(p) => is_error(e, ErrorKind::Invalid, p),
            None => is_error(e, ErrorKind::Conflict, "This Agent already has an active wait."@),
        },
        new == old,
        g2 == g,
{
}

/// A wait's slot, once freed (`Gateway::end_wait` frees it whatever answer ends the wait),
/// lets the Agent wait again: a well-formed wait request of a registered Agent without a wait
/// in progress starts a wait and takes the Agent's slot, leaving the store and the other
/// Agents' slots as they are.
pub proof fn law_wait_starts_when_free(old: Tx, new: Tx, g: Gateway, g2: Gateway, request: Request, now: i64, s: Step)
    requires
        executed(old, new, g, g2, request, now, s),
        request.command is Wait,
        request_problem(request.agent, request.command) is None,
        request.agent matches Some(a) && agent_exists(old.agents@, a@) && !g.waits.holds(a@),
    ensures
        s matches Step::Wait { agent, .. } && agent@ == request.agent.unwrap()@,
        g2.waits.holds(request.agent.unwrap()@),
        forall|n: Seq<char>| n != request.agent.unwrap()@ ==> g2.waits.holds(n) == g.waits.holds(n),
        new == old,
{
}

/// `id` names the earliest message of `p` that wakes the Agent: it wakes the Agent and no
/// message before it does.
pub open spec fn earliest_waking(p: Seq<MessageRow>, muted: bool, agent: Seq<char>, id: i64) -> bool {
    exists|j: int|
        0 <= j < p.len() && p[j].id == id && wakes(p[j].content@, muted, agent) && forall|i: int|
            0 <= i < j ==> !wakes(#[trigger] p[i].content@, muted, agent)
}

proof fn lemma_first_wake(p: Seq<MessageRow>, muted: bool, agent: Seq<char>)
    ensures
        match first_wake(p, muted, agent) {
            Some(id) => earliest_waking(p, muted, agent, id),
            None => forall|i: int| 0 <= i < p.len() ==> !wakes(#[trigger] p[i].content@, muted, agent),
        },
    decreases p.len(),
{
    if p.len() > 0 {
        if wakes(p[0].content@, muted, agent) {
            assert(earliest_waking(p, muted, agent, p[0].id)) by {
                assert(p[0].id == p[0].id);
            }
        } else {
            let rest = p.skip(1);
            lemma_first_wake(rest, muted, agent);
            match first_wake(rest, muted, agent) {
                Some(id) => {
                    let j = choose|j: int|
                        0 <= j < rest.len() && rest[j].id == id && wakes(rest[j].content@, muted, agent)
                            && forall|i: int| 0 <= i < j ==> !wakes(#[trigger] rest[i].content@, muted, agent);
                    assert(p[j + 1] == rest[j]);
                    assert forall|i: int| 0 <= i < j + 1 implies !wakes(#[trigger] p[i].content@, muted, agent) by {
                        if i > 0 {
                            assert(p[i] == rest[i - 1]);
                        }
                    }
                },
                None => {
                    assert forall|i: int| 0 <= i < p.len() implies !wakes(#[trigger] p[i].content@, muted, agent) by {
                        if i > 0 {
                            assert(p[i] == rest[i - 1]);
                        }
                    }
                },
            }
        }
    }
}

/// A wait reports, for every ready Topic, the earliest pending message that wakes the Agent
/// (any one when the subscription is unmuted, one that mentions the Agent when it is muted)
/// and the number of all pending messages of that Topic.
pub proof fn law_wait_reports_first_waking(tx: Tx, agent: Seq<char>, ts: Seq<Seq<char>>)
    ensures
        forall|k: int|
            0 <= k < ready_in(tx, agent, ts).len() ==> {
                let x = #[trigger] ready_in(tx, agent, ts)[k];
                let s = active_sub(tx.subscriptions@, agent, x.0).unwrap();
                let p = pending_of(tx.messages@, agent, x.0, s.acked.unwrap_or(0));
                x.2 == p.len() && earliest_waking(p, s.muted, agent, x.1)
            },
    decreases ts.len(),
{
    if ts.len() > 0 {
        law_wait_reports_first_waking(tx, agent, ts.drop_last());
        let t = ts.last();
        let s = active_sub(tx.subscriptions@, agent, t).unwrap();
        let p = pending_of(tx.messages@, agent, t, s.acked.unwrap_or(0));
        lemma_first_wake(p, s.muted, agent);
    }
}

/// Recording a Topic without a name keeps the name of every Topic already known: each of
/// them is still there, under its id, with its name.
pub proof fn law_nameless_record_keeps_names(
    old: Seq<TopicRow>,
    new: Seq<TopicRow>,
    chat: i64,
    thread: i64,
    owner: Option<Seq<char>>,
)
    requires
        ensured(old, new, chat, thread, Seq::empty(), owner),
    ensures
        forall|i: int|
            0 <= i < old.len() ==> exists|j: int|
                0 <= j < new.len() && new[j].id == (#[trigger] old[i]).id && new[j].name@ == old[i].name@,
{
    if has_place(old, chat, thread) {
        let k = place_index(old, chat, thread);
        assert forall|i: int| 0 <= i < old.len() implies exists|j: int|
            0 <= j < new.len() && new[j].id == (#[trigger] old[i]).id && new[j].name@ == old[i].name@ by {
            assert(new[i].id == old[i].id && new[i].name@ == old[i].name@);
        }
    } else {
        let p = choose|p: int|
            0 <= p <= old.len() && new == old.insert(p, new[p]) && new[p].id@ == topic_key(chat, thread)
                && new[p].chat == chat && new[p].thread == thread && new[p].name@ == Seq::<char>::empty()
                && opt_string(new[p].owner) == owner && !new[p].closed;
        assert forall|i: int| 0 <= i < old.len() implies exists|j: int|
            0 <= j < new.len() && new[j].id == (#[trigger] old[i]).id && new[j].name@ == old[i].name@ by {
            if i < p {
                assert(new[i] == old[i]);
            } else {
                assert(new[i + 1] == old[i]);
            }
        }
    }
}

/// A User's message in a Topic never renames a Topic: every Topic known before it keeps its
/// id and name.
pub proof fn law_conversation_keeps_topic_names(
    old: Tx,
    new: Tx,
    m: Message,
    thread: i64,
    update_id: i64,
    raw: Seq<char>,
)
    requires
        conversed(old, new, m, thread, update_id, raw),
    ensures
        forall|i: int|
            0 <= i < old.topics@.len() ==> exists|j: int|
                0 <= j < new.topics@.len() && new.topics@[j].id == (#[trigger] old.topics@[i]).id
                    && new.topics@[j].name@ == old.topics@[i].name@,
{
    let key = topic_key(m.chat, thread);
    let (e, a, l) = choose|e: Tx, a: Tx, l: Tx|
        #![trigger e.topics, a.messages, l.links]
        {
            let row = a.messages@.last();
            let id = e.messages@.len() + 1;
            &&& ensured(old.topics@, e.topics@, m.chat, thread, Seq::empty(), None)
            &&& (Tx { topics: e.topics, ..old }) == e
            &&& a.messages@ == e.messages@.push(row)
            &&& (Tx { messages: a.messages, ..e }) == a
            &&& row.id == id && row.topic@ == key && row.agent is None && row.user == Some(m.user)
            &&& row.content@ == m.content@ && row.sent_at == m.date && row.quote == quoted(e, m.chat, m.quote, key)
            &&& (Tx { links: l.links, ..a }) == l
            &&& l.links@ == if has_link(a.links@, m.chat, m.id) {
                a.links@
            } else {
                a.links@.push(crate::db::LinkRow { chat: m.chat, telegram_id: m.id, message: id as i64 })
            }
            &&& (Tx { updates: new.updates, ..l }) == new
            &&& new.updates@.len() == l.updates@.len()
            &&& forall|i: int|
                #![trigger new.updates@[i]]
                0 <= i < l.updates@.len() ==> {
                    let o = l.updates@[i];
                    let f = new.updates@[i];
                    &&& f.id == o.id
                    &&& (o.id != update_id ==> f == o)
                    &&& (o.id == update_id ==> f.raw.is_some() && f.raw.unwrap()@ == raw)
                }
        };
    law_nameless_record_keeps_names(old.topics@, e.topics@, m.chat, thread, None);
    assert(new.topics == e.topics);
}

/// A Bot that was removed from a chat (its new status `kicked`) or left it (`left`) is
/// decoded as absent; any other status as present.
pub proof fn law_removed_bot_is_absent(u: Update, v: Json, raw: Seq<char>)
    requires
        update_matches(u, v, raw),
        v.get_spec("my_chat_member"@) is Some,
    ensures
        u.event matches Event::Membership { present, .. } && ({
            let status = v.at("my_chat_member"@).at("new_chat_member"@).at("status"@).str_of();
            &&& status == Some("kicked"@) ==> !present
            &&& status == Some("left"@) ==> !present
            &&& (status != Some("kicked"@) && status != Some("left"@)) ==> present
        }),
{
}

/// When the Bot is no longer in a Group, handling that update leaves the Group neither
/// connected nor available.
pub proof fn law_absent_bot_disables_group(
    old: Tx,
    new: Tx,
    admins: Seq<i64>,
    chat: i64,
    title: Seq<char>,
    actor: i64,
    now: i64,
)
    requires
        membership_done(old, new, admins, chat, title, actor, false, now),
    ensures
        !group_usable(new.groups@, chat),
{
    let mid = choose|mid: Tx|
        #![trigger logged(mid, new, "membership"@, now)]
        {
            &&& group_cleared(old, mid, chat)
            &&& logged(mid, new, "membership"@, now)
            &&& (Tx { management: new.management, ..mid }) == new
            &&& new.management@.last().detail.at("chat"@) == Json::Int(chat)
            &&& new.management@.last().detail.at("actor"@) == Json::Int(actor)
            &&& new.management@.last().detail.at("present"@) == Json::Bool(false)
        };
    assert(new.groups == mid.groups);
}

proof fn lemma_latest_in(msgs: Seq<MessageRow>, t: Seq<char>)
    requires
        messages_numbered(msgs),
    ensures
        match latest_in(msgs, t) {
            Some(b) => in_topic(msgs, t, b) && forall|n: i64| #[trigger] in_topic(msgs, t, n) ==> n <= b,
            None => forall|n: i64| !#[trigger] in_topic(msgs, t, n),
        },
    decreases msgs.len(),
{
    if msgs.len() > 0 {
        let front = msgs.drop_last();
        assert forall|i: int| 0 <= i < front.len() implies #[trigger] front[i].id == i + 1 by {
            assert(front[i] == msgs[i]);
        }
        lemma_latest_in(front, t);
        assert(msgs.last().id == msgs.len());
        assert forall|n: i64| n < msgs.len() implies #[trigger] in_topic(msgs, t, n) == in_topic(front, t, n) by {
            if 1 <= n {
                assert(msgs[n - 1] == front[n - 1]);
            }
        }
    }
}

/// A first subscription starts at the newest message of that Topic: the boundary is a
/// message of the Topic with no later message of the Topic, or none when the Topic has no
/// messages.
pub proof fn law_first_subscription_starts_at_newest(
    old: Tx,
    new: Tx,
    agent: Seq<char>,
    t: Seq<char>,
    muted: bool,
    now: i64,
    r: crate::model::Result<Response>,
)
    requires
        old.wf(),
        subscribe_outcome(old, new, agent, t, muted, now, r),
        r is Ok,
        sub_row(old.subscriptions@, agent, t) is None,
    ensures
        active_sub(new.subscriptions@, agent, t) matches Some(s) && match s.acked {
            Some(b) => in_topic(old.messages@, t, b) && forall|n: i64|
                #[trigger] in_topic(old.messages@, t, n) ==> n <= b,
            None => forall|n: i64| !#[trigger] in_topic(old.messages@, t, n),
        },
{
    let mid = choose|mid: Tx|
        subscribed(old, mid, agent, t, muted) && (Tx { management: new.management, ..mid }) == new && audited(
            mid,
            new,
            "subscribe"@,
            now,
            agent,
            t,
        );
    assert(new.subscriptions == mid.subscriptions);
    lemma_latest_in(old.messages@, t);
}

} // verus!
