//! What the Gateway does with one Telegram update, in one transaction: an update seen before
//! only moves the offset; a Group event records the Group; a command is answered; a Topic
//! event records the Topic's state; a trusted User's message in a Topic joins the
//! conversation. Other messages are recorded as received, never their bodies.
use vstd::prelude::*;
use crate::bot::{Context, command, command_text, reply, reply_text};
use crate::db::{has_group, 
    JobStatus, OutboxRow, Tx, ensured, group_row, group_usable, has_link, has_place, has_update, in_topic,
    is_conflict, is_storage_failure, linked, meta_value, queued, set_closed, topic_key, topic_row,
    user_trusted,
};
use crate::gateway::logged;
use crate::json::{Json, lemma_members, member_of, text_value};
use crate::model::{Delivery, Error, ErrorKind, Result};
use crate::telegram::{Event, Message, TopicEvent, Update};
use crate::text::{chars_of, int_text, push_int};

verus! {

/// User `user` is an administrator.
pub open spec fn is_admin(admins: Seq<i64>, user: i64) -> bool {
    exists|i: int| 0 <= i < admins.len() && admins[i] == user
}

pub fn admin_in(admins: &Vec<i64>, user: i64) -> (r: bool)
    ensures
        r == is_admin(admins@, user),
{
    for i in 0..admins.len()
        invariant
            forall|j: int| 0 <= j < i ==> admins@[j] != user,
    {
        if admins[i] == user {
            return true;
        }
    }
    false
}

/// The offset after update `id`: the next id, saturating.
pub open spec fn next_offset(id: i64) -> i64 {
    if id == i64::MAX {
        id
    } else {
        (id + 1) as i64
    }
}

/// `new` is `old` with the update offset moved past update `id`.
pub open spec fn offset_after(old: Tx, new: Tx, id: i64) -> bool {
    &&& meta_value(new.meta@, "offset"@) == Some(int_text(next_offset(id) as int))
    &&& forall|k: Seq<char>| k != "offset"@ ==> meta_value(new.meta@, k) == meta_value(old.meta@, k)
    &&& (Tx { meta: new.meta, ..old }) == new
}

/// `new` is `old` with update `id` recorded as received, without its text.
pub open spec fn update_recorded(old: Tx, new: Tx, id: i64) -> bool {
    &&& new.updates@ == old.updates@.push(new.updates@.last())
    &&& new.updates@.last().id == id
    &&& new.updates@.last().raw is None
    &&& (Tx { updates: new.updates, ..old }) == new
}

/// `new` is `old` after `group(chat, name, connected, available)`: the Group takes the name
/// and availability, and stays connected once connected. No other Group changes.
pub open spec fn group_set(old: Tx, new: Tx, chat: i64, name: Seq<char>, connected: bool, available: bool) -> bool {
    &&& match group_row(new.groups@, chat) {
        Some(g) => {
            &&& g.name@ == name
            &&& g.connected == (connected || match group_row(old.groups@, chat) {
                Some(o) => o.connected,
                None => false,
            })
            &&& g.available == available
        },
        None => false,
    }
    &&& forall|other: i64| other != chat ==> group_row(new.groups@, other) == group_row(old.groups@, other)
    &&& (Tx { groups: new.groups, ..old }) == new
}

/// `new` is `old` after the Bot leaves Group `chat`: a known Group is neither connected nor
/// available. No other Group changes.
pub open spec fn group_cleared(old: Tx, new: Tx, chat: i64) -> bool {
    &&& match group_row(old.groups@, chat) {
        Some(o) => match group_row(new.groups@, chat) {
            Some(g) => g.name == o.name && !g.connected && !g.available,
            None => false,
        },
        None => group_row(new.groups@, chat) is None,
    }
    &&& forall|other: i64| other != chat ==> group_row(new.groups@, other) == group_row(old.groups@, other)
    &&& (Tx { groups: new.groups, ..old }) == new
}

/// `new` is `old` after the Bot joined (`present`) or left Group `chat`; joining connects
/// the Group when an administrator added the Bot. The event is recorded.
pub open spec fn membership_done(
    old: Tx,
    new: Tx,
    admins: Seq<i64>,
    chat: i64,
    title: Seq<char>,
    actor: i64,
    present: bool,
    now: i64,
) -> bool {
    exists|mid: Tx|
        #![trigger logged(mid, new, "membership"@, now)]
        {
            &&& if present {
                group_set(old, mid, chat, title, is_admin(admins, actor), true)
            } else {
                group_cleared(old, mid, chat)
            }
            &&& logged(mid, new, "membership"@, now)
            &&& (Tx { management: new.management, ..mid }) == new
            &&& new.management@.last().detail.at("chat"@) == Json::Int(chat)
            &&& new.management@.last().detail.at("actor"@) == Json::Int(actor)
            &&& new.management@.last().detail.at("present"@) == Json::Bool(present)
        }
}

/// A message is a command when it starts with `/`.
pub open spec fn is_command(content: Seq<char>) -> bool {
    content.len() > 0 && content[0] == '/'
}

/// The User writes in Chinese.
pub open spec fn is_zh(language: Seq<char>) -> bool {
    language.len() >= 2 && language[0] == 'z' && language[1] == 'h'
}

/// What the Bot knows when it answers a command.
pub open spec fn context_of(admins: Seq<i64>, m: Message, trusted: bool) -> Context {
    Context {
        user: m.user,
        admin: is_admin(admins, m.user),
        trusted,
        initialized: admins.len() > 0,
        group: m.group,
        topic: m.thread,
        zh: is_zh(m.language@),
    }
}

/// The Bot answers `/help` and `/whoami` to anyone, and every command to trusted Users.
pub open spec fn answers(c: Seq<char>, trusted: bool) -> bool {
    c == "/help"@ || c == "/whoami"@ || trusted
}

/// A User is trusted when an administrator, or marked trusted.
pub open spec fn is_trusted(tx: Tx, admins: Seq<i64>, user: i64) -> bool {
    is_admin(admins, user) || user_trusted(tx.users@, user)
}

/// Row `o` is a new delivery job, the `n`th, of this kind for `msg` in `chat`.
pub open spec fn new_job(o: OutboxRow, n: int, kind: Seq<char>, msg: Option<i64>, chat: i64) -> bool {
    &&& o.id == n
    &&& o.kind@ == kind
    &&& o.message == msg
    &&& o.chat == chat
    &&& o.status == JobStatus::Pending
    &&& o.attempts == 0
    &&& o.next_attempt == 0
    &&& o.error is None
}

/// `g` is `old` after a command's first effect: `/manage` from an administrator in a Group
/// connects the Group.
pub open spec fn managed(old: Tx, g: Tx, admins: Seq<i64>, m: Message) -> bool {
    if command_text(m.content@) == "/manage"@ && is_admin(admins, m.user) && m.group {
        group_set(old, g, m.chat, m.title@, true, true)
    } else {
        g == old
    }
}

/// `new` is `g` after the Bot answers a command when it does: the command is recorded and
/// the answer queued for the same chat and thread.
pub open spec fn answered(g: Tx, new: Tx, admins: Seq<i64>, m: Message, trusted: bool, now: i64) -> bool {
    let c = command_text(m.content@);
    if answers(c, trusted) {
        exists|a: Tx|
            #![trigger logged(g, a, "command"@, now)]
            {
                let d = a.management@.last().detail;
                let o = new.outbox@.last();
                &&& logged(g, a, "command"@, now)
                &&& (Tx { management: a.management, ..g }) == a
                &&& d.at("user"@) == Json::Int(m.user)
                &&& d.at("chat"@) == Json::Int(m.chat)
                &&& d.at("command"@).str_of() == Some(m.content@)
                &&& (Tx { outbox: new.outbox, ..a }) == new
                &&& new.outbox@ == a.outbox@.push(o)
                &&& new_job(o, a.outbox@.len() as int + 1, "management"@, None, m.chat)
                &&& o.payload matches Delivery::Send { text, thread, quote: None } && text@ == reply_text(
                    c,
                    context_of(admins, m, trusted),
                ) && thread == m.thread
            }
    } else {
        new == g
    }
}

/// `new` is `old` after a command.
pub open spec fn commanded(old: Tx, new: Tx, admins: Seq<i64>, m: Message, now: i64) -> bool {
    exists|g: Tx|
        #![trigger managed(old, g, admins, m)]
        managed(old, g, admins, m) && answered(g, new, admins, m, is_trusted(old, admins, m.user), now)
}

/// The thread of a conversation message: one other than the General thread, in a connected
/// and available Group.
pub open spec fn conversation_thread(tx: Tx, m: Message) -> Option<i64> {
    match m.thread {
        Some(t) => if group_usable(tx.groups@, m.chat) && t != 1 {
            Some(t)
        } else {
            None
        },
        None => None,
    }
}

/// `new` is `old` after a Topic service message: the Topic is recorded (named by a creation)
/// and closed or reopened as the event says; the event is recorded.
pub open spec fn topic_evented(old: Tx, new: Tx, chat: i64, thread: i64, event: TopicEvent, now: i64) -> bool {
    let name = match event {
        TopicEvent::Created(n) => n@,
        _ => Seq::empty(),
    };
    let key = topic_key(chat, thread);
    exists|e: Tx, c: Tx|
        #![trigger e.topics, logged(c, new, "topic state"@, now)]
        {
            &&& ensured(old.topics@, e.topics@, chat, thread, name, None)
            &&& (Tx { topics: e.topics, ..old }) == e
            &&& match event {
                TopicEvent::Closed => set_closed(e, c, key, true),
                TopicEvent::Reopened => set_closed(e, c, key, false),
                TopicEvent::Created(_) => c == e,
            }
            &&& logged(c, new, "topic state"@, now)
            &&& (Tx { management: new.management, ..c }) == new
            &&& new.management@.last().detail.at("topic"@).str_of() == Some(key)
        }
}

/// The message that a conversation message quotes: the one that the quoted Telegram message
/// carries, if it belongs to the same Topic.
pub open spec fn quoted(tx: Tx, chat: i64, quote: Option<i64>, key: Seq<char>) -> Option<i64> {
    match quote {
        Some(x) => match linked(tx.links@, chat, x) {
            Some(id) => if in_topic(tx.messages@, key, id) {
                Some(id)
            } else {
                None
            },
            None => None,
        },
        None => None,
    }
}

/// `new` is `old` after a trusted User's message in a Topic: the Topic is recorded, the
/// message joins its conversation, the Telegram message is linked to it, and the update keeps
/// its raw text.
pub open spec fn conversed(old: Tx, new: Tx, m: Message, thread: i64, update_id: i64, raw: Seq<char>) -> bool {
    let key = topic_key(m.chat, thread);
    exists|e: Tx, a: Tx, l: Tx|
        #![trigger e.topics, a.messages, l.links]
        {
            let row = a.messages@.last();
            let id = e.messages@.len() + 1;
            &&& ensured(old.topics@, e.topics@, m.chat, thread, Seq::empty(), None)
            &&& (Tx { topics: e.topics, ..old }) == e
            &&& a.messages@ == e.messages@.push(row)
            &&& (Tx { messages: a.messages, ..e }) == a
            &&& row.id == id && row.topic@ == key && row.agent is None && row.user == Some(m.user)
            &&& row.content@ == m.content@ && row.sent_at == m.date && row.quote == quoted(e, m.chat, m.quote, key)
            &&& (Tx { links: l.links, ..a }) == l
            &&& l.links@ == if has_link(a.links@, m.chat, m.id) {
                a.links@
            } else {
                a.links@.push(crate::db::LinkRow { chat: m.chat, telegram_id: m.id, message: id as i64 })
            }
            &&& (Tx { updates: new.updates, ..l }) == new
            &&& new.updates@.len() == l.updates@.len()
            &&& forall|i: int|
                #![trigger new.updates@[i]]
                0 <= i < l.updates@.len() ==> {
                    let o = l.updates@[i];
                    let f = new.updates@[i];
                    &&& f.id == o.id
                    &&& (o.id != update_id ==> f == o)
                    &&& (o.id == update_id ==> f.raw.is_some() && f.raw.unwrap()@ == raw)
                }
        }
}

/// `new` is `old` after a message: commands, Topic events and trusted Users' messages in
/// Topics are handled; anything else changes nothing.
pub open spec fn message_handled(old: Tx, new: Tx, admins: Seq<i64>, m: Message, u: Update, now: i64) -> bool {
    if is_command(m.content@) {
        commanded(old, new, admins, m, now)
    } else {
        match conversation_thread(old, m) {
            Some(t) => match m.topic_event {
                Some(event) => topic_evented(old, new, m.chat, t, event, now),
                None => if is_trusted(old, admins, m.user) {
                    conversed(old, new, m, t, u.id, u.raw@)
                } else {
                    new == old
                },
            },
            None => new == old,
        }
    }
}

/// `new` is `old` after the update's event is handled.
pub open spec fn handled(old: Tx, new: Tx, admins: Seq<i64>, u: Update, now: i64) -> bool {
    match u.event {
        Event::Membership { chat, title, actor, present } => membership_done(
            old,
            new,
            admins,
            chat,
            title@,
            actor,
            present,
            now,
        ),
        Event::Message(m) => message_handled(old, new, admins, m, u, now),
        Event::Other => new == old,
    }
}

/// The Topic that the update would record clashes with another Topic's id.
pub open spec fn clashes(tx: Tx, chat: i64, t: i64) -> bool {
    !has_place(tx.topics@, chat, t) && topic_row(tx.topics@, topic_key(chat, t)) is Some
}

/// Why a new update cannot be handled, if it cannot: an answer finds the delivery queue
/// full (`Unavailable`), a Topic clashes with another's id (`Conflict`), or the conversation
/// is full (`Unavailable`).
pub open spec fn ingest_fault(tx: Tx, admins: Seq<i64>, u: Update) -> Option<ErrorKind> {
    match u.event {
        Event::Message(m) => if is_command(m.content@) {
            if answers(command_text(m.content@), is_trusted(tx, admins, m.user)) && tx.outbox@.len() + 1
                >= i64::MAX {
                Some(ErrorKind::Unavailable)
            } else {
                None
            }
        } else {
            match conversation_thread(tx, m) {
                Some(t) => if m.topic_event is None && !is_trusted(tx, admins, m.user) {
                    None
                } else if clashes(tx, m.chat, t) {
                    Some(ErrorKind::Conflict)
                } else if m.topic_event is None && tx.messages@.len() + 1 >= i64::MAX {
                    Some(ErrorKind::Unavailable)
                } else {
                    None
                },
                None => None,
            }
        },
        _ => None,
    }
}

/// The decimal text of the offset after update `id`.
fn offset_text(id: i64) -> (s: String)
    ensures
        s@ == int_text(next_offset(id) as int),
{
    let next = if id == i64::MAX {
        id
    } else {
        id + 1
    };
    let mut s = String::new();
    push_int(&mut s, next);
    s
}

/// Records that the Bot joined or left a Group.
fn on_membership(tx: &mut Tx, admins: &Vec<i64>, chat: i64, title: &str, actor: i64, present: bool, now: i64)
    requires
        old(tx).wf(),
    ensures
        final(tx).wf(),
        membership_done(*old(tx), *final(tx), admins@, chat, title@, actor, present, now),
        update_ids_kept(*old(tx), *final(tx)),
{
    if present {
        let admin = admin_in(admins, actor);
        tx.group(chat, title, admin, true);
    } else {
        tx.disconnect(chat);
    }
    let ghost mid = *tx;
    let detail = Json::Object(
        vec![member_of("chat", Json::Int(chat)), member_of("actor", Json::Int(actor)), member_of("present", Json::Bool(present))],
    );
    proof {
        reveal_strlit("chat");
        reveal_strlit("actor");
        reveal_strlit("present");
        assert("chat"@[0] != "actor"@[0] && "chat"@[0] != "present"@[0] && "actor"@[0] != "present"@[0]);
        lemma_members(detail->Object_0@, "chat"@);
        lemma_members(detail->Object_0@, "actor"@);
        lemma_members(detail->Object_0@, "present"@);
    }
    tx.audit("membership", detail, now);
    assert(tx.management@.drop_last() == mid.management@);
    assert(logged(mid, *tx, "membership"@, now));
}

/// Whether the language tag starts with `zh`.
fn zh(language: &str) -> (r: bool)
    ensures
        r == is_zh(language@),
{
    let v = chars_of(language);
    v.len() >= 2 && v[0] == 'z' && v[1] == 'h'
}

/// Handles a command: `/manage` connects a Group, and an answered command is recorded and
/// answered in the same chat and thread.
fn on_command(tx: &mut Tx, admins: &Vec<i64>, m: &Message, now: i64)
    requires
        old(tx).wf(),
        answers(command_text(m.content@), is_trusted(*old(tx), admins@, m.user)) ==> old(tx).outbox@.len() + 1
            < i64::MAX,
    ensures
        final(tx).wf(),
        commanded(*old(tx), *final(tx), admins@, *m, now),
        update_ids_kept(*old(tx), *final(tx)),
{
    let admin = admin_in(admins, m.user);
    let trusted = admin || tx.trusted(m.user);
    let c = command(m.content.as_str());
    if crate::text::str_eq(c, "/manage") && admin && m.group {
        tx.group(m.chat, m.title.as_str(), true, true);
    }
    let ghost g = *tx;
    assert(managed(*old(tx), g, admins@, *m));
    if crate::text::str_eq(c, "/help") || crate::text::str_eq(c, "/whoami") || trusted {
        let detail = Json::Object(
            vec![
                member_of("user", Json::Int(m.user)),
                member_of("chat", Json::Int(m.chat)),
                member_of("command", text_value(m.content.as_str())),
            ],
        );
        proof {
            reveal_strlit("user");
            reveal_strlit("chat");
            reveal_strlit("command");
            assert("user"@[0] != "chat"@[0] && "user"@[0] != "command"@[0] && "chat"@[1] != "command"@[1]);
            lemma_members(detail->Object_0@, "user"@);
            lemma_members(detail->Object_0@, "chat"@);
            lemma_members(detail->Object_0@, "command"@);
        }
        tx.audit("command", detail, now);
        let ghost a = *tx;
        assert(tx.management@.drop_last() == g.management@);
        let context = Context {
            user: m.user,
            admin,
            trusted,
            initialized: admins.len() > 0,
            group: m.group,
            topic: m.thread,
            zh: zh(m.language.as_str()),
        };
        let text = reply(c, context);
        match tx.enqueue("management", None, m.chat, Delivery::Send { text, thread: m.thread, quote: None }) {
            Ok(()) => {},
            Err(_) => {
                assert(false);
            },
        }
        assert(logged(g, a, "command"@, now));
        assert(answered(g, *tx, admins@, *m, trusted, now));
    }
}

/// Records a Topic service message: the Topic, and its new state.
fn on_topic_event(tx: &mut Tx, chat: i64, thread: i64, event: &TopicEvent, now: i64)
    requires
        old(tx).wf(),
        !clashes(*old(tx), chat, thread),
        has_group(old(tx).groups@, chat),
    ensures
        final(tx).wf(),
        topic_evented(*old(tx), *final(tx), chat, thread, *event, now),
        update_ids_kept(*old(tx), *final(tx)),
{
    proof {
        reveal_strlit("");
    }
    let name: &str = match event {
        TopicEvent::Created(n) => n.as_str(),
        _ => "",
    };
    assert(name@ =~= match *event {
        TopicEvent::Created(n) => n@,
        _ => Seq::empty(),
    });
    let topic = match tx.ensure_topic(chat, thread, name, None) {
        Ok(id) => id,
        Err(_) => {
            assert(false);
            return;
        },
    };
    let ghost e = *tx;
    match event {
        TopicEvent::Closed => tx.close(topic.as_str(), true),
        TopicEvent::Reopened => tx.close(topic.as_str(), false),
        TopicEvent::Created(_) => {},
    }
    let ghost c = *tx;
    let detail = Json::Object(vec![member_of("topic", text_value(topic.as_str()))]);
    proof {
        lemma_members(detail->Object_0@, "topic"@);
    }
    tx.audit("topic state", detail, now);
    assert(tx.management@.drop_last() == c.management@);
    assert(ensured(old(tx).topics@, e.topics@, chat, thread, match *event {
        TopicEvent::Created(n) => n@,
        _ => Seq::empty(),
    }, None) && logged(c, *tx, "topic state"@, now) && e.topics == e.topics);
}

/// Adds a trusted User's message to the conversation of its Topic.
fn on_conversation(tx: &mut Tx, m: &Message, thread: i64, update_id: i64, raw: &str)
    requires
        old(tx).wf(),
        !clashes(*old(tx), m.chat, thread),
        has_group(old(tx).groups@, m.chat),
        old(tx).messages@.len() + 1 < i64::MAX,
    ensures
        final(tx).wf(),
        conversed(*old(tx), *final(tx), *m, thread, update_id, raw@),
        update_ids_kept(*old(tx), *final(tx)),
{
    proof {
        reveal_strlit("");
    }
    assert(""@ =~= Seq::<char>::empty());
    let topic = match tx.ensure_topic(m.chat, thread, "", None) {
        Ok(id) => id,
        Err(_) => {
            assert(false);
            return;
        },
    };
    let ghost e = *tx;
    let quote = match m.quote {
        Some(x) => match tx.mapped(m.chat, x) {
            Some(id) => match tx.message_in(topic.as_str(), id) {
                Ok(()) => Some(id),
                Err(_) => None,
            },
            None => None,
        },
        None => None,
    };
    let id = match tx.append(topic.as_str(), None, Some(m.user), m.content.as_str(), m.date, quote) {
        Ok(id) => id,
        Err(_) => {
            assert(false);
            return;
        },
    };
    let ghost a = *tx;
    tx.map(m.chat, m.id, id);
    let ghost l = *tx;
    tx.save_raw_update(update_id, raw);
    assert(ensured(old(tx).topics@, e.topics@, m.chat, thread, Seq::empty(), None));
    assert(e.topics == e.topics && a.messages == a.messages && l.links == l.links);
}

/// What handling update `u` at `now` does and answers. An update seen before only moves the
/// offset. A new one is recorded as received, its event handled, and the offset moved past
/// it; when the event cannot be handled, nothing changes. Once handled, the update is known.
pub open spec fn ingested(old: Tx, new: Tx, admins: Seq<i64>, u: Update, now: i64, r: Result<()>) -> bool {
    match r {
        Ok(()) => {
            &&& has_update(new.updates@, u.id)
            &&& if has_update(old.updates@, u.id) {
                offset_after(old, new, u.id)
            } else {
                &&& ingest_fault(old, admins, u) is None
                &&& exists|a: Tx, b: Tx|
                    #![trigger update_recorded(old, a, u.id), offset_after(b, new, u.id)]
                    update_recorded(old, a, u.id) && handled(a, b, admins, u, now) && offset_after(b, new, u.id)
            }
        },
        Err(e) => new == old && !has_update(old.updates@, u.id) && match ingest_fault(old, admins, u) {
            Some(ErrorKind::Conflict) => is_conflict(e),
            Some(ErrorKind::Unavailable) => is_storage_failure(e),
            _ => false,
        },
    }
}

/// The ids of the received updates stay as they are.
pub open spec fn update_ids_kept(old: Tx, new: Tx) -> bool {
    new.updates@.len() == old.updates@.len() && forall|i: int|
        0 <= i < old.updates@.len() ==> #[trigger] new.updates@[i].id == old.updates@[i].id
}

impl crate::gateway::Gateway {
    /// Handles one Telegram update in one transaction. An update seen before only moves the
    /// offset. A new one is recorded as received, its event handled, and the offset moved
    /// past it; when the event cannot be handled, nothing changes.
    pub fn ingest(&self, tx: &mut Tx, update: Update, now: i64) -> (r: Result<()>)
        requires
            old(tx).wf(),
        ensures
            final(tx).wf(),
            ingested(*old(tx), *final(tx), self.admins@, update, now, r),
    {
        let offset = offset_text(update.id);
        if tx.update_known(update.id) {
            tx.set_meta("offset", offset.as_str());
            return Ok(());
        }
        match &update.event {
            Event::Message(m) => {
                if is_command_text(m.content.as_str()) {
                    let trusted = admin_in(&self.admins, m.user) || tx.trusted(m.user);
                    let c = command(m.content.as_str());
                    if (crate::text::str_eq(c, "/help") || crate::text::str_eq(c, "/whoami") || trusted)
                        && tx.outbox.len() as u64 >= 0x7fff_ffff_ffff_fffe {
                        return Err(Error::internal("database operation failed"));
                    }
                } else {
                    match conversation_place(tx, m) {
                        Some(t) => {
                            let handles = m.topic_event.is_some() || admin_in(&self.admins, m.user) || tx.trusted(
                                m.user,
                            );
                            if handles && tx.topic_clash(m.chat, t) {
                                return Err(Error::conflict("conflicting name or record"));
                            }
                            if handles && m.topic_event.is_none() && tx.messages.len() as u64
                                >= 0x7fff_ffff_ffff_fffe {
                                return Err(Error::internal("database operation failed"));
                            }
                        },
                        None => {},
                    }
                }
            },
            _ => {},
        }
        let ghost start = *tx;
        tx.record_update(update.id, None);
        let ghost a = *tx;
        assert(update_recorded(start, a, update.id));
        let ghost at = a.updates@.len() - 1;
        assert(a.updates@[at].id == update.id);
        match &update.event {
            Event::Membership { chat, title, actor, present } => {
                on_membership(tx, &self.admins, *chat, title.as_str(), *actor, *present, now);
            },
            Event::Message(m) => {
                if is_command_text(m.content.as_str()) {
                    on_command(tx, &self.admins, m, now);
                } else {
                    match conversation_place(tx, m) {
                        Some(t) => match &m.topic_event {
                            Some(event) => on_topic_event(tx, m.chat, t, event, now),
                            None => {
                                if admin_in(&self.admins, m.user) || tx.trusted(m.user) {
                                    on_conversation(tx, m, t, update.id, update.raw.as_str());
                                }
                            },
                        },
                        None => {},
                    }
                }
            },
            Event::Other => {},
        }
        let ghost b = *tx;
        assert(handled(a, b, self.admins@, update, now));
        assert(update_ids_kept(a, b));
        assert(b.updates@[at].id == update.id);
        assert(has_update(b.updates@, update.id));
        tx.set_meta("offset", offset.as_str());
        assert(offset_after(b, *tx, update.id));
        Ok(())
    }
}

/// Whether a message is a command.
fn is_command_text(content: &str) -> (r: bool)
    ensures
        r == is_command(content@),
{
    let v = chars_of(content);
    v.len() > 0 && v[0] == '/'
}

/// The thread of a conversation message, if it is one.
fn conversation_place(tx: &Tx, m: &Message) -> (r: Option<i64>)
    requires
        tx.wf(),
    ensures
        r == conversation_thread(*tx, *m),
{
    match m.thread {
        Some(t) => if tx.connected(m.chat) && t != 1 {
            Some(t)
        } else {
            None
        },
        None => None,
    }
}

/// A data directory belongs to one Bot: the first Bot to start records its id; another
/// Bot's id is refused and changes nothing.
pub fn bind_bot(tx: &mut Tx, id: i64) -> (r: Result<()>)
    requires
        old(tx).wf(),
    ensures
        final(tx).wf(),
        match r {
            Ok(()) => {
                &&& (meta_value(old(tx).meta@, "bot_id"@) matches Some(v) ==> v == int_text(id as int))
                &&& meta_value(final(tx).meta@, "bot_id"@) == Some(int_text(id as int))
                &&& forall|k: Seq<char>| k != "bot_id"@ ==> meta_value(final(tx).meta@, k) == meta_value(old(tx).meta@, k)
                &&& (Tx { meta: final(tx).meta, ..*old(tx) }) == *final(tx)
            },
            Err(e) => {
                &&& meta_value(old(tx).meta@, "bot_id"@) matches Some(v) && v != int_text(id as int)
                &&& crate::model::is_error(e, ErrorKind::Conflict, "data directory belongs to another Bot"@)
                &&& *final(tx) == *old(tx)
            },
        },
{
    let mut text = String::new();
    push_int(&mut text, id);
    match tx.meta("bot_id") {
        Some(old) => if !crate::text::str_eq(old.as_str(), text.as_str()) {
            return Err(Error::conflict("data directory belongs to another Bot"));
        },
        None => {},
    }
    tx.set_meta("bot_id", text.as_str());
    Ok(())
}

/// The offset to poll Telegram from: the stored one, when it reads as a number.
pub fn stored_offset(tx: &Tx) -> (r: Option<i64>)
    requires
        tx.wf(),
    ensures
        r == match meta_value(tx.meta@, "offset"@) {
            Some(v) => crate::text::parse_int(v),
            None => None,
        },
{
    match tx.meta("offset") {
        Some(v) => crate::text::parse_i64(chars_of(v.as_str()).as_slice()),
        None => None,
    }
}

/// How long to pause polling after a failure, in seconds: what Telegram asked for, 2 by
/// default, at least 1.
pub fn poll_delay(f: &crate::telegram::Failure) -> (d: u64)
    ensures
        d == match f.retry_after {
            Some(s) => if s < 1 {
                1
            } else {
                s as int
            },
            None => 2,
        },
{
    match f.retry_after {
        Some(s) => if s < 1 {
            1
        } else {
            s as u64
        },
        None => 2,
    }
}

/// Telegram may number updates afresh after a week without any: polling then starts over
/// without an offset.
pub fn offset_stale(quiet_seconds: u64) -> (r: bool)
    ensures
        r == (quiet_seconds >= 7 * 24 * 3600),
{
    quiet_seconds >= 604_800
}

} // verus!
