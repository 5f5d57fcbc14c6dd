//! The gateway's durable state and the queries that read and change it. A `Tx` holds every
//! table; each method is one statement of a transaction. Lists come back in the order the
//! tables keep: by name, chat, Topic id or sequence number.
use vstd::prelude::*;
use crate::json::{Json, int_value, lemma_members, member_of, text_value};
use crate::model::{Delivery, Error, ErrorKind, GroupInfo, Job, Message, Result, Sender, Subscription,
    Topic, TopicInfo, is_error, msg_id, msg_text, rfc3339_seconds, timestamp};
use crate::text::{opt_string, opt_text, clamp64, saturating_add, saturating_mul, decimal, int_text, push_char, push_decimal, push_int, owned, seq_less, str_eq, text_less, lemma_less_irreflexive, lemma_less_total,
    lemma_less_transitive};

verus! {

#[derive(Debug)]
pub struct MetaRow {
    pub key: String,
    pub value: String,
}

#[derive(Debug)]
pub struct AuditRow {
    pub time: i64,
    pub kind: String,
    pub detail: Json,
}

#[derive(Debug)]
pub struct AgentRow {
    pub name: String,
    pub last_seen: i64,
}

#[derive(Debug)]
pub struct GroupRow {
    pub chat: i64,
    pub name: String,
    pub connected: bool,
    pub available: bool,
}

#[derive(Debug)]
pub struct TopicRow {
    pub id: String,
    pub chat: i64,
    pub thread: i64,
    pub name: String,
    pub owner: Option<String>,
    pub closed: bool,
}

#[derive(Debug)]
pub struct SubRow {
    pub agent: String,
    pub topic: String,
    pub active: bool,
    pub muted: bool,
    pub acked: Option<i64>,
}

#[derive(Debug)]
pub struct MessageRow {
    pub id: i64,
    pub topic: String,
    pub agent: Option<String>,
    pub user: Option<i64>,
    pub content: String,
    pub sent_at: i64,
    pub quote: Option<i64>,
}

/// A Telegram message (by chat and Telegram id) that carries a conversation message.
#[derive(Debug)]
pub struct LinkRow {
    pub chat: i64,
    pub telegram_id: i64,
    pub message: i64,
}

#[derive(Debug)]
pub struct UserRow {
    pub id: i64,
    pub trusted: bool,
}

#[derive(Debug)]
pub struct UpdateRow {
    pub id: i64,
    pub raw: Option<String>,
}

#[derive(Debug, PartialEq, Eq, Structural)]
pub enum JobStatus {
    Pending,
    Inflight,
    Blocked,
    Done,
}

#[derive(Debug)]
pub struct OutboxRow {
    pub id: i64,
    pub kind: String,
    pub message: Option<i64>,
    pub chat: i64,
    pub payload: Delivery,
    pub status: JobStatus,
    pub attempts: i64,
    pub next_attempt: i64,
    pub error: Option<String>,
}

/// All tables.
#[derive(Debug)]
pub struct Tx {
    pub meta: Vec<MetaRow>,
    pub management: Vec<AuditRow>,
    pub agents: Vec<AgentRow>,
    pub groups: Vec<GroupRow>,
    pub topics: Vec<TopicRow>,
    pub subscriptions: Vec<SubRow>,
    pub messages: Vec<MessageRow>,
    pub links: Vec<LinkRow>,
    pub users: Vec<UserRow>,
    pub updates: Vec<UpdateRow>,
    pub outbox: Vec<OutboxRow>,
}

// ---------------------------------------------------------------- keys and order

/// `(agent, topic)` pairs in the order of the subscription key.
pub open spec fn pair_less(a1: Seq<char>, t1: Seq<char>, a2: Seq<char>, t2: Seq<char>) -> bool {
    seq_less(a1, a2) || (a1 == a2 && seq_less(t1, t2))
}

pub open spec fn agents_sorted(rows: Seq<AgentRow>) -> bool {
    forall|i: int, j: int| 0 <= i < j < rows.len() ==> seq_less(rows[i].name@, rows[j].name@)
}

pub open spec fn groups_sorted(rows: Seq<GroupRow>) -> bool {
    forall|i: int, j: int| 0 <= i < j < rows.len() ==> rows[i].chat < rows[j].chat
}

pub open spec fn topics_sorted(rows: Seq<TopicRow>) -> bool {
    forall|i: int, j: int| 0 <= i < j < rows.len() ==> seq_less(rows[i].id@, rows[j].id@)
}

pub open spec fn topic_places_unique(rows: Seq<TopicRow>) -> bool {
    forall|i: int, j: int|
        0 <= i < rows.len() && 0 <= j < rows.len() && i != j ==> !(rows[i].chat == rows[j].chat
            && rows[i].thread == rows[j].thread)
}

pub open spec fn subs_sorted(rows: Seq<SubRow>) -> bool {
    forall|i: int, j: int|
        0 <= i < j < rows.len() ==> pair_less(
            rows[i].agent@,
            rows[i].topic@,
            rows[j].agent@,
            rows[j].topic@,
        )
}

pub open spec fn meta_unique(rows: Seq<MetaRow>) -> bool {
    forall|i: int, j: int|
        0 <= i < rows.len() && 0 <= j < rows.len() && i != j ==> rows[i].key@ != rows[j].key@
}

pub open spec fn links_unique(rows: Seq<LinkRow>) -> bool {
    forall|i: int, j: int|
        0 <= i < rows.len() && 0 <= j < rows.len() && i != j ==> !(rows[i].chat == rows[j].chat
            && rows[i].telegram_id == rows[j].telegram_id)
}

pub open spec fn users_unique(rows: Seq<UserRow>) -> bool {
    forall|i: int, j: int|
        0 <= i < rows.len() && 0 <= j < rows.len() && i != j ==> rows[i].id != rows[j].id
}

pub open spec fn updates_unique(rows: Seq<UpdateRow>) -> bool {
    forall|i: int, j: int|
        0 <= i < rows.len() && 0 <= j < rows.len() && i != j ==> rows[i].id != rows[j].id
}

/// Messages are numbered 1, 2, ... in the order they were appended.
pub open spec fn messages_numbered(rows: Seq<MessageRow>) -> bool {
    forall|i: int| 0 <= i < rows.len() ==> #[trigger] rows[i].id == i + 1
}

pub open spec fn outbox_numbered(rows: Seq<OutboxRow>) -> bool {
    forall|i: int| 0 <= i < rows.len() ==> #[trigger] rows[i].id == i + 1
}

/// Some Group row is for chat `chat`.
pub open spec fn has_group(groups: Seq<GroupRow>, chat: i64) -> bool {
    exists|j: int| 0 <= j < groups.len() && groups[j].chat == chat
}

/// Some Topic row has id `id`.
pub open spec fn has_topic(topics: Seq<TopicRow>, id: Seq<char>) -> bool {
    exists|j: int| 0 <= j < topics.len() && topics[j].id@ == id
}

/// Every Topic belongs to a known Group.
pub open spec fn topics_grouped(topics: Seq<TopicRow>, groups: Seq<GroupRow>) -> bool {
    forall|i: int| 0 <= i < topics.len() ==> has_group(groups, (#[trigger] topics[i]).chat)
}

/// Every subscription is to a known Topic.
pub open spec fn subs_known(subs: Seq<SubRow>, topics: Seq<TopicRow>) -> bool {
    forall|i: int| 0 <= i < subs.len() ==> has_topic(topics, (#[trigger] subs[i]).topic@)
}

/// Subscriptions stay on known Topics when every Topic id is still a Topic's id.
proof fn lemma_topics_cover(subs: Seq<SubRow>, before: Seq<TopicRow>, after: Seq<TopicRow>)
    requires
        subs_known(subs, before),
        forall|id: Seq<char>| has_topic(before, id) ==> #[trigger] has_topic(after, id),
    ensures
        subs_known(subs, after),
{
    assert forall|i: int| 0 <= i < subs.len() implies has_topic(after, (#[trigger] subs[i]).topic@) by {
        assert(has_topic(before, subs[i].topic@));
    }
}

/// Topics stay grouped when every Group's chat is still a Group's chat.
proof fn lemma_groups_cover(topics: Seq<TopicRow>, before: Seq<GroupRow>, after: Seq<GroupRow>)
    requires
        topics_grouped(topics, before),
        forall|c: i64| has_group(before, c) ==> #[trigger] has_group(after, c),
    ensures
        topics_grouped(topics, after),
{
    assert forall|i: int| 0 <= i < topics.len() implies has_group(after, (#[trigger] topics[i]).chat) by {
        assert(has_group(before, topics[i].chat));
    }
}

/// No delivery counts fewer than zero attempts.
pub open spec fn attempts_counted(rows: Seq<OutboxRow>) -> bool {
    forall|i: int| 0 <= i < rows.len() ==> #[trigger] rows[i].attempts >= 0
}

impl Tx {
    /// The tables' keys are unique and each keyed table is kept in key order.
    pub open spec fn wf(&self) -> bool {
        &&& meta_unique(self.meta@)
        &&& agents_sorted(self.agents@)
        &&& groups_sorted(self.groups@)
        &&& topics_sorted(self.topics@)
        &&& topic_places_unique(self.topics@)
        &&& subs_sorted(self.subscriptions@)
        &&& topics_grouped(self.topics@, self.groups@)
        &&& subs_known(self.subscriptions@, self.topics@)
        &&& messages_numbered(self.messages@)
        &&& self.messages@.len() < i64::MAX
        &&& links_unique(self.links@)
        &&& users_unique(self.users@)
        &&& updates_unique(self.updates@)
        &&& outbox_numbered(self.outbox@)
        &&& attempts_counted(self.outbox@)
        &&& self.outbox@.len() < i64::MAX
    }

    pub fn new() -> (t: Tx)
        ensures
            t.wf(),
            t.meta@.len() == 0 && t.management@.len() == 0 && t.agents@.len() == 0
                && t.groups@.len() == 0 && t.topics@.len() == 0 && t.subscriptions@.len() == 0
                && t.messages@.len() == 0 && t.links@.len() == 0 && t.users@.len() == 0
                && t.updates@.len() == 0 && t.outbox@.len() == 0,
    {
        Tx {
            meta: Vec::new(),
            management: Vec::new(),
            agents: Vec::new(),
            groups: Vec::new(),
            topics: Vec::new(),
            subscriptions: Vec::new(),
            messages: Vec::new(),
            links: Vec::new(),
            users: Vec::new(),
            updates: Vec::new(),
            outbox: Vec::new(),
        }
    }
}

// ---------------------------------------------------------------- meta and audit

pub open spec fn meta_value(rows: Seq<MetaRow>, key: Seq<char>) -> Option<Seq<char>> {
    if exists|i: int| 0 <= i < rows.len() && rows[i].key@ == key {
        Some(rows[choose|i: int| 0 <= i < rows.len() && rows[i].key@ == key].value@)
    } else {
        None
    }
}

/// The error every failed constraint becomes.
pub open spec fn is_conflict(e: Error) -> bool {
    is_error(e, ErrorKind::Conflict, "conflicting name or record"@)
}

impl Tx {
    fn meta_index(&self, key: &str) -> (r: Option<usize>)
        requires
            meta_unique(self.meta@),
        ensures
            match r {
                Some(i) => i < self.meta@.len() && self.meta@[i as int].key@ == key@ && (choose|
                    j: int,
                | 0 <= j < self.meta@.len() && self.meta@[j].key@ == key@) == i,
                None => forall|j: int|
                    0 <= j < self.meta@.len() ==> self.meta@[j].key@ != key@,
            },
    {
        for i in 0..self.meta.len()
            invariant
                meta_unique(self.meta@),
                forall|j: int| 0 <= j < i ==> self.meta@[j].key@ != key@,
        {
            if str_eq(self.meta[i].key.as_str(), key) {
                proof {
                    let j = choose|j: int| 0 <= j < self.meta@.len() && self.meta@[j].key@ == key@;
                    assert(self.meta@[i as int].key@ == key@);
                    assert(j == i);
                }
                return Some(i);
            }
        }
        None
    }

    pub fn meta(&self, key: &str) -> (r: Option<String>)
        requires
            self.wf(),
        ensures
            match r {
                Some(v) => meta_value(self.meta@, key@) == Some(v@),
                None => meta_value(self.meta@, key@) is None,
            },
    {
        match self.meta_index(key) {
            Some(i) => Some(owned(self.meta[i].value.as_str())),
            None => None,
        }
    }

    pub fn set_meta(&mut self, k: &str, v: &str)
        requires
            old(self).wf(),
        ensures
            final(self).wf(),
            meta_value(final(self).meta@, k@) == Some(v@),
            forall|other: Seq<char>|
                other != k@ ==> meta_value(final(self).meta@, other) == meta_value(
                    old(self).meta@,
                    other,
                ),
            (Tx { meta: final(self).meta, ..*old(self) }) == *final(self),
    {
        let row = MetaRow { key: owned(k), value: owned(v) };
        let ghost at: int;
        match self.meta_index(k) {
            Some(i) => {
                self.meta.set(i, row);
                proof {
                    at = i as int;
                }
            },
            None => {
                self.meta.push(row);
                proof {
                    at = self.meta@.len() - 1;
                }
            },
        }
        let ghost m = self.meta@;
        assert(m[at].key@ == k@ && m[at].value@ == v@);
        assert(meta_unique(m));
        assert((choose|j: int| 0 <= j < m.len() && m[j].key@ == k@) == at);
        assert forall|other: Seq<char>| other != k@ implies meta_value(m, other) == meta_value(
            old(self).meta@,
            other,
        ) by {
            let o = old(self).meta@;
            if exists|j: int| 0 <= j < o.len() && o[j].key@ == other {
                let j = choose|j: int| 0 <= j < o.len() && o[j].key@ == other;
                assert(m[j] == o[j]);
            }
            if exists|j: int| 0 <= j < m.len() && m[j].key@ == other {
                let j = choose|j: int| 0 <= j < m.len() && m[j].key@ == other;
                assert(j < o.len() && o[j] == m[j]);
            }
        }
    }

    /// Records a management event.
    pub fn audit(&mut self, kind: &str, detail: Json, time: i64)
        ensures
            final(self).management@ == old(self).management@.push(final(self).management@.last()),
            final(self).management@.last().kind@ == kind@,
            final(self).management@.last().detail == detail,
            final(self).management@.last().time == time,
            (Tx { management: final(self).management, ..*old(self) }) == *final(self),
    {
        self.management.push(AuditRow { time, kind: owned(kind), detail });
    }
}

// ---------------------------------------------------------------- agents

pub open spec fn agent_exists(rows: Seq<AgentRow>, name: Seq<char>) -> bool {
    exists|i: int| 0 <= i < rows.len() && rows[i].name@ == name
}

/// The error for a name that no Agent has registered.
pub open spec fn is_unknown_agent(e: Error) -> bool {
    is_error(e, ErrorKind::Invalid, "unknown Agent"@)
}

impl Tx {
    /// Where `name` stands, or would stand, in the agents table.
    fn agent_slot(&self, name: &str) -> (r: (usize, bool))
        requires
            agents_sorted(self.agents@),
        ensures
            r.0 <= self.agents@.len(),
            forall|j: int| 0 <= j < r.0 ==> seq_less(#[trigger] self.agents@[j].name@, name@),
            r.1 ==> r.0 < self.agents@.len() && self.agents@[r.0 as int].name@ == name@,
            !r.1 ==> forall|j: int|
                r.0 <= j < self.agents@.len() ==> seq_less(name@, #[trigger] self.agents@[j].name@),
    {
        let n = self.agents.len();
        for i in 0..n
            invariant
                n == self.agents@.len(),
                agents_sorted(self.agents@),
                forall|j: int| 0 <= j < i ==> seq_less(#[trigger] self.agents@[j].name@, name@),
        {
            if !text_less(self.agents[i].name.as_str(), name) {
                let found = str_eq(self.agents[i].name.as_str(), name);
                if !found {
                    proof {
                        let x = self.agents@[i as int].name@;
                        lemma_less_total(x, name@);
                        assert forall|j: int| i <= j < n implies seq_less(
                            name@,
                            #[trigger] self.agents@[j].name@,
                        ) by {
                            if j > i {
                                lemma_less_transitive(name@, x, self.agents@[j].name@);
                            }
                        }
                    }
                }
                return (i, found);
            }
        }
        (n, false)
    }

    pub fn register(&mut self, n: &str, now: i64) -> (r: Result<()>)
        requires
            old(self).wf(),
        ensures
            final(self).wf(),
            match r {
                Ok(()) => {
                    &&& !agent_exists(old(self).agents@, n@)
                    &&& exists|p: int|
                        0 <= p <= old(self).agents@.len()
                            && final(self).agents@ == old(self).agents@.insert(p, final(self).agents@[p])
                            && final(self).agents@[p].name@ == n@
                            && final(self).agents@[p].last_seen == now
                },
                Err(e) => agent_exists(old(self).agents@, n@) && is_conflict(e) && *final(self)
                    == *old(self),
            },
            (Tx { agents: final(self).agents, ..*old(self) }) == *final(self),
    {
        let (p, found) = self.agent_slot(n);
        if found {
            return Err(Error::conflict("conflicting name or record"));
        }
        let ghost before = self.agents@;
        self.agents.insert(p, AgentRow { name: owned(n), last_seen: now });
        proof {
            let after = self.agents@;
            assert forall|i: int, j: int| 0 <= i < j < after.len() implies seq_less(
                after[i].name@,
                after[j].name@,
            ) by {
                if i < p && j < p {
                } else if i < p && j == p {
                } else if i < p {
                    assert(after[j] == before[j - 1]);
                    lemma_less_transitive(after[i].name@, n@, after[j].name@);
                } else if i == p {
                    assert(after[j] == before[j - 1]);
                } else {
                    assert(after[j] == before[j - 1]);
                    assert(after[i] == before[i - 1]);
                }
            }
            assert forall|i: int| 0 <= i < before.len() implies before[i].name@ != n@ by {
                if i < p {
                    lemma_less_irreflexive(n@);
                } else {
                    lemma_less_irreflexive(n@);
                }
            }
            assert(self.agents@ == before.insert(p as int, self.agents@[p as int]));
        }
        Ok(())
    }

    pub fn require_agent(&self, name: &str) -> (r: Result<()>)
        requires
            self.wf(),
        ensures
            match r {
                Ok(()) => agent_exists(self.agents@, name@),
                Err(e) => !agent_exists(self.agents@, name@) && is_unknown_agent(e),
            },
    {
        let (_p, found) = self.agent_slot(name);
        if !found {
            proof {
                assert forall|i: int| 0 <= i < self.agents@.len() implies self.agents@[i].name@
                    != name@ by {
                    lemma_less_irreflexive(name@);
                }
            }
            return Err(Error::bad("unknown Agent"));
        }
        Ok(())
    }

    /// Marks the Agent as seen at `now`.
    pub fn seen(&mut self, n: &str, now: i64) -> (r: Result<()>)
        requires
            old(self).wf(),
        ensures
            final(self).wf(),
            match r {
                Ok(()) => exists|p: int|
                    0 <= p < old(self).agents@.len() && old(self).agents@[p].name@ == n@
                        && final(self).agents@ == old(self).agents@.update(
                        p,
                        AgentRow { name: old(self).agents@[p].name, last_seen: now },
                    ),
                Err(e) => !agent_exists(old(self).agents@, n@) && is_unknown_agent(e)
                    && *final(self) == *old(self),
            },
            (Tx { agents: final(self).agents, ..*old(self) }) == *final(self),
    {
        let (p, found) = self.agent_slot(n);
        if !found {
            proof {
                assert forall|i: int| 0 <= i < self.agents@.len() implies self.agents@[i].name@
                    != n@ by {
                    lemma_less_irreflexive(n@);
                }
            }
            return Err(Error::bad("unknown Agent"));
        }
        let ghost before = self.agents@;
        let mut row = self.agents.remove(p);
        row.last_seen = now;
        self.agents.insert(p, row);
        assert(self.agents@ == before.update(
            p as int,
            AgentRow { name: before[p as int].name, last_seen: now },
        ));
        Ok(())
    }

    /// Every Agent's name and last activity, by name.
    pub fn agents(&self) -> (r: Vec<(String, i64)>)
        ensures
            r@.len() == self.agents@.len(),
            forall|i: int|
                0 <= i < r@.len() ==> (#[trigger] r@[i]).0@ == self.agents@[i].name@ && r@[i].1
                    == self.agents@[i].last_seen,
    {
        let mut r: Vec<(String, i64)> = Vec::new();
        for i in 0..self.agents.len()
            invariant
                r@.len() == i,
                forall|k: int|
                    0 <= k < i ==> (#[trigger] r@[k]).0@ == self.agents@[k].name@ && r@[k].1
                        == self.agents@[k].last_seen,
        {
            r.push((owned(self.agents[i].name.as_str()), self.agents[i].last_seen));
        }
        r
    }
}

// ---------------------------------------------------------------- groups

pub open spec fn group_row(rows: Seq<GroupRow>, chat: i64) -> Option<GroupRow> {
    if exists|i: int| 0 <= i < rows.len() && rows[i].chat == chat {
        Some(rows[choose|i: int| 0 <= i < rows.len() && rows[i].chat == chat])
    } else {
        None
    }
}

proof fn lemma_group_row(rows: Seq<GroupRow>, k: int)
    requires
        groups_sorted(rows),
        0 <= k < rows.len(),
    ensures
        group_row(rows, rows[k].chat) == Some(rows[k]),
{
    let c = rows[k].chat;
    let j = choose|i: int| 0 <= i < rows.len() && rows[i].chat == c;
    assert(rows[j].chat == c);
    if j < k {
        assert(rows[j].chat < rows[k].chat);
    } else if j > k {
        assert(rows[k].chat < rows[j].chat);
    }
}

proof fn lemma_group_absent(rows: Seq<GroupRow>, chat: i64)
    requires
        forall|i: int| 0 <= i < rows.len() ==> rows[i].chat != chat,
    ensures
        group_row(rows, chat) is None,
{
}

/// Whether a Group is connected and available.
pub open spec fn group_usable(rows: Seq<GroupRow>, chat: i64) -> bool {
    match group_row(rows, chat) {
        Some(g) => g.connected && g.available,
        None => false,
    }
}

impl Tx {
    fn group_slot(&self, chat: i64) -> (r: (usize, bool))
        requires
            groups_sorted(self.groups@),
        ensures
            r.0 <= self.groups@.len(),
            forall|j: int| 0 <= j < r.0 ==> (#[trigger] self.groups@[j]).chat < chat,
            r.1 ==> r.0 < self.groups@.len() && self.groups@[r.0 as int].chat == chat,
            !r.1 ==> forall|j: int|
                r.0 <= j < self.groups@.len() ==> chat < (#[trigger] self.groups@[j]).chat,
    {
        let n = self.groups.len();
        for i in 0..n
            invariant
                n == self.groups@.len(),
                groups_sorted(self.groups@),
                forall|j: int| 0 <= j < i ==> (#[trigger] self.groups@[j]).chat < chat,
        {
            if self.groups[i].chat >= chat {
                let found = self.groups[i].chat == chat;
                proof {
                    assert forall|j: int| i <= j < n && !found implies chat < (
                    #[trigger] self.groups@[j]).chat by {
                        if j > i {
                            assert(self.groups@[i as int].chat < self.groups@[j].chat);
                        }
                    }
                }
                return (i, found);
            }
        }
        (n, false)
    }

    /// Records a Group; a connection, once made, persists until `disconnect`.
    pub fn group(&mut self, chat: i64, name: &str, connected: bool, available: bool)
        requires
            old(self).wf(),
        ensures
            final(self).wf(),
            match group_row(final(self).groups@, chat) {
                Some(g) => {
                    &&& g.name@ == name@
                    &&& g.connected == (connected || match group_row(old(self).groups@, chat) {
                        Some(o) => o.connected,
                        None => false,
                    })
                    &&& g.available == available
                },
                None => false,
            },
            forall|other: i64|
                other != chat ==> group_row(final(self).groups@, other) == group_row(
                    old(self).groups@,
                    other,
                ),
            (Tx { groups: final(self).groups, ..*old(self) }) == *final(self),
    {
        let (p, found) = self.group_slot(chat);
        let ghost before = self.groups@;
        if found {
            let was = self.groups[p].connected;
            proof {
                lemma_group_row(before, p as int);
            }
            self.groups.set(
                p,
                GroupRow { chat, name: owned(name), connected: connected || was, available },
            );
            proof {
                let after = self.groups@;
                assert forall|c: i64| has_group(before, c) implies #[trigger] has_group(after, c) by {
                    let j = choose|j: int| 0 <= j < before.len() && before[j].chat == c;
                    assert(after[j].chat == before[j].chat);
                }
                lemma_groups_cover(self.topics@, before, after);
                assert(groups_sorted(after));
                lemma_group_row(after, p as int);
                assert forall|other: i64| other != chat implies group_row(after, other)
                    == group_row(before, other) by {
                    if exists|i: int| 0 <= i < before.len() && before[i].chat == other {
                        let i = choose|i: int| 0 <= i < before.len() && before[i].chat == other;
                        lemma_group_row(before, i);
                        lemma_group_row(after, i);
                    } else {
                        assert forall|i: int| 0 <= i < after.len() implies after[i].chat
                            != other by {
                            if i != p {
                                assert(after[i] == before[i]);
                            }
                        }
                    }
                }
            }
        } else {
            self.groups.insert(
                p,
                GroupRow { chat, name: owned(name), connected, available },
            );
            proof {
                let after = self.groups@;
                assert forall|c: i64| has_group(before, c) implies #[trigger] has_group(after, c) by {
                    let j = choose|j: int| 0 <= j < before.len() && before[j].chat == c;
                    if j < p {
                        assert(after[j] == before[j]);
                    } else {
                        assert(after[j + 1] == before[j]);
                    }
                }
                lemma_groups_cover(self.topics@, before, after);
                assert forall|i: int, j: int| 0 <= i < j < after.len() implies after[i].chat
                    < after[j].chat by {
                    if i < p && j > p {
                        assert(after[j] == before[j - 1]);
                    } else if i == p {
                        assert(after[j] == before[j - 1]);
                    } else if i > p {
                        assert(after[j] == before[j - 1]);
                        assert(after[i] == before[i - 1]);
                    }
                }
                lemma_group_row(after, p as int);
                lemma_group_absent(before, chat);
                assert forall|other: i64| other != chat implies group_row(after, other)
                    == group_row(before, other) by {
                    if exists|i: int| 0 <= i < before.len() && before[i].chat == other {
                        let i = choose|i: int| 0 <= i < before.len() && before[i].chat == other;
                        lemma_group_row(before, i);
                        if i < p {
                            assert(after[i] == before[i]);
                            lemma_group_row(after, i);
                        } else {
                            assert(after[i + 1] == before[i]);
                            lemma_group_row(after, i + 1);
                        }
                    } else {
                        assert forall|i: int| 0 <= i < after.len() implies after[i].chat
                            != other by {
                            if i < p {
                                assert(after[i] == before[i]);
                            } else if i > p {
                                assert(after[i] == before[i - 1]);
                            }
                        }
                    }
                }
            }
        }
    }

    /// Marks a Group disconnected and unavailable.
    pub fn disconnect(&mut self, chat: i64)
        requires
            old(self).wf(),
        ensures
            final(self).wf(),
            match group_row(old(self).groups@, chat) {
                Some(o) => match group_row(final(self).groups@, chat) {
                    Some(g) => g.name == o.name && !g.connected && !g.available,
                    None => false,
                },
                None => group_row(final(self).groups@, chat) is None,
            },
            forall|other: i64|
                other != chat ==> group_row(final(self).groups@, other) == group_row(
                    old(self).groups@,
                    other,
                ),
            (Tx { groups: final(self).groups, ..*old(self) }) == *final(self),
    {
        let (p, found) = self.group_slot(chat);
        let ghost before = self.groups@;
        if found {
            proof {
                lemma_group_row(before, p as int);
            }
            let mut row = self.groups.remove(p);
            row.connected = false;
            row.available = false;
            self.groups.insert(p, row);
            proof {
                let after = self.groups@;
                assert(after == before.update(p as int, after[p as int]));
                assert forall|c: i64| has_group(before, c) implies #[trigger] has_group(after, c) by {
                    let j = choose|j: int| 0 <= j < before.len() && before[j].chat == c;
                    assert(after[j].chat == before[j].chat);
                }
                lemma_groups_cover(self.topics@, before, after);
                assert(groups_sorted(after));
                lemma_group_row(after, p as int);
                assert forall|other: i64| other != chat implies group_row(after, other)
                    == group_row(before, other) by {
                    if exists|i: int| 0 <= i < before.len() && before[i].chat == other {
                        let i = choose|i: int| 0 <= i < before.len() && before[i].chat == other;
                        lemma_group_row(before, i);
                        lemma_group_row(after, i);
                    } else {
                        assert forall|i: int| 0 <= i < after.len() implies after[i].chat
                            != other by {
                            if i != p {
                                assert(after[i] == before[i]);
                            }
                        }
                    }
                }
            }
        } else {
            proof {
                lemma_group_absent(before, chat);
            }
        }
    }

    /// Whether the Group is connected and available.
    pub fn connected(&self, chat: i64) -> (r: bool)
        requires
            self.wf(),
        ensures
            r == group_usable(self.groups@, chat),
    {
        let (p, found) = self.group_slot(chat);
        if found {
            proof {
                lemma_group_row(self.groups@, p as int);
            }
            self.groups[p].connected && self.groups[p].available
        } else {
            proof {
                lemma_group_absent(self.groups@, chat);
            }
            false
        }
    }

    /// Every Group, by chat.
    pub fn groups(&self) -> (r: Vec<GroupInfo>)
        ensures
            r@.len() == self.groups@.len(),
            forall|i: int|
                0 <= i < r@.len() ==> {
                    let g = self.groups@[i];
                    &&& (#[trigger] r@[i]).group@ == int_text(g.chat as int)
                    &&& r@[i].name@ == g.name@
                    &&& r@[i].connected == g.connected
                    &&& r@[i].available == g.available
                },
    {
        let mut r: Vec<GroupInfo> = Vec::new();
        for i in 0..self.groups.len()
            invariant
                r@.len() == i,
                forall|k: int|
                    0 <= k < i ==> {
                        let g = self.groups@[k];
                        &&& (#[trigger] r@[k]).group@ == int_text(g.chat as int)
                        &&& r@[k].name@ == g.name@
                        &&& r@[k].connected == g.connected
                        &&& r@[k].available == g.available
                    },
        {
            let g = &self.groups[i];
            r.push(
                GroupInfo {
                    group: int_string(g.chat),
                    name: owned(g.name.as_str()),
                    connected: g.connected,
                    available: g.available,
                },
            );
        }
        r
    }
}

/// `n.to_string()`.
pub fn int_string(n: i64) -> (s: String)
    ensures
        s@ == int_text(n as int),
{
    let mut s = String::new();
    push_int(&mut s, n);
    s
}

// ---------------------------------------------------------------- topics

pub open spec fn topic_row(rows: Seq<TopicRow>, id: Seq<char>) -> Option<TopicRow> {
    if exists|i: int| 0 <= i < rows.len() && rows[i].id@ == id {
        Some(rows[choose|i: int| 0 <= i < rows.len() && rows[i].id@ == id])
    } else {
        None
    }
}

proof fn lemma_topic_row(rows: Seq<TopicRow>, k: int)
    requires
        topics_sorted(rows),
        0 <= k < rows.len(),
    ensures
        topic_row(rows, rows[k].id@) == Some(rows[k]),
{
    let c = rows[k].id@;
    let j = choose|i: int| 0 <= i < rows.len() && rows[i].id@ == c;
    assert(rows[j].id@ == c);
    lemma_less_irreflexive(c);
    if j < k {
        assert(seq_less(rows[j].id@, rows[k].id@));
    } else if j > k {
        assert(seq_less(rows[k].id@, rows[j].id@));
    }
}

/// The Topic that `topic(id)` returns: the Topic row joined with its Group.
pub open spec fn joined(topics: Seq<TopicRow>, groups: Seq<GroupRow>, id: Seq<char>) -> Option<
    (TopicRow, GroupRow),
> {
    match topic_row(topics, id) {
        Some(t) => match group_row(groups, t.chat) {
            Some(g) => Some((t, g)),
            None => None,
        },
        None => None,
    }
}

/// `t` carries the row's fields and the Group's availability.
pub open spec fn topic_of(t: Topic, row: TopicRow, g: GroupRow) -> bool {
    &&& t.id@ == row.id@
    &&& t.chat == row.chat
    &&& t.thread == row.thread
    &&& t.name@ == row.name@
    &&& t.owner.is_some() == row.owner.is_some()
    &&& (t.owner.is_some() ==> t.owner.unwrap()@ == row.owner.unwrap()@)
    &&& t.closed == row.closed
    &&& t.available == (g.connected && g.available)
}

pub open spec fn is_unknown_topic(e: Error) -> bool {
    is_error(e, ErrorKind::Invalid, "unknown Topic"@)
}

/// The id of the Topic at `thread` in `chat`: `t<|chat|>_<thread>`.
pub open spec fn topic_key(chat: i64, thread: i64) -> Seq<char> {
    seq!['t'] + decimal(chat_magnitude(chat)) + seq!['_'] + int_text(thread as int)
}

pub open spec fn chat_magnitude(chat: i64) -> nat {
    if chat < 0 {
        (-chat) as nat
    } else {
        chat as nat
    }
}

pub open spec fn place_index(rows: Seq<TopicRow>, chat: i64, thread: i64) -> int {
    choose|i: int| 0 <= i < rows.len() && rows[i].chat == chat && rows[i].thread == thread
}

pub open spec fn has_place(rows: Seq<TopicRow>, chat: i64, thread: i64) -> bool {
    exists|i: int| 0 <= i < rows.len() && rows[i].chat == chat && rows[i].thread == thread
}

/// The Topics of `topics`, in table order, that belong to `chat` (all of them for `None`).
pub open spec fn topics_in(rows: Seq<TopicRow>, chat: Option<i64>) -> Seq<TopicRow>
    decreases rows.len(),
{
    if rows.len() == 0 {
        Seq::empty()
    } else {
        let rest = topics_in(rows.drop_last(), chat);
        if chat is None || chat == Some(rows.last().chat) {
            rest.push(rows.last())
        } else {
            rest
        }
    }
}

/// `new` is `old` after the Topic at (`chat`, `thread`) is recorded. A known Topic keeps
/// its id, place and state, takes `name` unless it is empty, and takes `owner` if it had
/// none; an unknown one joins the table, open, under its key. No other row changes.
pub open spec fn ensured(
    old: Seq<TopicRow>,
    new: Seq<TopicRow>,
    chat: i64,
    thread: i64,
    name: Seq<char>,
    owner: Option<Seq<char>>,
) -> bool {
    if has_place(old, chat, thread) {
        let k = place_index(old, chat, thread);
        let o = old[k];
        &&& new.len() == old.len()
        &&& forall|i: int| 0 <= i < old.len() && i != k ==> new[i] == old[i]
        &&& new[k].id == o.id
        &&& new[k].chat == chat
        &&& new[k].thread == thread
        &&& new[k].closed == o.closed
        &&& new[k].name@ == if name.len() == 0 {
            o.name@
        } else {
            name
        }
        &&& opt_string(new[k].owner) == if o.owner is Some {
            opt_string(o.owner)
        } else {
            owner
        }
    } else {
        exists|p: int|
            0 <= p <= old.len() && new == old.insert(p, new[p]) && new[p].id@ == topic_key(chat, thread)
                && new[p].chat == chat && new[p].thread == thread && new[p].name@ == name && opt_string(
                new[p].owner,
            ) == owner && !new[p].closed
    }
}

/// `new` is `old` after Topic `id` is closed (or reopened): its row takes the new state, and
/// reopening makes every blocked delivery due again. Nothing else changes.
pub open spec fn set_closed(old: Tx, new: Tx, id: Seq<char>, closed: bool) -> bool {
    &&& new.topics@.len() == old.topics@.len()
    &&& forall|i: int|
        0 <= i < old.topics@.len() ==> #[trigger] new.topics@[i] == if old.topics@[i].id@ == id {
            TopicRow { closed, ..old.topics@[i] }
        } else {
            old.topics@[i]
        }
    &&& new.outbox@.len() == old.outbox@.len()
    &&& forall|i: int|
        0 <= i < old.outbox@.len() ==> #[trigger] new.outbox@[i] == if !closed && old.outbox@[i].status
            == JobStatus::Blocked {
            OutboxRow { next_attempt: 0, ..old.outbox@[i] }
        } else {
            old.outbox@[i]
        }
    &&& (Tx { topics: new.topics, outbox: new.outbox, ..old }) == new
}

/// The status text of a Topic.
pub open spec fn status_text(closed: bool) -> Seq<char> {
    if closed {
        "closed"@
    } else {
        "active"@
    }
}

pub fn status_string(closed: bool) -> (s: String)
    ensures
        s@ == status_text(closed),
{
    if closed {
        owned("closed")
    } else {
        owned("active")
    }
}

/// The listing of one Topic row.
pub open spec fn info_of(i: TopicInfo, t: TopicRow) -> bool {
    &&& i.topic@ == t.id@
    &&& i.name@ == t.name@
    &&& i.group@ == int_text(t.chat as int)
    &&& i.status@ == status_text(t.closed)
}

/// A copy of an optional name.
pub fn copy_name(o: &Option<String>) -> (r: Option<String>)
    ensures
        r.is_some() == o.is_some(),
        r.is_some() ==> r.unwrap()@ == o.unwrap()@,
{
    match o {
        Some(s) => Some(owned(s.as_str())),
        None => None,
    }
}

impl Tx {
    fn topic_slot(&self, id: &str) -> (r: (usize, bool))
        requires
            topics_sorted(self.topics@),
        ensures
            r.0 <= self.topics@.len(),
            forall|j: int| 0 <= j < r.0 ==> seq_less(#[trigger] self.topics@[j].id@, id@),
            r.1 ==> r.0 < self.topics@.len() && self.topics@[r.0 as int].id@ == id@,
            !r.1 ==> forall|j: int|
                r.0 <= j < self.topics@.len() ==> seq_less(id@, #[trigger] self.topics@[j].id@),
    {
        let n = self.topics.len();
        for i in 0..n
            invariant
                n == self.topics@.len(),
                topics_sorted(self.topics@),
                forall|j: int| 0 <= j < i ==> seq_less(#[trigger] self.topics@[j].id@, id@),
        {
            if !text_less(self.topics[i].id.as_str(), id) {
                let found = str_eq(self.topics[i].id.as_str(), id);
                if !found {
                    proof {
                        let x = self.topics@[i as int].id@;
                        lemma_less_total(x, id@);
                        assert forall|j: int| i <= j < n implies seq_less(
                            id@,
                            #[trigger] self.topics@[j].id@,
                        ) by {
                            if j > i {
                                lemma_less_transitive(id@, x, self.topics@[j].id@);
                            }
                        }
                    }
                }
                return (i, found);
            }
        }
        (n, false)
    }

    /// The table index of the Topic with this id.
    fn topic_index(&self, id: &str) -> (r: Option<usize>)
        requires
            topics_sorted(self.topics@),
        ensures
            match r {
                Some(k) => k < self.topics@.len() && self.topics@[k as int].id@ == id@
                    && topic_row(self.topics@, id@) == Some(self.topics@[k as int]),
                None => topic_row(self.topics@, id@) is None && forall|j: int|
                    0 <= j < self.topics@.len() ==> self.topics@[j].id@ != id@,
            },
    {
        let (p, found) = self.topic_slot(id);
        if found {
            proof {
                lemma_topic_row(self.topics@, p as int);
            }
            Some(p)
        } else {
            proof {
                assert forall|j: int| 0 <= j < self.topics@.len() implies self.topics@[j].id@
                    != id@ by {
                    lemma_less_irreflexive(id@);
                }
            }
            None
        }
    }

    pub fn topic(&self, id: &str) -> (r: Result<Topic>)
        requires
            self.wf(),
        ensures
            match r {
                Ok(t) => match joined(self.topics@, self.groups@, id@) {
                    Some((row, g)) => topic_of(t, row, g),
                    None => false,
                },
                Err(e) => joined(self.topics@, self.groups@, id@) is None && is_unknown_topic(e),
            },
    {
        match self.topic_index(id) {
            Some(k) => {
                let row = &self.topics[k];
                let (p, found) = self.group_slot(row.chat);
                if found {
                    proof {
                        lemma_group_row(self.groups@, p as int);
                    }
                    let g = &self.groups[p];
                    Ok(
                        Topic {
                            id: owned(row.id.as_str()),
                            chat: row.chat,
                            thread: row.thread,
                            name: owned(row.name.as_str()),
                            owner: copy_name(&row.owner),
                            closed: row.closed,
                            available: g.connected && g.available,
                        },
                    )
                } else {
                    proof {
                        lemma_group_absent(self.groups@, row.chat);
                    }
                    Err(Error::bad("unknown Topic"))
                }
            },
            None => Err(Error::bad("unknown Topic")),
        }
    }

    fn place_of(&self, chat: i64, thread: i64) -> (r: Option<usize>)
        requires
            topic_places_unique(self.topics@),
        ensures
            match r {
                Some(k) => k < self.topics@.len() && self.topics@[k as int].chat == chat
                    && self.topics@[k as int].thread == thread && has_place(
                    self.topics@,
                    chat,
                    thread,
                ) && place_index(self.topics@, chat, thread) == k,
                None => !has_place(self.topics@, chat, thread),
            },
    {
        for i in 0..self.topics.len()
            invariant
                topic_places_unique(self.topics@),
                forall|j: int|
                    0 <= j < i ==> !(self.topics@[j].chat == chat && self.topics@[j].thread
                        == thread),
        {
            if self.topics[i].chat == chat && self.topics[i].thread == thread {
                proof {
                    let j = place_index(self.topics@, chat, thread);
                    assert(self.topics@[j].chat == chat && self.topics@[j].thread == thread);
                }
                return Some(i);
            }
        }
        None
    }

    /// Records the Topic at `thread` in `chat` and returns its id. A known Topic keeps its
    /// name when `name` is empty and keeps its first owner.
    /// Whether recording a Topic at (`chat`, `thread`) would clash with the id of another
    /// Topic: `ensure_topic` then fails.
    pub fn topic_clash(&self, chat: i64, thread: i64) -> (r: bool)
        requires
            self.wf(),
        ensures
            r == (!has_place(self.topics@, chat, thread) && topic_row(self.topics@, topic_key(chat, thread)) is Some),
    {
        match self.place_of(chat, thread) {
            Some(_) => false,
            None => {
                let id = topic_id(chat, thread);
                self.topic_index(id.as_str()).is_some()
            },
        }
    }

    pub fn ensure_topic(&mut self, chat: i64, thread: i64, name: &str, owner: Option<&str>) -> (r:
        Result<String>)
        requires
            old(self).wf(),
        ensures
            final(self).wf(),
            (Tx { topics: final(self).topics, ..*old(self) }) == *final(self),
            match r {
                Ok(id) => {
                    &&& id@ == topic_key(chat, thread)
                    &&& ensured(old(self).topics@, final(self).topics@, chat, thread, name@, opt_text(owner))
                    &&& has_place(final(self).topics@, chat, thread)
                    &&& final(self).topics@[place_index(final(self).topics@, chat, thread)].chat == chat
                    &&& final(self).topics@[place_index(final(self).topics@, chat, thread)].thread == thread
                },
                Err(e) => !has_place(old(self).topics@, chat, thread) && *final(self) == *old(self) && if topic_row(
                    old(self).topics@,
                    topic_key(chat, thread),
                ) is Some {
                    is_conflict(e)
                } else {
                    !has_group(old(self).groups@, chat) && is_storage_failure(e)
                },
            },
            r is Err <==> !has_place(old(self).topics@, chat, thread) && (topic_row(
                old(self).topics@,
                topic_key(chat, thread),
            ) is Some || !has_group(old(self).groups@, chat)),
    {
        let id = topic_id(chat, thread);
        let ghost before = self.topics@;
        match self.place_of(chat, thread) {
            Some(k) => {
                let mut row = self.topics.remove(k);
                if !name.is_empty() {
                    row.name = owned(name);
                }
                if row.owner.is_none() {
                    row.owner = match owner {
                        Some(o) => Some(owned(o)),
                        None => None,
                    };
                }
                self.topics.insert(k, row);
                proof {
                    let after = self.topics@;
                    assert(after == before.update(k as int, after[k as int]));
                    assert(after[k as int].id == before[k as int].id);
                    assert(topics_sorted(after));
                    assert(topic_places_unique(after));
                    let j = place_index(after, chat, thread);
                    assert(after[k as int].chat == chat && after[k as int].thread == thread);
                    assert(j == k);
                    assert forall|i: int| 0 <= i < after.len() implies has_group(
                        self.groups@,
                        (#[trigger] after[i]).chat,
                    ) by {
                        assert(after[i].chat == before[i].chat);
                    }
                    assert forall|x: Seq<char>| has_topic(before, x) implies #[trigger] has_topic(after, x) by {
                        let i = choose|i: int| 0 <= i < before.len() && before[i].id@ == x;
                        assert(after[i].id@ == before[i].id@);
                    }
                    lemma_topics_cover(self.subscriptions@, before, after);
                }
                Ok(id)
            },
            None => {
                let (p, found) = self.topic_slot(id.as_str());
                if found {
                    proof {
                        lemma_topic_row(before, p as int);
                    }
                    return Err(Error::conflict("conflicting name or record"));
                }
                proof {
                    assert forall|j: int| 0 <= j < before.len() implies before[j].id@ != id@ by {
                        if before[j].id@ == id@ {
                            lemma_less_irreflexive(id@);
                        }
                    }
                    assert(topic_row(before, id@) is None);
                }
                let (g, known) = self.group_slot(chat);
                if !known {
                    proof {
                        assert forall|j: int| 0 <= j < self.groups@.len() implies self.groups@[j].chat != chat by {
                            if j < g {
                                assert(self.groups@[j].chat < chat);
                            } else {
                                assert(chat < self.groups@[j].chat);
                            }
                        }
                    }
                    return Err(Error::internal("database operation failed"));
                }
                let row = TopicRow {
                    id: owned(id.as_str()),
                    chat,
                    thread,
                    name: owned(name),
                    owner: match owner {
                        Some(o) => Some(owned(o)),
                        None => None,
                    },
                    closed: false,
                };
                self.topics.insert(p, row);
                proof {
                    let after = self.topics@;
                    assert forall|i: int, j: int| 0 <= i < j < after.len() implies seq_less(
                        after[i].id@,
                        after[j].id@,
                    ) by {
                        if i < p && j == p {
                        } else if i < p && j > p {
                            assert(after[j] == before[j - 1]);
                            lemma_less_transitive(after[i].id@, id@, after[j].id@);
                        } else if i == p {
                            assert(after[j] == before[j - 1]);
                        } else if i > p {
                            assert(after[j] == before[j - 1]);
                            assert(after[i] == before[i - 1]);
                        }
                    }
                    assert forall|i: int, j: int|
                        0 <= i < after.len() && 0 <= j < after.len() && i != j implies !(
                        after[i].chat == after[j].chat && after[i].thread == after[j].thread) by {
                        if i != p && j != p {
                            let i0 = if i < p { i } else { i - 1 };
                            let j0 = if j < p { j } else { j - 1 };
                            assert(after[i] == before[i0]);
                            assert(after[j] == before[j0]);
                        } else if i == p {
                            let j0 = if j < p { j } else { j - 1 };
                            assert(after[j] == before[j0]);
                        } else {
                            let i0 = if i < p { i } else { i - 1 };
                            assert(after[i] == before[i0]);
                        }
                    }
                    assert(after[p as int].chat == chat && after[p as int].thread == thread);
                    let j = place_index(after, chat, thread);
                    assert(j == p);
                    assert(has_group(self.groups@, chat)) by {
                        assert(self.groups@[g as int].chat == chat);
                    }
                    assert forall|i: int| 0 <= i < after.len() implies has_group(
                        self.groups@,
                        (#[trigger] after[i]).chat,
                    ) by {
                        if i < p {
                            assert(after[i] == before[i]);
                        } else if i > p {
                            assert(after[i] == before[i - 1]);
                        }
                    }
                    assert forall|x: Seq<char>| has_topic(before, x) implies #[trigger] has_topic(after, x) by {
                        let i = choose|i: int| 0 <= i < before.len() && before[i].id@ == x;
                        if i < p {
                            assert(after[i] == before[i]);
                        } else {
                            assert(after[i + 1] == before[i]);
                        }
                    }
                    lemma_topics_cover(self.subscriptions@, before, after);
                }
                Ok(id)
            },
        }
    }

    /// The Topics of one Group (all Topics for `None`), by id.
    pub fn topics(&self, chat: Option<i64>) -> (r: Vec<TopicInfo>)
        ensures
            r@.len() == topics_in(self.topics@, chat).len(),
            forall|i: int|
                0 <= i < r@.len() ==> info_of(#[trigger] r@[i], topics_in(self.topics@, chat)[i]),
    {
        let mut r: Vec<TopicInfo> = Vec::new();
        let n = self.topics.len();
        for i in 0..n
            invariant
                n == self.topics@.len(),
                r@.len() == topics_in(self.topics@.take(i as int), chat).len(),
                forall|k: int|
                    0 <= k < r@.len() ==> info_of(
                        #[trigger] r@[k],
                        topics_in(self.topics@.take(i as int), chat)[k],
                    ),
        {
            let t = &self.topics[i];
            assert(self.topics@.take(i + 1).drop_last() == self.topics@.take(i as int));
            assert(self.topics@.take(i + 1).last() == *t);
            let keep = match chat {
                Some(c) => c == t.chat,
                None => true,
            };
            if keep {
                r.push(
                    TopicInfo {
                        topic: owned(t.id.as_str()),
                        name: owned(t.name.as_str()),
                        group: int_string(t.chat),
                        status: status_string(t.closed),
                    },
                );
            }
        }
        assert(self.topics@.take(n as int) == self.topics@);
        r
    }

    /// Closes or reopens the Topic. Reopening also makes every blocked delivery due again.
    pub fn close(&mut self, id: &str, closed: bool)
        requires
            old(self).wf(),
        ensures
            final(self).wf(),
            set_closed(*old(self), *final(self), id@, closed),
    {
        let ghost before = self.topics@;
        match self.topic_index(id) {
            Some(k) => {
                let mut row = self.topics.remove(k);
                row.closed = closed;
                self.topics.insert(k, row);
                proof {
                    let after = self.topics@;
                    assert(after == before.update(k as int, after[k as int]));
                    assert forall|i: int| 0 <= i < before.len() && i != k implies before[i].id@
                        != id@ by {
                        lemma_less_irreflexive(id@);
                        if i < k {
                        } else {
                        }
                    }
                    assert forall|i: int| 0 <= i < after.len() implies has_group(
                        self.groups@,
                        (#[trigger] after[i]).chat,
                    ) by {
                        assert(after[i].chat == before[i].chat);
                    }
                    assert forall|x: Seq<char>| has_topic(before, x) implies #[trigger] has_topic(after, x) by {
                        let i = choose|i: int| 0 <= i < before.len() && before[i].id@ == x;
                        assert(after[i].id@ == before[i].id@);
                    }
                    lemma_topics_cover(self.subscriptions@, before, after);
                }
            },
            None => {},
        }
        if !closed {
            let ghost ob = self.outbox@;
            let ghost pre = *self;
            let n = self.outbox.len();
            for i in 0..n
                invariant
                    (Tx { outbox: self.outbox, ..pre }) == *self,
                    pre.outbox@ == ob,
                    n == self.outbox@.len(),
                    ob.len() == n,
                    forall|j: int|
                        0 <= j < n ==> #[trigger] self.outbox@[j] == if j < i && ob[j].status
                            == JobStatus::Blocked {
                            OutboxRow { next_attempt: 0, ..ob[j] }
                        } else {
                            ob[j]
                        },
            {
                if self.outbox[i].status == JobStatus::Blocked {
                    let mut row = self.outbox.remove(i);
                    row.next_attempt = 0;
                    self.outbox.insert(i, row);
                }
            }
        }
    }
}

/// The id of the Topic at `thread` in `chat`.
pub fn topic_id(chat: i64, thread: i64) -> (s: String)
    ensures
        s@ == topic_key(chat, thread),
{
    let mut s = owned("t");
    proof {
        reveal_strlit("t");
    }
    let m: u64 = if chat < 0 {
        (0i128 - (chat as i128)) as u64
    } else {
        chat as u64
    };
    push_decimal(&mut s, m);
    push_char(&mut s, '_');
    push_int(&mut s, thread);
    s
}

// ---------------------------------------------------------------- subscriptions

proof fn lemma_pair_irreflexive(a: Seq<char>, t: Seq<char>)
    ensures
        !pair_less(a, t, a, t),
{
    lemma_less_irreflexive(a);
    lemma_less_irreflexive(t);
}

proof fn lemma_pair_total(a1: Seq<char>, t1: Seq<char>, a2: Seq<char>, t2: Seq<char>)
    ensures
        (a1 == a2 && t1 == t2) || pair_less(a1, t1, a2, t2) || pair_less(a2, t2, a1, t1),
        !(pair_less(a1, t1, a2, t2) && pair_less(a2, t2, a1, t1)),
{
    lemma_less_total(a1, a2);
    lemma_less_total(t1, t2);
    lemma_less_irreflexive(a1);
}

proof fn lemma_pair_transitive(
    a1: Seq<char>,
    t1: Seq<char>,
    a2: Seq<char>,
    t2: Seq<char>,
    a3: Seq<char>,
    t3: Seq<char>,
)
    requires
        pair_less(a1, t1, a2, t2),
        pair_less(a2, t2, a3, t3),
    ensures
        pair_less(a1, t1, a3, t3),
{
    if seq_less(a1, a2) && seq_less(a2, a3) {
        lemma_less_transitive(a1, a2, a3);
    } else if seq_less(t1, t2) && seq_less(t2, t3) && a1 == a2 && a2 == a3 {
        lemma_less_transitive(t1, t2, t3);
    }
}

pub open spec fn has_sub(rows: Seq<SubRow>, a: Seq<char>, t: Seq<char>) -> bool {
    exists|i: int| 0 <= i < rows.len() && rows[i].agent@ == a && rows[i].topic@ == t
}

pub open spec fn sub_index(rows: Seq<SubRow>, a: Seq<char>, t: Seq<char>) -> int {
    choose|i: int| 0 <= i < rows.len() && rows[i].agent@ == a && rows[i].topic@ == t
}

/// A subscription's Topic is known, with its Group.
pub proof fn lemma_sub_joined(tx: Tx, a: Seq<char>, t: Seq<char>)
    requires
        tx.wf(),
        has_sub(tx.subscriptions@, a, t),
    ensures
        joined(tx.topics@, tx.groups@, t) is Some,
{
    let k = sub_index(tx.subscriptions@, a, t);
    assert(has_topic(tx.topics@, tx.subscriptions@[k].topic@));
    let i = choose|i: int| 0 <= i < tx.topics@.len() && tx.topics@[i].id@ == t;
    assert(has_group(tx.groups@, tx.topics@[i].chat));
}

/// The subscription row of Agent `a` to Topic `t`, active or not.
pub open spec fn sub_row(rows: Seq<SubRow>, a: Seq<char>, t: Seq<char>) -> Option<SubRow> {
    if has_sub(rows, a, t) {
        Some(rows[sub_index(rows, a, t)])
    } else {
        None
    }
}

/// The active subscription of Agent `a` to Topic `t`.
pub open spec fn active_sub(rows: Seq<SubRow>, a: Seq<char>, t: Seq<char>) -> Option<SubRow> {
    match sub_row(rows, a, t) {
        Some(r) => if r.active {
            Some(r)
        } else {
            None
        },
        None => None,
    }
}

pub proof fn lemma_sub_row(rows: Seq<SubRow>, k: int)
    requires
        subs_sorted(rows),
        0 <= k < rows.len(),
    ensures
        has_sub(rows, rows[k].agent@, rows[k].topic@),
        sub_index(rows, rows[k].agent@, rows[k].topic@) == k,
        sub_row(rows, rows[k].agent@, rows[k].topic@) == Some(rows[k]),
{
    let a = rows[k].agent@;
    let t = rows[k].topic@;
    let j = sub_index(rows, a, t);
    assert(rows[j].agent@ == a && rows[j].topic@ == t);
    lemma_pair_irreflexive(a, t);
    if j < k {
        assert(pair_less(rows[j].agent@, rows[j].topic@, rows[k].agent@, rows[k].topic@));
    } else if j > k {
        assert(pair_less(rows[k].agent@, rows[k].topic@, rows[j].agent@, rows[j].topic@));
    }
}

/// Each listed subscription of an Agent is a row of the table, the Agent's and active.
proof fn lemma_subs_of_row(rows: Seq<SubRow>, a: Seq<char>, i: int)
    requires
        0 <= i < subs_of(rows, a).len(),
    ensures
        exists|k: int|
            0 <= k < rows.len() && rows[k] == subs_of(rows, a)[i] && rows[k].agent@ == a && rows[k].active,
    decreases rows.len(),
{
    let rest = subs_of(rows.drop_last(), a);
    if i < rest.len() {
        lemma_subs_of_row(rows.drop_last(), a, i);
        let k = choose|k: int|
            0 <= k < rows.drop_last().len() && rows.drop_last()[k] == rest[i] && rows.drop_last()[k].agent@ == a
                && rows.drop_last()[k].active;
        assert(rows[k] == rows.drop_last()[k]);
    } else {
        assert(rows[rows.len() - 1] == subs_of(rows, a)[i]);
    }
}

/// Each listed subscription of an Agent is its active subscription to that Topic.
pub proof fn lemma_subs_of_active(rows: Seq<SubRow>, a: Seq<char>, i: int)
    requires
        subs_sorted(rows),
        0 <= i < subs_of(rows, a).len(),
    ensures
        active_sub(rows, a, subs_of(rows, a)[i].topic@) == Some(subs_of(rows, a)[i]),
{
    lemma_subs_of_row(rows, a, i);
    let k = choose|k: int|
        0 <= k < rows.len() && rows[k] == subs_of(rows, a)[i] && rows[k].agent@ == a && rows[k].active;
    lemma_sub_row(rows, k);
}

/// The newest message of Topic `t`.
pub open spec fn latest_in(msgs: Seq<MessageRow>, t: Seq<char>) -> Option<i64>
    decreases msgs.len(),
{
    if msgs.len() == 0 {
        None
    } else if msgs.last().topic@ == t {
        Some(msgs.last().id)
    } else {
        latest_in(msgs.drop_last(), t)
    }
}

/// The Agent's active subscriptions, in table order (by Topic id).
pub open spec fn subs_of(rows: Seq<SubRow>, a: Seq<char>) -> Seq<SubRow>
    decreases rows.len(),
{
    if rows.len() == 0 {
        Seq::empty()
    } else {
        let rest = subs_of(rows.drop_last(), a);
        if rows.last().active && rows.last().agent@ == a {
            rest.push(rows.last())
        } else {
            rest
        }
    }
}

/// The active subscribers of Topic `t`, in table order (by name).
pub open spec fn subscribers_of(rows: Seq<SubRow>, t: Seq<char>) -> Seq<SubRow>
    decreases rows.len(),
{
    if rows.len() == 0 {
        Seq::empty()
    } else {
        let rest = subscribers_of(rows.drop_last(), t);
        if rows.last().active && rows.last().topic@ == t {
            rest.push(rows.last())
        } else {
            rest
        }
    }
}

pub open spec fn is_not_subscribed(e: Error) -> bool {
    is_error(e, ErrorKind::Invalid, "Topic is not currently subscribed"@)
}

/// What `subs` lists for one row.
pub open spec fn listing_of(s: Subscription, r: SubRow) -> bool {
    &&& s.topic@ == r.topic@
    &&& s.muted == r.muted
    &&& s.last_acked_msg_id.is_some() == r.acked.is_some()
    &&& (r.acked.is_some() ==> s.last_acked_msg_id.unwrap()@ == msg_text(r.acked.unwrap() as int))
}

/// `new` is `old` after Agent `a` subscribes to known Topic `t`: a first subscription starts
/// after the Topic's newest message with the requested mute setting; a renewed one keeps its
/// boundary and is muted if it was or if muting is requested. Nothing else changes.
pub open spec fn subscribed(old: Tx, new: Tx, a: Seq<char>, t: Seq<char>, muted: bool) -> bool {
    &&& new.wf()
    &&& (Tx { subscriptions: new.subscriptions, ..old }) == new
    &&& joined(old.topics@, old.groups@, t) is Some
    &&& has_sub(new.subscriptions@, a, t)
    &&& ({
        let s = sub_row(new.subscriptions@, a, t).unwrap();
        &&& s.active
        &&& match sub_row(old.subscriptions@, a, t) {
            Some(o) => s.acked == o.acked && s.muted == (muted || o.muted),
            None => s.acked == latest_in(old.messages@, t) && s.muted == muted,
        }
    })
    &&& forall|a2: Seq<char>, t2: Seq<char>|
        !(a2 == a && t2 == t) ==> sub_row(new.subscriptions@, a2, t2) == sub_row(old.subscriptions@, a2, t2)
}

impl Tx {
    fn sub_slot(&self, a: &str, t: &str) -> (r: (usize, bool))
        requires
            subs_sorted(self.subscriptions@),
        ensures
            r.0 <= self.subscriptions@.len(),
            forall|j: int|
                0 <= j < r.0 ==> pair_less(
                    (#[trigger] self.subscriptions@[j]).agent@,
                    self.subscriptions@[j].topic@,
                    a@,
                    t@,
                ),
            r.1 ==> r.0 < self.subscriptions@.len() && self.subscriptions@[r.0 as int].agent@ == a@
                && self.subscriptions@[r.0 as int].topic@ == t@,
            !r.1 ==> forall|j: int|
                r.0 <= j < self.subscriptions@.len() ==> pair_less(
                    a@,
                    t@,
                    (#[trigger] self.subscriptions@[j]).agent@,
                    self.subscriptions@[j].topic@,
                ),
    {
        let n = self.subscriptions.len();
        for i in 0..n
            invariant
                n == self.subscriptions@.len(),
                subs_sorted(self.subscriptions@),
                forall|j: int|
                    0 <= j < i ==> pair_less(
                        (#[trigger] self.subscriptions@[j]).agent@,
                        self.subscriptions@[j].topic@,
                        a@,
                        t@,
                    ),
        {
            let row = &self.subscriptions[i];
            let same_agent = str_eq(row.agent.as_str(), a);
            let before = text_less(row.agent.as_str(), a) || (same_agent && text_less(
                row.topic.as_str(),
                t,
            ));
            if !before {
                let found = same_agent && str_eq(row.topic.as_str(), t);
                if !found {
                    proof {
                        let x = self.subscriptions@[i as int];
                        lemma_pair_total(x.agent@, x.topic@, a@, t@);
                        assert forall|j: int| i <= j < n implies pair_less(
                            a@,
                            t@,
                            (#[trigger] self.subscriptions@[j]).agent@,
                            self.subscriptions@[j].topic@,
                        ) by {
                            if j > i {
                                let y = self.subscriptions@[j];
                                lemma_pair_transitive(a@, t@, x.agent@, x.topic@, y.agent@, y.topic@);
                            }
                        }
                    }
                }
                return (i, found);
            }
        }
        (n, false)
    }

    fn sub_index_of(&self, a: &str, t: &str) -> (r: Option<usize>)
        requires
            subs_sorted(self.subscriptions@),
        ensures
            match r {
                Some(k) => k < self.subscriptions@.len() && has_sub(self.subscriptions@, a@, t@)
                    && sub_index(self.subscriptions@, a@, t@) == k
                    && self.subscriptions@[k as int].agent@ == a@
                    && self.subscriptions@[k as int].topic@ == t@,
                None => !has_sub(self.subscriptions@, a@, t@),
            },
    {
        let (p, found) = self.sub_slot(a, t);
        if found {
            proof {
                lemma_sub_row(self.subscriptions@, p as int);
            }
            Some(p)
        } else {
            proof {
                lemma_pair_irreflexive(a@, t@);
            }
            None
        }
    }

    /// Subscribes the Agent. A first subscription starts after the Topic's newest message
    /// and is muted only on request; renewing one keeps its progress and mutes it on request.
    pub fn subscribe(&mut self, a: &str, t: &str, muted: bool) -> (r: Result<()>)
        requires
            old(self).wf(),
        ensures
            final(self).wf(),
            match r {
                Ok(()) => subscribed(*old(self), *final(self), a@, t@, muted),
                Err(e) => joined(old(self).topics@, old(self).groups@, t@) is None
                    && is_unknown_topic(e) && *final(self) == *old(self),
            },
    {
        match self.topic(t) {
            Ok(_) => {},
            Err(e) => return Err(e),
        }
        let ghost before = self.subscriptions@;
        let (p, found) = self.sub_slot(a, t);
        if found {
            proof {
                lemma_sub_row(before, p as int);
            }
            let mut row = self.subscriptions.remove(p);
            row.active = true;
            row.muted = muted || row.muted;
            self.subscriptions.insert(p, row);
            proof {
                let after = self.subscriptions@;
                assert(after == before.update(p as int, after[p as int]));
                assert(subs_sorted(after));
                lemma_sub_row(after, p as int);
                assert forall|a2: Seq<char>, t2: Seq<char>| !(a2 == a@ && t2 == t@) implies sub_row(
                    after,
                    a2,
                    t2,
                ) == sub_row(before, a2, t2) by {
                    if has_sub(before, a2, t2) {
                        let i = sub_index(before, a2, t2);
                        lemma_sub_row(before, i);
                        lemma_sub_row(after, i);
                    } else {
                        assert forall|i: int| 0 <= i < after.len() implies !(after[i].agent@ == a2
                            && after[i].topic@ == t2) by {
                            if i != p {
                                assert(after[i] == before[i]);
                            }
                        }
                    }
                }
            }
        } else {
            let acked = self.latest_message(t);
            let row = SubRow { agent: owned(a), topic: owned(t), active: true, muted, acked };
            self.subscriptions.insert(p, row);
            proof {
                let after = self.subscriptions@;
                assert forall|i: int, j: int| 0 <= i < j < after.len() implies pair_less(
                    after[i].agent@,
                    after[i].topic@,
                    after[j].agent@,
                    after[j].topic@,
                ) by {
                    if i < p && j == p {
                    } else if i < p && j > p {
                        assert(after[j] == before[j - 1]);
                        lemma_pair_transitive(
                            after[i].agent@,
                            after[i].topic@,
                            a@,
                            t@,
                            after[j].agent@,
                            after[j].topic@,
                        );
                    } else if i == p {
                        assert(after[j] == before[j - 1]);
                    } else if i > p {
                        assert(after[j] == before[j - 1]);
                        assert(after[i] == before[i - 1]);
                    }
                }
                lemma_sub_row(after, p as int);
                lemma_pair_irreflexive(a@, t@);
                assert(!has_sub(before, a@, t@));
                assert forall|a2: Seq<char>, t2: Seq<char>| !(a2 == a@ && t2 == t@) implies sub_row(
                    after,
                    a2,
                    t2,
                ) == sub_row(before, a2, t2) by {
                    if has_sub(before, a2, t2) {
                        let i = sub_index(before, a2, t2);
                        lemma_sub_row(before, i);
                        if i < p {
                            assert(after[i] == before[i]);
                            lemma_sub_row(after, i);
                        } else {
                            assert(after[i + 1] == before[i]);
                            lemma_sub_row(after, i + 1);
                        }
                    } else {
                        assert forall|i: int| 0 <= i < after.len() implies !(after[i].agent@ == a2
                            && after[i].topic@ == t2) by {
                            if i < p {
                                assert(after[i] == before[i]);
                            } else if i > p {
                                assert(after[i] == before[i - 1]);
                            }
                        }
                    }
                }
            }
        }
        Ok(())
    }

    /// The id of the newest message of Topic `t`.
    pub fn latest_message(&self, t: &str) -> (r: Option<i64>)
        ensures
            r == latest_in(self.messages@, t@),
    {
        let mut i = self.messages.len();
        assert(self.messages@.take(i as int) == self.messages@);
        while i > 0
            invariant
                i <= self.messages@.len(),
                latest_in(self.messages@, t@) == latest_in(self.messages@.take(i as int), t@),
            decreases i,
        {
            let ghost pre = self.messages@.take(i as int);
            assert(pre.drop_last() == self.messages@.take(i - 1));
            assert(pre.last() == self.messages@[i - 1]);
            if str_eq(self.messages[i - 1].topic.as_str(), t) {
                return Some(self.messages[i - 1].id);
            }
            i = i - 1;
        }
        None
    }

    /// The Agent's active subscription to `t`: its boundary and whether it is muted.
    pub fn sub(&self, a: &str, t: &str) -> (r: Result<(Option<i64>, bool)>)
        requires
            self.wf(),
        ensures
            match r {
                Ok((acked, muted)) => match active_sub(self.subscriptions@, a@, t@) {
                    Some(s) => s.acked == acked && s.muted == muted,
                    None => false,
                },
                Err(e) => active_sub(self.subscriptions@, a@, t@) is None && is_not_subscribed(e),
            },
    {
        match self.sub_index_of(a, t) {
            Some(k) => {
                let row = &self.subscriptions[k];
                if row.active {
                    return Ok((row.acked, row.muted));
                }
            },
            None => {},
        }
        Err(Error::bad("Topic is not currently subscribed"))
    }

    /// The Agent's active subscriptions, by Topic id.
    pub fn subs(&self, a: &str) -> (r: Vec<Subscription>)
        ensures
            r@.len() == subs_of(self.subscriptions@, a@).len(),
            forall|i: int|
                0 <= i < r@.len() ==> listing_of(#[trigger] r@[i], subs_of(self.subscriptions@, a@)[i]),
    {
        let mut r: Vec<Subscription> = Vec::new();
        let n = self.subscriptions.len();
        for i in 0..n
            invariant
                n == self.subscriptions@.len(),
                r@.len() == subs_of(self.subscriptions@.take(i as int), a@).len(),
                forall|k: int|
                    0 <= k < r@.len() ==> listing_of(
                        #[trigger] r@[k],
                        subs_of(self.subscriptions@.take(i as int), a@)[k],
                    ),
        {
            let s = &self.subscriptions[i];
            assert(self.subscriptions@.take(i + 1).drop_last() == self.subscriptions@.take(i as int));
            assert(self.subscriptions@.take(i + 1).last() == *s);
            if s.active && str_eq(s.agent.as_str(), a) {
                r.push(
                    Subscription {
                        topic: owned(s.topic.as_str()),
                        last_acked_msg_id: match s.acked {
                            Some(n) => Some(msg_id(n)),
                            None => None,
                        },
                        muted: s.muted,
                    },
                );
            }
        }
        assert(self.subscriptions@.take(n as int) == self.subscriptions@);
        r
    }

    /// The names of the Topic's active subscribers, by name.
    pub fn subscribers(&self, t: &str) -> (r: Vec<String>)
        ensures
            r@.len() == subscribers_of(self.subscriptions@, t@).len(),
            forall|i: int|
                0 <= i < r@.len() ==> (#[trigger] r@[i])@ == subscribers_of(self.subscriptions@, t@)[i].agent@,
    {
        let mut r: Vec<String> = Vec::new();
        let n = self.subscriptions.len();
        for i in 0..n
            invariant
                n == self.subscriptions@.len(),
                r@.len() == subscribers_of(self.subscriptions@.take(i as int), t@).len(),
                forall|k: int|
                    0 <= k < r@.len() ==> (#[trigger] r@[k])@ == subscribers_of(
                        self.subscriptions@.take(i as int),
                        t@,
                    )[k].agent@,
        {
            let s = &self.subscriptions[i];
            assert(self.subscriptions@.take(i + 1).drop_last() == self.subscriptions@.take(i as int));
            assert(self.subscriptions@.take(i + 1).last() == *s);
            if s.active && str_eq(s.topic.as_str(), t) {
                r.push(owned(s.agent.as_str()));
            }
        }
        assert(self.subscriptions@.take(n as int) == self.subscriptions@);
        r
    }

    /// Sets the state, mute setting and boundary of the subscription row at `k`, keeping
    /// its key.
    fn set_sub_fields(&mut self, k: usize, active: bool, muted: bool, acked: Option<i64>)
        requires
            old(self).wf(),
            k < old(self).subscriptions@.len(),
        ensures
            final(self).wf(),
            final(self).subscriptions@ == old(self).subscriptions@.update(
                k as int,
                SubRow { active, muted, acked, ..old(self).subscriptions@[k as int] },
            ),
            (Tx { subscriptions: final(self).subscriptions, ..*old(self) }) == *final(self),
    {
        let mut row = self.subscriptions.remove(k);
        row.active = active;
        row.muted = muted;
        row.acked = acked;
        self.subscriptions.insert(k, row);
    }

    /// Ends the Agent's subscription to a known Topic, keeping its progress and mute setting.
    pub fn unsubscribe(&mut self, a: &str, t: &str) -> (r: Result<()>)
        requires
            old(self).wf(),
        ensures
            final(self).wf(),
            (Tx { subscriptions: final(self).subscriptions, ..*old(self) }) == *final(self),
            match r {
                Ok(()) => joined(old(self).topics@, old(self).groups@, t@) is Some && if has_sub(
                    old(self).subscriptions@,
                    a@,
                    t@,
                ) {
                    let k = sub_index(old(self).subscriptions@, a@, t@);
                    final(self).subscriptions@ == old(self).subscriptions@.update(
                        k,
                        SubRow { active: false, ..old(self).subscriptions@[k] },
                    )
                } else {
                    final(self).subscriptions@ == old(self).subscriptions@
                },
                Err(e) => joined(old(self).topics@, old(self).groups@, t@) is None
                    && is_unknown_topic(e) && *final(self) == *old(self),
            },
    {
        match self.topic(t) {
            Ok(_) => {},
            Err(e) => return Err(e),
        }
        match self.sub_index_of(a, t) {
            Some(k) => {
                let muted = self.subscriptions[k].muted;
                let acked = self.subscriptions[k].acked;
                self.set_sub_fields(k, false, muted, acked);
            },
            None => {},
        }
        Ok(())
    }

    /// Mutes or unmutes an active subscription.
    pub fn mute(&mut self, a: &str, t: &str, m: bool) -> (r: Result<()>)
        requires
            old(self).wf(),
        ensures
            final(self).wf(),
            (Tx { subscriptions: final(self).subscriptions, ..*old(self) }) == *final(self),
            match r {
                Ok(()) => active_sub(old(self).subscriptions@, a@, t@) is Some && ({
                    let k = sub_index(old(self).subscriptions@, a@, t@);
                    final(self).subscriptions@ == old(self).subscriptions@.update(
                        k,
                        SubRow { muted: m, ..old(self).subscriptions@[k] },
                    )
                }),
                Err(e) => active_sub(old(self).subscriptions@, a@, t@) is None
                    && is_not_subscribed(e) && *final(self) == *old(self),
            },
    {
        match self.sub(a, t) {
            Ok(_) => {},
            Err(e) => return Err(e),
        }
        match self.sub_index_of(a, t) {
            Some(k) => {
                let acked = self.subscriptions[k].acked;
                self.set_sub_fields(k, true, m, acked);
            },
            None => {},
        }
        Ok(())
    }

    /// Moves the Agent's boundary in `t` to `through`.
    pub fn set_ack(&mut self, agent: &str, topic: &str, through: i64)
        requires
            old(self).wf(),
        ensures
            final(self).wf(),
            (Tx { subscriptions: final(self).subscriptions, ..*old(self) }) == *final(self),
            if has_sub(old(self).subscriptions@, agent@, topic@) {
                let k = sub_index(old(self).subscriptions@, agent@, topic@);
                final(self).subscriptions@ == old(self).subscriptions@.update(
                    k,
                    SubRow { acked: Some(through), ..old(self).subscriptions@[k] },
                )
            } else {
                final(self).subscriptions@ == old(self).subscriptions@
            },
    {
        match self.sub_index_of(agent, topic) {
            Some(k) => {
                let active = self.subscriptions[k].active;
                let muted = self.subscriptions[k].muted;
                self.set_sub_fields(k, active, muted, Some(through));
            },
            None => {},
        }
    }
}

// ---------------------------------------------------------------- messages

/// Message `n` exists and belongs to Topic `t`.
pub open spec fn in_topic(msgs: Seq<MessageRow>, t: Seq<char>, n: i64) -> bool {
    1 <= n <= msgs.len() && msgs[n - 1].topic@ == t
}

pub open spec fn is_foreign_message(e: Error) -> bool {
    is_error(e, ErrorKind::Invalid, "msg_id does not belong to this Topic"@)
}

/// What a failed storage statement becomes.
pub open spec fn is_storage_failure(e: Error) -> bool {
    is_error(e, ErrorKind::Unavailable, "database operation failed"@)
}

/// Whether a row of Topic `t` lies past the cursor in the reading direction.
pub open spec fn past(r: MessageRow, t: Seq<char>, cursor: Option<i64>, forward: bool) -> bool {
    r.topic@ == t && match cursor {
        None => true,
        Some(c) => if forward {
            r.id > c
        } else {
            r.id < c
        },
    }
}

/// The Topic's messages past the cursor, oldest first.
pub open spec fn scope(msgs: Seq<MessageRow>, t: Seq<char>, cursor: Option<i64>, forward: bool) -> Seq<
    MessageRow,
>
    decreases msgs.len(),
{
    if msgs.len() == 0 {
        Seq::empty()
    } else {
        let rest = scope(msgs.drop_last(), t, cursor, forward);
        if past(msgs.last(), t, cursor, forward) {
            rest.push(msgs.last())
        } else {
            rest
        }
    }
}

proof fn lemma_scope_len(msgs: Seq<MessageRow>, t: Seq<char>, cursor: Option<i64>, forward: bool)
    ensures
        scope(msgs, t, cursor, forward).len() <= msgs.len(),
    decreases msgs.len(),
{
    if msgs.len() > 0 {
        lemma_scope_len(msgs.drop_last(), t, cursor, forward);
    }
}

/// How many rows a page holds: `limit` of them, or all for a negative limit.
pub open spec fn page_len(available: int, limit: i64) -> int {
    if limit < 0 || limit >= available {
        available
    } else {
        limit as int
    }
}

/// The `k`th row of a page, reading forward (oldest first) or backward (newest first).
pub open spec fn page_row(s: Seq<MessageRow>, forward: bool, k: int) -> MessageRow {
    if forward {
        s[k]
    } else {
        s[s.len() - 1 - k]
    }
}

/// How a row reads: its id, sender, text, time and quote.
pub open spec fn message_of(m: Message, r: MessageRow) -> bool {
    &&& m.msg_id@ == msg_text(r.id as int)
    &&& m.sent_at@ == rfc3339_seconds(r.sent_at)
    &&& m.content@ == r.content@
    &&& match r.agent {
        Some(a) => m.sender matches Sender::Agent { name } && name@ == a@,
        None => m.sender == Sender::User { user_id: r.user.unwrap_or(0) },
    }
    &&& m.quote_msg_id.is_some() == r.quote.is_some()
    &&& (r.quote.is_some() ==> m.quote_msg_id.unwrap()@ == msg_text(r.quote.unwrap() as int))
}

/// Messages of Topic `t` after `floor` that Agent `a` did not write, oldest first.
pub open spec fn pending_of(msgs: Seq<MessageRow>, a: Seq<char>, t: Seq<char>, floor: i64) -> Seq<
    MessageRow,
>
    decreases msgs.len(),
{
    if msgs.len() == 0 {
        Seq::empty()
    } else {
        let rest = pending_of(msgs.drop_last(), a, t, floor);
        let r = msgs.last();
        if r.topic@ == t && r.id > floor && (r.agent is None || r.agent.unwrap()@ != a) {
            rest.push(r)
        } else {
            rest
        }
    }
}

pub open spec fn link_index(rows: Seq<LinkRow>, chat: i64, tid: i64) -> int {
    choose|i: int| 0 <= i < rows.len() && rows[i].chat == chat && rows[i].telegram_id == tid
}

pub open spec fn has_link(rows: Seq<LinkRow>, chat: i64, tid: i64) -> bool {
    exists|i: int| 0 <= i < rows.len() && rows[i].chat == chat && rows[i].telegram_id == tid
}

/// The conversation message that a Telegram message carries.
pub open spec fn linked(rows: Seq<LinkRow>, chat: i64, tid: i64) -> Option<i64> {
    if has_link(rows, chat, tid) {
        Some(rows[link_index(rows, chat, tid)].message)
    } else {
        None
    }
}

pub open spec fn user_trusted(rows: Seq<UserRow>, id: i64) -> bool {
    exists|i: int| 0 <= i < rows.len() && rows[i].id == id && rows[i].trusted
}

pub open spec fn has_update(rows: Seq<UpdateRow>, id: i64) -> bool {
    exists|i: int| 0 <= i < rows.len() && rows[i].id == id
}

impl Tx {
    /// Whether message `n` belongs to Topic `t`.
    pub fn message_in(&self, t: &str, n: i64) -> (r: Result<()>)
        requires
            self.wf(),
        ensures
            match r {
                Ok(()) => in_topic(self.messages@, t@, n),
                Err(e) => !in_topic(self.messages@, t@, n) && is_foreign_message(e),
            },
    {
        if n >= 1 && (n as u64) <= (self.messages.len() as u64) {
            let k = (n - 1) as usize;
            if str_eq(self.messages[k].topic.as_str(), t) {
                return Ok(());
            }
        }
        Err(Error::bad("msg_id does not belong to this Topic"))
    }

    /// Appends a conversation message and returns its sequence number.
    pub fn append(
        &mut self,
        t: &str,
        a: Option<&str>,
        u: Option<i64>,
        content: &str,
        sent: i64,
        quote: Option<i64>,
    ) -> (r: Result<i64>)
        requires
            old(self).wf(),
        ensures
            final(self).wf(),
            (Tx { messages: final(self).messages, ..*old(self) }) == *final(self),
            match r {
                Ok(id) => {
                    &&& id == old(self).messages@.len() + 1
                    &&& final(self).messages@ == old(self).messages@.push(final(self).messages@.last())
                    &&& ({
                        let m = final(self).messages@.last();
                        &&& m.id == id
                        &&& m.topic@ == t@
                        &&& m.agent.is_some() == a.is_some()
                        &&& (a.is_some() ==> m.agent.unwrap()@ == a.unwrap()@)
                        &&& m.user == u
                        &&& m.content@ == content@
                        &&& m.sent_at == sent
                        &&& m.quote == quote
                    })
                },
                Err(e) => old(self).messages@.len() + 1 >= i64::MAX && is_storage_failure(e)
                    && *final(self) == *old(self),
            },
    {
        let n: u64 = self.messages.len() as u64;
        if n >= 0x7fff_ffff_ffff_fffe {
            return Err(Error::internal("database operation failed"));
        }
        let id: i64 = (n + 1) as i64;
        let row = MessageRow {
            id,
            topic: owned(t),
            agent: match a {
                Some(x) => Some(owned(x)),
                None => None,
            },
            user: u,
            content: owned(content),
            sent_at: sent,
            quote,
        };
        self.messages.push(row);
        Ok(id)
    }

    /// Records that Telegram message `tid` in `chat` carries message `msg`, unless that
    /// Telegram message is already recorded.
    pub fn map(&mut self, chat: i64, tid: i64, msg: i64)
        requires
            old(self).wf(),
        ensures
            final(self).wf(),
            (Tx { links: final(self).links, ..*old(self) }) == *final(self),
            if has_link(old(self).links@, chat, tid) {
                final(self).links@ == old(self).links@
            } else {
                final(self).links@ == old(self).links@.push(
                    LinkRow { chat, telegram_id: tid, message: msg },
                )
            },
    {
        if self.has_link_row(chat, tid) {
            return;
        }
        self.links.push(LinkRow { chat, telegram_id: tid, message: msg });
    }

    fn has_link_row(&self, chat: i64, tid: i64) -> (r: bool)
        ensures
            r == has_link(self.links@, chat, tid),
    {
        for i in 0..self.links.len()
            invariant
                forall|j: int|
                    0 <= j < i ==> !(self.links@[j].chat == chat && self.links@[j].telegram_id == tid),
        {
            if self.links[i].chat == chat && self.links[i].telegram_id == tid {
                return true;
            }
        }
        false
    }

    /// The conversation message that Telegram message `tid` in `chat` carries.
    pub fn mapped(&self, chat: i64, tid: i64) -> (r: Option<i64>)
        requires
            self.wf(),
        ensures
            r == linked(self.links@, chat, tid),
    {
        for i in 0..self.links.len()
            invariant
                links_unique(self.links@),
                forall|j: int|
                    0 <= j < i ==> !(self.links@[j].chat == chat && self.links@[j].telegram_id == tid),
        {
            if self.links[i].chat == chat && self.links[i].telegram_id == tid {
                proof {
                    let j = link_index(self.links@, chat, tid);
                    assert(self.links@[j].chat == chat && self.links@[j].telegram_id == tid);
                }
                return Some(self.links[i].message);
            }
        }
        None
    }

    /// A page of the Topic's conversation past `cursor`: oldest first reading forward,
    /// newest first reading backward, at most `limit` messages (all for a negative limit),
    /// and the number of messages past the cursor that the page leaves out.
    pub fn messages(&self, t: &str, cursor: Option<i64>, forward: bool, limit: i64) -> (r: (
        Vec<Message>,
        i64,
    ))
        requires
            self.wf(),
        ensures
            ({
                let s = scope(self.messages@, t@, cursor, forward);
                let n = page_len(s.len() as int, limit);
                &&& r.0@.len() == n
                &&& forall|k: int| 0 <= k < n ==> message_of(#[trigger] r.0@[k], page_row(s, forward, k))
                &&& r.1 == s.len() - n
            }),
    {
        let ghost msgs = self.messages@;
        let mut idx: Vec<usize> = Vec::new();
        let total = self.messages.len();
        for i in 0..total
            invariant
                total == msgs.len(),
                msgs == self.messages@,
                self.wf(),
                idx@.len() == scope(msgs.take(i as int), t@, cursor, forward).len(),
                forall|k: int|
                    0 <= k < idx@.len() ==> (#[trigger] idx@[k]) < total && msgs[idx@[k] as int]
                        == scope(msgs.take(i as int), t@, cursor, forward)[k],
        {
            let m = &self.messages[i];
            assert(msgs.take(i + 1).drop_last() == msgs.take(i as int));
            assert(msgs.take(i + 1).last() == *m);
            let keep = str_eq(m.topic.as_str(), t) && match cursor {
                None => true,
                Some(c) => if forward {
                    m.id > c
                } else {
                    m.id < c
                },
            };
            if keep {
                idx.push(i);
            }
        }
        assert(msgs.take(total as int) == msgs);
        let ghost s = scope(msgs, t@, cursor, forward);
        proof {
            lemma_scope_len(msgs, t@, cursor, forward);
        }
        let len = idx.len();
        let n: usize = if limit < 0 || (limit as u64) >= (len as u64) {
            len
        } else {
            limit as usize
        };
        let mut page: Vec<Message> = Vec::new();
        for k in 0..n
            invariant
                n <= len,
                len == idx@.len(),
                len == s.len(),
                total == msgs.len(),
                msgs == self.messages@,
                forall|j: int| 0 <= j < len ==> (#[trigger] idx@[j]) < total && msgs[idx@[j] as int] == s[j],
                page@.len() == k,
                forall|j: int| 0 <= j < k ==> message_of(#[trigger] page@[j], page_row(s, forward, j)),
        {
            let at = if forward {
                idx[k]
            } else {
                idx[len - 1 - k]
            };
            page.push(message_from(&self.messages[at]));
        }
        let remaining = (len - n) as i64;
        (page, remaining)
    }

    /// The messages of `t` after `acked` that Agent `a` did not write, oldest first.
    pub fn pending(&self, a: &str, t: &str, acked: Option<i64>) -> (r: Vec<(i64, String)>)
        ensures
            ({
                let p = pending_of(self.messages@, a@, t@, acked.unwrap_or(0));
                &&& r@.len() == p.len()
                &&& forall|k: int|
                    0 <= k < p.len() ==> (#[trigger] r@[k]).0 == p[k].id && r@[k].1@ == p[k].content@
            }),
    {
        let floor = match acked {
            Some(x) => x,
            None => 0,
        };
        let ghost msgs = self.messages@;
        let mut r: Vec<(i64, String)> = Vec::new();
        let n = self.messages.len();
        for i in 0..n
            invariant
                n == msgs.len(),
                msgs == self.messages@,
                floor == acked.unwrap_or(0),
                r@.len() == pending_of(msgs.take(i as int), a@, t@, floor).len(),
                forall|k: int|
                    0 <= k < r@.len() ==> (#[trigger] r@[k]).0 == pending_of(msgs.take(i as int), a@, t@, floor)[k].id
                        && r@[k].1@ == pending_of(msgs.take(i as int), a@, t@, floor)[k].content@,
        {
            let m = &self.messages[i];
            assert(msgs.take(i + 1).drop_last() == msgs.take(i as int));
            assert(msgs.take(i + 1).last() == *m);
            let own = match &m.agent {
                Some(x) => str_eq(x.as_str(), a),
                None => false,
            };
            if str_eq(m.topic.as_str(), t) && m.id > floor && !own {
                r.push((m.id, owned(m.content.as_str())));
            }
        }
        assert(msgs.take(n as int) == msgs);
        r
    }

    /// Whether the User is trusted.
    pub fn trusted(&self, id: i64) -> (r: bool)
        ensures
            r == user_trusted(self.users@, id),
    {
        for i in 0..self.users.len()
            invariant
                forall|j: int| 0 <= j < i ==> !(self.users@[j].id == id && self.users@[j].trusted),
        {
            if self.users[i].id == id && self.users[i].trusted {
                return true;
            }
        }
        false
    }

    /// Whether update `id` was received before.
    pub fn update_known(&self, id: i64) -> (r: bool)
        ensures
            r == has_update(self.updates@, id),
    {
        for i in 0..self.updates.len()
            invariant
                forall|j: int| 0 <= j < i ==> self.updates@[j].id != id,
        {
            if self.updates[i].id == id {
                return true;
            }
        }
        false
    }

    /// Records a Telegram update id; false when it was already recorded.
    pub fn record_update(&mut self, id: i64, raw: Option<&str>) -> (r: bool)
        requires
            old(self).wf(),
        ensures
            final(self).wf(),
            (Tx { updates: final(self).updates, ..*old(self) }) == *final(self),
            r == !has_update(old(self).updates@, id),
            r ==> final(self).updates@ == old(self).updates@.push(final(self).updates@.last())
                && final(self).updates@.last().id == id && final(self).updates@.last().raw.is_some()
                == raw.is_some(),
            !r ==> final(self).updates@ == old(self).updates@,
    {
        if self.update_known(id) {
            return false;
        }
        self.updates.push(
            UpdateRow {
                id,
                raw: match raw {
                    Some(x) => Some(owned(x)),
                    None => None,
                },
            },
        );
        true
    }

    /// Keeps the raw text of a recorded update.
    pub fn save_raw_update(&mut self, id: i64, raw: &str)
        requires
            old(self).wf(),
        ensures
            final(self).wf(),
            (Tx { updates: final(self).updates, ..*old(self) }) == *final(self),
            final(self).updates@.len() == old(self).updates@.len(),
            forall|i: int|
                #![trigger final(self).updates@[i]]
                0 <= i < old(self).updates@.len() ==> {
                    let o = old(self).updates@[i];
                    let f = final(self).updates@[i];
                    &&& f.id == o.id
                    &&& (o.id != id ==> f == o)
                    &&& (o.id == id ==> f.raw.is_some() && f.raw.unwrap()@ == raw@)
                },
    {
        let ghost pre = *self;
        let n = self.updates.len();
        for i in 0..n
            invariant
                (Tx { updates: self.updates, ..pre }) == *self,
                n == self.updates@.len(),
                n == pre.updates@.len(),
                updates_unique(pre.updates@),
                forall|j: int|
                    0 <= j < n ==> (#[trigger] self.updates@[j]).id == pre.updates@[j].id && (
                    pre.updates@[j].id != id || j >= i ==> self.updates@[j] == pre.updates@[j]) && (
                    pre.updates@[j].id == id && j < i ==> self.updates@[j].raw.is_some()
                        && self.updates@[j].raw.unwrap()@ == raw@),
        {
            if self.updates[i].id == id {
                self.updates.set(i, UpdateRow { id, raw: Some(owned(raw)) });
            }
        }
    }
}

/// How a stored row reads.
pub fn message_from(r: &MessageRow) -> (m: Message)
    ensures
        message_of(m, *r),
{
    Message {
        msg_id: msg_id(r.id),
        sent_at: timestamp(r.sent_at),
        sender: match &r.agent {
            Some(a) => Sender::Agent { name: owned(a.as_str()) },
            None => Sender::User {
                user_id: match r.user {
                    Some(u) => u,
                    None => 0,
                },
            },
        },
        content: owned(r.content.as_str()),
        quote_msg_id: match r.quote {
            Some(q) => Some(msg_id(q)),
            None => None,
        },
    }
}

// ---------------------------------------------------------------- outbox

/// Two deliveries do the same thing.
pub open spec fn same_delivery(a: Delivery, b: Delivery) -> bool {
    match (a, b) {
        (Delivery::Send { text: t1, thread: h1, quote: q1 }, Delivery::Send {
            text: t2,
            thread: h2,
            quote: q2,
        }) => t1@ == t2@ && h1 == h2 && q1 == q2,
        (Delivery::Heart { target: x }, Delivery::Heart { target: y }) => x == y,
        _ => false,
    }
}

pub fn copy_delivery(d: &Delivery) -> (r: Delivery)
    ensures
        same_delivery(r, *d),
{
    match d {
        Delivery::Send { text, thread, quote } => Delivery::Send {
            text: owned(text.as_str()),
            thread: *thread,
            quote: *quote,
        },
        Delivery::Heart { target } => Delivery::Heart { target: *target },
    }
}

/// The job that a due outbox row becomes.
pub open spec fn job_of(j: Job, r: OutboxRow) -> bool {
    j.id == r.id && j.message == r.message && j.chat == r.chat && same_delivery(j.payload, r.payload)
        && j.attempts == r.attempts
}

/// Whether an outbox row may be attempted at `now`.
pub open spec fn is_due(r: OutboxRow, now: i64) -> bool {
    (r.status == JobStatus::Pending || r.status == JobStatus::Blocked) && r.next_attempt <= now
}

/// The rows due at `now`, by id.
pub open spec fn due_rows(rows: Seq<OutboxRow>, now: i64) -> Seq<OutboxRow>
    decreases rows.len(),
{
    if rows.len() == 0 {
        Seq::empty()
    } else {
        let rest = due_rows(rows.drop_last(), now);
        if is_due(rows.last(), now) {
            rest.push(rows.last())
        } else {
            rest
        }
    }
}

/// An existing row already holds this kind of delivery for this message.
pub open spec fn queued(rows: Seq<OutboxRow>, kind: Seq<char>, msg: Option<i64>) -> bool {
    msg is Some && exists|i: int|
        0 <= i < rows.len() && rows[i].kind@ == kind && rows[i].message == msg
}

/// An unfinished send of an earlier job carries a message of Topic `topic`.
pub open spec fn earlier_send_exists(
    rows: Seq<OutboxRow>,
    msgs: Seq<MessageRow>,
    topic: Seq<char>,
    job: i64,
) -> bool {
    exists|i: int|
        0 <= i < rows.len() && rows[i].kind@ == "send"@ && rows[i].status != JobStatus::Done
            && rows[i].id < job && (#[trigger] rows[i].message) is Some && in_topic(
            msgs,
            topic,
            rows[i].message.unwrap(),
        )
}

/// `x` is the smallest Telegram id that carries `message` in `chat`.
pub open spec fn least_link(rows: Seq<LinkRow>, message: i64, chat: i64, x: i64) -> bool {
    &&& exists|i: int|
        0 <= i < rows.len() && rows[i].message == message && rows[i].chat == chat
            && rows[i].telegram_id == x
    &&& forall|i: int|
        0 <= i < rows.len() && rows[i].message == message && rows[i].chat == chat ==> x
            <= rows[i].telegram_id
}

/// The smallest Telegram id that carries `message` in `chat`.
pub open spec fn first_platform_id(rows: Seq<LinkRow>, message: i64, chat: i64) -> Option<i64> {
    if exists|i: int| 0 <= i < rows.len() && rows[i].message == message && rows[i].chat == chat {
        Some(choose|x: i64| #[trigger] least_link(rows, message, chat, x))
    } else {
        None
    }
}

/// A row after a restart: in flight becomes pending; held becomes due at once.
pub open spec fn recovered(o: OutboxRow) -> OutboxRow {
    match o.status {
        JobStatus::Inflight => OutboxRow { status: JobStatus::Pending, ..o },
        JobStatus::Blocked => OutboxRow { next_attempt: 0, ..o },
        _ => o,
    }
}

/// Row `job` of the outbox, which is numbered from 1.
pub open spec fn job_row(rows: Seq<OutboxRow>, job: i64) -> Option<OutboxRow> {
    if 1 <= job <= rows.len() {
        Some(rows[job - 1])
    } else {
        None
    }
}

impl Tx {
    /// Queues a delivery, unless one of this kind is already queued for the message.
    pub fn enqueue(&mut self, kind: &str, msg: Option<i64>, chat: i64, p: Delivery) -> (r: Result<()>)
        requires
            old(self).wf(),
        ensures
            final(self).wf(),
            (Tx { outbox: final(self).outbox, ..*old(self) }) == *final(self),
            match r {
                Ok(()) => if queued(old(self).outbox@, kind@, msg) {
                    final(self).outbox@ == old(self).outbox@
                } else {
                    &&& final(self).outbox@ == old(self).outbox@.push(final(self).outbox@.last())
                    &&& ({
                        let o = final(self).outbox@.last();
                        &&& o.id == old(self).outbox@.len() + 1
                        &&& o.kind@ == kind@
                        &&& o.message == msg
                        &&& o.chat == chat
                        &&& o.payload == p
                        &&& o.status == JobStatus::Pending
                        &&& o.attempts == 0
                        &&& o.next_attempt == 0
                        &&& o.error is None
                    })
                },
                Err(e) => !queued(old(self).outbox@, kind@, msg) && old(self).outbox@.len() + 1
                    >= i64::MAX && is_storage_failure(e) && *final(self) == *old(self),
            },
    {
        if self.is_queued(kind, msg) {
            return Ok(());
        }
        let n: u64 = self.outbox.len() as u64;
        if n >= 0x7fff_ffff_ffff_fffe {
            return Err(Error::internal("database operation failed"));
        }
        let id: i64 = (n + 1) as i64;
        self.outbox.push(
            OutboxRow {
                id,
                kind: owned(kind),
                message: msg,
                chat,
                payload: p,
                status: JobStatus::Pending,
                attempts: 0,
                next_attempt: 0,
                error: None,
            },
        );
        Ok(())
    }

    fn is_queued(&self, kind: &str, msg: Option<i64>) -> (r: bool)
        ensures
            r == queued(self.outbox@, kind@, msg),
    {
        if msg.is_none() {
            return false;
        }
        for i in 0..self.outbox.len()
            invariant
                msg is Some,
                forall|j: int| 0 <= j < i ==> !(self.outbox@[j].kind@ == kind@ && self.outbox@[j].message == msg),
        {
            if self.outbox[i].message == msg && str_eq(self.outbox[i].kind.as_str(), kind) {
                return true;
            }
        }
        false
    }

    /// The deliveries due at `now`, by id.
    pub fn due_jobs(&self, now: i64) -> (r: Vec<Job>)
        ensures
            r@.len() == due_rows(self.outbox@, now).len(),
            forall|k: int| 0 <= k < r@.len() ==> job_of(#[trigger] r@[k], due_rows(self.outbox@, now)[k]),
    {
        let ghost rows = self.outbox@;
        let mut r: Vec<Job> = Vec::new();
        let n = self.outbox.len();
        for i in 0..n
            invariant
                n == rows.len(),
                rows == self.outbox@,
                r@.len() == due_rows(rows.take(i as int), now).len(),
                forall|k: int|
                    0 <= k < r@.len() ==> job_of(#[trigger] r@[k], due_rows(rows.take(i as int), now)[k]),
        {
            let o = &self.outbox[i];
            assert(rows.take(i + 1).drop_last() == rows.take(i as int));
            assert(rows.take(i + 1).last() == *o);
            if (o.status == JobStatus::Pending || o.status == JobStatus::Blocked) && o.next_attempt <= now {
                r.push(
                    Job {
                        id: o.id,
                        message: o.message,
                        chat: o.chat,
                        payload: copy_delivery(&o.payload),
                        attempts: o.attempts,
                    },
                );
            }
        }
        assert(rows.take(n as int) == rows);
        r
    }

    /// The Topic of `message` and the message it quotes.
    pub fn delivery_context(&self, message: i64) -> (r: Result<(Topic, Option<i64>)>)
        requires
            self.wf(),
        ensures
            match r {
                Ok((t, quote)) => 1 <= message <= self.messages@.len() && ({
                    let m = self.messages@[message - 1];
                    &&& quote == m.quote
                    &&& match joined(self.topics@, self.groups@, m.topic@) {
                        Some((row, g)) => topic_of(t, row, g),
                        None => false,
                    }
                }),
                Err(e) => if 1 <= message <= self.messages@.len() {
                    joined(self.topics@, self.groups@, self.messages@[message - 1].topic@) is None
                        && is_unknown_topic(e)
                } else {
                    is_storage_failure(e)
                },
            },
    {
        if message >= 1 && (message as u64) <= (self.messages.len() as u64) {
            let m = &self.messages[(message - 1) as usize];
            match self.topic(m.topic.as_str()) {
                Ok(t) => Ok((t, m.quote)),
                Err(e) => Err(e),
            }
        } else {
            Err(Error::internal("database operation failed"))
        }
    }

    /// Whether an unfinished send of an earlier job carries a message of `topic`.
    pub fn earlier_send(&self, topic: &str, job: i64) -> (r: bool)
        requires
            self.wf(),
        ensures
            r == earlier_send_exists(self.outbox@, self.messages@, topic@, job),
    {
        let send = "send";
        proof {
            reveal_strlit("send");
        }
        for i in 0..self.outbox.len()
            invariant
                self.wf(),
                send@ == "send"@,
                forall|j: int|
                    #![trigger self.outbox@[j]]
                    0 <= j < i ==> !({
                        let o = self.outbox@[j];
                        o.kind@ == "send"@ && o.status != JobStatus::Done && o.id < job
                            && o.message is Some && in_topic(self.messages@, topic@, o.message.unwrap())
                    }),
        {
            let o = &self.outbox[i];
            if o.status != JobStatus::Done && o.id < job && str_eq(o.kind.as_str(), send) {
                match o.message {
                    Some(m) => {
                        if self.message_in(topic, m).is_ok() {
                            return true;
                        }
                    },
                    None => {},
                }
            }
        }
        false
    }

    /// The smallest Telegram id that carries `message` in `chat`.
    pub fn platform_message(&self, message: i64, chat: i64) -> (r: Option<i64>)
        ensures
            r == first_platform_id(self.links@, message, chat),
    {
        let mut best: Option<i64> = None;
        let ghost rows = self.links@;
        let ghost mut at: int = 0;
        for i in 0..self.links.len()
            invariant
                rows == self.links@,
                best is None ==> forall|j: int| 0 <= j < i ==> !(rows[j].message == message && rows[j].chat == chat),
                best is Some ==> 0 <= at < i && rows[at].message == message && rows[at].chat == chat
                    && rows[at].telegram_id == best.unwrap(),
                best is Some ==> forall|j: int|
                    0 <= j < i && rows[j].message == message && rows[j].chat == chat ==> best.unwrap()
                        <= rows[j].telegram_id,
        {
            let l = &self.links[i];
            if l.message == message && l.chat == chat {
                let better = match best {
                    Some(b) => l.telegram_id < b,
                    None => true,
                };
                if better {
                    best = Some(l.telegram_id);
                    proof {
                        at = i as int;
                    }
                }
            }
        }
        proof {
            if best is Some {
                let x = best.unwrap();
                assert(least_link(rows, message, chat, x));
                let c = choose|y: i64| #[trigger] least_link(rows, message, chat, y);
                assert(least_link(rows, message, chat, c));
                let ic = choose|i: int|
                    0 <= i < rows.len() && rows[i].message == message && rows[i].chat == chat
                        && rows[i].telegram_id == c;
                assert(x <= rows[ic].telegram_id);
                assert(c <= rows[at].telegram_id);
            }
        }
        best
    }

    /// Replaces outbox row `k` (job `k + 1`) with `row`.
    fn put_job(&mut self, k: usize, row: OutboxRow)
        requires
            old(self).wf(),
            k < old(self).outbox@.len(),
            row.id == k + 1,
            row.attempts >= 0,
        ensures
            final(self).wf(),
            final(self).outbox@ == old(self).outbox@.update(k as int, row),
            (Tx { outbox: final(self).outbox, ..*old(self) }) == *final(self),
    {
        self.outbox.set(k, row);
    }

    /// Takes outbox row `k` out to change it.
    fn take_job(&self, k: usize) -> (row: OutboxRow)
        requires
            k < self.outbox@.len(),
        ensures
            row.id == self.outbox@[k as int].id && row.kind@ == self.outbox@[k as int].kind@
                && row.message == self.outbox@[k as int].message && row.chat == self.outbox@[k as int].chat
                && same_delivery(row.payload, self.outbox@[k as int].payload)
                && row.status == self.outbox@[k as int].status && row.attempts == self.outbox@[k as int].attempts
                && row.next_attempt == self.outbox@[k as int].next_attempt
                && row.error.is_some() == self.outbox@[k as int].error.is_some()
                && (row.error.is_some() ==> row.error.unwrap()@ == self.outbox@[k as int].error.unwrap()@),
    {
        let o = &self.outbox[k];
        OutboxRow {
            id: o.id,
            kind: owned(o.kind.as_str()),
            message: o.message,
            chat: o.chat,
            payload: copy_delivery(&o.payload),
            status: match o.status {
                JobStatus::Pending => JobStatus::Pending,
                JobStatus::Inflight => JobStatus::Inflight,
                JobStatus::Blocked => JobStatus::Blocked,
                JobStatus::Done => JobStatus::Done,
            },
            attempts: o.attempts,
            next_attempt: o.next_attempt,
            error: copy_name(&o.error),
        }
    }

    /// Marks the job in flight: one more attempt, and no error.
    pub fn claim(&mut self, job: i64) -> (r: Result<()>)
        requires
            old(self).wf(),
        ensures
            final(self).wf(),
            (Tx { outbox: final(self).outbox, ..*old(self) }) == *final(self),
            match r {
                Ok(()) => match job_row(old(self).outbox@, job) {
                    Some(o) => {
                        let f = final(self).outbox@[job - 1];
                        &&& final(self).outbox@ == old(self).outbox@.update(job - 1, f)
                        &&& f.status == JobStatus::Inflight
                        &&& f.attempts == o.attempts + 1
                        &&& f.error is None
                        &&& f.id == o.id && f.kind@ == o.kind@ && f.message == o.message && f.chat == o.chat
                        &&& same_delivery(f.payload, o.payload) && f.next_attempt == o.next_attempt
                    },
                    None => final(self).outbox@ == old(self).outbox@,
                },
                Err(e) => job_row(old(self).outbox@, job) is Some && job_row(old(self).outbox@, job).unwrap().attempts
                    == i64::MAX && is_storage_failure(e) && *final(self) == *old(self),
            },
    {
        if job >= 1 && (job as u64) <= (self.outbox.len() as u64) {
            let k = (job - 1) as usize;
            let mut row = self.take_job(k);
            if row.attempts == i64::MAX {
                return Err(Error::internal("database operation failed"));
            }
            row.status = JobStatus::Inflight;
            row.attempts = row.attempts + 1;
            row.error = None;
            self.put_job(k, row);
        }
        Ok(())
    }

    /// Brings the queue back after a restart: deliveries that were in flight are pending
    /// again, and held ones are due at once.
    pub fn recover(&mut self)
        requires
            old(self).wf(),
        ensures
            final(self).wf(),
            (Tx { outbox: final(self).outbox, ..*old(self) }) == *final(self),
            final(self).outbox@.len() == old(self).outbox@.len(),
            forall|i: int|
                0 <= i < old(self).outbox@.len() ==> #[trigger] final(self).outbox@[i] == recovered(old(self).outbox@[i]),
    {
        let n = self.outbox.len();
        for i in 0..n
            invariant
                self.wf(),
                (Tx { outbox: self.outbox, ..*old(self) }) == *self,
                n == old(self).outbox@.len(),
                self.outbox@.len() == n,
                forall|j: int| 0 <= j < i ==> #[trigger] self.outbox@[j] == recovered(old(self).outbox@[j]),
                forall|j: int| i <= j < n ==> #[trigger] self.outbox@[j] == old(self).outbox@[j],
        {
            let ghost before = self.outbox@;
            let mut row = self.outbox.remove(i);
            match row.status {
                JobStatus::Inflight => {
                    row.status = JobStatus::Pending;
                },
                JobStatus::Blocked => {
                    row.next_attempt = 0;
                },
                _ => {},
            }
            self.outbox.insert(i, row);
            assert(self.outbox@ == before.update(i as int, recovered(before[i as int])));
        }
    }

    /// Holds the job back until `next` with `reason`; true when the reason is new.
    pub fn defer(&mut self, job: i64, reason: &str, next: i64) -> (r: Result<bool>)
        requires
            old(self).wf(),
        ensures
            final(self).wf(),
            (Tx { outbox: final(self).outbox, ..*old(self) }) == *final(self),
            match r {
                Ok(changed) => match job_row(old(self).outbox@, job) {
                    Some(o) => {
                        let f = final(self).outbox@[job - 1];
                        &&& changed == (o.error is None || o.error.unwrap()@ != reason@)
                        &&& final(self).outbox@ == old(self).outbox@.update(job - 1, f)
                        &&& f.status == JobStatus::Blocked
                        &&& f.error is Some && f.error.unwrap()@ == reason@
                        &&& f.next_attempt == next
                        &&& f.id == o.id && f.kind@ == o.kind@ && f.message == o.message && f.chat == o.chat
                        &&& same_delivery(f.payload, o.payload) && f.attempts == o.attempts
                    },
                    None => false,
                },
                Err(e) => job_row(old(self).outbox@, job) is None && is_storage_failure(e) && *final(self)
                    == *old(self),
            },
    {
        if job >= 1 && (job as u64) <= (self.outbox.len() as u64) {
            let k = (job - 1) as usize;
            let mut row = self.take_job(k);
            let changed = match &row.error {
                Some(e) => !str_eq(e.as_str(), reason),
                None => true,
            };
            row.status = JobStatus::Blocked;
            row.error = Some(owned(reason));
            row.next_attempt = next;
            self.put_job(k, row);
            Ok(changed)
        } else {
            Err(Error::internal("database operation failed"))
        }
    }

    /// Marks the job done and records that.
    pub fn completed(&mut self, job: &Job, now: i64) -> (r: Result<()>)
        requires
            old(self).wf(),
        ensures
            final(self).wf(),
            r is Ok,
            (Tx { outbox: final(self).outbox, management: final(self).management, ..*old(self) })
                == *final(self),
            match job_row(old(self).outbox@, job.id) {
                Some(o) => {
                    let f = final(self).outbox@[job.id - 1];
                    &&& final(self).outbox@ == old(self).outbox@.update(job.id - 1, f)
                    &&& f.status == JobStatus::Done && f.error is None
                    &&& f.id == o.id && f.kind@ == o.kind@ && f.message == o.message && f.chat == o.chat
                    &&& same_delivery(f.payload, o.payload) && f.attempts == o.attempts
                    &&& f.next_attempt == o.next_attempt
                },
                None => final(self).outbox@ == old(self).outbox@,
            },
            final(self).management@.len() == old(self).management@.len() + 1,
            final(self).management@.drop_last() == old(self).management@,
            final(self).management@.last().kind@ == "delivery"@,
            final(self).management@.last().time == now,
            final(self).management@.last().detail.at("job"@) == Json::Int(job.id),
            final(self).management@.last().detail.at("status"@).str_of() == Some("done"@),
    {
        if job.id >= 1 && (job.id as u64) <= (self.outbox.len() as u64) {
            let k = (job.id - 1) as usize;
            let mut row = self.take_job(k);
            row.status = JobStatus::Done;
            row.error = None;
            self.put_job(k, row);
        }
        let detail = Json::Object(vec![
            member_of("job", int_value(job.id)),
            member_of("status", text_value("done")),
        ]);
        proof {
            reveal_strlit("job");
            reveal_strlit("status");
            reveal_strlit("done");
            reveal_strlit("delivery");
            lemma_members(detail->Object_0@, "job"@);
            lemma_members(detail->Object_0@, "status"@);
            assert("job"@.len() != "status"@.len());
        }
        self.audit("delivery", detail, now);
        Ok(())
    }

    /// Schedules the job's next attempt `delay` seconds after `now` and records the failure;
    /// a rate limit also holds back every delivery until then.
    pub fn failed(&mut self, job: &Job, detail: &str, delay: i64, blocked: bool, rate: bool, now: i64) -> (r:
        Result<()>)
        requires
            old(self).wf(),
        ensures
            final(self).wf(),
            r is Ok,
            (Tx {
                outbox: final(self).outbox,
                management: final(self).management,
                meta: final(self).meta,
                ..*old(self)
            }) == *final(self),
            ({
                let next = retry_at(now, delay);
                &&& match job_row(old(self).outbox@, job.id) {
                    Some(o) => {
                        let f = final(self).outbox@[job.id - 1];
                        &&& final(self).outbox@ == old(self).outbox@.update(job.id - 1, f)
                        &&& f.status == (if blocked {
                            JobStatus::Blocked
                        } else {
                            JobStatus::Pending
                        })
                        &&& f.next_attempt == next
                        &&& f.error is Some && f.error.unwrap()@ == detail@
                        &&& f.id == o.id && f.kind@ == o.kind@ && f.message == o.message && f.chat
                            == o.chat
                        &&& same_delivery(f.payload, o.payload) && f.attempts == o.attempts
                    },
                    None => final(self).outbox@ == old(self).outbox@,
                }
                &&& if rate {
                    &&& meta_value(final(self).meta@, "telegram_blocked_until"@) == Some(int_text(next as int))
                    &&& forall|k: Seq<char>|
                        k != "telegram_blocked_until"@ ==> meta_value(final(self).meta@, k) == meta_value(
                            old(self).meta@,
                            k,
                        )
                } else {
                    final(self).meta == old(self).meta
                }
            }),
            final(self).management@.len() == old(self).management@.len() + 1,
            final(self).management@.drop_last() == old(self).management@,
            final(self).management@.last().kind@ == "delivery"@,
            final(self).management@.last().time == now,
            final(self).management@.last().detail.at("job"@) == Json::Int(job.id),
            final(self).management@.last().detail.at("status"@).str_of() == Some("retry"@),
            final(self).management@.last().detail.at("error"@).str_of() == Some(detail@),
    {
        let next = saturating_add(now, saturating_mul(delay, 1000));
        if job.id >= 1 && (job.id as u64) <= (self.outbox.len() as u64) {
            let k = (job.id - 1) as usize;
            let mut row = self.take_job(k);
            row.status = if blocked {
                JobStatus::Blocked
            } else {
                JobStatus::Pending
            };
            row.next_attempt = next;
            row.error = Some(owned(detail));
            self.put_job(k, row);
        }
        if rate {
            let text = int_string(next);
            self.set_meta("telegram_blocked_until", text.as_str());
        }
        let record = Json::Object(vec![
            member_of("job", int_value(job.id)),
            member_of("status", text_value("retry")),
            member_of("error", text_value(detail)),
        ]);
        proof {
            reveal_strlit("job");
            reveal_strlit("status");
            reveal_strlit("retry");
            reveal_strlit("error");
            reveal_strlit("delivery");
            lemma_members(record->Object_0@, "job"@);
            lemma_members(record->Object_0@, "status"@);
            lemma_members(record->Object_0@, "error"@);
            assert("job"@.len() != "status"@.len());
            assert("job"@.len() != "error"@.len());
            assert("status"@.len() != "error"@.len());
        }
        self.audit("delivery", record, now);
        Ok(())
    }
}

/// When a failed delivery is next due: `delay` seconds after `now`, saturating.
pub open spec fn retry_at(now: i64, delay: i64) -> i64 {
    clamp64(now + clamp64(delay * 1000))
}

/// Pending messages come in increasing order of sequence number, and there are no more of
/// them than messages.
pub proof fn lemma_pending_sorted(msgs: Seq<MessageRow>, a: Seq<char>, t: Seq<char>, floor: i64)
    requires
        messages_numbered(msgs),
    ensures
        pending_of(msgs, a, t, floor).len() <= msgs.len(),
        forall|q: int|
            0 <= q < pending_of(msgs, a, t, floor).len() ==> 1 <= #[trigger] pending_of(msgs, a, t, floor)[q].id
                <= msgs.len(),
        forall|q1: int, q2: int|
            0 <= q1 < q2 < pending_of(msgs, a, t, floor).len() ==> pending_of(msgs, a, t, floor)[q1].id
                < pending_of(msgs, a, t, floor)[q2].id,
    decreases msgs.len(),
{
    if msgs.len() > 0 {
        let rest = msgs.drop_last();
        assert forall|i: int| 0 <= i < rest.len() implies #[trigger] rest[i].id == i + 1 by {
            assert(rest[i] == msgs[i]);
        }
        lemma_pending_sorted(rest, a, t, floor);
        assert(msgs.last().id == msgs.len());
    }
}

/// A queued delivery stays queued when a row is added.
pub proof fn lemma_queued_push(rows: Seq<OutboxRow>, x: OutboxRow, kind: Seq<char>, msg: Option<i64>)
    ensures
        queued(rows, kind, msg) ==> queued(rows.push(x), kind, msg),
        (msg is Some && x.kind@ == kind && x.message == msg) ==> queued(rows.push(x), kind, msg),
{
    if queued(rows, kind, msg) {
        let i = choose|i: int| 0 <= i < rows.len() && rows[i].kind@ == kind && rows[i].message == msg;
        assert(rows.push(x)[i] == rows[i]);
    }
    if msg is Some && x.kind@ == kind && x.message == msg {
        assert(rows.push(x)[rows.len() as int] == x);
    }
}

pub open spec fn links_sorted(rows: Seq<LinkRow>) -> bool {
    forall|a: int, b: int|
        0 <= a < b < rows.len() ==> rows[a].chat < rows[b].chat || (rows[a].chat == rows[b].chat
            && rows[a].telegram_id < rows[b].telegram_id)
}

pub open spec fn users_sorted(rows: Seq<UserRow>) -> bool {
    forall|a: int, b: int| 0 <= a < b < rows.len() ==> rows[a].id < rows[b].id
}

pub open spec fn updates_sorted(rows: Seq<UpdateRow>) -> bool {
    forall|a: int, b: int| 0 <= a < b < rows.len() ==> rows[a].id < rows[b].id
}

impl Tx {
    /// The tables as storage hands them back: the store's invariants hold, and the links,
    /// users and updates come in key order too.
    pub open spec fn in_key_order(&self) -> bool {
        &&& self.wf()
        &&& links_sorted(self.links@)
        &&& users_sorted(self.users@)
        &&& updates_sorted(self.updates@)
    }

    /// Whether the tables, as read back from storage in key order, keep the store's
    /// invariants. Tables with keys are expected in key order (meta in any order); messages
    /// and deliveries by number, and no delivery with fewer than zero attempts; every Topic
    /// belongs to a known Group and every subscription to a known Topic.
    pub fn check(&self) -> (r: bool)
        ensures
            r == self.in_key_order(),
            r ==> self.wf(),
    {
        // meta: keys differ
        let nm = self.meta.len();
        for i in 0..nm
            invariant
                nm == self.meta@.len(),
                forall|a: int, b: int| 0 <= a < nm && 0 <= b < i && a != b ==> self.meta@[a].key@ != self.meta@[b].key@,
        {
            for j in 0..nm
                invariant
                    nm == self.meta@.len(),
                    i < nm,
                    forall|a: int, b: int| 0 <= a < nm && 0 <= b < i && a != b ==> self.meta@[a].key@ != self.meta@[b].key@,
                    forall|a: int| 0 <= a < j && a != i ==> self.meta@[a].key@ != self.meta@[i as int].key@,
            {
                if j != i && str_eq(self.meta[j].key.as_str(), self.meta[i].key.as_str()) {
                    return false;
                }
            }
        }
        // agents: by name
        let na = self.agents.len();
        let mut i: usize = 1;
        while i < na
            invariant
                1 <= i,
                na == self.agents@.len(),
                forall|a: int, b: int| 0 <= a < b < i ==> seq_less(self.agents@[a].name@, self.agents@[b].name@),
            decreases na - i,
        {
            if !text_less(self.agents[i - 1].name.as_str(), self.agents[i].name.as_str()) {
                return false;
            }
            proof {
                assert forall|a: int, b: int| 0 <= a < b < i + 1 implies seq_less(
                    self.agents@[a].name@,
                    self.agents@[b].name@,
                ) by {
                    if b == i && a < i - 1 {
                        lemma_less_transitive(self.agents@[a].name@, self.agents@[i - 1].name@, self.agents@[b].name@);
                    }
                }
            }
            i = i + 1;
        }
        // groups: by chat
        let ng = self.groups.len();
        let mut i: usize = 1;
        while i < ng
            invariant
                1 <= i,
                ng == self.groups@.len(),
                forall|a: int, b: int| 0 <= a < b < i ==> self.groups@[a].chat < self.groups@[b].chat,
            decreases ng - i,
        {
            if self.groups[i - 1].chat >= self.groups[i].chat {
                return false;
            }
            i = i + 1;
        }
        // topics: by id, and one per place
        let nt = self.topics.len();
        let mut i: usize = 1;
        while i < nt
            invariant
                1 <= i,
                nt == self.topics@.len(),
                forall|a: int, b: int| 0 <= a < b < i ==> seq_less(self.topics@[a].id@, self.topics@[b].id@),
            decreases nt - i,
        {
            if !text_less(self.topics[i - 1].id.as_str(), self.topics[i].id.as_str()) {
                return false;
            }
            proof {
                assert forall|a: int, b: int| 0 <= a < b < i + 1 implies seq_less(
                    self.topics@[a].id@,
                    self.topics@[b].id@,
                ) by {
                    if b == i && a < i - 1 {
                        lemma_less_transitive(self.topics@[a].id@, self.topics@[i - 1].id@, self.topics@[b].id@);
                    }
                }
            }
            i = i + 1;
        }
        for i in 0..nt
            invariant
                nt == self.topics@.len(),
                forall|a: int, b: int|
                    0 <= a < nt && 0 <= b < i && a != b ==> !(self.topics@[a].chat == self.topics@[b].chat
                        && self.topics@[a].thread == self.topics@[b].thread),
        {
            for j in 0..nt
                invariant
                    nt == self.topics@.len(),
                    i < nt,
                    forall|a: int, b: int|
                        0 <= a < nt && 0 <= b < i && a != b ==> !(self.topics@[a].chat == self.topics@[b].chat
                            && self.topics@[a].thread == self.topics@[b].thread),
                    forall|a: int|
                        0 <= a < j && a != i ==> !(self.topics@[a].chat == self.topics@[i as int].chat
                            && self.topics@[a].thread == self.topics@[i as int].thread),
            {
                if j != i && self.topics[j].chat == self.topics[i].chat && self.topics[j].thread == self.topics[i].thread {
                    return false;
                }
            }
        }
        // subscriptions: by (agent, topic)
        let ns = self.subscriptions.len();
        let mut i: usize = 1;
        while i < ns
            invariant
                1 <= i,
                ns == self.subscriptions@.len(),
                forall|a: int, b: int|
                    0 <= a < b < i ==> pair_less(
                        self.subscriptions@[a].agent@,
                        self.subscriptions@[a].topic@,
                        self.subscriptions@[b].agent@,
                        self.subscriptions@[b].topic@,
                    ),
            decreases ns - i,
        {
            let p = &self.subscriptions[i - 1];
            let q = &self.subscriptions[i];
            let ordered = text_less(p.agent.as_str(), q.agent.as_str()) || (str_eq(p.agent.as_str(), q.agent.as_str())
                && text_less(p.topic.as_str(), q.topic.as_str()));
            if !ordered {
                assert(!pair_less(
                    self.subscriptions@[i - 1].agent@,
                    self.subscriptions@[i - 1].topic@,
                    self.subscriptions@[i as int].agent@,
                    self.subscriptions@[i as int].topic@,
                ));
                return false;
            }
            proof {
                let r = self.subscriptions@;
                assert forall|a: int, b: int| 0 <= a < b < i + 1 implies pair_less(
                    r[a].agent@,
                    r[a].topic@,
                    r[b].agent@,
                    r[b].topic@,
                ) by {
                    if b == i && a < i - 1 {
                        lemma_pair_transitive(
                            r[a].agent@,
                            r[a].topic@,
                            r[i - 1].agent@,
                            r[i - 1].topic@,
                            r[b].agent@,
                            r[b].topic@,
                        );
                    }
                }
            }
            i = i + 1;
        }
        // messages and deliveries: numbered
        if self.messages.len() as u64 >= 0x7fff_ffff_ffff_ffff || self.outbox.len() as u64 >= 0x7fff_ffff_ffff_ffff {
            return false;
        }
        for i in 0..self.messages.len()
            invariant
                forall|a: int| 0 <= a < i ==> #[trigger] self.messages@[a].id == a + 1,
        {
            if self.messages[i].id as u64 != i as u64 + 1 || self.messages[i].id < 0 {
                return false;
            }
        }
        for i in 0..self.outbox.len()
            invariant
                forall|a: int| 0 <= a < i ==> #[trigger] self.outbox@[a].id == a + 1,
                forall|a: int| 0 <= a < i ==> #[trigger] self.outbox@[a].attempts >= 0,
        {
            if self.outbox[i].id as u64 != i as u64 + 1 || self.outbox[i].id < 0 || self.outbox[i].attempts < 0 {
                return false;
            }
        }
        // links, users and updates: by key
        let nl = self.links.len();
        let mut i: usize = 1;
        while i < nl
            invariant
                1 <= i,
                nl == self.links@.len(),
                forall|a: int, b: int|
                    0 <= a < b < i ==> self.links@[a].chat < self.links@[b].chat || (self.links@[a].chat
                        == self.links@[b].chat && self.links@[a].telegram_id < self.links@[b].telegram_id),
            decreases nl - i,
        {
            let p = &self.links[i - 1];
            let q = &self.links[i];
            if !(p.chat < q.chat || (p.chat == q.chat && p.telegram_id < q.telegram_id)) {
                return false;
            }
            i = i + 1;
        }
        let nu = self.users.len();
        let mut i: usize = 1;
        while i < nu
            invariant
                1 <= i,
                nu == self.users@.len(),
                forall|a: int, b: int| 0 <= a < b < i ==> self.users@[a].id < self.users@[b].id,
            decreases nu - i,
        {
            if self.users[i - 1].id >= self.users[i].id {
                return false;
            }
            i = i + 1;
        }
        let nd = self.updates.len();
        let mut i: usize = 1;
        while i < nd
            invariant
                1 <= i,
                nd == self.updates@.len(),
                forall|a: int, b: int| 0 <= a < b < i ==> self.updates@[a].id < self.updates@[b].id,
            decreases nd - i,
        {
            if self.updates[i - 1].id >= self.updates[i].id {
                return false;
            }
            i = i + 1;
        }
        // topics of known Groups; subscriptions to known Topics
        assert(groups_sorted(self.groups@));
        assert(topics_sorted(self.topics@));
        for i in 0..nt
            invariant
                nt == self.topics@.len(),
                groups_sorted(self.groups@),
                forall|a: int| 0 <= a < i ==> has_group(self.groups@, (#[trigger] self.topics@[a]).chat),
        {
            let (g, known) = self.group_slot(self.topics[i].chat);
            if !known {
                proof {
                    let c = self.topics@[i as int].chat;
                    assert forall|j: int| 0 <= j < self.groups@.len() implies self.groups@[j].chat != c by {
                        if j < g {
                            assert(self.groups@[j].chat < c);
                        } else {
                            assert(c < self.groups@[j].chat);
                        }
                    }
                }
                return false;
            }
            proof {
                assert(self.groups@[g as int].chat == self.topics@[i as int].chat);
            }
        }
        for i in 0..ns
            invariant
                ns == self.subscriptions@.len(),
                topics_sorted(self.topics@),
                forall|a: int| 0 <= a < i ==> has_topic(self.topics@, (#[trigger] self.subscriptions@[a]).topic@),
        {
            let (k, known) = self.topic_slot(self.subscriptions[i].topic.as_str());
            if !known {
                proof {
                    let id = self.subscriptions@[i as int].topic@;
                    lemma_less_irreflexive(id);
                    assert forall|j: int| 0 <= j < self.topics@.len() implies self.topics@[j].id@ != id by {
                        if j < k {
                            assert(seq_less(self.topics@[j].id@, id));
                        } else {
                            assert(seq_less(id, self.topics@[j].id@));
                        }
                    }
                }
                return false;
            }
            proof {
                assert(self.topics@[k as int].id@ == self.subscriptions@[i as int].topic@);
            }
        }
        proof {
            assert forall|a: int, b: int|
                0 <= a < self.links@.len() && 0 <= b < self.links@.len() && a != b implies !(self.links@[a].chat
                == self.links@[b].chat && self.links@[a].telegram_id == self.links@[b].telegram_id) by {
                if a > b {
                    assert(self.links@[b].chat < self.links@[a].chat || (self.links@[b].chat == self.links@[a].chat
                        && self.links@[b].telegram_id < self.links@[a].telegram_id));
                }
            }
            assert forall|a: int, b: int|
                0 <= a < self.users@.len() && 0 <= b < self.users@.len() && a != b implies self.users@[a].id
                != self.users@[b].id by {
                if a > b {
                    assert(self.users@[b].id < self.users@[a].id);
                }
            }
            assert forall|a: int, b: int|
                0 <= a < self.updates@.len() && 0 <= b < self.updates@.len() && a != b implies self.updates@[a].id
                != self.updates@[b].id by {
                if a > b {
                    assert(self.updates@[b].id < self.updates@[a].id);
                }
            }
        }
        true
    }
}

/// The newest layout of the store's tables that this Gateway knows.
pub const SCHEMA_VERSION: i64 = 1;

/// What opening a store whose recorded schema version is `version` comes to: a store written
/// by a newer Gateway is refused; one that records no version yet (0) gets the tables
/// created (`Ok(true)`); any other is used as it is (`Ok(false)`).
pub fn schema_check(version: i64) -> (r: Result<bool>)
    ensures
        match r {
            Ok(create) => version <= SCHEMA_VERSION && create == (version == 0),
            Err(e) => version > SCHEMA_VERSION && is_error(
                e,
                ErrorKind::Unavailable,
                "database schema is newer than this Gateway"@,
            ),
        },
{
    if version > SCHEMA_VERSION {
        Err(Error::internal("database schema is newer than this Gateway"))
    } else {
        Ok(version == 0)
    }
}

} // verus!
