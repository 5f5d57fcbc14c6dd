//! The delivery queue's decisions: which queued delivery goes to Telegram next, which wait
//! and why, and what an attempt's outcome does to the queue. Sends of one Topic go out in
//! order, a quote waits for the quoted message's delivery, and a receipt waits for the
//! message it marks.
use vstd::prelude::*;
use crate::db::{
    JobStatus, LinkRow, OutboxRow, Tx, has_link, due_rows, earlier_send_exists, first_platform_id, is_storage_failure,
    is_unknown_topic, job_of, job_row, joined, linked, meta_value, outbox_numbered, retry_at, same_delivery,
};
use crate::json::Json;
use crate::model::{Delivery, Error, Job, Result};
use crate::telegram::Failure;
use crate::gateway::logged;
use crate::text::{chars_of, int_text, parse_i64, parse_int};

verus! {

/// Why a due delivery waits.
#[derive(Debug, PartialEq, Eq, Structural, Clone, Copy)]
pub enum Hold {
    /// Its Topic is closed or its Group unavailable.
    Unavailable,
    /// An earlier send of the same Topic is not done.
    EarlierSend,
    /// The message it quotes has not reached Telegram.
    Quote,
    /// The message it marks as read has not reached Telegram.
    Receipt,
}

/// The reason recorded for a held delivery.
pub open spec fn hold_text(h: Hold) -> Seq<char> {
    match h {
        Hold::Unavailable => "Topic closed or Group unavailable"@,
        Hold::EarlierSend => "waiting for earlier send in Topic"@,
        Hold::Quote => "waiting for quoted message delivery"@,
        Hold::Receipt => "waiting for message delivery before receipt"@,
    }
}

fn hold_str(h: Hold) -> (s: &'static str)
    ensures
        s@ == hold_text(h),
{
    match h {
        Hold::Unavailable => "Topic closed or Group unavailable",
        Hold::EarlierSend => "waiting for earlier send in Topic",
        Hold::Quote => "waiting for quoted message delivery",
        Hold::Receipt => "waiting for message delivery before receipt",
    }
}

/// What becomes of a due delivery.
#[derive(Debug, PartialEq, Eq, Structural, Clone, Copy)]
pub enum Verdict {
    /// It waits.
    Hold(Hold),
    /// It goes out, naming this Telegram message as quote or receipt target when `Some`.
    Claim(Option<i64>),
    /// Its message is missing.
    Lost,
    /// Its message's Topic is unknown.
    Unknown,
}

/// The verdict on delivery `id` of `message` to `chat`, a send or a receipt.
pub open spec fn verdict(tx: Tx, id: i64, message: Option<i64>, chat: i64, send: bool) -> Verdict {
    match message {
        None => Verdict::Claim(None),
        Some(msg) => if !(1 <= msg <= tx.messages@.len()) {
            Verdict::Lost
        } else {
            let m = tx.messages@[msg - 1];
            match joined(tx.topics@, tx.groups@, m.topic@) {
                None => Verdict::Unknown,
                Some((row, g)) => if send {
                    if !(g.connected && g.available) || row.closed {
                        Verdict::Hold(Hold::Unavailable)
                    } else if earlier_send_exists(tx.outbox@, tx.messages@, row.id@, id) {
                        Verdict::Hold(Hold::EarlierSend)
                    } else {
                        match m.quote {
                            Some(q) => match first_platform_id(tx.links@, q, chat) {
                                Some(t) => Verdict::Claim(Some(t)),
                                None => Verdict::Hold(Hold::Quote),
                            },
                            None => Verdict::Claim(None),
                        }
                    }
                } else {
                    match first_platform_id(tx.links@, msg, chat) {
                        Some(t) => Verdict::Claim(Some(t)),
                        None => Verdict::Hold(Hold::Receipt),
                    }
                },
            }
        },
    }
}

/// The verdict on an outbox row.
pub open spec fn row_verdict(tx: Tx, o: OutboxRow) -> Verdict {
    verdict(tx, o.id, o.message, o.chat, o.payload is Send)
}

/// Decides what becomes of a due delivery.
fn decide(tx: &Tx, job: &Job) -> (r: Verdict)
    requires
        tx.wf(),
    ensures
        r == verdict(*tx, job.id, job.message, job.chat, job.payload is Send),
{
    let msg = match job.message {
        None => return Verdict::Claim(None),
        Some(m) => m,
    };
    let (topic, quote) = match tx.delivery_context(msg) {
        Ok(x) => x,
        Err(e) => {
            if msg >= 1 && (msg as u64) <= (tx.messages.len() as u64) {
                return Verdict::Unknown;
            }
            return Verdict::Lost;
        },
    };
    match &job.payload {
        Delivery::Send { .. } => {
            if !topic.available || topic.closed {
                return Verdict::Hold(Hold::Unavailable);
            }
            if tx.earlier_send(topic.id.as_str(), job.id) {
                return Verdict::Hold(Hold::EarlierSend);
            }
            match quote {
                Some(q) => match tx.platform_message(q, job.chat) {
                    Some(t) => Verdict::Claim(Some(t)),
                    None => Verdict::Hold(Hold::Quote),
                },
                None => Verdict::Claim(None),
            }
        },
        Delivery::Heart { .. } => match tx.platform_message(msg, job.chat) {
            Some(t) => Verdict::Claim(Some(t)),
            None => Verdict::Hold(Hold::Receipt),
        },
    }
}

/// How many due rows, from the first, are held.
pub open spec fn held_count(tx: Tx, rows: Seq<OutboxRow>) -> nat
    decreases rows.len(),
{
    if rows.len() == 0 {
        0
    } else if row_verdict(tx, rows[0]) is Hold {
        1 + held_count(tx, rows.skip(1))
    } else {
        0
    }
}

/// The due rows lie in the outbox at their numbers, in increasing order.
proof fn lemma_due_rows(rows: Seq<OutboxRow>, now: i64)
    requires
        outbox_numbered(rows),
    ensures
        forall|k: int|
            0 <= k < due_rows(rows, now).len() ==> 1 <= (#[trigger] due_rows(rows, now)[k]).id <= rows.len()
                && rows[due_rows(rows, now)[k].id - 1] == due_rows(rows, now)[k],
        forall|k1: int, k2: int|
            0 <= k1 < k2 < due_rows(rows, now).len() ==> due_rows(rows, now)[k1].id < due_rows(rows, now)[k2].id,
    decreases rows.len(),
{
    if rows.len() > 0 {
        let front = rows.drop_last();
        assert forall|i: int| 0 <= i < front.len() implies #[trigger] front[i].id == i + 1 by {
            assert(front[i] == rows[i]);
        }
        lemma_due_rows(front, now);
        let d = due_rows(rows, now);
        let e = due_rows(front, now);
        assert forall|k: int| 0 <= k < d.len() implies 1 <= (#[trigger] d[k]).id <= rows.len() && rows[d[k].id
            - 1] == d[k] by {
            if k < e.len() {
                assert(d[k] == e[k]);
                assert(front[e[k].id - 1] == rows[e[k].id - 1]);
            } else {
                assert(d[k] == rows.last());
                assert(rows[rows.len() - 1].id == rows.len());
            }
        }
        assert forall|k1: int, k2: int| 0 <= k1 < k2 < d.len() implies d[k1].id < d[k2].id by {
            if k2 < e.len() {
                assert(d[k1] == e[k1] && d[k2] == e[k2]);
            } else {
                assert(d[k1] == e[k1]);
                assert(d[k2] == rows.last());
                assert(rows[rows.len() - 1].id == rows.len());
            }
        }
    }
}

/// Delivery `id` is one of the first `k` due rows.
pub open spec fn held_id(rows: Seq<OutboxRow>, k: int, id: i64) -> bool {
    exists|i: int| 0 <= i < k && rows[i].id == id
}

/// Row `f` is row `o` held back until `until` for reason `h`.
pub open spec fn held_row(f: OutboxRow, o: OutboxRow, h: Hold, until: i64) -> bool {
    &&& f.status == JobStatus::Blocked
    &&& f.error is Some && f.error.unwrap()@ == hold_text(h)
    &&& f.next_attempt == until
    &&& f.id == o.id && f.kind@ == o.kind@ && f.message == o.message && f.chat == o.chat
    &&& same_delivery(f.payload, o.payload) && f.attempts == o.attempts
}

/// `new` is `old` with the first `k` due rows held back until `until`, each for its reason.
pub open spec fn held_back(old: Tx, new: Tx, rows: Seq<OutboxRow>, k: int, until: i64) -> bool {
    &&& new.outbox@.len() == old.outbox@.len()
    &&& (Tx { outbox: new.outbox, ..old }) == new
    &&& forall|j: int|
        #![trigger new.outbox@[j]]
        0 <= j < old.outbox@.len() ==> if held_id(rows, k, old.outbox@[j].id) {
            held_row(new.outbox@[j], old.outbox@[j], row_verdict(old, old.outbox@[j])->Hold_0, until)
        } else {
            new.outbox@[j] == old.outbox@[j]
        }
}

/// The job handed out for row `o`: the row's delivery, naming Telegram message `set` as its
/// quote or receipt target when `Some`.
pub open spec fn claimed_job(j: Job, o: OutboxRow, set: Option<i64>) -> bool {
    &&& j.id == o.id && j.message == o.message && j.chat == o.chat && j.attempts == o.attempts
    &&& match set {
        None => same_delivery(j.payload, o.payload),
        Some(t) => match (j.payload, o.payload) {
            (Delivery::Send { text: a, thread: h1, quote: q }, Delivery::Send { text: b, thread: h2, .. }) => a@
                == b@ && h1 == h2 && q == Some(t),
            (Delivery::Heart { target }, Delivery::Heart { .. }) => target == Some(t),
            _ => false,
        },
    }
}

/// `new` is `old` with row `o` handed to the worker: in flight, one more attempt, no error.
pub open spec fn claimed(old: Tx, new: Tx, o: OutboxRow) -> bool {
    let f = new.outbox@[o.id - 1];
    &&& new.outbox@ == old.outbox@.update(o.id - 1, f)
    &&& f.status == JobStatus::Inflight
    &&& f.attempts == o.attempts + 1
    &&& f.error is None
    &&& f.id == o.id && f.kind@ == o.kind@ && f.message == o.message && f.chat == o.chat
    &&& same_delivery(f.payload, o.payload) && f.next_attempt == o.next_attempt
    &&& (Tx { outbox: new.outbox, ..old }) == new
}

/// Until when Telegram's rate limit holds every delivery back: the stored time, 0 when none
/// or unreadable.
pub open spec fn blocked_until(tx: Tx) -> i64 {
    match meta_value(tx.meta@, "telegram_blocked_until"@) {
        Some(s) => match parse_int(s) {
            Some(n) => n,
            None => 0,
        },
        None => 0,
    }
}

fn rate_limit(tx: &Tx) -> (r: i64)
    requires
        tx.wf(),
    ensures
        r == blocked_until(*tx),
{
    match tx.meta("telegram_blocked_until") {
        Some(s) => match parse_i64(chars_of(s.as_str()).as_slice()) {
            Some(n) => n,
            None => 0,
        },
        None => 0,
    }
}

/// Fills in the quote or receipt target of a claimed job.
fn with_target(job: Job, set: Option<i64>) -> (r: Job)
    ensures
        forall|o: OutboxRow| job_of(job, o) ==> claimed_job(r, o, set),
{
    match set {
        None => job,
        Some(t) => {
            let payload = match job.payload {
                Delivery::Send { text, thread, quote: _ } => Delivery::Send { text, thread, quote: Some(t) },
                Delivery::Heart { target: _ } => Delivery::Heart { target: Some(t) },
            };
            Job { id: job.id, message: job.message, chat: job.chat, payload, attempts: job.attempts }
        },
    }
}

/// `new` is `old` with delivery `job` done, and that recorded.
pub open spec fn completed_state(old: Tx, new: Tx, job: Job, now: i64) -> bool {
    &&& (Tx { outbox: new.outbox, management: new.management, ..old }) == new
    &&& match job_row(old.outbox@, job.id) {
        Some(o) => {
            let f = new.outbox@[job.id - 1];
            &&& new.outbox@ == old.outbox@.update(job.id - 1, f)
            &&& f.status == JobStatus::Done && f.error is None
            &&& f.id == o.id && f.kind@ == o.kind@ && f.message == o.message && f.chat == o.chat
            &&& same_delivery(f.payload, o.payload) && f.attempts == o.attempts
            &&& f.next_attempt == o.next_attempt
        },
        None => new.outbox@ == old.outbox@,
    }
    &&& logged(old, new, "delivery"@, now)
    &&& new.management@.last().detail.at("job"@) == Json::Int(job.id)
    &&& new.management@.last().detail.at("status"@).str_of() == Some("done"@)
}

/// `new` is `old` with delivery `job` failed: retried `delay` seconds after `now`, held
/// (`blocked`) or pending, with the error; a rate limit also holds every delivery back until
/// then. The failure is recorded.
pub open spec fn failed_state(old: Tx, new: Tx, job: Job, detail: Seq<char>, delay: i64, blocked: bool, rate: bool, now: i64) -> bool {
    let next = retry_at(now, delay);
    &&& (Tx { outbox: new.outbox, management: new.management, meta: new.meta, ..old }) == new
    &&& match job_row(old.outbox@, job.id) {
        Some(o) => {
            let f = new.outbox@[job.id - 1];
            &&& new.outbox@ == old.outbox@.update(job.id - 1, f)
            &&& f.status == (if blocked {
                JobStatus::Blocked
            } else {
                JobStatus::Pending
            })
            &&& f.next_attempt == next
            &&& f.error is Some && f.error.unwrap()@ == detail
            &&& f.id == o.id && f.kind@ == o.kind@ && f.message == o.message && f.chat == o.chat
            &&& same_delivery(f.payload, o.payload) && f.attempts == o.attempts
        },
        None => new.outbox@ == old.outbox@,
    }
    &&& if rate {
        &&& meta_value(new.meta@, "telegram_blocked_until"@) == Some(int_text(next as int))
        &&& forall|k: Seq<char>|
            k != "telegram_blocked_until"@ ==> meta_value(new.meta@, k) == meta_value(old.meta@, k)
    } else {
        new.meta == old.meta
    }
    &&& logged(old, new, "delivery"@, now)
    &&& new.management@.last().detail.at("job"@) == Json::Int(job.id)
    &&& new.management@.last().detail.at("status"@).str_of() == Some("retry"@)
    &&& new.management@.last().detail.at("error"@).str_of() == Some(detail)
}

/// `new` is `old` with Telegram message `tid` in `chat` linked to `msg`, unless that Telegram
/// message is linked already.
pub open spec fn link_made(old: Tx, new: Tx, chat: i64, tid: i64, msg: i64) -> bool {
    &&& (Tx { links: new.links, ..old }) == new
    &&& new.links@ == if has_link(old.links@, chat, tid) {
        old.links@
    } else {
        old.links@.push(LinkRow { chat, telegram_id: tid, message: msg })
    }
}

/// Telegram refused the request itself: a 4xx status other than 429 (too many requests).
pub open spec fn is_refusal(code: u16) -> bool {
    400 <= code < 500 && code != 429
}

/// 2 to the power `n`.
pub open spec fn two_to(n: nat) -> int
    decreases n,
{
    if n == 0 {
        1
    } else {
        2 * two_to((n - 1) as nat)
    }
}

/// How long to wait before the next attempt, in seconds: a minute after a refusal; else what
/// Telegram asked for, or 2 to the power of the attempts so far, at most 256; at least 1.
pub open spec fn retry_delay(f: Failure, attempts: i64) -> i64 {
    let d: int = if is_refusal(f.code) {
        60
    } else {
        match f.retry_after {
            Some(s) => s as int,
            None => two_to(if attempts >= 8 {
                8nat
            } else {
                attempts as nat
            }),
        }
    };
    if d < 1 {
        1
    } else {
        d as i64
    }
}

/// `1 << min(attempts, 8)`.
fn backoff(attempts: i64) -> (d: i64)
    requires
        attempts >= 0,
    ensures
        d == two_to(if attempts >= 8 {
            8nat
        } else {
            attempts as nat
        }),
{
    let m: i64 = if attempts >= 8 {
        8
    } else {
        attempts
    };
    let mut d: i64 = 1;
    let mut i: i64 = 0;
    while i < m
        invariant
            0 <= i <= m <= 8,
            d == two_to(i as nat),
            d <= 256,
        decreases m - i,
    {
        proof {
            assert(two_to((i + 1) as nat) == 2 * two_to(i as nat));
            reveal_with_fuel(two_to, 9);
            assert(two_to(i as nat) <= two_to(7)) by {
                lemma_two_to_grows(i as nat, 7);
            }
        }
        d = d * 2;
        i = i + 1;
    }
    d
}

pub proof fn lemma_two_to_grows(a: nat, b: nat)
    requires
        a <= b,
    ensures
        two_to(a) <= two_to(b),
        two_to(a) >= 1,
    decreases b,
{
    if a < b {
        lemma_two_to_grows(a, (b - 1) as nat);
    } else if a > 0 {
        lemma_two_to_grows((a - 1) as nat, (a - 1) as nat);
    }
}

impl crate::gateway::Gateway {
    /// Picks the next delivery for the worker. While Telegram's rate limit holds, none. Else
    /// the due deliveries are taken by id: each one that must wait is held back for a second
    /// with its reason, and the first that may go out is claimed and handed out with its quote
    /// or receipt target. When a due delivery's message or Topic is missing, nothing changes.
    pub fn prepare_delivery(&self, tx: &mut Tx, now: i64) -> (r: Result<Option<Job>>)
        requires
            old(tx).wf(),
            now <= i64::MAX - 1000,
        ensures
            final(tx).wf(),
            r matches Ok(Some(job)) ==> job.attempts >= 0,
            if blocked_until(*old(tx)) > now {
                r matches Ok(None) && *final(tx) == *old(tx)
            } else {
                let rows = due_rows(old(tx).outbox@, now);
                let k = held_count(*old(tx), rows) as int;
                match r {
                    Ok(None) => k == rows.len() && held_back(*old(tx), *final(tx), rows, k, (now + 1000) as i64),
                    Ok(Some(job)) => {
                        &&& k < rows.len()
                        &&& row_verdict(*old(tx), rows[k]) matches Verdict::Claim(set) && claimed_job(job, rows[k], set)
                        &&& exists|mid: Tx|
                            #![trigger held_back(*old(tx), mid, rows, k, (now + 1000) as i64)]
                            held_back(*old(tx), mid, rows, k, (now + 1000) as i64) && claimed(mid, *final(tx), rows[k])
                    },
                    Err(e) => *final(tx) == *old(tx) && k < rows.len() && match row_verdict(*old(tx), rows[k]) {
                        Verdict::Lost => is_storage_failure(e),
                        Verdict::Unknown => is_unknown_topic(e),
                        Verdict::Claim(_) => rows[k].attempts == i64::MAX && is_storage_failure(e),
                        Verdict::Hold(_) => false,
                    },
                }
            },
    {
        if rate_limit(tx) > now {
            return Ok(None);
        }
        let mut jobs = tx.due_jobs(now);
        let ghost old_tx = *tx;
        let ghost rows = due_rows(tx.outbox@, now);
        proof {
            lemma_due_rows(tx.outbox@, now);
            assert(rows.skip(0) =~= rows);
        }
        let mut holds: Vec<Hold> = Vec::new();
        let mut k: usize = 0;
        let mut chosen: Option<Verdict> = None;
        while chosen.is_none() && k < jobs.len()
            invariant
                tx.wf(),
                *tx == old_tx,
                rows == due_rows(old_tx.outbox@, now),
                jobs@.len() == rows.len(),
                forall|i: int| 0 <= i < rows.len() ==> job_of(#[trigger] jobs@[i], rows[i]),
                k <= jobs@.len(),
                holds@.len() == k,
                forall|i: int| 0 <= i < k ==> row_verdict(old_tx, rows[i]) == Verdict::Hold(#[trigger] holds@[i]),
                held_count(old_tx, rows) == k + held_count(old_tx, rows.skip(k as int)),
                chosen matches Some(v) ==> k < rows.len() && v == row_verdict(old_tx, rows[k as int]) && !(v is Hold),
            decreases jobs@.len() - k, if chosen is None { 1int } else { 0int },
        {
            let v = decide(tx, &jobs[k]);
            assert(v == row_verdict(old_tx, rows[k as int]));
            let ghost rest = rows.skip(k as int);
            assert(rest[0] == rows[k as int]);
            assert(rest.skip(1) =~= rows.skip(k + 1));
            match v {
                Verdict::Hold(h) => {
                    holds.push(h);
                    k = k + 1;
                },
                _ => {
                    chosen = Some(v);
                },
            }
        }
        proof {
            if chosen is None {
                assert(rows.skip(k as int).len() == 0);
            } else {
                assert(rows.skip(k as int)[0] == rows[k as int]);
            }
        }
        assert(held_count(old_tx, rows) == k);
        match chosen {
            Some(Verdict::Lost) => {
                return Err(Error::internal("database operation failed"));
            },
            Some(Verdict::Unknown) => {
                return Err(Error::bad("unknown Topic"));
            },
            Some(Verdict::Claim(_)) => {
                if jobs[k].attempts == i64::MAX {
                    return Err(Error::internal("database operation failed"));
                }
            },
            _ => {},
        }
        let until: i64 = now + 1000;
        for i in 0..k
            invariant
                tx.wf(),
                old_tx.wf(),
                rows == due_rows(old_tx.outbox@, now),
                outbox_numbered(old_tx.outbox@),
                jobs@.len() == rows.len(),
                forall|q: int| 0 <= q < rows.len() ==> job_of(#[trigger] jobs@[q], rows[q]),
                forall|q: int|
                    0 <= q < rows.len() ==> 1 <= (#[trigger] rows[q]).id <= old_tx.outbox@.len()
                        && old_tx.outbox@[rows[q].id - 1] == rows[q],
                forall|q1: int, q2: int| 0 <= q1 < q2 < rows.len() ==> rows[q1].id < rows[q2].id,
                k <= jobs@.len(),
                holds@.len() == k,
                forall|q: int| 0 <= q < k ==> row_verdict(old_tx, rows[q]) == Verdict::Hold(#[trigger] holds@[q]),
                held_back(old_tx, *tx, rows, i as int, until),
        {
            let ghost before = *tx;
            let id = jobs[i].id;
            match tx.defer(id, hold_str(holds[i]), until) {
                Ok(_) => {},
                Err(_) => {
                    assert(false);
                },
            }
            proof {
                let o = rows[i as int];
                assert(old_tx.outbox@[o.id - 1] == o);
                assert(!held_id(rows, i as int, o.id)) by {
                    if held_id(rows, i as int, o.id) {
                        let q = choose|q: int| 0 <= q < i && rows[q].id == o.id;
                        assert(rows[q].id < rows[i as int].id);
                    }
                }
                assert(before.outbox@[o.id - 1] == o);
                assert forall|j: int| 0 <= j < old_tx.outbox@.len() implies #[trigger] tx.outbox@[j] == (if held_id(
                    rows,
                    i + 1,
                    old_tx.outbox@[j].id,
                ) {
                    tx.outbox@[j]
                } else {
                    old_tx.outbox@[j]
                }) && (held_id(rows, i + 1, old_tx.outbox@[j].id) ==> held_row(
                    tx.outbox@[j],
                    old_tx.outbox@[j],
                    row_verdict(old_tx, old_tx.outbox@[j])->Hold_0,
                    until,
                )) by {
                    assert(old_tx.outbox@[j].id == j + 1);
                    if j == o.id - 1 {
                        assert(held_id(rows, i + 1, old_tx.outbox@[j].id));
                        assert(row_verdict(old_tx, rows[i as int]) == Verdict::Hold(holds@[i as int]));
                    } else {
                        assert(tx.outbox@[j] == before.outbox@[j]);
                        if held_id(rows, i + 1, old_tx.outbox@[j].id) {
                            let q = choose|q: int| 0 <= q < i + 1 && rows[q].id == old_tx.outbox@[j].id;
                            assert(q != i);
                            assert(held_id(rows, i as int, old_tx.outbox@[j].id));
                        } else {
                            assert(!held_id(rows, i as int, old_tx.outbox@[j].id)) by {
                                if held_id(rows, i as int, old_tx.outbox@[j].id) {
                                    let q = choose|q: int| 0 <= q < i && rows[q].id == old_tx.outbox@[j].id;
                                    assert(held_id(rows, i + 1, old_tx.outbox@[j].id));
                                }
                            }
                        }
                    }
                }
            }
        }
        let ghost mid = *tx;
        match chosen {
            Some(Verdict::Claim(set)) => {
                let job = jobs.remove(k);
                proof {
                    let o = rows[k as int];
                    assert(old_tx.outbox@[o.id - 1] == o);
                    assert(!held_id(rows, k as int, o.id)) by {
                        if held_id(rows, k as int, o.id) {
                            let q = choose|q: int| 0 <= q < k && rows[q].id == o.id;
                            assert(rows[q].id < rows[k as int].id);
                        }
                    }
                    assert(mid.outbox@[o.id - 1] == o);
                }
                match tx.claim(job.id) {
                    Ok(()) => {},
                    Err(e) => {
                        assert(false);
                        return Err(e);
                    },
                }
                let out = with_target(job, set);
                Ok(Some(out))
            },
            _ => Ok(None),
        }
    }

    /// Records what an attempt came to. A delivered message is linked to the Telegram message
    /// that carries it, and the delivery is done. A failed one is retried: after a minute
    /// when Telegram refused it, held until then; otherwise after the time Telegram asked
    /// for or an exponential backoff, and a rate limit holds every delivery back until then.
    /// The job is one that `prepare_delivery` handed out, whose count of attempts is never
    /// negative.
    pub fn complete_delivery(&self, tx: &mut Tx, job: Job, result: core::result::Result<Option<i64>, Failure>, now: i64) -> (r: Result<()>)
        requires
            old(tx).wf(),
            job.attempts >= 0,
        ensures
            final(tx).wf(),
            r is Ok,
            match result {
                Ok(platform_id) => exists|mid: Tx|
                    #![trigger completed_state(mid, *final(tx), job, now)]
                    (if job.message is Some && platform_id is Some {
                        link_made(*old(tx), mid, job.chat, platform_id.unwrap(), job.message.unwrap())
                    } else {
                        mid == *old(tx)
                    }) && completed_state(mid, *final(tx), job, now),
                Err(f) => failed_state(
                    *old(tx),
                    *final(tx),
                    job,
                    f.detail@,
                    retry_delay(f, job.attempts),
                    is_refusal(f.code),
                    f.code == 429,
                    now,
                ),
            },
    {
        match result {
            Ok(platform_id) => {
                match (job.message, platform_id) {
                    (Some(message), Some(pid)) => tx.map(job.chat, pid, message),
                    _ => {},
                }
                let ghost mid = *tx;
                let r = tx.completed(&job, now);
                assert(completed_state(mid, *tx, job, now));
                r
            },
            Err(e) => {
                let blocked = 400 <= e.code && e.code < 500 && e.code != 429;
                let delay: i64 = if blocked {
                    60
                } else {
                    match e.retry_after {
                        Some(s) => s,
                        None => backoff(job.attempts),
                    }
                };
                let delay = if delay < 1 {
                    1
                } else {
                    delay
                };
                tx.failed(&job, e.detail.as_str(), delay, blocked, e.code == 429, now)
            },
        }
    }
}

} // verus!
