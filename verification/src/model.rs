//! Shared domain values: errors, message identifiers, and the records that the store,
//! the gateway and the delivery worker exchange.
use vstd::prelude::*;
use crate::text::{chars_of, parse_i64, parse_int, push_int, int_text, decimal, digits_value,
    all_digits, is_ascii_digit, owned, digit_char, digit_value};

verus! {

/// How a request failed; the HTTP adapter maps each kind to a status code.
#[derive(Debug, PartialEq, Eq, Structural)]
pub enum ErrorKind {
    Invalid,
    Conflict,
    Unavailable,
    NotFound,
}

#[derive(Debug)]
pub struct Error {
    pub kind: ErrorKind,
    pub message: String,
}

pub type Result<T> = std::result::Result<T, Error>;

impl Error {
    pub fn bad(message: &str) -> (e: Self)
        ensures
            e.kind == ErrorKind::Invalid,
            e.message@ == message@,
    {
        Error { kind: ErrorKind::Invalid, message: owned(message) }
    }

    pub fn conflict(message: &str) -> (e: Self)
        ensures
            e.kind == ErrorKind::Conflict,
            e.message@ == message@,
    {
        Error { kind: ErrorKind::Conflict, message: owned(message) }
    }

    pub fn internal(message: &str) -> (e: Self)
        ensures
            e.kind == ErrorKind::Unavailable,
            e.message@ == message@,
    {
        Error { kind: ErrorKind::Unavailable, message: owned(message) }
    }

    /// The text that the error displays.
    pub fn text(&self) -> (s: String)
        ensures
            s@ == self.message@,
    {
        owned(self.message.as_str())
    }
}

/// An error of the given kind and message.
pub open spec fn is_error(e: Error, kind: ErrorKind, message: Seq<char>) -> bool {
    e.kind == kind && e.message@ == message
}

/// The HTTP status that answers an error of this kind.
pub open spec fn status_of(kind: ErrorKind) -> u16 {
    match kind {
        ErrorKind::Invalid => 400,
        ErrorKind::Conflict => 409,
        ErrorKind::Unavailable => 503,
        ErrorKind::NotFound => 404,
    }
}

pub fn status_code(kind: &ErrorKind) -> (s: u16)
    ensures
        s == status_of(*kind),
{
    match kind {
        ErrorKind::Invalid => 400,
        ErrorKind::Conflict => 409,
        ErrorKind::Unavailable => 503,
        ErrorKind::NotFound => 404,
    }
}

/// `chrono::Utc::now().timestamp_millis()`: the current time in milliseconds since the Unix
/// epoch. Nothing is claimed of the value: it is the machine's clock.
#[verifier::external_body]
pub fn now() -> i64 {
    chrono::Utc::now().timestamp_millis()
}

/// What `timestamp` returns for `millis`: chrono's RFC 3339 rendering, in UTC with a `Z`
/// suffix and whole seconds, of the instant `millis` milliseconds after the epoch (the epoch
/// itself where that instant is out of chrono's range).
pub uninterp spec fn rfc3339_seconds(millis: i64) -> Seq<char>;

/// `DateTime::from_timestamp_millis(t).unwrap_or_default().to_rfc3339_opts(Secs, true)`;
/// the contract claims only that the result is the named rendering of `t`.
#[verifier::external_body]
pub fn timestamp(t: i64) -> (s: String)
    ensures
        s@ == rfc3339_seconds(t),
{
    chrono::DateTime::from_timestamp_millis(t).unwrap_or_default().to_rfc3339_opts(
        chrono::SecondsFormat::Secs,
        true,
    )
}

/// The text of a message identifier: `m` followed by the decimal sequence number.
pub open spec fn msg_text(n: int) -> Seq<char> {
    seq!['m'] + int_text(n)
}

pub fn msg_id(n: i64) -> (s: String)
    ensures
        s@ == msg_text(n as int),
{
    let mut s = owned("m");
    proof {
        reveal_strlit("m");
    }
    push_int(&mut s, n);
    s
}

/// The sequence number that `s` names, when it is `m` followed by a positive `i64`.
pub open spec fn msg_number(s: Seq<char>) -> Option<i64> {
    if s.len() > 0 && s[0] == 'm' {
        match parse_int(s.skip(1)) {
            Some(n) => if n > 0 {
                Some(n)
            } else {
                None
            },
            None => None,
        }
    } else {
        None
    }
}

pub fn parse_msg(s: &str) -> (r: Result<i64>)
    ensures
        match r {
            Ok(n) => msg_number(s@) == Some(n),
            Err(e) => msg_number(s@) is None && is_error(e, ErrorKind::Invalid, "invalid msg_id"@),
        },
{
    let v = chars_of(s);
    if v.len() > 0 && v[0] == 'm' {
        let rest = slice_from(v.as_slice(), 1);
        match parse_i64(rest) {
            Some(n) => if n > 0 {
                return Ok(n);
            },
            None => {},
        }
    }
    Err(Error::bad("invalid msg_id"))
}

fn slice_from(v: &[char], k: usize) -> (r: &[char])
    requires
        k <= v@.len(),
    ensures
        r@ == v@.skip(k as int),
{
    let r = vstd::slice::slice_subrange(v, k, v.len());
    assert(r@ == v@.skip(k as int));
    r
}

proof fn lemma_decimal_parses(n: nat)
    ensures
        decimal(n).len() > 0,
        all_digits(decimal(n)),
        digits_value(decimal(n)) == n,
        decimal(n)[0] != '-' && decimal(n)[0] != '+',
    decreases n,
{
    if n < 10 {
        assert(decimal(n) == seq![digit_char(n)]);
        assert(digit_value(digit_char(n)) == n);
        assert(seq![digit_char(n)].drop_last() =~= Seq::<char>::empty());
        assert(digits_value(decimal(n)) == digits_value(Seq::<char>::empty()) * 10 + n);
    } else {
        lemma_decimal_parses(n / 10);
        let d = decimal(n);
        assert(d == decimal(n / 10).push(digit_char(n % 10)));
        assert(d.drop_last() == decimal(n / 10));
        assert(digit_value(digit_char(n % 10)) == n % 10);
        assert(d.last() == digit_char(n % 10));
        assert((n / 10) * 10 + n % 10 == n);
        assert forall|i: int| 0 <= i < d.len() implies is_ascii_digit(#[trigger] d[i]) by {
            if i < d.len() - 1 {
                assert(d[i] == decimal(n / 10)[i]);
            }
        }
        assert(d[0] == decimal(n / 10)[0]);
    }
}

/// Every positive sequence number survives a round trip through its text.
pub proof fn lemma_msg_id_round_trip(n: i64)
    requires
        n > 0,
    ensures
        msg_number(msg_text(n as int)) == Some(n),
{
    lemma_decimal_parses(n as nat);
    let t = msg_text(n as int);
    assert(t.skip(1) == decimal(n as nat));
}

/// Who wrote a conversation message.
#[derive(Debug)]
pub enum Sender {
    Agent { name: String },
    User { user_id: i64 },
}

/// A conversation message as the reading commands return it.
#[derive(Debug)]
pub struct Message {
    pub msg_id: String,
    pub sent_at: String,
    pub sender: Sender,
    pub content: String,
    pub quote_msg_id: Option<String>,
}

/// One of an Agent's subscriptions.
#[derive(Debug)]
pub struct Subscription {
    pub topic: String,
    pub last_acked_msg_id: Option<String>,
    pub muted: bool,
}

#[derive(Debug)]
pub struct GroupInfo {
    pub group: String,
    pub name: String,
    pub connected: bool,
    pub available: bool,
}

#[derive(Debug)]
pub struct TopicInfo {
    pub topic: String,
    pub name: String,
    pub group: String,
    pub status: String,
}

/// A Topic joined with its Group's availability.
#[derive(Debug)]
pub struct Topic {
    pub id: String,
    pub chat: i64,
    pub thread: i64,
    pub name: String,
    pub owner: Option<String>,
    pub closed: bool,
    pub available: bool,
}

/// One outbox entry handed to the delivery worker.
#[derive(Debug)]
pub struct Job {
    pub id: i64,
    pub message: Option<i64>,
    pub chat: i64,
    pub payload: Delivery,
    pub attempts: i64,
}

/// What a delivery does on Telegram.
#[derive(Debug)]
pub enum Delivery {
    Send { text: String, thread: Option<i64>, quote: Option<i64> },
    Heart { target: Option<i64> },
}

} // verus!
