//! The Client's side of a request: where it goes, whether it may time out, and what a
//! refusal or a failed exchange reads as.
use vstd::prelude::*;
use crate::json::Json;
use crate::text::{int_text, owned, push_int, push_str};

verus! {

/// Why a request to the Gateway did not get an answer.
#[derive(Debug)]
#[allow(inconsistent_fields)]
pub enum ClientError {
    /// The exchange itself failed.
    Transport { endpoint: String, detail: String },
    /// The Gateway refused the request.
    Rejected { endpoint: String, status: u16, message: String },
}

impl ClientError {
    /// What the error reads as.
    pub open spec fn text_of(self) -> Seq<char> {
        match self {
            ClientError::Transport { endpoint, detail } => endpoint@ + ": "@ + detail@,
            ClientError::Rejected { endpoint, status, message } => endpoint@ + ": HTTP "@ + int_text(
                status as int,
            ) + ": "@ + message@,
        }
    }

    /// What the error reads as.
    pub fn describe(&self) -> (s: String)
        ensures
            s@ == self.text_of(),
    {
        match self {
            ClientError::Transport { endpoint, detail } => {
                let mut s = owned(endpoint.as_str());
                push_str(&mut s, ": ");
                push_str(&mut s, detail.as_str());
                s
            },
            ClientError::Rejected { endpoint, status, message } => {
                let mut s = owned(endpoint.as_str());
                push_str(&mut s, ": HTTP ");
                push_int(&mut s, *status as i64);
                push_str(&mut s, ": ");
                push_str(&mut s, message.as_str());
                s
            },
        }
    }
}

/// Where a command goes: `/v1/` and its route, after the Gateway's endpoint.
pub fn route_url(endpoint: &str, route: &str) -> (s: String)
    ensures
        s@ == endpoint@ + "/v1/"@ + route@,
{
    let mut s = owned(endpoint);
    push_str(&mut s, "/v1/");
    push_str(&mut s, route);
    s
}

/// Every request but a wait gives up after a while.
pub fn times_out(route: &str) -> (r: bool)
    ensures
        r == (route@ != "wait"@),
{
    !crate::text::str_eq(route, "wait")
}

/// The error for a refusal with HTTP status `status`: the answer's `error` text, or a
/// generic one.
pub fn rejection(endpoint: String, status: u16, body: &Json) -> (e: ClientError)
    ensures
        e matches ClientError::Rejected { endpoint: p, status: s, message } && p == endpoint && s == status
            && message@ == match body.at("error"@).str_of() {
            Some(m) => m,
            None => "Gateway rejected request"@,
        },
{
    let message = match body.str_at("error") {
        Some(m) => m,
        None => owned("Gateway rejected request"),
    };
    ClientError::Rejected { endpoint, status, message }
}

} // verus!
