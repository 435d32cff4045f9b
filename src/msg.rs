use vstd::prelude::*;

use crate::state::{Ballot, Poll};

verus! {

/// Setup request; without an admin the sender becomes the admin.
#[derive(Clone, Debug, PartialEq)]
pub struct InstantiateMsg {
    pub admin: Option<String>,
}

/// State-changing requests. The sender's identity comes with the request.
#[derive(Clone, Debug, PartialEq)]
pub enum ExecuteMsg {
    CreatePoll { uuid: String, question: String, options: Vec<String> },
    Vote { uuid: String, option: String },
}

/// Read-only requests.
#[derive(Clone, Debug, PartialEq)]
pub enum QueryMsg {
    AllPolls {},
    GetPoll { uuid: String },
    GetVote { uuid: String, address: String },
}

/// Every poll, in ascending identifier order.
#[derive(Clone, Debug, PartialEq)]
pub struct AllPollsResponse {
    pub polls: Vec<Poll>,
}

/// One poll, if it exists.
#[derive(Clone, Debug, PartialEq)]
pub struct PollResponse {
    pub poll: Option<Poll>,
}

/// One voter's ballot in one poll, if any.
#[derive(Clone, Debug, PartialEq)]
pub struct VoteResponse {
    pub ballot: Option<Ballot>,
}

/// The answer to a [`QueryMsg`], one variant per request kind.
#[derive(Clone, Debug, PartialEq)]
pub enum QueryResponse {
    AllPolls(AllPollsResponse),
    Poll(PollResponse),
    Vote(VoteResponse),
}

/// Migration request; it carries nothing, as there is nothing to migrate.
#[derive(Clone, Debug, PartialEq)]
pub struct MigrateMsg {}

/// The record a successful request leaves for observers: (key, value) attributes.
#[derive(Clone, Debug, PartialEq)]
pub struct Response {
    pub attributes: Vec<(String, String)>,
}

impl View for Response {
    type V = Seq<(Seq<char>, Seq<char>)>;

    open spec fn view(&self) -> Seq<(Seq<char>, Seq<char>)> {
        self.attributes@.map_values(|a: (String, String)| (a.0@, a.1@))
    }
}

} // verus!
