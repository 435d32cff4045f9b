use vstd::prelude::*;
use vstd::string::*;

use crate::ballot_ledger::BallotLedger;
use crate::error::ContractError;
use crate::msg::{
    AllPollsResponse, ExecuteMsg, InstantiateMsg, PollResponse, QueryMsg, QueryResponse, Response,
    VoteResponse,
};
use crate::order::ascending_order;
use crate::poll_store::PollStore;
use crate::state::{has_label, label_index, Ballot, Config, Poll, PollView};
use crate::tally::{
    ballots_in, created, lemma_counts_bounded, lemma_create_keeps_tallies,
    lemma_totals_match_ballots, lemma_vote_keeps_tallies, prior_of, tallies_match, total_votes,
    voted, TallyView,
};

verus! {

/// Most options a poll may have; bounds the per-option scan done by every vote.
pub const MAX_OPTIONS: usize = 10;

/// The labels of a list of option names.
pub open spec fn labels_of(options: Seq<String>) -> Seq<Seq<char>> {
    options.map_values(|o: String| o@)
}

/// A newly created poll: options in the order given, every count zero.
pub open spec fn fresh_poll(
    creator: Seq<char>,
    question: Seq<char>,
    labels: Seq<Seq<char>>,
) -> PollView {
    PollView { creator, question, labels, counts: Seq::new(labels.len(), |i: int| 0nat) }
}

/// Labels and counts line up.
pub open spec fn poll_shape(p: PollView) -> bool {
    p.labels.len() == p.counts.len()
}

/// Every count can be held in a `u64`.
pub open spec fn counts_fit(p: PollView) -> bool {
    forall|i: int| 0 <= i < p.counts.len() ==> p.counts[i] <= u64::MAX
}

/// The option recorded by an optional ballot.
pub open spec fn choice_of(b: Option<Ballot>) -> Option<Seq<char>> {
    match b {
        Some(b) => Some(b@),
        None => None,
    }
}

/// Counts after taking one vote away from `label`; nothing happens where the label is
/// missing or its count is already zero.
pub open spec fn withdraw(p: PollView, label: Seq<char>) -> Seq<nat> {
    let k = label_index(p.labels, label);
    if k < p.counts.len() && p.counts[k] > 0 {
        p.counts.update(k, (p.counts[k] - 1) as nat)
    } else {
        p.counts
    }
}

/// The poll after a voter whose ballot held `prior` chooses `choice`: a repeated choice
/// changes nothing; otherwise the prior option loses one vote and the chosen one gains one.
pub open spec fn after_vote(p: PollView, prior: Option<Seq<char>>, choice: Seq<char>) -> PollView {
    if prior == Some(choice) {
        p
    } else {
        let lowered = match prior {
            Some(old) => withdraw(p, old),
            None => p.counts,
        };
        let j = label_index(p.labels, choice);
        PollView { counts: lowered.update(j, lowered[j] + 1), ..p }
    }
}

pub proof fn lemma_poll_shape(p: Poll)
    ensures
        poll_shape(p@),
        counts_fit(p@),
        p@.labels.len() == p.options@.len(),
        forall|i: int| 0 <= i < p.options@.len() ==> p@.counts[i] == p.options@[i].1,
{
}

/// Validates a poll-creation request and builds the poll it asks for. `exists` tells
/// whether the identifier is already taken; the option cap is checked first.
pub fn prepare_poll(creator: String, question: String, options: Vec<String>, exists: bool) -> (r:
    Result<Poll, ContractError>)
    ensures
        options@.len() > MAX_OPTIONS ==> r == Err::<Poll, ContractError>(
            ContractError::TooManyOptions,
        ),
        options@.len() <= MAX_OPTIONS && exists ==> r == Err::<Poll, ContractError>(
            ContractError::PollExists,
        ),
        options@.len() <= MAX_OPTIONS && !exists ==> (r matches Ok(p) && p@ == fresh_poll(
            creator@,
            question@,
            labels_of(options@),
        )),
{
    if options.len() > MAX_OPTIONS {
        return Err(ContractError::TooManyOptions);
    }
    if exists {
        return Err(ContractError::PollExists);
    }
    let n = options.len();
    let mut opts: Vec<(String, u64)> = Vec::new();
    let mut i: usize = 0;
    while i < n
        invariant
            n == options@.len(),
            0 <= i <= n,
            opts@.len() == i,
            forall|j: int| 0 <= j < i ==> opts@[j].0@ == options@[j]@ && opts@[j].1 == 0,
        decreases n - i,
    {
        opts.push((options[i].clone(), 0));
        i = i + 1;
    }
    let p = Poll { creator, question, options: opts };
    assert(p@.labels =~= labels_of(options@));
    assert(p@.counts =~= Seq::new(n as nat, |j: int| 0nat));
    Ok(p)
}

/// Decides a vote on `poll` by a voter whose current ballot is `prior`, returning the
/// updated poll and the voter's new ballot. Nothing is returned on refusal.
pub fn cast_vote(poll: Option<Poll>, prior: Option<Ballot>, option: String) -> (r: Result<
    (Poll, Ballot),
    ContractError,
>)
    requires
        poll matches Some(p) ==> counts_fit(after_vote(p@, choice_of(prior), option@)),
    ensures
        poll is None ==> r == Err::<(Poll, Ballot), ContractError>(ContractError::PollNotFound),
        poll matches Some(p) ==> (!has_label(p@.labels, option@) ==> r == Err::<
            (Poll, Ballot),
            ContractError,
        >(ContractError::OptionNotFound)),
        poll matches Some(p) ==> (has_label(p@.labels, option@) ==> (r matches Ok((q, b)) && q@
            == after_vote(p@, choice_of(prior), option@) && b@ == option@)),
{
    let mut p = match poll {
        Some(p) => p,
        None => {
            return Err(ContractError::PollNotFound);
        },
    };
    let ghost p0 = p@;
    proof {
        lemma_poll_shape(p);
    }
    let j = match p.find_option(&option) {
        Some(j) => j,
        None => {
            return Err(ContractError::OptionNotFound);
        },
    };
    let same = match &prior {
        Some(b) => b.option == option,
        None => false,
    };
    if !same {
        if let Some(b) = &prior {
            if let Some(k) = p.find_option(&b.option) {
                let c = p.options[k].1;
                if c > 0 {
                    p.set_count(k, c - 1);
                }
                assert(p@.counts == withdraw(p0, b@));
            } else {
                assert(p@.counts == withdraw(p0, b@));
            }
        }
        proof {
            lemma_poll_shape(p);
        }
        let c = p.options[j].1;
        assert(c + 1 == after_vote(p0, choice_of(prior), option@).counts[j as int]);
        p.set_count(j, c + 1);
    }
    Ok((p, Ballot { option }))
}

/// The admin chosen at setup: the one named in the request, else the sender.
pub open spec fn chosen_admin(sender: Seq<char>, admin: Option<String>) -> Seq<char> {
    match admin {
        Some(a) => a@,
        None => sender,
    }
}

/// The poll model of an optional poll.
pub open spec fn poll_model(p: Option<Poll>) -> Option<PollView> {
    match p {
        Some(p) => Some(p@),
        None => None,
    }
}

/// What a poll-creation request does to state `v` and what it returns.
pub open spec fn create_done(
    v: TallyView,
    sender: Seq<char>,
    uuid: Seq<char>,
    question: Seq<char>,
    options: Seq<String>,
    r: Result<Response, ContractError>,
    w: TallyView,
) -> bool {
    if options.len() > MAX_OPTIONS {
        r == Err::<Response, ContractError>(ContractError::TooManyOptions) && w == v
    } else if v.polls.contains_key(uuid) {
        r == Err::<Response, ContractError>(ContractError::PollExists) && w == v
    } else {
        &&& r matches Ok(resp) && resp@ == seq![("action"@, "create_poll"@), ("poll_id"@, uuid)]
        &&& w == created(v, sender, uuid, question, labels_of(options))
    }
}

/// What a vote request does to state `v` and what it returns.
pub open spec fn vote_done(
    v: TallyView,
    sender: Seq<char>,
    uuid: Seq<char>,
    option: Seq<char>,
    r: Result<Response, ContractError>,
    w: TallyView,
) -> bool {
    if !v.polls.contains_key(uuid) {
        r == Err::<Response, ContractError>(ContractError::PollNotFound) && w == v
    } else if !has_label(v.polls[uuid].labels, option) {
        r == Err::<Response, ContractError>(ContractError::OptionNotFound) && w == v
    } else {
        &&& r matches Ok(resp) && resp@ == Seq::<(Seq<char>, Seq<char>)>::empty()
        &&& w == voted(v, sender, uuid, option)
    }
}

/// Keeps polls and ballots together so that every count always equals the number of
/// ballots that back it.
pub struct TallyEngine {
    config: Config,
    polls: PollStore,
    ballots: BallotLedger,
}

impl View for TallyEngine {
    type V = TallyView;

    closed spec fn view(&self) -> TallyView {
        TallyView { admin: self.config.admin@, polls: self.polls@, ballots: self.ballots@ }
    }
}

/// The admin for a setup request sent by `sender`.
pub fn admin_for(sender: String, admin: Option<String>) -> (r: String)
    ensures
        r@ == chosen_admin(sender@, admin),
{
    match admin {
        Some(a) => a,
        None => sender,
    }
}

/// The record left by setting up with admin `admin`.
pub fn setup_response(admin: String) -> (r: Response)
    ensures
        r@ == seq![("action"@, "instantiate"@), ("admin"@, admin@)],
{
    let mut attributes: Vec<(String, String)> = Vec::new();
    attributes.push((String::from_str("action"), String::from_str("instantiate")));
    attributes.push((String::from_str("admin"), admin));
    let r = Response { attributes };
    assert(r@ =~= seq![("action"@, "instantiate"@), ("admin"@, admin@)]);
    r
}

/// The record left by creating poll `uuid`.
pub fn created_response(uuid: String) -> (r: Response)
    ensures
        r@ == seq![("action"@, "create_poll"@), ("poll_id"@, uuid@)],
{
    let mut attributes: Vec<(String, String)> = Vec::new();
    attributes.push((String::from_str("action"), String::from_str("create_poll")));
    attributes.push((String::from_str("poll_id"), uuid));
    let r = Response { attributes };
    assert(r@ =~= seq![("action"@, "create_poll"@), ("poll_id"@, uuid@)]);
    r
}

/// Sets up an engine with no polls and no ballots.
pub fn instantiate(sender: String, msg: InstantiateMsg) -> (r: (TallyEngine, Response))
    ensures
        r.0.wf(),
        r.0@ == (TallyView {
            admin: chosen_admin(sender@, msg.admin),
            polls: Map::empty(),
            ballots: Map::empty(),
        }),
        r.1@ == seq![("action"@, "instantiate"@), ("admin"@, chosen_admin(sender@, msg.admin))],
{
    let admin = admin_for(sender, msg.admin);
    let resp = setup_response(admin.clone());
    let engine = TallyEngine {
        config: Config { admin },
        polls: PollStore::new(),
        ballots: BallotLedger::new(),
    };
    proof {
        crate::ballot_ledger::BallotLedger::lemma_size(&engine.ballots);
    }
    (engine, resp)
}

impl TallyEngine {
    pub closed spec fn wf(&self) -> bool {
        &&& self.polls.wf()
        &&& self.ballots.wf()
        &&& tallies_match(self@)
    }

    /// The state of a well-formed engine keeps its tallies right.
    pub proof fn lemma_consistent(&self)
        requires
            self.wf(),
        ensures
            tallies_match(self@),
    {
    }

    /// Creates poll `uuid`: refused with too many options, then if the identifier is taken.
    pub fn execute_create_poll(
        &mut self,
        sender: String,
        uuid: String,
        question: String,
        options: Vec<String>,
    ) -> (r: Result<Response, ContractError>)
        requires
            old(self).wf(),
        ensures
            final(self).wf(),
            create_done(old(self)@, sender@, uuid@, question@, options@, r, final(self)@),
    {
        let exists = self.polls.has(&uuid);
        let ghost labels = labels_of(options@);
        let poll = match prepare_poll(sender, question, options, exists) {
            Ok(p) => p,
            Err(e) => {
                return Err(e);
            },
        };
        proof {
            lemma_create_keeps_tallies(self@, poll@.creator, uuid@, poll@.question, labels);
        }
        let resp = created_response(uuid.clone());
        self.polls.save(uuid, poll);
        Ok(resp)
    }

    /// Records `sender`'s vote for `option` in poll `uuid`, moving an earlier vote of
    /// the same sender in one step.
    pub fn execute_vote(&mut self, sender: String, uuid: String, option: String) -> (r: Result<
        Response,
        ContractError,
    >)
        requires
            old(self).wf(),
        ensures
            final(self).wf(),
            vote_done(old(self)@, sender@, uuid@, option@, r, final(self)@),
    {
        let ghost v0 = self@;
        let poll = match self.polls.get(&uuid) {
            Some(p) => p,
            None => {
                return Err(ContractError::PollNotFound);
            },
        };
        if poll.find_option(&option).is_none() {
            return Err(ContractError::OptionNotFound);
        }
        let prior = self.ballots.get(&sender, &uuid);
        let ghost w = voted(v0, sender@, uuid@, option@);
        proof {
            lemma_vote_keeps_tallies(v0, sender@, uuid@, option@);
        }
        self.ballots.put(sender, uuid.clone(), Ballot { option: option.clone() });
        proof {
            self.ballots.lemma_size();
            lemma_counts_bounded(w);
            assert(choice_of(prior) == prior_of(v0.ballots, (sender@, uuid@)));
            assert(w.polls[uuid@] == after_vote(poll@, choice_of(prior), option@));
            assert(usize::MAX <= u64::MAX);
        }
        match cast_vote(Some(poll), prior, option) {
            Ok((q, _b)) => {
                self.polls.save(uuid, q);
                assert(self@.polls =~= w.polls);
                assert(self@ == w);
                let resp = Response { attributes: Vec::new() };
                assert(resp@ =~= Seq::<(Seq<char>, Seq<char>)>::empty());
                Ok(resp)
            },
            // Not reached: the poll exists and holds the option.
            Err(e) => Err(e),
        }
    }

    /// Runs a state-changing request on behalf of `sender`.
    pub fn execute(&mut self, sender: String, msg: ExecuteMsg) -> (r: Result<
        Response,
        ContractError,
    >)
        requires
            old(self).wf(),
        ensures
            final(self).wf(),
            match msg {
                ExecuteMsg::CreatePoll { uuid, question, options } => create_done(
                    old(self)@,
                    sender@,
                    uuid@,
                    question@,
                    options@,
                    r,
                    final(self)@,
                ),
                ExecuteMsg::Vote { uuid, option } => vote_done(
                    old(self)@,
                    sender@,
                    uuid@,
                    option@,
                    r,
                    final(self)@,
                ),
            },
    {
        match msg {
            ExecuteMsg::CreatePoll { uuid, question, options } => self.execute_create_poll(
                sender,
                uuid,
                question,
                options,
            ),
            ExecuteMsg::Vote { uuid, option } => self.execute_vote(sender, uuid, option),
        }
    }

    /// The poll stored under `uuid`.
    pub fn query_poll(&self, uuid: String) -> (r: PollResponse)
        requires
            self.wf(),
        ensures
            poll_model(r.poll) == (if self@.polls.contains_key(uuid@) {
                Some(self@.polls[uuid@])
            } else {
                None::<PollView>
            }),
    {
        PollResponse { poll: self.polls.get(&uuid) }
    }

    /// Every poll, in ascending identifier order.
    pub fn query_all_polls(&self) -> (r: AllPollsResponse)
        requires
            self.wf(),
        ensures
            r.polls@.map_values(|p: Poll| p@) == ascending_order(self@.polls.dom()).map_values(
                |k: Seq<char>| self@.polls[k],
            ),
    {
        AllPollsResponse { polls: self.polls.list_all() }
    }

    /// The ballot of `voter` in poll `uuid`; none where the voter has not voted there.
    pub fn query_vote(&self, voter: String, uuid: String) -> (r: VoteResponse)
        requires
            self.wf(),
        ensures
            choice_of(r.ballot) == prior_of(self@.ballots, (voter@, uuid@)),
    {
        VoteResponse { ballot: self.ballots.get(&voter, &uuid) }
    }

    /// Answers a read-only request.
    pub fn query(&self, msg: QueryMsg) -> (r: QueryResponse)
        requires
            self.wf(),
        ensures
            match msg {
                QueryMsg::AllPolls {  } => r matches QueryResponse::AllPolls(a) && a.polls@.map_values(
                    |p: Poll| p@,
                ) == ascending_order(self@.polls.dom()).map_values(|k: Seq<char>| self@.polls[k]),
                QueryMsg::GetPoll { uuid } => r matches QueryResponse::Poll(a) && poll_model(a.poll)
                    == (if self@.polls.contains_key(uuid@) {
                    Some(self@.polls[uuid@])
                } else {
                    None::<PollView>
                }),
                QueryMsg::GetVote { uuid, address } => r matches QueryResponse::Vote(a)
                    && choice_of(a.ballot) == prior_of(self@.ballots, (address@, uuid@)),
            },
    {
        match msg {
            QueryMsg::AllPolls {  } => QueryResponse::AllPolls(self.query_all_polls()),
            QueryMsg::GetPoll { uuid } => QueryResponse::Poll(self.query_poll(uuid)),
            QueryMsg::GetVote { uuid, address } => QueryResponse::Vote(self.query_vote(address, uuid)),
        }
    }

    /// The admin fixed at setup.
    pub fn admin(&self) -> (r: String)
        ensures
            r@ == self@.admin,
    {
        self.config.admin.clone()
    }
}

/// In every state the engine can reach, the votes of each poll add up to the number of
/// ballots cast in that poll.
pub proof fn lemma_votes_equal_ballots(e: &TallyEngine, id: Seq<char>)
    requires
        e.wf(),
        e@.polls.contains_key(id),
    ensures
        total_votes(e@.polls[id].counts) == ballots_in(e@.ballots, id).len(),
{
    e.lemma_consistent();
    lemma_totals_match_ballots(e@, id);
}

/// Voting again for the option one just voted for changes no count and no ballot.
pub proof fn lemma_repeat_vote_changes_nothing(
    v: TallyView,
    voter: Seq<char>,
    id: Seq<char>,
    choice: Seq<char>,
)
    requires
        v.polls.contains_key(id),
    ensures
        voted(voted(v, voter, id, choice), voter, id, choice) == voted(v, voter, id, choice),
{
    let w = voted(v, voter, id, choice);
    assert(prior_of(w.ballots, (voter, id)) == Some(choice));
    assert(w.ballots.insert((voter, id), choice) =~= w.ballots);
    assert(w.polls.insert(id, w.polls[id]) =~= w.polls);
}

/// A poll reads back right after creation with its options in order and every count zero.
pub proof fn lemma_created_poll_starts_at_zero(
    v: TallyView,
    creator: Seq<char>,
    id: Seq<char>,
    question: Seq<char>,
    options: Seq<String>,
)
    ensures
        created(v, creator, id, question, labels_of(options)).polls.contains_key(id),
        created(v, creator, id, question, labels_of(options)).polls[id].labels == labels_of(options),
        created(v, creator, id, question, labels_of(options)).polls[id].counts.len()
            == options.len(),
        forall|i: int|
            0 <= i < options.len() ==> #[trigger] created(
                v,
                creator,
                id,
                question,
                labels_of(options),
            ).polls[id].counts[i] == 0,
{
}

/// Polls created under distinct identifiers are listed the same whichever came first.
pub proof fn lemma_listing_ignores_creation_order(
    v: TallyView,
    a: (Seq<char>, Seq<char>, Seq<char>, Seq<Seq<char>>),
    b: (Seq<char>, Seq<char>, Seq<char>, Seq<Seq<char>>),
)
    requires
        a.1 != b.1,
    ensures
        ({
            let ab = created(created(v, a.0, a.1, a.2, a.3), b.0, b.1, b.2, b.3).polls;
            let ba = created(created(v, b.0, b.1, b.2, b.3), a.0, a.1, a.2, a.3).polls;
            ascending_order(ab.dom()).map_values(|k: Seq<char>| ab[k]) == ascending_order(
                ba.dom(),
            ).map_values(|k: Seq<char>| ba[k])
        }),
{
    let ab = created(created(v, a.0, a.1, a.2, a.3), b.0, b.1, b.2, b.3).polls;
    let ba = created(created(v, b.0, b.1, b.2, b.3), a.0, a.1, a.2, a.3).polls;
    assert(ab =~= ba);
}

} // verus!
