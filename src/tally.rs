use vstd::prelude::*;
use vstd::set_lib::*;

use crate::contract::{after_vote, fresh_poll, poll_shape, withdraw};
use crate::state::{has_label, label_index, lemma_label_index, PollView};

verus! {

/// Ballots keyed by (voter, poll identifier), each holding the chosen label.
pub type BallotMap = Map<(Seq<char>, Seq<char>), Seq<char>>;

/// Model of the engine's state.
pub struct TallyView {
    pub admin: Seq<char>,
    pub polls: Map<Seq<char>, PollView>,
    pub ballots: BallotMap,
}

/// The ballot keys of poll `id` whose label sits first at position `i`.
pub open spec fn backers(ballots: BallotMap, id: Seq<char>, labels: Seq<Seq<char>>, i: int) -> Set<
    (Seq<char>, Seq<char>),
> {
    ballots.dom().filter(
        |k: (Seq<char>, Seq<char>)| k.1 == id && label_index(labels, ballots[k]) == i,
    )
}

/// The ballot keys of poll `id`.
pub open spec fn ballots_in(ballots: BallotMap, id: Seq<char>) -> Set<(Seq<char>, Seq<char>)> {
    ballots.dom().filter(|k: (Seq<char>, Seq<char>)| k.1 == id)
}

/// The ballot keys of poll `id` whose label sits first before position `m`.
pub open spec fn backers_below(
    ballots: BallotMap,
    id: Seq<char>,
    labels: Seq<Seq<char>>,
    m: int,
) -> Set<(Seq<char>, Seq<char>)> {
    ballots.dom().filter(
        |k: (Seq<char>, Seq<char>)| k.1 == id && label_index(labels, ballots[k]) < m,
    )
}

/// The voter's current choice in the map, if any.
pub open spec fn prior_of(ballots: BallotMap, key: (Seq<char>, Seq<char>)) -> Option<Seq<char>> {
    if ballots.contains_key(key) {
        Some(ballots[key])
    } else {
        None
    }
}

/// Sum of the counts.
pub open spec fn total_votes(counts: Seq<nat>) -> nat
    decreases counts.len(),
{
    if counts.len() == 0 {
        0
    } else {
        total_votes(counts.drop_last()) + counts.last()
    }
}

/// Every ballot points at an existing poll and one of its labels, and every option's
/// count is the number of ballots that chose it.
pub open spec fn tallies_match(v: TallyView) -> bool {
    &&& v.ballots.dom().finite()
    &&& forall|k: (Seq<char>, Seq<char>)| #[trigger]
        v.ballots.contains_key(k) ==> v.polls.contains_key(k.1) && has_label(
            v.polls[k.1].labels,
            v.ballots[k],
        )
    &&& forall|id: Seq<char>| #[trigger]
        v.polls.contains_key(id) ==> poll_shape(v.polls[id]) && forall|i: int|
            0 <= i < v.polls[id].counts.len() ==> #[trigger] v.polls[id].counts[i] == backers(
                v.ballots,
                id,
                v.polls[id].labels,
                i,
            ).len()
}

/// The state after poll `id` is created with the given fields.
pub open spec fn created(
    v: TallyView,
    creator: Seq<char>,
    id: Seq<char>,
    question: Seq<char>,
    labels: Seq<Seq<char>>,
) -> TallyView {
    TallyView { polls: v.polls.insert(id, fresh_poll(creator, question, labels)), ..v }
}

/// The state after `voter` chooses `choice` in poll `id`.
pub open spec fn voted(v: TallyView, voter: Seq<char>, id: Seq<char>, choice: Seq<char>) -> TallyView {
    TallyView {
        polls: v.polls.insert(id, after_vote(v.polls[id], prior_of(v.ballots, (voter, id)), choice)),
        ballots: v.ballots.insert((voter, id), choice),
        ..v
    }
}

proof fn lemma_backers_finite(ballots: BallotMap, id: Seq<char>, labels: Seq<Seq<char>>, i: int)
    requires
        ballots.dom().finite(),
    ensures
        backers(ballots, id, labels, i).finite(),
        backers(ballots, id, labels, i).len() <= ballots.dom().len(),
{
    lemma_len_subset(backers(ballots, id, labels, i), ballots.dom());
}

/// No option of any poll has more votes than there are ballots.
pub proof fn lemma_counts_bounded(v: TallyView)
    requires
        tallies_match(v),
    ensures
        forall|id: Seq<char>, i: int|
            v.polls.contains_key(id) && 0 <= i < v.polls[id].counts.len() ==> #[trigger] v.polls[id].counts[i]
                <= v.ballots.dom().len(),
{
    assert forall|id: Seq<char>, i: int|
        v.polls.contains_key(id) && 0 <= i < v.polls[id].counts.len() implies #[trigger] v.polls[id].counts[i]
        <= v.ballots.dom().len() by {
        lemma_backers_finite(v.ballots, id, v.polls[id].labels, i);
    }
}

/// Creating a poll under a fresh identifier keeps every tally right.
pub proof fn lemma_create_keeps_tallies(
    v: TallyView,
    creator: Seq<char>,
    id: Seq<char>,
    question: Seq<char>,
    labels: Seq<Seq<char>>,
)
    requires
        tallies_match(v),
        !v.polls.contains_key(id),
    ensures
        tallies_match(created(v, creator, id, question, labels)),
{
    let w = created(v, creator, id, question, labels);
    assert forall|q: Seq<char>| #[trigger] w.polls.contains_key(q) implies poll_shape(w.polls[q])
        && forall|i: int|
        0 <= i < w.polls[q].counts.len() ==> #[trigger] w.polls[q].counts[i] == backers(
            w.ballots,
            q,
            w.polls[q].labels,
            i,
        ).len() by {
        if q == id {
            assert forall|i: int| 0 <= i < w.polls[q].counts.len() implies #[trigger] w.polls[q].counts[i]
                == backers(w.ballots, q, w.polls[q].labels, i).len() by {
                assert(backers(w.ballots, q, labels, i) =~= Set::empty());
            }
        }
    }
}

/// A vote for a label of an existing poll keeps every tally right.
pub proof fn lemma_vote_keeps_tallies(v: TallyView, voter: Seq<char>, id: Seq<char>, choice: Seq<char>)
    requires
        tallies_match(v),
        v.polls.contains_key(id),
        has_label(v.polls[id].labels, choice),
    ensures
        tallies_match(voted(v, voter, id, choice)),
{
    let w = voted(v, voter, id, choice);
    let key = (voter, id);
    let p = v.polls[id];
    let labels = p.labels;
    let j = label_index(labels, choice);
    let prior = prior_of(v.ballots, key);
    lemma_label_index(labels, choice);
    if prior == Some(choice) {
        assert(w.ballots =~= v.ballots);
        assert(w.polls =~= v.polls);
        assert(w == v);
    } else {
        assert(w.ballots.dom().finite());
        assert forall|k: (Seq<char>, Seq<char>)| #[trigger]
            w.ballots.contains_key(k) implies w.polls.contains_key(k.1) && has_label(
            w.polls[k.1].labels,
            w.ballots[k],
        ) by {
            if k != key {
                assert(v.ballots.contains_key(k));
            }
        }
        assert forall|q: Seq<char>| #[trigger] w.polls.contains_key(q) implies poll_shape(
            w.polls[q],
        ) && forall|i: int|
            0 <= i < w.polls[q].counts.len() ==> #[trigger] w.polls[q].counts[i] == backers(
                w.ballots,
                q,
                w.polls[q].labels,
                i,
            ).len() by {
            if q != id {
                assert forall|i: int| 0 <= i < w.polls[q].counts.len() implies #[trigger] w.polls[q].counts[i]
                    == backers(w.ballots, q, w.polls[q].labels, i).len() by {
                    assert(backers(w.ballots, q, w.polls[q].labels, i) =~= backers(
                        v.ballots,
                        q,
                        v.polls[q].labels,
                        i,
                    ));
                }
            } else {
                let lowered = match prior {
                    Some(old) => withdraw(p, old),
                    None => p.counts,
                };
                match prior {
                    None => {
                        assert forall|i: int| 0 <= i < w.polls[q].counts.len() implies #[trigger] w.polls[q].counts[i]
                            == backers(w.ballots, q, labels, i).len() by {
                            lemma_backers_finite(v.ballots, id, labels, i);
                            if i == j {
                                assert(backers(w.ballots, q, labels, i) =~= backers(
                                    v.ballots,
                                    q,
                                    labels,
                                    i,
                                ).insert(key));
                            } else {
                                assert(backers(w.ballots, q, labels, i) =~= backers(
                                    v.ballots,
                                    q,
                                    labels,
                                    i,
                                ));
                            }
                        }
                    },
                    Some(old) => {
                        assert(v.ballots.contains_key(key));
                        let ja = label_index(labels, old);
                        lemma_label_index(labels, old);
                        assert(ja != j);
                        lemma_backers_finite(v.ballots, id, labels, ja);
                        assert(backers(v.ballots, id, labels, ja).contains(key));
                        assert(backers(v.ballots, id, labels, ja).remove(key).len() + 1
                            == backers(v.ballots, id, labels, ja).len());
                        assert(p.counts[ja] > 0);
                        assert forall|i: int| 0 <= i < w.polls[q].counts.len() implies #[trigger] w.polls[q].counts[i]
                            == backers(w.ballots, q, labels, i).len() by {
                            lemma_backers_finite(v.ballots, id, labels, i);
                            if i == j {
                                assert(backers(w.ballots, q, labels, i) =~= backers(
                                    v.ballots,
                                    q,
                                    labels,
                                    i,
                                ).insert(key));
                            } else if i == ja {
                                assert(backers(w.ballots, q, labels, i) =~= backers(
                                    v.ballots,
                                    q,
                                    labels,
                                    i,
                                ).remove(key));
                            } else {
                                assert(backers(w.ballots, q, labels, i) =~= backers(
                                    v.ballots,
                                    q,
                                    labels,
                                    i,
                                ));
                            }
                        }
                    },
                }
            }
        }
    }
}

proof fn lemma_sum_below(v: TallyView, id: Seq<char>, m: int)
    requires
        tallies_match(v),
        v.polls.contains_key(id),
        0 <= m <= v.polls[id].counts.len(),
    ensures
        total_votes(v.polls[id].counts.take(m)) == backers_below(
            v.ballots,
            id,
            v.polls[id].labels,
            m,
        ).len(),
        backers_below(v.ballots, id, v.polls[id].labels, m).finite(),
    decreases m,
{
    let labels = v.polls[id].labels;
    let counts = v.polls[id].counts;
    lemma_len_subset(backers_below(v.ballots, id, labels, m), v.ballots.dom());
    if m == 0 {
        assert forall|k: (Seq<char>, Seq<char>)| !#[trigger] backers_below(
            v.ballots,
            id,
            labels,
            0,
        ).contains(k) by {
            lemma_label_index(labels, v.ballots[k]);
        }
        assert(backers_below(v.ballots, id, labels, 0) =~= Set::empty());
        assert(counts.take(0) =~= Seq::<nat>::empty());
    } else {
        lemma_sum_below(v, id, m - 1);
        lemma_backers_finite(v.ballots, id, labels, m - 1);
        assert(counts.take(m).drop_last() =~= counts.take(m - 1));
        let below = backers_below(v.ballots, id, labels, m - 1);
        let at = backers(v.ballots, id, labels, m - 1);
        assert(backers_below(v.ballots, id, labels, m) =~= below + at);
        assert(below.disjoint(at));
        lemma_set_disjoint_lens(below, at);
    }
}

/// The votes of a poll add up to the number of ballots cast in it.
pub proof fn lemma_totals_match_ballots(v: TallyView, id: Seq<char>)
    requires
        tallies_match(v),
        v.polls.contains_key(id),
    ensures
        total_votes(v.polls[id].counts) == ballots_in(v.ballots, id).len(),
{
    let n = v.polls[id].counts.len() as int;
    lemma_sum_below(v, id, n);
    assert(v.polls[id].counts.take(n) =~= v.polls[id].counts);
    assert(backers_below(v.ballots, id, v.polls[id].labels, n) =~= ballots_in(v.ballots, id)) by {
        assert forall|k: (Seq<char>, Seq<char>)| #[trigger] ballots_in(v.ballots, id).contains(
            k,
        ) implies backers_below(v.ballots, id, v.polls[id].labels, n).contains(k) by {
            assert(v.ballots.contains_key(k));
        }
    }
}

} // verus!
