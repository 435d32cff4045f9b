use vstd::prelude::*;

use crate::assoc::{key_at, keys_unique, lemma_to_map, lemma_to_map_insert, lemma_to_map_update, to_map};
use crate::state::Ballot;

verus! {

/// The ballots cast so far, one per (voter, poll identifier) pair.
pub struct BallotLedger {
    entries: Vec<((String, String), Ballot)>,
}

impl BallotLedger {
    /// The entries as ((voter, poll identifier), option) models.
    pub closed spec fn rows(&self) -> Seq<((Seq<char>, Seq<char>), Seq<char>)> {
        self.entries@.map_values(|e: ((String, String), Ballot)| ((e.0.0@, e.0.1@), e.1@))
    }

    pub closed spec fn wf(&self) -> bool {
        keys_unique(self.rows())
    }

    /// The ledger is finite, and no larger than memory can index.
    pub proof fn lemma_size(&self)
        requires
            self.wf(),
        ensures
            self@.dom().finite(),
            self@.dom().len() <= usize::MAX,
    {
        lemma_to_map(self.rows());
        assert(self.entries.len() == self.rows().len());
    }

    pub fn new() -> (r: BallotLedger)
        ensures
            r.wf(),
            r@ == Map::<(Seq<char>, Seq<char>), Seq<char>>::empty(),
    {
        let r = BallotLedger { entries: Vec::new() };
        assert(r.rows() =~= Seq::<((Seq<char>, Seq<char>), Seq<char>)>::empty());
        r
    }

    /// Index of the entry for (`voter`, `poll_id`).
    fn position(&self, voter: &String, poll_id: &String) -> (r: Option<usize>)
        requires
            self.wf(),
        ensures
            r matches Some(i) ==> i < self.entries@.len() && self.rows()[i as int].0 == (
            voter@,
            poll_id@,
            ),
            r is None ==> !self@.contains_key((voter@, poll_id@)),
    {
        let n = self.entries.len();
        let mut i: usize = 0;
        while i < n
            invariant
                n == self.entries@.len(),
                0 <= i <= n,
                forall|j: int| 0 <= j < i ==> self.rows()[j].0 != (voter@, poll_id@),
            decreases n - i,
        {
            if self.entries[i].0.0 == *voter && self.entries[i].0.1 == *poll_id {
                return Some(i);
            }
            i = i + 1;
        }
        proof {
            lemma_to_map(self.rows());
            if self@.contains_key((voter@, poll_id@)) {
                let j = choose|j: int| key_at(self.rows(), (voter@, poll_id@), j);
            }
        }
        None
    }

    /// Whether `voter` has a ballot in poll `poll_id`.
    pub fn has(&self, voter: &String, poll_id: &String) -> (r: bool)
        requires
            self.wf(),
        ensures
            r == self@.contains_key((voter@, poll_id@)),
    {
        proof {
            lemma_to_map(self.rows());
        }
        match self.position(voter, poll_id) {
            Some(i) => {
                proof {
                    assert(key_at(self.rows(), (voter@, poll_id@), i as int));
                }
                true
            },
            None => false,
        }
    }

    /// A copy of the ballot of `voter` in poll `poll_id`.
    pub fn get(&self, voter: &String, poll_id: &String) -> (r: Option<Ballot>)
        requires
            self.wf(),
        ensures
            r matches Some(b) ==> self@.contains_key((voter@, poll_id@)) && b@ == self@[(
            voter@,
            poll_id@,
            )],
            r is None ==> !self@.contains_key((voter@, poll_id@)),
    {
        proof {
            lemma_to_map(self.rows());
        }
        match self.position(voter, poll_id) {
            Some(i) => {
                let b = self.entries[i].1.snapshot();
                proof {
                    assert(key_at(self.rows(), (voter@, poll_id@), i as int));
                    assert(self.rows()[i as int].1 == b@);
                }
                Some(b)
            },
            None => None,
        }
    }

    /// Records `ballot` for `voter` in poll `poll_id`, replacing any earlier one.
    pub fn put(&mut self, voter: String, poll_id: String, ballot: Ballot)
        requires
            old(self).wf(),
        ensures
            final(self).wf(),
            final(self)@ == old(self)@.insert((voter@, poll_id@), ballot@),
    {
        let ghost rows0 = self.rows();
        let ghost key = (voter@, poll_id@);
        match self.position(&voter, &poll_id) {
            Some(i) => {
                self.entries.set(i, ((voter, poll_id), ballot));
                proof {
                    assert(self.rows() =~= rows0.update(i as int, (rows0[i as int].0, ballot@)));
                    lemma_to_map_update(rows0, i as int, ballot@);
                }
            },
            None => {
                let n = self.entries.len();
                self.entries.push(((voter, poll_id), ballot));
                proof {
                    assert(self.rows() =~= rows0.insert(n as int, (key, ballot@)));
                    lemma_to_map_insert(rows0, n as int, key, ballot@);
                }
            },
        }
    }
}

impl View for BallotLedger {
    type V = Map<(Seq<char>, Seq<char>), Seq<char>>;

    closed spec fn view(&self) -> Map<(Seq<char>, Seq<char>), Seq<char>> {
        to_map(self.rows())
    }
}

} // verus!
