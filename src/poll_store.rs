use vstd::prelude::*;

use crate::assoc::{key_at, keys_unique, lemma_to_map, lemma_to_map_insert, lemma_to_map_update, to_map};
use crate::order::{
    ascending, ascending_order, id_less, lemma_ascending_unique, lemma_lex_total,
    lemma_lex_transitive, lex_lt, lists_ascending,
};
use crate::state::{Poll, PollView};

verus! {

/// Polls by identifier, kept in ascending identifier order.
pub struct PollStore {
    entries: Vec<(String, Poll)>,
}

impl PollStore {
    /// The entries as (identifier, poll) models.
    pub closed spec fn rows(&self) -> Seq<(Seq<char>, PollView)> {
        self.entries@.map_values(|e: (String, Poll)| (e.0@, e.1@))
    }

    /// The identifiers in storage order.
    pub closed spec fn ids(&self) -> Seq<Seq<char>> {
        self.rows().map_values(|e: (Seq<char>, PollView)| e.0)
    }

    pub closed spec fn wf(&self) -> bool {
        ascending(self.ids())
    }

    /// Ascending identifiers are never repeated.
    proof fn lemma_unique(&self)
        requires
            self.wf(),
        ensures
            keys_unique(self.rows()),
            lists_ascending(self.ids(), self@.dom()),
            self@.dom().finite(),
    {
        assert forall|i: int, j: int| 0 <= i < j < self.rows().len() implies self.rows()[i].0
            != self.rows()[j].0 by {
            assert(lex_lt(self.ids()[i], self.ids()[j]));
            crate::order::lemma_lex_irreflexive(self.ids()[i]);
        }
        lemma_to_map(self.rows());
        assert forall|k: Seq<char>| self@.dom().contains(k) <==> self.ids().contains(k) by {
            if self@.dom().contains(k) {
                let i = choose|i: int| key_at(self.rows(), k, i);
                assert(self.ids()[i] == k);
            }
            if self.ids().contains(k) {
                let i = choose|i: int| 0 <= i < self.ids().len() && self.ids()[i] == k;
                assert(key_at(self.rows(), k, i));
            }
        }
    }

    pub fn new() -> (r: PollStore)
        ensures
            r.wf(),
            r@ == Map::<Seq<char>, PollView>::empty(),
    {
        let r = PollStore { entries: Vec::new() };
        assert(r.rows() =~= Seq::<(Seq<char>, PollView)>::empty());
        r
    }

    /// Index of the entry for `id`.
    fn position(&self, id: &String) -> (r: Option<usize>)
        requires
            self.wf(),
        ensures
            r matches Some(i) ==> i < self.entries@.len() && self.rows()[i as int].0 == id@,
            r is None ==> !self@.contains_key(id@),
    {
        let n = self.entries.len();
        let mut i: usize = 0;
        while i < n
            invariant
                n == self.entries@.len(),
                0 <= i <= n,
                forall|j: int| 0 <= j < i ==> self.rows()[j].0 != id@,
            decreases n - i,
        {
            if self.entries[i].0 == *id {
                return Some(i);
            }
            i = i + 1;
        }
        proof {
            self.lemma_unique();
            if self@.contains_key(id@) {
                let j = choose|j: int| key_at(self.rows(), id@, j);
            }
        }
        None
    }

    /// Whether a poll is stored under `id`.
    pub fn has(&self, id: &String) -> (r: bool)
        requires
            self.wf(),
        ensures
            r == self@.contains_key(id@),
    {
        proof {
            self.lemma_unique();
            lemma_to_map(self.rows());
        }
        match self.position(id) {
            Some(i) => {
                proof {
                    assert(key_at(self.rows(), id@, i as int));
                }
                true
            },
            None => false,
        }
    }

    /// A copy of the poll stored under `id`.
    pub fn get(&self, id: &String) -> (r: Option<Poll>)
        requires
            self.wf(),
        ensures
            r matches Some(p) ==> self@.contains_key(id@) && p@ == self@[id@],
            r is None ==> !self@.contains_key(id@),
    {
        proof {
            self.lemma_unique();
            lemma_to_map(self.rows());
        }
        match self.position(id) {
            Some(i) => {
                let p = self.entries[i].1.snapshot();
                proof {
                    assert(key_at(self.rows(), id@, i as int));
                    assert(self.rows()[i as int].1 == p@);
                }
                Some(p)
            },
            None => None,
        }
    }

    /// Stores `poll` under `id`, replacing what was there.
    pub fn save(&mut self, id: String, poll: Poll)
        requires
            old(self).wf(),
        ensures
            final(self).wf(),
            final(self)@ == old(self)@.insert(id@, poll@),
    {
        proof {
            self.lemma_unique();
        }
        match self.position(&id) {
            Some(i) => {
                let ghost rows0 = self.rows();
                self.entries.set(i, (id, poll));
                proof {
                    assert(self.rows() =~= rows0.update(i as int, (rows0[i as int].0, poll@)));
                    lemma_to_map_update(rows0, i as int, poll@);
                    assert(self.ids() =~= old(self).ids());
                }
            },
            None => {
                let ghost rows0 = self.rows();
                let ghost ids0 = self.ids();
                let n = self.entries.len();
                let mut pos: usize = 0;
                while pos < n && id_less(&self.entries[pos].0, &id)
                    invariant
                        n == self.entries@.len(),
                        0 <= pos <= n,
                        ids0 == self.ids(),
                        forall|j: int| 0 <= j < pos ==> lex_lt(ids0[j], id@),
                    decreases n - pos,
                {
                    pos = pos + 1;
                }
                let ghost k = id@;
                proof {
                    lemma_to_map(rows0);
                    if pos < n {
                        assert(ids0[pos as int] != k) by {
                            if ids0[pos as int] == k {
                                assert(key_at(rows0, k, pos as int));
                            }
                        }
                        lemma_lex_total(ids0[pos as int], k);
                        assert forall|j: int| pos <= j < n implies lex_lt(k, ids0[j]) by {
                            if j > pos {
                                lemma_lex_transitive(k, ids0[pos as int], ids0[j]);
                            }
                        }
                    }
                }
                self.entries.insert(pos, (id, poll));
                proof {
                    assert(self.rows() =~= rows0.insert(pos as int, (k, poll@)));
                    lemma_to_map_insert(rows0, pos as int, k, poll@);
                    let ids = self.ids();
                    assert(ids =~= ids0.insert(pos as int, k));
                    assert forall|a: int, b: int| 0 <= a < b < ids.len() implies lex_lt(
                        ids[a],
                        ids[b],
                    ) by {
                        if b < pos {
                        } else if b == pos {
                        } else if a < pos {
                            assert(ids[b] == ids0[b - 1]);
                            lemma_lex_transitive(ids0[a], k, ids0[b - 1]);
                        } else if a == pos {
                            assert(ids[b] == ids0[b - 1]);
                        } else {
                            assert(ids[a] == ids0[a - 1] && ids[b] == ids0[b - 1]);
                        }
                    }
                }
            },
        }
    }

    /// Every stored poll, in ascending identifier order.
    pub fn list_all(&self) -> (r: Vec<Poll>)
        requires
            self.wf(),
        ensures
            r@.map_values(|p: Poll| p@) == ascending_order(self@.dom()).map_values(
                |k: Seq<char>| self@[k],
            ),
    {
        proof {
            self.lemma_unique();
            lemma_ascending_unique(self.ids(), ascending_order(self@.dom()), self@.dom());
            lemma_to_map(self.rows());
        }
        let n = self.entries.len();
        let mut out: Vec<Poll> = Vec::new();
        let mut i: usize = 0;
        while i < n
            invariant
                n == self.entries@.len(),
                0 <= i <= n,
                out@.len() == i,
                forall|j: int| 0 <= j < i ==> out@[j]@ == self.rows()[j].1,
            decreases n - i,
        {
            out.push(self.entries[i].1.snapshot());
            i = i + 1;
        }
        proof {
            assert forall|j: int| 0 <= j < n implies self@[self.ids()[j]] == self.rows()[j].1 by {
                assert(self.ids()[j] == self.rows()[j].0);
                assert(to_map(self.rows())[self.rows()[j].0] == self.rows()[j].1);
            }
        }
        assert(out@.map_values(|p: Poll| p@) =~= ascending_order(self@.dom()).map_values(
            |k: Seq<char>| self@[k],
        ));
        out
    }
}

impl View for PollStore {
    type V = Map<Seq<char>, PollView>;

    closed spec fn view(&self) -> Map<Seq<char>, PollView> {
        to_map(self.rows())
    }
}

} // verus!
